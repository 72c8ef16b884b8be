//! The world model and the engine's command grammar: typed entities, the
//! aggregate game state, grid queries over it, and the encoding of action
//! intents into command strings.

use vstd::prelude::*;
use crate::error::ProtocolError;
use crate::input::{dec_value, valid_u32_token};
use crate::position::{in_bounds, MapSize, Position, SizedGrid2D};

verus! {

pub type ShipId = u32;

pub type PlayerId = u32;

pub type StructureId = u32;

pub type HaliteAmount = u32;

pub type CommandString = String;

/// One of the four cardinal directions of the toroidal grid. A closed
/// enumeration: no invalid direction value can exist. The "hold" no-op is
/// deliberately not a variant; it is a distinct, reserved command symbol.
#[derive(Copy, Clone, Debug, PartialEq, Eq, Structural)]
pub enum Direction {
    East,
    West,
    South,
    North,
}

impl Direction {
    /// The protocol's single-character code for this direction.
    pub open spec fn spec_symbol(self) -> char {
        match self {
            Direction::East => 'e',
            Direction::West => 'w',
            Direction::South => 's',
            Direction::North => 'n',
        }
    }

    /// The protocol's code for this direction, as a one-character string.
    pub fn symbol_str(self) -> (r: &'static str)
        ensures
            r@ == seq![self.spec_symbol()],
    {
        match self {
            Direction::East => {
                proof {
                    reveal_strlit("e");
                    assert("e"@ =~= seq!['e']);
                }
                "e"
            },
            Direction::West => {
                proof {
                    reveal_strlit("w");
                    assert("w"@ =~= seq!['w']);
                }
                "w"
            },
            Direction::South => {
                proof {
                    reveal_strlit("s");
                    assert("s"@ =~= seq!['s']);
                }
                "s"
            },
            Direction::North => {
                proof {
                    reveal_strlit("n");
                    assert("n"@ =~= seq!['n']);
                }
                "n"
            },
        }
    }

    /// The direction a uniformly drawn index below four stands for.
    pub fn from_index(index: u32) -> (r: Direction)
        requires
            index < 4,
        ensures
            r == (if index == 0 {
                Direction::East
            } else if index == 1 {
                Direction::North
            } else if index == 2 {
                Direction::West
            } else {
                Direction::South
            }),
    {
        if index == 0 {
            Direction::East
        } else if index == 1 {
            Direction::North
        } else if index == 2 {
            Direction::West
        } else {
            Direction::South
        }
    }
}

/// The character for the decimal digit `d`.
pub open spec fn digit_char(d: nat) -> char {
    if d == 0 {
        '0'
    } else if d == 1 {
        '1'
    } else if d == 2 {
        '2'
    } else if d == 3 {
        '3'
    } else if d == 4 {
        '4'
    } else if d == 5 {
        '5'
    } else if d == 6 {
        '6'
    } else if d == 7 {
        '7'
    } else if d == 8 {
        '8'
    } else {
        '9'
    }
}

/// The base-ten digit string of `n`, without leading zeros (a single zero
/// for zero itself).
pub open spec fn dec_digits(n: nat) -> Seq<char>
    decreases n,
{
    if n < 10 {
        seq![digit_char(n)]
    } else {
        dec_digits(n / 10).push(digit_char(n % 10))
    }
}

/// The one-character string for the decimal digit `d`.
fn digit_str(d: u32) -> (r: &'static str)
    requires
        d < 10,
    ensures
        r@ == seq![digit_char(d as nat)],
{
    if d == 0 {
        proof {
            reveal_strlit("0");
            assert("0"@ =~= seq!['0']);
        }
        "0"
    } else if d == 1 {
        proof {
            reveal_strlit("1");
            assert("1"@ =~= seq!['1']);
        }
        "1"
    } else if d == 2 {
        proof {
            reveal_strlit("2");
            assert("2"@ =~= seq!['2']);
        }
        "2"
    } else if d == 3 {
        proof {
            reveal_strlit("3");
            assert("3"@ =~= seq!['3']);
        }
        "3"
    } else if d == 4 {
        proof {
            reveal_strlit("4");
            assert("4"@ =~= seq!['4']);
        }
        "4"
    } else if d == 5 {
        proof {
            reveal_strlit("5");
            assert("5"@ =~= seq!['5']);
        }
        "5"
    } else if d == 6 {
        proof {
            reveal_strlit("6");
            assert("6"@ =~= seq!['6']);
        }
        "6"
    } else if d == 7 {
        proof {
            reveal_strlit("7");
            assert("7"@ =~= seq!['7']);
        }
        "7"
    } else if d == 8 {
        proof {
            reveal_strlit("8");
            assert("8"@ =~= seq!['8']);
        }
        "8"
    } else {
        proof {
            reveal_strlit("9");
            assert("9"@ =~= seq!['9']);
        }
        "9"
    }
}

/// Render `n` in base ten.
pub fn u32_to_string(n: u32) -> (r: String)
    ensures
        r@ == dec_digits(n as nat),
    decreases n,
{
    if n < 10 {
        digit_str(n).to_owned()
    } else {
        let mut s = u32_to_string(n / 10);
        s.append(digit_str(n % 10));
        proof {
            assert(s@ =~= dec_digits((n / 10) as nat).push(digit_char((n % 10) as nat)));
        }
        s
    }
}

/// One ship: fully transient, rebuilt from the input every turn.
#[derive(Copy, Clone, Eq, PartialEq, Debug)]
pub struct Ship {
    pub owner_id: PlayerId,
    pub ship_id: ShipId,
    pub cargo: u32,
    pub position: Position,
}

/// What kind of structure a [`Structure`] is.
#[derive(Copy, Clone, Eq, PartialEq, Structural, Debug)]
pub enum StructureType {
    Shipyard,
    Dropoff,
}

/// One structure. Shipyards are created once at initialization and persist
/// for the whole game; dropoffs are rebuilt from the input every turn.
#[derive(Copy, Clone, Eq, PartialEq, Debug)]
pub struct Structure {
    pub owner_id: PlayerId,
    pub structure_id: StructureId,
    pub position: Position,
    pub structure_type: StructureType,
}

/// The engine's tunable parameters, delivered once at startup as
/// alternating key and value tokens. When a key repeats, the last pair
/// wins, as with insertion into a map.
#[derive(Debug)]
pub struct GameConstants {
    pub pairs: Vec<(String, String)>,
}

/// The value of `key` among the later pairs of `ps`, if any pair there
/// carries it.
pub open spec fn assoc_last(ps: Seq<(Seq<char>, Seq<char>)>, key: Seq<char>) -> Option<Seq<char>>
    decreases ps.len(),
{
    if ps.len() == 0 {
        None
    } else if ps.last().0 == key {
        Some(ps.last().1)
    } else {
        assoc_last(ps.drop_last(), key)
    }
}

/// The views of the key/value pairs of a constants table.
pub open spec fn pairs_view(pairs: Seq<(String, String)>) -> Seq<(Seq<char>, Seq<char>)> {
    pairs.map_values(|p: (String, String)| (p.0@, p.1@))
}

impl GameConstants {
    /// The value stored for `key`, in specifications.
    pub open spec fn spec_get(&self, key: Seq<char>) -> Option<Seq<char>> {
        assoc_last(pairs_view(self.pairs@), key)
    }

    /// Look `key` up in the table.
    pub fn get(&self, key: &String) -> (r: Option<String>)
        ensures
            match r {
                Some(v) => self.spec_get(key@) == Some(v@),
                None => self.spec_get(key@) is None,
            },
    {
        let mut found: Option<String> = None;
        let n = self.pairs.len();
        proof {
            assert(pairs_view(self.pairs@).subrange(0, 0) =~= Seq::<(Seq<char>, Seq<char>)>::empty());
        }
        let mut j: usize = 0;
        while j < n
            invariant
                j <= n,
                n == self.pairs@.len(),
                match found {
                    Some(v) => assoc_last(pairs_view(self.pairs@).subrange(0, j as int), key@)
                        == Some(v@),
                    None => assoc_last(pairs_view(self.pairs@).subrange(0, j as int), key@)
                        is None,
                },
            decreases n - j,
        {
            proof {
                assert(pairs_view(self.pairs@).subrange(0, j + 1 as int).drop_last()
                    =~= pairs_view(self.pairs@).subrange(0, j as int));
            }
            if self.pairs[j].0 == *key {
                found = Some(self.pairs[j].1.clone());
            }
            j = j + 1;
        }
        proof {
            assert(pairs_view(self.pairs@).subrange(0, n as int) =~= pairs_view(self.pairs@));
        }
        found
    }

    /// Look `key` up and read it as a `u32`. An absent key is a missing
    /// configuration; a present key whose value is not a `u32` token is a
    /// protocol violation.
    pub fn get_u32(&self, key: &String) -> (r: Result<u32, ProtocolError>)
        ensures
            r == (match self.spec_get(key@) {
                None => Err::<u32, ProtocolError>(ProtocolError::ConfigurationMissing),
                Some(v) => if valid_u32_token(v) {
                    Ok::<u32, ProtocolError>(dec_value(v) as u32)
                } else {
                    Err::<u32, ProtocolError>(ProtocolError::ProtocolViolation)
                },
            }),
    {
        match self.get(key) {
            None => Err(ProtocolError::ConfigurationMissing),
            Some(v) => crate::input::parse_u32(&v),
        }
    }
}

/// The aggregate world model: map size, resource grid, all ships and
/// structures, per-player halite totals, the game constants, and the turn
/// counter. Built once from the initialization lines, then resynchronized
/// in place every turn.
#[derive(Debug)]
pub struct Khala {
    pub map_size: MapSize,
    pub game_constants: GameConstants,
    pub resource_map: Vec<Vec<u32>>,
    pub ships: Vec<Ship>,
    pub structures: Vec<Structure>,
    pub player_owned_halite: Vec<HaliteAmount>,
    pub num_players: u32,
    pub my_id: PlayerId,
    pub turn_number: u32,
}

impl Khala {
    /// The invariants of a well-formed world model: a non-degenerate map,
    /// a resource grid whose dimensions equal the map size, every stored
    /// position on the map, one halite total per player, and an own player
    /// id below the player count.
    pub open spec fn wf(&self) -> bool {
        &&& 0 < self.map_size.0
        &&& 0 < self.map_size.1
        &&& self.resource_map@.len() == self.map_size.1
        &&& (forall|y: int|
            0 <= y < self.resource_map@.len() ==> (#[trigger] self.resource_map@[y])@.len()
                == self.map_size.0)
        &&& (forall|j: int|
            0 <= j < self.ships@.len() ==> in_bounds(
                (#[trigger] self.ships@[j]).position,
                self.map_size,
            ))
        &&& (forall|j: int|
            0 <= j < self.structures@.len() ==> in_bounds(
                (#[trigger] self.structures@[j]).position,
                self.map_size,
            ))
        &&& self.player_owned_halite@.len() == self.num_players
        &&& self.my_id < self.num_players
    }
}

impl SizedGrid2D for Khala {
    open spec fn spec_size(&self) -> MapSize {
        self.map_size
    }

    fn get_size(&self) -> (r: MapSize) {
        self.map_size
    }
}

/// A grid of values that can be read cell by cell.
pub trait Grid2D<T> {
    /// Whether `position` addresses a cell of this grid.
    spec fn grid_contains(&self, position: Position) -> bool;

    /// The value stored at `position`, in specifications.
    spec fn spec_at(&self, position: Position) -> T;

    /// The value stored at `position`.
    fn get_at_position(&self, position: Position) -> (r: T)
        requires
            self.grid_contains(position),
        ensures
            r == self.spec_at(position),
    ;
}

impl Grid2D<HaliteAmount> for Khala {
    open spec fn grid_contains(&self, position: Position) -> bool {
        self.wf() && in_bounds(position, self.map_size)
    }

    open spec fn spec_at(&self, position: Position) -> HaliteAmount {
        self.resource_map@[position.1 as int]@[position.0 as int]
    }

    fn get_at_position(&self, position: Position) -> (r: HaliteAmount) {
        self.resource_map[position.1 as usize][position.0 as usize]
    }
}

/// The command that spawns a new ship.
pub open spec fn spawn_command() -> Seq<char> {
    seq!['g']
}

/// The command that converts ship `ship_id` into a dropoff.
pub open spec fn convert_command(ship_id: u32) -> Seq<char> {
    seq!['c', ' '] + dec_digits(ship_id as nat)
}

/// The command that moves ship `ship_id` one cell in direction `d`.
pub open spec fn move_command(ship_id: u32, d: Direction) -> Seq<char> {
    seq!['m', ' '] + dec_digits(ship_id as nat) + seq![' ', d.spec_symbol()]
}

/// The command that holds ship `ship_id` in place: the move family with
/// the reserved no-op symbol, which is none of the four cardinal codes.
pub open spec fn hold_command(ship_id: u32) -> Seq<char> {
    seq!['m', ' '] + dec_digits(ship_id as nat) + seq![' ', 'o']
}

/// Encoding typed action intents into the engine's command grammar.
pub trait Command<S: View<V = Seq<char>>> {
    /// Spawn a new ship at the owning player's shipyard.
    fn spawn_ship() -> (r: S)
        ensures
            r@ == spawn_command(),
    ;

    /// Convert the given ship into a dropoff.
    fn transform_ship_into_dropoff_site(ship_id: ShipId) -> (r: S)
        ensures
            r@ == convert_command(ship_id),
    ;

    /// Move the given ship one cell in the given direction.
    fn move_ship_by_direction(ship_id: ShipId, direction: Direction) -> (r: S)
        ensures
            r@ == move_command(ship_id, direction),
    ;

    /// Hold the given ship in place.
    fn hold_ship(ship_id: ShipId) -> (r: S)
        ensures
            r@ == hold_command(ship_id),
    ;
}

impl Command<CommandString> for Khala {
    fn spawn_ship() -> (r: CommandString) {
        proof {
            reveal_strlit("g");
            assert("g"@ =~= seq!['g']);
        }
        "g".to_owned()
    }

    fn transform_ship_into_dropoff_site(ship_id: ShipId) -> (r: CommandString) {
        proof {
            reveal_strlit("c ");
            assert("c "@ =~= seq!['c', ' ']);
        }
        let mut s = "c ".to_owned();
        let id = u32_to_string(ship_id);
        s.append(id.as_str());
        s
    }

    fn move_ship_by_direction(ship_id: ShipId, direction: Direction) -> (r: CommandString) {
        proof {
            reveal_strlit("m ");
            reveal_strlit(" ");
            assert("m "@ =~= seq!['m', ' ']);
            assert(" "@ =~= seq![' ']);
        }
        let mut s = "m ".to_owned();
        let id = u32_to_string(ship_id);
        s.append(id.as_str());
        s.append(" ");
        s.append(direction.symbol_str());
        proof {
            assert(s@ =~= move_command(ship_id, direction));
        }
        s
    }

    fn hold_ship(ship_id: ShipId) -> (r: CommandString) {
        proof {
            reveal_strlit("m ");
            reveal_strlit(" o");
            assert("m "@ =~= seq!['m', ' ']);
            assert(" o"@ =~= seq![' ', 'o']);
        }
        let mut s = "m ".to_owned();
        let id = u32_to_string(ship_id);
        s.append(id.as_str());
        s.append(" o");
        proof {
            assert(s@ =~= hold_command(ship_id));
        }
        s
    }
}

/// The commands of one turn joined with single spaces, terminated with the
/// newline the engine's line-oriented parser requires.
pub open spec fn spec_turn_line(commands: Seq<Seq<char>>) -> Seq<char>
    decreases commands.len(),
{
    if commands.len() == 0 {
        seq!['\n']
    } else if commands.len() == 1 {
        commands[0] + seq!['\n']
    } else {
        commands[0] + seq![' '] + spec_turn_line(commands.subrange(1, commands.len() as int))
    }
}

/// Join one turn's commands with single spaces and terminate the line with
/// a newline. An empty command list yields a bare newline, which is a
/// valid, empty turn.
pub fn encode_turn_line(commands: &Vec<CommandString>) -> (r: String)
    ensures
        r@ == spec_turn_line(commands@.map_values(|c: String| c@)),
{
    let n = commands.len();
    let mut out = String::new();
    let mut j: usize = 0;
    proof {
        reveal_strlit(" ");
        reveal_strlit("\n");
        assert(" "@ =~= seq![' ']);
        assert("\n"@ =~= seq!['\n']);
        let cs = commands@.map_values(|c: String| c@);
        assert(cs.subrange(0, n as int) =~= cs);
        assert(Seq::<char>::empty() + spec_turn_line(cs) =~= spec_turn_line(cs));
    }
    while j < n
        invariant
            j <= n,
            n == commands@.len(),
            spec_turn_line(commands@.map_values(|c: String| c@)) == out@ + spec_turn_line(
                commands@.map_values(|c: String| c@).subrange(j as int, n as int),
            ),
            " "@ =~= seq![' '],
            "\n"@ =~= seq!['\n'],
        decreases n - j,
    {
        proof {
            let cs = commands@.map_values(|c: String| c@);
            let rest = cs.subrange(j as int, n as int);
            assert(rest.subrange(1, rest.len() as int) =~= cs.subrange(j + 1 as int, n as int));
        }
        out.append(commands[j].as_str());
        if j + 1 < n {
            out.append(" ");
        }
        j = j + 1;
    }
    out.append("\n");
    proof {
        let cs = commands@.map_values(|c: String| c@);
        assert(cs.subrange(n as int, n as int) =~= Seq::<Seq<char>>::empty());
    }
    out
}

/// What the random-walk policy does with one ship: while the cell under
/// the ship yields less than the per-cell production cap, wander in the
/// drawn direction; once the cell is rich enough, hold still over it.
pub fn choose_ship_command(
    ship: &Ship,
    cell_halite: u32,
    max_cell_production: u32,
    random_direction: Direction,
) -> (r: CommandString)
    ensures
        cell_halite < max_cell_production ==> r@ == move_command(ship.ship_id, random_direction),
        cell_halite >= max_cell_production ==> r@ == hold_command(ship.ship_id),
{
    if cell_halite < max_cell_production {
        Khala::move_ship_by_direction(ship.ship_id, random_direction)
    } else {
        Khala::hold_ship(ship.ship_id)
    }
}

/// Whether the policy spawns a ship this turn: only in the opening two
/// hundred turns, only when the player can afford one, and only while no
/// own ship is sitting on the shipyard.
pub fn should_spawn(
    turn_number: u32,
    own_halite: u32,
    ship_cost: u32,
    shipyard_occupied: bool,
) -> (r: bool)
    ensures
        r == (turn_number <= 200 && own_halite >= ship_cost && !shipyard_occupied),
{
    turn_number <= 200 && own_halite >= ship_cost && !shipyard_occupied
}

/// The first structure in `structures` that is a shipyard owned by `me`.
pub open spec fn first_own_shipyard(structures: Seq<Structure>, me: PlayerId) -> Option<Structure>
    decreases structures.len(),
{
    if structures.len() == 0 {
        None
    } else if structures[0].structure_type == StructureType::Shipyard && structures[0].owner_id
        == me {
        Some(structures[0])
    } else {
        first_own_shipyard(structures.subrange(1, structures.len() as int), me)
    }
}

impl Khala {
    /// The ships owned by this client's player, in reported order.
    pub fn my_ships(&self) -> (r: Vec<Ship>)
        ensures
            r@ == self.ships@.filter(|s: Ship| s.owner_id == self.my_id),
    {
        let n = self.ships.len();
        let mut out: Vec<Ship> = Vec::new();
        let mut j: usize = 0;
        proof {
            assert(self.ships@.subrange(0, 0).filter(|s: Ship| s.owner_id == self.my_id)
                =~= Seq::<Ship>::empty());
        }
        while j < n
            invariant
                j <= n,
                n == self.ships@.len(),
                out@ == self.ships@.subrange(0, j as int).filter(
                    |s: Ship| s.owner_id == self.my_id,
                ),
            decreases n - j,
        {
            proof {
                let pred = |s: Ship| s.owner_id == self.my_id;
                let pre = self.ships@.subrange(0, j as int);
                assert(self.ships@.subrange(0, j + 1 as int) =~= pre.push(self.ships@[j as int]));
                assert(pre.push(self.ships@[j as int]).drop_last() =~= pre);
                reveal(Seq::filter);
            }
            let ship = self.ships[j];
            if ship.owner_id == self.my_id {
                out.push(ship);
            }
            j = j + 1;
        }
        proof {
            assert(self.ships@.subrange(0, n as int) =~= self.ships@);
        }
        out
    }

    /// The first shipyard owned by this client's player, if one is known.
    pub fn find_own_shipyard(&self) -> (r: Option<Structure>)
        ensures
            r == first_own_shipyard(self.structures@, self.my_id),
    {
        let n = self.structures.len();
        let mut j: usize = 0;
        proof {
            assert(self.structures@.subrange(0, n as int) =~= self.structures@);
        }
        while j < n
            invariant
                j <= n,
                n == self.structures@.len(),
                first_own_shipyard(self.structures@, self.my_id) == first_own_shipyard(
                    self.structures@.subrange(j as int, n as int),
                    self.my_id,
                ),
            decreases n - j,
        {
            proof {
                let rest = self.structures@.subrange(j as int, n as int);
                assert(rest.subrange(1, rest.len() as int) =~= self.structures@.subrange(
                    j + 1 as int,
                    n as int,
                ));
            }
            let st = self.structures[j];
            if st.structure_type == StructureType::Shipyard && st.owner_id == self.my_id {
                return Some(st);
            }
            j = j + 1;
        }
        proof {
            assert(self.structures@.subrange(n as int, n as int) =~= Seq::<Structure>::empty());
        }
        None
    }

    /// Whether any ship of `ships` sits at `position`.
    pub fn any_ship_at(ships: &Vec<Ship>, position: Position) -> (r: bool)
        ensures
            r == exists|j: int| 0 <= j < ships@.len() && (#[trigger] ships@[j]).position
                == position,
    {
        let n = ships.len();
        let mut j: usize = 0;
        while j < n
            invariant
                j <= n,
                n == ships@.len(),
                forall|m: int| 0 <= m < j ==> (#[trigger] ships@[m]).position != position,
            decreases n - j,
        {
            if ships[j].position.0 == position.0 && ships[j].position.1 == position.1 {
                return true;
            }
            j = j + 1;
        }
        false
    }
}

} // verus!
