//! The protocol itself: the one-time initialization sequence and the
//! per-turn synchronization sequence, as verified functions over the lines
//! the engine sent. Reading the lines stays outside the crate; everything
//! here takes the lines as values.
//!
//! Each group of the grammar has a specification-level mirror (a recursive
//! spec function over the line views) and an executable parser proved
//! equal to it, error for error.

use vstd::prelude::*;
use crate::error::ProtocolError;
use crate::game::{
    GameConstants, HaliteAmount, Khala, PlayerId, Ship, Structure, StructureType,
};
use crate::input::{dec_value, split_line, split_tokens, valid_u32_token};
use crate::position::{in_bounds, MapSize, Position};

verus! {

/// The views of a vector of lines.
pub open spec fn lines_view(lines: Seq<String>) -> Seq<Seq<char>> {
    lines.map_values(|l: String| l@)
}

/// The whitespace tokens of one line.
pub open spec fn toks(line: Seq<char>) -> Seq<Seq<char>> {
    split_tokens(line, false)
}

/// The first `cnt` tokens of `line` exist and are all `u32` tokens.
pub open spec fn line_has_u32s(line: Seq<char>, cnt: int) -> bool {
    toks(line).len() >= cnt && (forall|k: int| 0 <= k < cnt ==> valid_u32_token(#[trigger] toks(
        line,
    )[k]))
}

/// The value of the `k`-th token of `line`.
pub open spec fn u32_at(line: Seq<char>, k: int) -> u32 {
    dec_value(toks(line)[k]) as u32
}

/// Read the first `cnt` tokens of `line` as `u32` values. A line with
/// fewer tokens, or a token that is not a `u32`, is a protocol violation;
/// extra tokens are ignored.
fn parse_line_u32s(line: &String, cnt: usize) -> (r: Result<Vec<u32>, ProtocolError>)
    ensures
        line_has_u32s(line@, cnt as int) <==> r is Ok,
        r matches Ok(v) ==> v@ == Seq::new(cnt as nat, |k: int| u32_at(line@, k)),
        r is Err ==> r == Err::<Vec<u32>, ProtocolError>(ProtocolError::ProtocolViolation),
{
    let ts = split_line(line.as_str(), false);
    if ts.len() < cnt {
        return Err(ProtocolError::ProtocolViolation);
    }
    let mut out: Vec<u32> = Vec::new();
    let mut k: usize = 0;
    while k < cnt
        invariant
            k <= cnt,
            cnt <= ts@.len(),
            ts@.map_values(|t: String| t@) == toks(line@),
            out@.len() == k,
            forall|q: int| 0 <= q < k ==> valid_u32_token(#[trigger] toks(line@)[q]),
            forall|q: int| 0 <= q < k ==> out@[q] == u32_at(line@, q),
        decreases cnt - k,
    {
        match crate::input::parse_u32(&ts[k]) {
            Ok(v) => {
                out.push(v);
            },
            Err(_) => {
                assert(!valid_u32_token(toks(line@)[k as int]));
                return Err(ProtocolError::ProtocolViolation);
            },
        }
        k = k + 1;
    }
    proof {
        assert(out@ =~= Seq::new(cnt as nat, |q: int| u32_at(line@, q)));
    }
    Ok(out)
}

/// A per-player turn header: player id (below the player count), ship
/// count, dropoff count, and that player's current halite total.
pub open spec fn spec_header_line(line: Seq<char>, num_players: u32) -> Option<(u32, u32, u32, u32)> {
    if line_has_u32s(line, 4) && u32_at(line, 0) < num_players {
        Some((u32_at(line, 0), u32_at(line, 1), u32_at(line, 2), u32_at(line, 3)))
    } else {
        None
    }
}

fn parse_header_line(line: &String, num_players: u32) -> (r: Result<
    (u32, u32, u32, u32),
    ProtocolError,
>)
    ensures
        r == (match spec_header_line(line@, num_players) {
            Some(h) => Ok::<(u32, u32, u32, u32), ProtocolError>(h),
            None => Err::<(u32, u32, u32, u32), ProtocolError>(ProtocolError::ProtocolViolation),
        }),
{
    let v = match parse_line_u32s(line, 4) {
        Ok(v) => v,
        Err(e) => {
            return Err(e);
        },
    };
    if v[0] >= num_players {
        return Err(ProtocolError::ProtocolViolation);
    }
    Ok((v[0], v[1], v[2], v[3]))
}

/// One ship line: ship id, x, y, cargo. The position must lie on the map.
pub open spec fn spec_ship_line(line: Seq<char>, owner: PlayerId, size: MapSize) -> Option<Ship> {
    if line_has_u32s(line, 4) && in_bounds((u32_at(line, 1), u32_at(line, 2)), size) {
        Some(
            Ship {
                owner_id: owner,
                ship_id: u32_at(line, 0),
                cargo: u32_at(line, 3),
                position: (u32_at(line, 1), u32_at(line, 2)),
            },
        )
    } else {
        None
    }
}

fn parse_ship_line(line: &String, owner: PlayerId, size: MapSize) -> (r: Result<
    Ship,
    ProtocolError,
>)
    ensures
        r == (match spec_ship_line(line@, owner, size) {
            Some(s) => Ok::<Ship, ProtocolError>(s),
            None => Err::<Ship, ProtocolError>(ProtocolError::ProtocolViolation),
        }),
{
    let v = match parse_line_u32s(line, 4) {
        Ok(v) => v,
        Err(e) => {
            return Err(e);
        },
    };
    if v[1] >= size.0 || v[2] >= size.1 {
        return Err(ProtocolError::ProtocolViolation);
    }
    Ok(Ship { owner_id: owner, ship_id: v[0], cargo: v[3], position: (v[1], v[2]) })
}

/// One dropoff line: structure id, x, y. The position must lie on the map.
pub open spec fn spec_dropoff_line(line: Seq<char>, owner: PlayerId, size: MapSize) -> Option<
    Structure,
> {
    if line_has_u32s(line, 3) && in_bounds((u32_at(line, 1), u32_at(line, 2)), size) {
        Some(
            Structure {
                owner_id: owner,
                structure_id: u32_at(line, 0),
                position: (u32_at(line, 1), u32_at(line, 2)),
                structure_type: StructureType::Dropoff,
            },
        )
    } else {
        None
    }
}

fn parse_dropoff_line(line: &String, owner: PlayerId, size: MapSize) -> (r: Result<
    Structure,
    ProtocolError,
>)
    ensures
        r == (match spec_dropoff_line(line@, owner, size) {
            Some(s) => Ok::<Structure, ProtocolError>(s),
            None => Err::<Structure, ProtocolError>(ProtocolError::ProtocolViolation),
        }),
{
    let v = match parse_line_u32s(line, 3) {
        Ok(v) => v,
        Err(e) => {
            return Err(e);
        },
    };
    if v[1] >= size.0 || v[2] >= size.1 {
        return Err(ProtocolError::ProtocolViolation);
    }
    Ok(
        Structure {
            owner_id: owner,
            structure_id: v[0],
            position: (v[1], v[2]),
            structure_type: StructureType::Dropoff,
        },
    )
}

/// One resource patch line: x, y, new halite amount. The cell must lie on
/// the map.
pub open spec fn spec_patch_line(line: Seq<char>, size: MapSize) -> Option<(u32, u32, u32)> {
    if line_has_u32s(line, 3) && in_bounds((u32_at(line, 0), u32_at(line, 1)), size) {
        Some((u32_at(line, 0), u32_at(line, 1), u32_at(line, 2)))
    } else {
        None
    }
}

fn parse_patch_line(line: &String, size: MapSize) -> (r: Result<(u32, u32, u32), ProtocolError>)
    ensures
        r == (match spec_patch_line(line@, size) {
            Some(p) => Ok::<(u32, u32, u32), ProtocolError>(p),
            None => Err::<(u32, u32, u32), ProtocolError>(ProtocolError::ProtocolViolation),
        }),
{
    let v = match parse_line_u32s(line, 3) {
        Ok(v) => v,
        Err(e) => {
            return Err(e);
        },
    };
    if v[0] >= size.0 || v[1] >= size.1 {
        return Err(ProtocolError::ProtocolViolation);
    }
    Ok((v[0], v[1], v[2]))
}

/// One starting-shipyard line: owner id (below the player count), x, y.
/// The map size is not known yet at this point of the sequence, so the
/// position is checked later, once the size line has been read.
pub open spec fn spec_shipyard_line(line: Seq<char>, num_players: u32) -> Option<(u32, Position)> {
    if line_has_u32s(line, 3) && u32_at(line, 0) < num_players {
        Some((u32_at(line, 0), (u32_at(line, 1), u32_at(line, 2))))
    } else {
        None
    }
}

fn parse_shipyard_line(line: &String, num_players: u32) -> (r: Result<
    (u32, Position),
    ProtocolError,
>)
    ensures
        r == (match spec_shipyard_line(line@, num_players) {
            Some(s) => Ok::<(u32, Position), ProtocolError>(s),
            None => Err::<(u32, Position), ProtocolError>(ProtocolError::ProtocolViolation),
        }),
{
    let v = match parse_line_u32s(line, 3) {
        Ok(v) => v,
        Err(e) => {
            return Err(e);
        },
    };
    if v[0] >= num_players {
        return Err(ProtocolError::ProtocolViolation);
    }
    Ok((v[0], (v[1], v[2])))
}

/// Prepend an already-parsed prefix to the rest of a group's parse.
pub open spec fn with_prefix<T>(pre: Seq<T>, r: Result<Seq<T>, ProtocolError>) -> Result<
    Seq<T>,
    ProtocolError,
> {
    match r {
        Ok(rest) => Ok(pre + rest),
        Err(e) => Err(e),
    }
}

/// The `cnt` ship lines of one player, starting at line `i`.
pub open spec fn spec_ships(
    lines: Seq<Seq<char>>,
    i: int,
    cnt: int,
    owner: PlayerId,
    size: MapSize,
) -> Result<Seq<Ship>, ProtocolError>
    decreases cnt,
{
    if cnt <= 0 {
        Ok(Seq::empty())
    } else if !(0 <= i < lines.len()) {
        Err(ProtocolError::StreamClosed)
    } else {
        match spec_ship_line(lines[i], owner, size) {
            None => Err(ProtocolError::ProtocolViolation),
            Some(s) => with_prefix(seq![s], spec_ships(lines, i + 1, cnt - 1, owner, size)),
        }
    }
}

fn parse_ships(lines: &Vec<String>, start: usize, cnt: u32, owner: PlayerId, size: MapSize) -> (r:
    Result<(Vec<Ship>, usize), ProtocolError>)
    requires
        start <= lines@.len(),
    ensures
        match spec_ships(lines_view(lines@), start as int, cnt as int, owner, size) {
            Err(e) => r == Err::<(Vec<Ship>, usize), ProtocolError>(e),
            Ok(m) => r matches Ok(t) && t.0@ == m && t.1 == start + cnt && t.1 <= lines@.len(),
        },
        r matches Ok(t) ==> forall|q: int|
            0 <= q < t.0@.len() ==> in_bounds((#[trigger] t.0@[q]).position, size)
                && t.0@[q].owner_id == owner,
{
    let ghost lv = lines_view(lines@);
    let mut out: Vec<Ship> = Vec::new();
    let mut idx = start;
    let mut k: u32 = 0;
    while k < cnt
        invariant
            k <= cnt,
            start <= idx <= lines@.len(),
            idx == start + k,
            lv == lines_view(lines@),
            spec_ships(lv, start as int, cnt as int, owner, size) == with_prefix(
                out@,
                spec_ships(lv, idx as int, (cnt - k) as int, owner, size),
            ),
            forall|q: int|
                0 <= q < out@.len() ==> in_bounds((#[trigger] out@[q]).position, size)
                    && out@[q].owner_id == owner,
        decreases cnt - k,
    {
        if idx >= lines.len() {
            return Err(ProtocolError::StreamClosed);
        }
        let s = match parse_ship_line(&lines[idx], owner, size) {
            Ok(s) => s,
            Err(e) => {
                return Err(e);
            },
        };
        proof {
            let rest = spec_ships(lv, idx + 1 as int, (cnt - k - 1) as int, owner, size);
            if rest is Ok {
                assert(out@ + (seq![s] + rest.unwrap()) =~= out@.push(s) + rest.unwrap());
            }
        }
        out.push(s);
        idx = idx + 1;
        k = k + 1;
    }
    proof {
        assert(out@ + Seq::<Ship>::empty() =~= out@);
    }
    Ok((out, idx))
}

/// The `cnt` dropoff lines of one player, starting at line `i`.
pub open spec fn spec_dropoffs(
    lines: Seq<Seq<char>>,
    i: int,
    cnt: int,
    owner: PlayerId,
    size: MapSize,
) -> Result<Seq<Structure>, ProtocolError>
    decreases cnt,
{
    if cnt <= 0 {
        Ok(Seq::empty())
    } else if !(0 <= i < lines.len()) {
        Err(ProtocolError::StreamClosed)
    } else {
        match spec_dropoff_line(lines[i], owner, size) {
            None => Err(ProtocolError::ProtocolViolation),
            Some(s) => with_prefix(seq![s], spec_dropoffs(lines, i + 1, cnt - 1, owner, size)),
        }
    }
}

fn parse_dropoffs(
    lines: &Vec<String>,
    start: usize,
    cnt: u32,
    owner: PlayerId,
    size: MapSize,
) -> (r: Result<(Vec<Structure>, usize), ProtocolError>)
    requires
        start <= lines@.len(),
    ensures
        match spec_dropoffs(lines_view(lines@), start as int, cnt as int, owner, size) {
            Err(e) => r == Err::<(Vec<Structure>, usize), ProtocolError>(e),
            Ok(m) => r matches Ok(t) && t.0@ == m && t.1 == start + cnt && t.1 <= lines@.len(),
        },
        r matches Ok(t) ==> forall|q: int|
            0 <= q < t.0@.len() ==> in_bounds((#[trigger] t.0@[q]).position, size)
                && t.0@[q].owner_id == owner && t.0@[q].structure_type == StructureType::Dropoff,
{
    let ghost lv = lines_view(lines@);
    let mut out: Vec<Structure> = Vec::new();
    let mut idx = start;
    let mut k: u32 = 0;
    while k < cnt
        invariant
            k <= cnt,
            start <= idx <= lines@.len(),
            idx == start + k,
            lv == lines_view(lines@),
            spec_dropoffs(lv, start as int, cnt as int, owner, size) == with_prefix(
                out@,
                spec_dropoffs(lv, idx as int, (cnt - k) as int, owner, size),
            ),
            forall|q: int|
                0 <= q < out@.len() ==> in_bounds((#[trigger] out@[q]).position, size)
                    && out@[q].owner_id == owner && out@[q].structure_type
                    == StructureType::Dropoff,
        decreases cnt - k,
    {
        if idx >= lines.len() {
            return Err(ProtocolError::StreamClosed);
        }
        let s = match parse_dropoff_line(&lines[idx], owner, size) {
            Ok(s) => s,
            Err(e) => {
                return Err(e);
            },
        };
        proof {
            let rest = spec_dropoffs(lv, idx + 1 as int, (cnt - k - 1) as int, owner, size);
            if rest is Ok {
                assert(out@ + (seq![s] + rest.unwrap()) =~= out@.push(s) + rest.unwrap());
            }
        }
        out.push(s);
        idx = idx + 1;
        k = k + 1;
    }
    proof {
        assert(out@ + Seq::<Structure>::empty() =~= out@);
    }
    Ok((out, idx))
}

/// The `cnt` resource patch lines, starting at line `i`.
pub open spec fn spec_patches(lines: Seq<Seq<char>>, i: int, cnt: int, size: MapSize) -> Result<
    Seq<(u32, u32, u32)>,
    ProtocolError,
>
    decreases cnt,
{
    if cnt <= 0 {
        Ok(Seq::empty())
    } else if !(0 <= i < lines.len()) {
        Err(ProtocolError::StreamClosed)
    } else {
        match spec_patch_line(lines[i], size) {
            None => Err(ProtocolError::ProtocolViolation),
            Some(p) => with_prefix(seq![p], spec_patches(lines, i + 1, cnt - 1, size)),
        }
    }
}

fn parse_patches(lines: &Vec<String>, start: usize, cnt: u32, size: MapSize) -> (r: Result<
    (Vec<(u32, u32, u32)>, usize),
    ProtocolError,
>)
    requires
        start <= lines@.len(),
    ensures
        match spec_patches(lines_view(lines@), start as int, cnt as int, size) {
            Err(e) => r == Err::<(Vec<(u32, u32, u32)>, usize), ProtocolError>(e),
            Ok(m) => r matches Ok(t) && t.0@ == m && t.1 == start + cnt && t.1 <= lines@.len(),
        },
        r matches Ok(t) ==> forall|q: int|
            0 <= q < t.0@.len() ==> (#[trigger] t.0@[q]).0 < size.0 && t.0@[q].1 < size.1,
{
    let ghost lv = lines_view(lines@);
    let mut out: Vec<(u32, u32, u32)> = Vec::new();
    let mut idx = start;
    let mut k: u32 = 0;
    while k < cnt
        invariant
            k <= cnt,
            start <= idx <= lines@.len(),
            idx == start + k,
            lv == lines_view(lines@),
            spec_patches(lv, start as int, cnt as int, size) == with_prefix(
                out@,
                spec_patches(lv, idx as int, (cnt - k) as int, size),
            ),
            forall|q: int|
                0 <= q < out@.len() ==> (#[trigger] out@[q]).0 < size.0 && out@[q].1 < size.1,
        decreases cnt - k,
    {
        if idx >= lines.len() {
            return Err(ProtocolError::StreamClosed);
        }
        let p = match parse_patch_line(&lines[idx], size) {
            Ok(p) => p,
            Err(e) => {
                return Err(e);
            },
        };
        proof {
            let rest = spec_patches(lv, idx + 1 as int, (cnt - k - 1) as int, size);
            if rest is Ok {
                assert(out@ + (seq![p] + rest.unwrap()) =~= out@.push(p) + rest.unwrap());
            }
        }
        out.push(p);
        idx = idx + 1;
        k = k + 1;
    }
    proof {
        assert(out@ + Seq::<(u32, u32, u32)>::empty() =~= out@);
    }
    Ok((out, idx))
}

/// What one turn's player blocks denote: all ships, all dropoffs, the
/// reported (player id, halite total) pairs in protocol order, and the
/// index of the first line after the blocks.
pub type PlayersModel = (Seq<Ship>, Seq<Structure>, Seq<(PlayerId, u32)>, int);

/// Prepend already-parsed player aggregates to the rest of the blocks.
pub open spec fn with_players_prefix(
    s: Seq<Ship>,
    d: Seq<Structure>,
    h: Seq<(PlayerId, u32)>,
    r: Result<PlayersModel, ProtocolError>,
) -> Result<PlayersModel, ProtocolError> {
    match r {
        Ok(t) => Ok((s + t.0, d + t.1, h + t.2, t.3)),
        Err(e) => Err(e),
    }
}

/// `k` player blocks starting at line `i`: each a header line, then that
/// header's count of ship lines, then its count of dropoff lines. The
/// engine may emit players in any order; every entity is attributed to the
/// id its own header line states, never to the block's position.
pub open spec fn spec_players(
    lines: Seq<Seq<char>>,
    i: int,
    k: int,
    num_players: u32,
    size: MapSize,
) -> Result<PlayersModel, ProtocolError>
    decreases k,
{
    if k <= 0 {
        Ok((Seq::empty(), Seq::empty(), Seq::empty(), i))
    } else if !(0 <= i < lines.len()) {
        Err(ProtocolError::StreamClosed)
    } else {
        match spec_header_line(lines[i], num_players) {
            None => Err(ProtocolError::ProtocolViolation),
            Some(h) => match spec_ships(lines, i + 1, h.1 as int, h.0, size) {
                Err(e) => Err(e),
                Ok(ss) => match spec_dropoffs(lines, i + 1 + h.1, h.2 as int, h.0, size) {
                    Err(e) => Err(e),
                    Ok(dd) => with_players_prefix(
                        ss,
                        dd,
                        seq![(h.0, h.3)],
                        spec_players(lines, i + 1 + h.1 + h.2, k - 1, num_players, size),
                    ),
                },
            },
        }
    }
}

fn parse_players(
    lines: &Vec<String>,
    start: usize,
    num_players: u32,
    size: MapSize,
) -> (r: Result<(Vec<Ship>, Vec<Structure>, Vec<(PlayerId, u32)>, usize), ProtocolError>)
    requires
        start <= lines@.len(),
    ensures
        match spec_players(lines_view(lines@), start as int, num_players as int, num_players,
            size,
        ) {
            Err(e) => r == Err::<
                (Vec<Ship>, Vec<Structure>, Vec<(PlayerId, u32)>, usize),
                ProtocolError,
            >(e),
            Ok(m) => r matches Ok(t) && t.0@ == m.0 && t.1@ == m.1 && t.2@ == m.2 && t.3 as int
                == m.3 && t.3 <= lines@.len() && start <= t.3,
        },
        r matches Ok(t) ==> {
            &&& (forall|q: int|
                0 <= q < t.0@.len() ==> in_bounds((#[trigger] t.0@[q]).position, size))
            &&& (forall|q: int|
                0 <= q < t.1@.len() ==> in_bounds((#[trigger] t.1@[q]).position, size)
                    && t.1@[q].structure_type == StructureType::Dropoff)
            &&& (forall|q: int| 0 <= q < t.2@.len() ==> (#[trigger] t.2@[q]).0 < num_players)
        },
{
    let ghost lv = lines_view(lines@);
    let mut ships: Vec<Ship> = Vec::new();
    let mut drops: Vec<Structure> = Vec::new();
    let mut hals: Vec<(PlayerId, u32)> = Vec::new();
    let mut idx = start;
    let mut k: u32 = 0;
    while k < num_players
        invariant
            k <= num_players,
            start <= idx <= lines@.len(),
            lv == lines_view(lines@),
            spec_players(lv, start as int, num_players as int, num_players, size)
                == with_players_prefix(
                ships@,
                drops@,
                hals@,
                spec_players(lv, idx as int, (num_players - k) as int, num_players, size),
            ),
            forall|q: int|
                0 <= q < ships@.len() ==> in_bounds((#[trigger] ships@[q]).position, size),
            forall|q: int|
                0 <= q < drops@.len() ==> in_bounds((#[trigger] drops@[q]).position, size)
                    && drops@[q].structure_type == StructureType::Dropoff,
            forall|q: int| 0 <= q < hals@.len() ==> (#[trigger] hals@[q]).0 < num_players,
        decreases num_players - k,
    {
        if idx >= lines.len() {
            return Err(ProtocolError::StreamClosed);
        }
        let h = match parse_header_line(&lines[idx], num_players) {
            Ok(h) => h,
            Err(e) => {
                return Err(e);
            },
        };
        let (mut s2, sidx) = match parse_ships(lines, idx + 1, h.1, h.0, size) {
            Ok(t) => t,
            Err(e) => {
                return Err(e);
            },
        };
        let (mut d2, didx) = match parse_dropoffs(lines, sidx, h.2, h.0, size) {
            Ok(t) => t,
            Err(e) => {
                return Err(e);
            },
        };
        proof {
            let rest = spec_players(lv, didx as int, (num_players - k - 1) as int, num_players,
                size,
            );
            if rest is Ok {
                let t = rest.unwrap();
                assert(ships@ + (s2@ + t.0) =~= (ships@ + s2@) + t.0);
                assert(drops@ + (d2@ + t.1) =~= (drops@ + d2@) + t.1);
                assert(hals@ + (seq![(h.0, h.3)] + t.2) =~= hals@.push((h.0, h.3)) + t.2);
            }
        }
        ships.append(&mut s2);
        drops.append(&mut d2);
        hals.push((h.0, h.3));
        idx = didx;
        k = k + 1;
    }
    proof {
        assert(ships@ + Seq::<Ship>::empty() =~= ships@);
        assert(drops@ + Seq::<Structure>::empty() =~= drops@);
        assert(hals@ + Seq::<(PlayerId, u32)>::empty() =~= hals@);
    }
    Ok((ships, drops, hals, idx))
}

/// What one whole turn's lines denote.
pub struct TurnModel {
    /// The turn number the engine announced.
    pub turn_number: u32,
    /// Every ship reported this turn, across all players, in line order.
    pub ships: Seq<Ship>,
    /// Every dropoff reported this turn, across all players, in line order.
    pub dropoffs: Seq<Structure>,
    /// The (player id, halite total) of every header line, in line order.
    pub player_halite: Seq<(PlayerId, u32)>,
    /// The (x, y, new amount) resource patches, in line order.
    pub patches: Seq<(u32, u32, u32)>,
    /// The index of the first line after the turn.
    pub end: int,
}

/// One turn's lines, starting at line `i`: the turn number, one block per
/// player, then the patch count and that many patch lines.
pub open spec fn spec_turn(
    lines: Seq<Seq<char>>,
    i: int,
    num_players: u32,
    size: MapSize,
) -> Result<TurnModel, ProtocolError> {
    if !(0 <= i < lines.len()) {
        Err(ProtocolError::StreamClosed)
    } else if !line_has_u32s(lines[i], 1) {
        Err(ProtocolError::ProtocolViolation)
    } else {
        match spec_players(lines, i + 1, num_players as int, num_players, size) {
            Err(e) => Err(e),
            Ok(p) => if !(p.3 < lines.len()) {
                Err(ProtocolError::StreamClosed)
            } else if !line_has_u32s(lines[p.3], 1) {
                Err(ProtocolError::ProtocolViolation)
            } else {
                match spec_patches(lines, p.3 + 1, u32_at(lines[p.3], 0) as int, size) {
                    Err(e) => Err(e),
                    Ok(ps) => Ok(
                        TurnModel {
                            turn_number: u32_at(lines[i], 0),
                            ships: p.0,
                            dropoffs: p.1,
                            player_halite: p.2,
                            patches: ps,
                            end: p.3 + 1 + u32_at(lines[p.3], 0),
                        },
                    ),
                }
            },
        }
    }
}

/// One turn's input, parsed and validated but not yet applied.
pub struct TurnUpdate {
    pub turn_number: u32,
    pub ships: Vec<Ship>,
    pub dropoffs: Vec<Structure>,
    pub player_halite: Vec<(PlayerId, HaliteAmount)>,
    pub patches: Vec<(u32, u32, u32)>,
}

/// Everything a parsed turn promises about its values: positions on the
/// map, dropoffs tagged as dropoffs, player ids below the player count,
/// patched cells on the map.
pub open spec fn turn_update_wf(t: TurnUpdate, num_players: u32, size: MapSize) -> bool {
    &&& (forall|q: int|
        0 <= q < t.ships@.len() ==> in_bounds((#[trigger] t.ships@[q]).position, size))
    &&& (forall|q: int|
        0 <= q < t.dropoffs@.len() ==> in_bounds((#[trigger] t.dropoffs@[q]).position, size)
            && t.dropoffs@[q].structure_type == StructureType::Dropoff)
    &&& (forall|q: int| 0 <= q < t.player_halite@.len() ==> (#[trigger] t.player_halite@[q]).0
        < num_players)
    &&& (forall|q: int|
        0 <= q < t.patches@.len() ==> (#[trigger] t.patches@[q]).0 < size.0 && t.patches@[q].1
            < size.1)
}

/// Parse one turn's lines, starting at `start`, without touching any
/// state. Returns the typed turn together with the index of the first
/// unconsumed line.
pub fn parse_turn(lines: &Vec<String>, start: usize, num_players: u32, size: MapSize) -> (r:
    Result<(TurnUpdate, usize), ProtocolError>)
    requires
        start <= lines@.len(),
    ensures
        match spec_turn(lines_view(lines@), start as int, num_players, size) {
            Err(e) => r == Err::<(TurnUpdate, usize), ProtocolError>(e),
            Ok(m) => r matches Ok(t) && t.0.turn_number == m.turn_number && t.0.ships@ == m.ships
                && t.0.dropoffs@ == m.dropoffs && t.0.player_halite@ == m.player_halite
                && t.0.patches@ == m.patches && t.1 as int == m.end && t.1 <= lines@.len()
                && turn_update_wf(t.0, num_players, size),
        },
{
    if start >= lines.len() {
        return Err(ProtocolError::StreamClosed);
    }
    let tn = match parse_line_u32s(&lines[start], 1) {
        Ok(v) => v[0],
        Err(e) => {
            return Err(e);
        },
    };
    let (ships, dropoffs, player_halite, idx) = match parse_players(
        lines,
        start + 1,
        num_players,
        size,
    ) {
        Ok(t) => t,
        Err(e) => {
            return Err(e);
        },
    };
    if idx >= lines.len() {
        return Err(ProtocolError::StreamClosed);
    }
    let cnt = match parse_line_u32s(&lines[idx], 1) {
        Ok(v) => v[0],
        Err(e) => {
            return Err(e);
        },
    };
    let (patches, end) = match parse_patches(lines, idx + 1, cnt, size) {
        Ok(t) => t,
        Err(e) => {
            return Err(e);
        },
    };
    Ok((TurnUpdate { turn_number: tn, ships, dropoffs, player_halite, patches }, end))
}

/// The structures that are shipyards, in their original order.
pub open spec fn shipyards_of(structures: Seq<Structure>) -> Seq<Structure> {
    structures.filter(|x: Structure| x.structure_type == StructureType::Shipyard)
}

/// Filtering twice filters once.
proof fn lemma_filter_idempotent<T>(s: Seq<T>, pred: spec_fn(T) -> bool)
    ensures
        s.filter(pred).filter(pred) == s.filter(pred),
    decreases s.len(),
{
    reveal(Seq::filter);
    if s.len() > 0 {
        lemma_filter_idempotent(s.drop_last(), pred);
        if pred(s.last()) {
            assert(s.filter(pred) == s.drop_last().filter(pred).push(s.last()));
            assert(s.filter(pred).drop_last() =~= s.drop_last().filter(pred));
        }
    }
}

/// Filtering keeps nothing when nothing satisfies the predicate.
proof fn lemma_filter_none<T>(s: Seq<T>, pred: spec_fn(T) -> bool)
    requires
        forall|q: int| 0 <= q < s.len() ==> !pred(s[q]),
    ensures
        s.filter(pred) == Seq::<T>::empty(),
    decreases s.len(),
{
    reveal(Seq::filter);
    if s.len() > 0 {
        lemma_filter_none(s.drop_last(), pred);
    }
}

/// Static entities are kept across a turn: the shipyard subset of the
/// rebuilt structure collection — the carried-over shipyards followed by
/// the turn's dropoffs — is exactly the shipyard subset there was before,
/// same ids, same positions, same order. In particular, a turn that
/// supplies no dropoff lines leaves the structure collection equal to its
/// shipyard subset.
pub proof fn lemma_shipyards_preserved(old_structures: Seq<Structure>, dropoffs: Seq<Structure>)
    requires
        forall|q: int| 0 <= q < dropoffs.len() ==> (#[trigger] dropoffs[q]).structure_type
            == StructureType::Dropoff,
    ensures
        shipyards_of(shipyards_of(old_structures) + dropoffs) == shipyards_of(old_structures),
{
    let pred = |x: Structure| x.structure_type == StructureType::Shipyard;
    Seq::filter_distributes_over_add(shipyards_of(old_structures), dropoffs, pred);
    lemma_filter_idempotent(old_structures, pred);
    lemma_filter_none(dropoffs, pred);
    assert(shipyards_of(old_structures) + Seq::<Structure>::empty() =~= shipyards_of(
        old_structures,
    ));
}

/// The structures of `structures` that are shipyards, in order.
fn keep_shipyards(structures: &Vec<Structure>) -> (r: Vec<Structure>)
    ensures
        r@ == shipyards_of(structures@),
        forall|q: int| 0 <= q < r@.len() ==> structures@.contains(#[trigger] r@[q]),
{
    let n = structures.len();
    let mut out: Vec<Structure> = Vec::new();
    let mut j: usize = 0;
    proof {
        assert(structures@.subrange(0, 0).filter(
            |x: Structure| x.structure_type == StructureType::Shipyard,
        ) =~= Seq::<Structure>::empty());
    }
    while j < n
        invariant
            j <= n,
            n == structures@.len(),
            out@ == structures@.subrange(0, j as int).filter(
                |x: Structure| x.structure_type == StructureType::Shipyard,
            ),
            forall|q: int| 0 <= q < out@.len() ==> structures@.contains(#[trigger] out@[q]),
        decreases n - j,
    {
        proof {
            let pred = |x: Structure| x.structure_type == StructureType::Shipyard;
            let pre = structures@.subrange(0, j as int);
            assert(structures@.subrange(0, j + 1 as int) =~= pre.push(structures@[j as int]));
            assert(pre.push(structures@[j as int]).drop_last() =~= pre);
            reveal(Seq::filter);
        }
        let st = structures[j];
        if st.structure_type == StructureType::Shipyard {
            out.push(st);
        }
        j = j + 1;
    }
    proof {
        assert(structures@.subrange(0, n as int) =~= structures@);
    }
    out
}

/// The views of the rows of a resource grid.
pub open spec fn grid_view(g: Seq<Vec<u32>>) -> Seq<Seq<u32>> {
    g.map_values(|row: Vec<u32>| row@)
}

/// Per-player halite totals after applying the reported updates in order:
/// each header's total overwrites that player's entry, later reports of
/// the same id winning.
pub open spec fn apply_halite(h: Seq<u32>, updates: Seq<(PlayerId, u32)>) -> Seq<u32>
    decreases updates.len(),
{
    if updates.len() == 0 {
        h
    } else {
        apply_halite(
            h.update(updates[0].0 as int, updates[0].1),
            updates.subrange(1, updates.len() as int),
        )
    }
}

/// The resource grid after applying the point patches in order: each
/// names a cell and its new amount, later patches of the same cell
/// winning; no other cell changes.
pub open spec fn apply_patches(g: Seq<Seq<u32>>, ps: Seq<(u32, u32, u32)>) -> Seq<Seq<u32>>
    decreases ps.len(),
{
    if ps.len() == 0 {
        g
    } else {
        apply_patches(
            g.update(ps[0].1 as int, g[ps[0].1 as int].update(ps[0].0 as int, ps[0].2)),
            ps.subrange(1, ps.len() as int),
        )
    }
}

/// A patch list touches only the cells it names: every cell no patch
/// addresses keeps exactly its previous value.
pub proof fn lemma_patch_untouched(
    g: Seq<Seq<u32>>,
    ps: Seq<(u32, u32, u32)>,
    width: u32,
    height: u32,
    x: int,
    y: int,
)
    requires
        g.len() == height,
        forall|row: int| 0 <= row < g.len() ==> (#[trigger] g[row]).len() == width,
        forall|q: int| 0 <= q < ps.len() ==> (#[trigger] ps[q]).0 < width && ps[q].1 < height,
        0 <= y < height,
        0 <= x < width,
        forall|q: int| 0 <= q < ps.len() ==> !((#[trigger] ps[q]).0 == x && ps[q].1 == y),
    ensures
        apply_patches(g, ps)[y][x] == g[y][x],
    decreases ps.len(),
{
    if ps.len() > 0 {
        let g1 = g.update(ps[0].1 as int, g[ps[0].1 as int].update(ps[0].0 as int, ps[0].2));
        lemma_patch_untouched(g1, ps.subrange(1, ps.len() as int), width, height, x, y);
        assert(g1[y][x] == g[y][x]);
    }
}

/// Overwrite each reported player's entry of `halite` with that player's
/// reported total, in report order.
fn apply_halite_updates(halite: &mut Vec<u32>, updates: &Vec<(PlayerId, u32)>)
    requires
        forall|q: int| 0 <= q < updates@.len() ==> (#[trigger] updates@[q]).0 < old(halite)@.len(),
    ensures
        final(halite)@ == apply_halite(old(halite)@, updates@),
        final(halite)@.len() == old(halite)@.len(),
{
    let n = updates.len();
    let ghost h0 = halite@;
    let mut j: usize = 0;
    proof {
        assert(updates@.subrange(0, n as int) =~= updates@);
    }
    while j < n
        invariant
            j <= n,
            n == updates@.len(),
            halite@.len() == h0.len(),
            forall|q: int| 0 <= q < updates@.len() ==> (#[trigger] updates@[q]).0 < h0.len(),
            apply_halite(h0, updates@) == apply_halite(
                halite@,
                updates@.subrange(j as int, n as int),
            ),
        decreases n - j,
    {
        proof {
            let rest = updates@.subrange(j as int, n as int);
            assert(rest.subrange(1, rest.len() as int) =~= updates@.subrange(
                j + 1 as int,
                n as int,
            ));
        }
        let u = updates[j];
        vstd::pervasive::VecAdditionalExecFns::set(halite, u.0 as usize, u.1);
        j = j + 1;
    }
    proof {
        assert(updates@.subrange(n as int, n as int) =~= Seq::<(PlayerId, u32)>::empty());
    }
}

/// Apply each point patch to `grid` in order, leaving every other cell as
/// it was.
fn apply_patch_list(grid: &mut Vec<Vec<u32>>, patches: &Vec<(u32, u32, u32)>, size: MapSize)
    requires
        old(grid)@.len() == size.1,
        forall|row: int| 0 <= row < old(grid)@.len() ==> (#[trigger] old(grid)@[row])@.len()
            == size.0,
        forall|q: int| 0 <= q < patches@.len() ==> (#[trigger] patches@[q]).0 < size.0
            && patches@[q].1 < size.1,
    ensures
        grid_view(final(grid)@) == apply_patches(grid_view(old(grid)@), patches@),
        final(grid)@.len() == size.1,
        forall|row: int| 0 <= row < final(grid)@.len() ==> (#[trigger] final(grid)@[row])@.len()
            == size.0,
{
    let np = patches.len();
    let ghost g0 = grid_view(grid@);
    let mut q: usize = 0;
    proof {
        assert(patches@.subrange(0, np as int) =~= patches@);
    }
    while q < np
        invariant
            q <= np,
            np == patches@.len(),
            grid@.len() == size.1,
            forall|row: int| 0 <= row < grid@.len() ==> (#[trigger] grid@[row])@.len() == size.0,
            forall|m: int| 0 <= m < patches@.len() ==> (#[trigger] patches@[m]).0 < size.0
                && patches@[m].1 < size.1,
            apply_patches(g0, patches@) == apply_patches(
                grid_view(grid@),
                patches@.subrange(q as int, np as int),
            ),
        decreases np - q,
    {
        proof {
            let rest = patches@.subrange(q as int, np as int);
            assert(rest.subrange(1, rest.len() as int) =~= patches@.subrange(
                q + 1 as int,
                np as int,
            ));
        }
        let p = patches[q];
        let ghost before = grid_view(grid@);
        let row = vstd::std_specs::vec::vec_index_mut(grid, p.1 as usize);
        vstd::pervasive::VecAdditionalExecFns::set(row, p.0 as usize, p.2);
        proof {
            assert(grid_view(grid@) =~= before.update(
                p.1 as int,
                before[p.1 as int].update(p.0 as int, p.2),
            ));
        }
        q = q + 1;
    }
    proof {
        assert(patches@.subrange(np as int, np as int) =~= Seq::<(u32, u32, u32)>::empty());
    }
}

impl Khala {
    /// Commit one parsed turn to the world model: set the turn number,
    /// replace the ship collection wholesale, rebuild the structures as
    /// the carried-over shipyards followed by this turn's dropoffs,
    /// overwrite each reported player's halite total, and patch the
    /// resource grid cell by cell, leaving every unlisted cell as it was.
    #[verifier::rlimit(50)]
    pub fn apply_turn(&mut self, t: TurnUpdate)
        requires
            old(self).wf(),
            turn_update_wf(t, old(self).num_players, old(self).map_size),
        ensures
            final(self).wf(),
            final(self).turn_number == t.turn_number,
            final(self).ships@ == t.ships@,
            final(self).structures@ == shipyards_of(old(self).structures@) + t.dropoffs@,
            shipyards_of(final(self).structures@) == shipyards_of(old(self).structures@),
            final(self).player_owned_halite@ == apply_halite(
                old(self).player_owned_halite@,
                t.player_halite@,
            ),
            grid_view(final(self).resource_map@) == apply_patches(
                grid_view(old(self).resource_map@),
                t.patches@,
            ),
            final(self).map_size == old(self).map_size,
            final(self).num_players == old(self).num_players,
            final(self).my_id == old(self).my_id,
            final(self).game_constants == old(self).game_constants,
    {
        let TurnUpdate { turn_number, ships, mut dropoffs, player_halite, patches } = t;
        self.turn_number = turn_number;
        self.ships = ships;
        let mut kept = keep_shipyards(&self.structures);
        kept.append(&mut dropoffs);
        self.structures = kept;
        apply_halite_updates(&mut self.player_owned_halite, &player_halite);
        apply_patch_list(&mut self.resource_map, &patches, self.map_size);
        proof {
            lemma_shipyards_preserved(old(self).structures@, t.dropoffs@);
        }
    }

    /// Synchronize the world model from one turn's lines. On success the
    /// result is the index of the first unconsumed line; on any failure
    /// the model is left exactly as it was, and the error is fatal.
    pub fn update_from_lines(&mut self, lines: &Vec<String>, start: usize) -> (r: Result<
        usize,
        ProtocolError,
    >)
        requires
            old(self).wf(),
            start <= lines@.len(),
        ensures
            match spec_turn(
                lines_view(lines@),
                start as int,
                old(self).num_players,
                old(self).map_size,
            ) {
                Err(e) => r == Err::<usize, ProtocolError>(e) && *final(self) == *old(self),
                Ok(m) => ({
                    let f = *final(self);
                    let o = *old(self);
                    &&& r matches Ok(end) && end as int == m.end
                    &&& f.wf()
                    &&& f.turn_number == m.turn_number
                    &&& f.ships@ == m.ships
                    &&& f.structures@ == shipyards_of(o.structures@) + m.dropoffs
                    &&& shipyards_of(f.structures@) == shipyards_of(o.structures@)
                    &&& f.player_owned_halite@ == apply_halite(o.player_owned_halite@,
                        m.player_halite,
                    )
                    &&& grid_view(f.resource_map@) == apply_patches(grid_view(o.resource_map@),
                        m.patches,
                    )
                    &&& f.map_size == o.map_size
                    &&& f.num_players == o.num_players
                    &&& f.my_id == o.my_id
                    &&& f.game_constants == o.game_constants
                }),
            },
    {
        let (t, end) = match parse_turn(lines, start, self.num_players, self.map_size) {
            Ok(t) => t,
            Err(e) => {
                return Err(e);
            },
        };
        self.apply_turn(t);
        Ok(end)
    }
}

/// The game-constants line as key/value pairs: an even count of tokens,
/// taken two by two. An odd count is a protocol error.
pub open spec fn spec_constants(line: Seq<char>) -> Option<Seq<(Seq<char>, Seq<char>)>> {
    let cs = split_tokens(line, true);
    if cs.len() % 2 == 0 {
        Some(Seq::new(cs.len() / 2, |q: int| (cs[2 * q], cs[2 * q + 1])))
    } else {
        None
    }
}

/// The offset the client adds to a player index to form that player's
/// shipyard id. The engine never supplies shipyard ids; this fixed offset
/// keeps the client-chosen ids apart from the id space the engine uses
/// for ships and dropoffs.
pub const SHIPYARD_ID_BASE: u32 = 0x4000;

/// Starting-shipyard lines for players `j` up to `num_players`, one line
/// per player, starting at line `i`. The structure id is assigned by the
/// client: the fixed offset plus the player index, so the ids are
/// pairwise distinct.
pub open spec fn spec_shipyards(
    lines: Seq<Seq<char>>,
    i: int,
    j: int,
    num_players: u32,
) -> Result<Seq<Structure>, ProtocolError>
    decreases num_players - j,
{
    if j >= num_players {
        Ok(Seq::empty())
    } else if !(0 <= i < lines.len()) {
        Err(ProtocolError::StreamClosed)
    } else {
        match spec_shipyard_line(lines[i], num_players) {
            None => Err(ProtocolError::ProtocolViolation),
            Some(s) => with_prefix(
                seq![
                    Structure {
                        owner_id: s.0,
                        structure_id: (SHIPYARD_ID_BASE + j) as u32,
                        position: s.1,
                        structure_type: StructureType::Shipyard,
                    },
                ],
                spec_shipyards(lines, i + 1, j + 1, num_players),
            ),
        }
    }
}

fn parse_shipyards(lines: &Vec<String>, start: usize, num_players: u32) -> (r: Result<
    (Vec<Structure>, usize),
    ProtocolError,
>)
    requires
        start <= lines@.len(),
        num_players <= u32::MAX - SHIPYARD_ID_BASE,
    ensures
        match spec_shipyards(lines_view(lines@), start as int, 0, num_players) {
            Err(e) => r == Err::<(Vec<Structure>, usize), ProtocolError>(e),
            Ok(m) => r matches Ok(t) && t.0@ == m && t.1 as int == start + num_players && t.1
                <= lines@.len() && t.0@.len() == num_players,
        },
{
    let ghost lv = lines_view(lines@);
    let mut out: Vec<Structure> = Vec::new();
    let mut idx = start;
    let mut j: u32 = 0;
    while j < num_players
        invariant
            j <= num_players,
            num_players <= u32::MAX - SHIPYARD_ID_BASE,
            start <= idx <= lines@.len(),
            idx == start + j,
            out@.len() == j,
            lv == lines_view(lines@),
            spec_shipyards(lv, start as int, 0, num_players) == with_prefix(
                out@,
                spec_shipyards(lv, idx as int, j as int, num_players),
            ),
        decreases num_players - j,
    {
        if idx >= lines.len() {
            return Err(ProtocolError::StreamClosed);
        }
        let s = match parse_shipyard_line(&lines[idx], num_players) {
            Ok(s) => s,
            Err(e) => {
                return Err(e);
            },
        };
        let yard = Structure {
            owner_id: s.0,
            structure_id: SHIPYARD_ID_BASE + j,
            position: s.1,
            structure_type: StructureType::Shipyard,
        };
        proof {
            let rest = spec_shipyards(lv, idx + 1 as int, j + 1 as int, num_players);
            if rest is Ok {
                assert(out@ + (seq![yard] + rest.unwrap()) =~= out@.push(yard) + rest.unwrap());
            }
        }
        out.push(yard);
        idx = idx + 1;
        j = j + 1;
    }
    proof {
        assert(out@ + Seq::<Structure>::empty() =~= out@);
    }
    Ok((out, idx))
}

/// `cnt` resource rows of `width` values each, starting at line `i`.
pub open spec fn spec_rows(lines: Seq<Seq<char>>, i: int, cnt: int, width: u32) -> Result<
    Seq<Seq<u32>>,
    ProtocolError,
>
    decreases cnt,
{
    if cnt <= 0 {
        Ok(Seq::empty())
    } else if !(0 <= i < lines.len()) {
        Err(ProtocolError::StreamClosed)
    } else if !line_has_u32s(lines[i], width as int) {
        Err(ProtocolError::ProtocolViolation)
    } else {
        with_prefix(
            seq![Seq::new(width as nat, |k: int| u32_at(lines[i], k))],
            spec_rows(lines, i + 1, cnt - 1, width),
        )
    }
}

fn parse_rows(lines: &Vec<String>, start: usize, height: u32, width: u32) -> (r: Result<
    (Vec<Vec<u32>>, usize),
    ProtocolError,
>)
    requires
        start <= lines@.len(),
    ensures
        match spec_rows(lines_view(lines@), start as int, height as int, width) {
            Err(e) => r == Err::<(Vec<Vec<u32>>, usize), ProtocolError>(e),
            Ok(m) => r matches Ok(t) && grid_view(t.0@) == m && t.1 as int == start + height && t.1
                <= lines@.len() && t.0@.len() == height && (forall|row: int|
                0 <= row < t.0@.len() ==> (#[trigger] t.0@[row])@.len() == width),
        },
{
    let ghost lv = lines_view(lines@);
    let mut out: Vec<Vec<u32>> = Vec::new();
    let mut idx = start;
    let mut k: u32 = 0;
    proof {
        assert(grid_view(out@) + Seq::<Seq<u32>>::empty() =~= grid_view(out@));
    }
    while k < height
        invariant
            k <= height,
            start <= idx <= lines@.len(),
            idx == start + k,
            out@.len() == k,
            forall|row: int| 0 <= row < out@.len() ==> (#[trigger] out@[row])@.len() == width,
            lv == lines_view(lines@),
            spec_rows(lv, start as int, height as int, width) == with_prefix(
                grid_view(out@),
                spec_rows(lv, idx as int, (height - k) as int, width),
            ),
        decreases height - k,
    {
        if idx >= lines.len() {
            return Err(ProtocolError::StreamClosed);
        }
        let v = match parse_line_u32s(&lines[idx], width as usize) {
            Ok(v) => v,
            Err(e) => {
                return Err(e);
            },
        };
        proof {
            let row = Seq::new(width as nat, |q: int| u32_at(lv[idx as int], q));
            assert(v@ =~= row);
            let rest = spec_rows(lv, idx + 1 as int, (height - k - 1) as int, width);
            if rest is Ok {
                assert(grid_view(out@) + (seq![row] + rest.unwrap()) =~= grid_view(out@).push(row)
                    + rest.unwrap());
            }
            assert(grid_view(out@.push(v)) =~= grid_view(out@).push(v@));
        }
        out.push(v);
        idx = idx + 1;
        k = k + 1;
    }
    proof {
        assert(grid_view(out@) + Seq::<Seq<u32>>::empty() =~= grid_view(out@));
    }
    Ok((out, idx))
}

/// What the whole initialization sequence denotes.
pub struct InitModel {
    /// The key/value pairs of the constants line, in line order.
    pub constants: Seq<(Seq<char>, Seq<char>)>,
    /// How many players the game has.
    pub num_players: u32,
    /// This client's own player id.
    pub my_id: u32,
    /// One starting shipyard per player line, ids assigned by the client.
    pub shipyards: Seq<Structure>,
    /// The map size: (width, height).
    pub map_size: MapSize,
    /// The initial resource grid, one row per line, indexed [y][x].
    pub grid: Seq<Seq<u32>>,
    /// The `INITIAL_ENERGY` constant every player starts with.
    pub initial_energy: u32,
    /// The index of the first line after the sequence.
    pub end: int,
}

/// The one-time initialization sequence: the constants line; a line with
/// the player count and this client's id; one shipyard line per player;
/// the map size line, after which every shipyard position is checked
/// against the map; `height` resource rows; and the `INITIAL_ENERGY`
/// constant, consulted to seed every player's halite total.
pub open spec fn spec_init(lines: Seq<Seq<char>>) -> Result<InitModel, ProtocolError> {
    if lines.len() < 1 {
        Err(ProtocolError::StreamClosed)
    } else {
        match spec_constants(lines[0]) {
            None => Err(ProtocolError::ProtocolViolation),
            Some(pairs) => if lines.len() < 2 {
                Err(ProtocolError::StreamClosed)
            } else if !(line_has_u32s(lines[1], 2) && u32_at(lines[1], 1) < u32_at(lines[1], 0)
                && u32_at(lines[1], 0) <= u32::MAX - SHIPYARD_ID_BASE) {
                Err(ProtocolError::ProtocolViolation)
            } else {
                let n = u32_at(lines[1], 0);
                let my = u32_at(lines[1], 1);
                match spec_shipyards(lines, 2, 0, n) {
                    Err(e) => Err(e),
                    Ok(yards) => {
                        let size_at = 2 + n as int;
                        if !(size_at < lines.len()) {
                            Err(ProtocolError::StreamClosed)
                        } else if !line_has_u32s(lines[size_at], 2) {
                            Err(ProtocolError::ProtocolViolation)
                        } else {
                            let size = (u32_at(lines[size_at], 0), u32_at(lines[size_at], 1));
                            if exists|q: int|
                                0 <= q < yards.len() && !in_bounds(
                                    (#[trigger] yards[q]).position,
                                    size,
                                ) {
                                Err(ProtocolError::ProtocolViolation)
                            } else {
                                match spec_rows(lines, size_at + 1, size.1 as int, size.0) {
                                    Err(e) => Err(e),
                                    Ok(grid) => match crate::game::assoc_last(
                                        pairs,
                                        "INITIAL_ENERGY"@,
                                    ) {
                                        None => Err(ProtocolError::ConfigurationMissing),
                                        Some(v) => if !valid_u32_token(v) {
                                            Err(ProtocolError::ProtocolViolation)
                                        } else {
                                            Ok(
                                                InitModel {
                                                    constants: pairs,
                                                    num_players: n,
                                                    my_id: my,
                                                    shipyards: yards,
                                                    map_size: size,
                                                    grid,
                                                    initial_energy: dec_value(v) as u32,
                                                    end: size_at + 1 + size.1,
                                                },
                                            )
                                        },
                                    },
                                }
                            }
                        }
                    },
                }
            },
        }
    }
}

/// The shipyards the initialization sequence creates are one per player
/// line, all tagged Shipyard, with ids that are the fixed offset plus the
/// player index — so the ids are pairwise distinct.
pub proof fn lemma_spec_shipyards_shape(lines: Seq<Seq<char>>, i: int, j: int, num_players: u32)
    requires
        0 <= j <= num_players,
        num_players <= u32::MAX - SHIPYARD_ID_BASE,
        spec_shipyards(lines, i, j, num_players) is Ok,
    ensures
        ({
            let s = spec_shipyards(lines, i, j, num_players).unwrap();
            &&& s.len() == num_players - j
            &&& (forall|q: int|
                0 <= q < s.len() ==> (#[trigger] s[q]).structure_type == StructureType::Shipyard
                    && s[q].structure_id == SHIPYARD_ID_BASE + j + q)
        }),
    decreases num_players - j,
{
    if j < num_players {
        lemma_spec_shipyards_shape(lines, i + 1, j + 1, num_players);
    }
}

/// Initialization creates exactly one structure per player line, all
/// tagged Shipyard, with pairwise distinct structure ids.
pub proof fn lemma_init_shipyards(lines: Seq<Seq<char>>)
    requires
        spec_init(lines) is Ok,
    ensures
        ({
            let m = spec_init(lines).unwrap();
            &&& m.shipyards.len() == m.num_players
            &&& (forall|q: int|
                0 <= q < m.shipyards.len() ==> (#[trigger] m.shipyards[q]).structure_type
                    == StructureType::Shipyard)
            &&& (forall|q1: int, q2: int|
                0 <= q1 < q2 < m.shipyards.len() ==> m.shipyards[q1].structure_id
                    != m.shipyards[q2].structure_id)
        }),
{
    let m = spec_init(lines).unwrap();
    lemma_spec_shipyards_shape(lines, 2, 0, m.num_players);
}

impl Khala {
    /// Build the world model from the initialization lines. On success the
    /// result also carries the index of the first unconsumed line; the
    /// model starts at turn zero, with no ships, and with every player's
    /// halite total set to the `INITIAL_ENERGY` constant.
    #[verifier::loop_isolation(false)]
    pub fn read_from_lines(lines: &Vec<String>) -> (r: Result<(Khala, usize), ProtocolError>)
        ensures
            match spec_init(lines_view(lines@)) {
                Err(e) => r == Err::<(Khala, usize), ProtocolError>(e),
                Ok(m) => r matches Ok(t) && ({
                    let k = t.0;
                    &&& crate::game::pairs_view(k.game_constants.pairs@) == m.constants
                    &&& k.num_players == m.num_players
                    &&& k.my_id == m.my_id
                    &&& k.structures@ == m.shipyards
                    &&& k.map_size == m.map_size
                    &&& grid_view(k.resource_map@) == m.grid
                    &&& k.player_owned_halite@ == Seq::new(
                        m.num_players as nat,
                        |q: int| m.initial_energy,
                    )
                    &&& k.turn_number == 0
                    &&& k.ships@.len() == 0
                    &&& t.1 as int == m.end
                    &&& k.wf()
                    &&& k.structures@.len() == k.num_players
                    &&& (forall|q: int|
                        0 <= q < k.structures@.len() ==> (#[trigger] k.structures@[q]).structure_type
                            == StructureType::Shipyard)
                    &&& (forall|q1: int, q2: int|
                        0 <= q1 < q2 < k.structures@.len() ==> k.structures@[q1].structure_id
                            != k.structures@[q2].structure_id)
                }),
            },
    {
        let ghost lv = lines_view(lines@);
        if lines.len() < 1 {
            return Err(ProtocolError::StreamClosed);
        }
        let cs = crate::input::split_constants_line(&lines[0]);
        if cs.len() % 2 != 0 {
            return Err(ProtocolError::ProtocolViolation);
        }
        let half = cs.len() / 2;
        let mut pairs: Vec<(String, String)> = Vec::new();
        let mut q: usize = 0;
        while q < half
            invariant
                q <= half,
                half == cs@.len() / 2,
                cs@.len() % 2 == 0,
                cs@.map_values(|t: String| t@) == split_tokens(lv[0], true),
                0 < lines@.len(),
                lv == lines_view(lines@),
                crate::game::pairs_view(pairs@) == Seq::new(
                    q as nat,
                    |m: int| (split_tokens(lv[0], true)[2 * m], split_tokens(lv[0], true)[2 * m
                        + 1]),
                ),
                pairs@.len() == q,
            decreases half - q,
        {
            proof {
                assert(cs@.len() == 2 * half);
                assert(2 * q + 1 < cs@.len());
            }
            let key = cs[2 * q].clone();
            let val = cs[2 * q + 1].clone();
            proof {
                assert(crate::game::pairs_view(pairs@.push((key, val))) =~= crate::game::pairs_view(
                    pairs@,
                ).push((key@, val@)));
                assert(crate::game::pairs_view(pairs@).push((key@, val@)) =~= Seq::new(
                    (q + 1) as nat,
                    |m: int| (split_tokens(lv[0], true)[2 * m], split_tokens(lv[0], true)[2 * m
                        + 1]),
                ));
            }
            pairs.push((key, val));
            q = q + 1;
        }
        let ghost m_constants = spec_constants(lv[0]).unwrap();
        proof {
            assert(crate::game::pairs_view(pairs@) =~= m_constants);
        }
        if lines.len() < 2 {
            return Err(ProtocolError::StreamClosed);
        }
        let head = match parse_line_u32s(&lines[1], 2) {
            Ok(v) => v,
            Err(e) => {
                return Err(e);
            },
        };
        let num_players = head[0];
        let my_id = head[1];
        if my_id >= num_players || num_players > u32::MAX - SHIPYARD_ID_BASE {
            return Err(ProtocolError::ProtocolViolation);
        }
        let (yards, size_at) = match parse_shipyards(lines, 2, num_players) {
            Ok(t) => t,
            Err(e) => {
                return Err(e);
            },
        };
        if size_at >= lines.len() {
            return Err(ProtocolError::StreamClosed);
        }
        let size_v = match parse_line_u32s(&lines[size_at], 2) {
            Ok(v) => v,
            Err(e) => {
                return Err(e);
            },
        };
        let map_size = (size_v[0], size_v[1]);
        let yard_count = yards.len();
        let mut y: usize = 0;
        while y < yard_count
            invariant
                y <= yard_count,
                yard_count == yards@.len(),
                forall|m: int| 0 <= m < y ==> in_bounds((#[trigger] yards@[m]).position, map_size),
            decreases yard_count - y,
        {
            if yards[y].position.0 >= map_size.0 || yards[y].position.1 >= map_size.1 {
                proof {
                    assert(!in_bounds(yards@[y as int].position, map_size));
                }
                return Err(ProtocolError::ProtocolViolation);
            }
            y = y + 1;
        }
        let (rows, end) = match parse_rows(lines, size_at + 1, map_size.1, map_size.0) {
            Ok(t) => t,
            Err(e) => {
                return Err(e);
            },
        };
        let game_constants = GameConstants { pairs };
        let key = String::from_str("INITIAL_ENERGY");
        let initial_energy = match game_constants.get_u32(&key) {
            Ok(v) => v,
            Err(e) => {
                return Err(e);
            },
        };
        let mut player_owned_halite: Vec<u32> = Vec::new();
        let mut p: u32 = 0;
        while p < num_players
            invariant
                p <= num_players,
                player_owned_halite@ == Seq::new(p as nat, |m: int| initial_energy),
            decreases num_players - p,
        {
            proof {
                assert(player_owned_halite@.push(initial_energy) =~= Seq::new(
                    (p + 1) as nat,
                    |m: int| initial_energy,
                ));
            }
            player_owned_halite.push(initial_energy);
            p = p + 1;
        }
        proof {
            assert(yards@.len() == num_players);
            assert(num_players >= 1);
            assert(in_bounds(yards@[0].position, map_size));
            lemma_init_shipyards(lv);
        }
        let khala = Khala {
            map_size,
            game_constants,
            resource_map: rows,
            ships: Vec::new(),
            structures: yards,
            player_owned_halite,
            num_players,
            my_id,
            turn_number: 0,
        };
        Ok((khala, end))
    }
}

} // verus!
