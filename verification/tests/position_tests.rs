use halite_client::position::{Position, RecursiveCellPosition, SizedGrid2D};

type SizedMap = (u32, u32);

fn grid_size<M: SizedGrid2D>(m: &M) -> (u32, u32) {
    m.get_size()
}

#[test]
fn type_alias_compile_test() {
    let map: SizedMap = (3, 3);
    let position: Position = (1, 1);
    let _north = position.north(&map);
    let not_position: (u32, u32) = (1 as u32, 1 as u32);
    let _west = not_position.north(&map);
}

#[test]
fn sized_grid_reports_its_size() {
    let map: SizedMap = (7, 9);
    assert_eq!(grid_size(&map), (7, 9));
}

#[test]
fn wraparound_is_its_own_inverse() {
    let map: SizedMap = (4, 3);
    for x in 0..4u32 {
        for y in 0..3u32 {
            let p: Position = (x, y);
            assert_eq!(p.west(&map).east(&map), p);
            assert_eq!(p.east(&map).west(&map), p);
            assert_eq!(p.south(&map).north(&map), p);
            assert_eq!(p.north(&map).south(&map), p);
        }
    }
}

#[test]
fn boundary_steps_wrap_to_opposite_edge() {
    let map: SizedMap = (5, 4);
    assert_eq!((4u32, 2u32).east(&map), (0, 2));
    assert_eq!((0u32, 2u32).west(&map), (4, 2));
    assert_eq!((3u32, 3u32).south(&map), (3, 0));
    assert_eq!((3u32, 0u32).north(&map), (3, 3));
}

#[test]
fn interior_steps_do_not_wrap() {
    let map: SizedMap = (5, 5);
    let p: Position = (2, 2);
    assert_eq!(p.east(&map), (3, 2));
    assert_eq!(p.west(&map), (1, 2));
    assert_eq!(p.south(&map), (2, 3));
    assert_eq!(p.north(&map), (2, 1));
    assert_eq!(p.get_x(), 2);
    assert_eq!(p.get_y(), 2);
}
