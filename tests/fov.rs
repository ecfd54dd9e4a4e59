use hexadventure::fov::{fov, round_high, round_low, MAX_ROWS};
use hexadventure::grid::{center, contains, inner_positions, positions, Direction, Pos};

fn revealed_with_wall(wall: Option<Pos>) -> Vec<Pos> {
    fov(center(), &|pos: Pos| contains(pos) && Some(pos) != wall)
}

fn sextant_cells(c: Pos) -> Vec<Pos> {
    let tangents = [
        Direction::Southeast,
        Direction::Southwest,
        Direction::West,
        Direction::Northwest,
        Direction::Northeast,
        Direction::East,
    ];
    let normals = [
        Direction::Northeast,
        Direction::East,
        Direction::Southeast,
        Direction::Southwest,
        Direction::West,
        Direction::Northwest,
    ];
    let mut cells = Vec::new();
    for i in 0..6 {
        for y in 1..=MAX_ROWS as i32 {
            for x in 0..=y {
                cells.push(c + tangents[i] * x + normals[i] * y);
            }
        }
    }
    cells
}

#[test]
fn test_round_high() {
    assert_eq!(round_high(150, 10), 15);
    assert_eq!(round_high(1549, 100), 15);
    assert_eq!(round_high(155, 10), 16);
    assert_eq!(round_high(1551, 100), 16);
}

#[test]
fn test_round_low() {
    assert_eq!(round_low(150, 10), 15);
    assert_eq!(round_low(1549, 100), 15);
    assert_eq!(round_low(155, 10), 15);
    assert_eq!(round_low(1551, 100), 16);
}

#[test]
fn rounding_near_zero() {
    assert_eq!(round_high(0, 1), 0);
    assert_eq!(round_low(0, 1), 0);
    assert_eq!(round_high(1, 2), 1);
    assert_eq!(round_low(1, 2), 0);
    assert_eq!(round_low(3, 2), 1);
}

#[test]
fn open_room_reveals_every_inner_position() {
    let seen = revealed_with_wall(None);
    assert_eq!(seen[0], center());
    for pos in inner_positions() {
        assert!(seen.contains(&pos), "{:?} not revealed", pos);
    }
}

#[test]
fn revealed_cells_lie_on_sextant_transform() {
    let c = center();
    let cells = sextant_cells(c);
    let seen = revealed_with_wall(Some(c + Direction::Northeast));
    assert_eq!(seen[0], c);
    for pos in seen.into_iter().skip(1) {
        assert!(cells.contains(&pos));
        assert_ne!(pos, c);
    }
}

#[test]
fn wall_blocks_the_ray_behind_it() {
    let c = center();
    let wall = c + Direction::Northeast;
    let seen = revealed_with_wall(Some(wall));
    assert!(seen.contains(&wall));
    let mut behind = wall + Direction::Northeast;
    while contains(behind) {
        assert!(!seen.contains(&behind), "{:?} seen behind the wall", behind);
        behind = behind + Direction::Northeast;
    }
    let open = revealed_with_wall(None);
    // Cells reached only through the sextants that the wall does not touch.
    let far_side = [Direction::Southeast, Direction::Southwest, Direction::West];
    for pos in positions() {
        let d = pos - c;
        let in_far_side = far_side.iter().any(|dir| {
            let (a, b) = hexadventure::grid::decompose(d, *dir, dir.rotate(1));
            a >= 0 && b >= 0
        });
        if in_far_side && open.contains(&pos) {
            assert!(seen.contains(&pos), "{:?} lost to a distant wall", pos);
        }
    }
}

#[test]
fn neighbors_always_revealed() {
    let c = center();
    let seen = fov(c, &|_pos: Pos| false);
    for d in [
        Direction::Northeast,
        Direction::East,
        Direction::Southeast,
        Direction::Southwest,
        Direction::West,
        Direction::Northwest,
    ] {
        assert!(seen.contains(&(c + d)));
    }
    assert!(!seen.contains(&(c + Direction::East * 2)));
}
