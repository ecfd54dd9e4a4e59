use hexadventure::grid::{
    center, contains, corner, decompose, index_to_pos, inner_positions, pos_to_index,
    pos_to_location, positions, Direction, Displacement, Grid, Index2d, Pos, DIRECTIONS, HEIGHT,
    WIDTH,
};

fn on_outer_edge(pos: Pos) -> bool {
    contains(pos) && pos.neighbors().into_iter().any(|pos| !contains(pos))
}

#[test]
fn test_rotate() {
    assert_eq!(Direction::Northeast, Direction::Northeast.rotate(6));
    assert_eq!(Direction::Northwest, Direction::Northeast.rotate(-1));
    assert_eq!(Direction::West, Direction::Northwest.rotate(3).rotate(2));
    assert_eq!(-Direction::West, Direction::East);
}

#[test]
fn test_pos_displacement() {
    let a = Displacement { x: 1, y: 2 };
    let b = Displacement { x: 3, y: -4 };
    let c = Displacement { x: 4, y: -2 };
    let x = Pos { x: 3, y: -4 };
    let y = Pos { x: 4, y: -2 };
    assert_eq!(a + b, c);
    assert_eq!(c - b, a);
    assert_eq!(a + a, a * 2);
    assert_eq!(y - x, a);
    assert_eq!(x + a, y);
    assert_eq!(b, Direction::Southeast * b.x + Direction::Southwest * b.y);
}

#[test]
fn test_coordinate_conversion() {
    for row in 0..10 {
        for col in 0..10 {
            let i = Index2d { row, col };
            assert_eq!(i, pos_to_index(index_to_pos(i)));
        }
    }
}

#[test]
fn test_index_order() {
    let g = Grid::new(|pos| pos_to_index(pos));
    for pos in positions() {
        let index = pos_to_index(pos);
        assert_eq!(index, *g.at(pos));
    }
}

#[test]
fn test_inner_positions() {
    let positions = inner_positions();
    assert!(positions.into_iter().all(|pos| !on_outer_edge(pos)));
}

#[test]
fn round_trip_over_whole_grid() {
    for row in 0..HEIGHT {
        for col in 0..WIDTH {
            let i = Index2d { row, col };
            let pos = index_to_pos(i);
            assert!(contains(pos));
            assert_eq!(i, pos_to_index(pos));
        }
    }
}

#[test]
fn index_to_pos_values() {
    assert_eq!(index_to_pos(Index2d { row: 0, col: 0 }), Pos { x: 0, y: 0 });
    assert_eq!(index_to_pos(Index2d { row: 1, col: 0 }), Pos { x: 1, y: 0 });
    assert_eq!(index_to_pos(Index2d { row: 2, col: 0 }), Pos { x: 1, y: 1 });
    assert_eq!(index_to_pos(Index2d { row: 3, col: 2 }), Pos { x: 4, y: -1 });
    assert_eq!(center(), Pos { x: 27, y: -14 });
    assert_eq!(corner(), Pos { x: 0, y: 0 });
}

#[test]
fn contains_edges() {
    assert!(contains(Pos { x: 0, y: 0 }));
    assert!(!contains(Pos { x: -1, y: 0 }));
    assert!(!contains(Pos { x: 0, y: -1 }));
    assert!(contains(index_to_pos(Index2d { row: 25, col: 39 })));
    assert!(!contains(index_to_pos(Index2d { row: 26, col: 0 })));
    assert!(!contains(index_to_pos(Index2d { row: 0, col: 40 })));
    assert!(!contains(Pos { x: i32::MIN, y: i32::MIN }));
    assert!(!contains(Pos { x: i32::MAX, y: i32::MAX }));
}

#[test]
fn positions_row_major() {
    let all = positions();
    assert_eq!(all.len(), WIDTH * HEIGHT);
    assert_eq!(all[0], Pos { x: 0, y: 0 });
    assert_eq!(all[1], Pos { x: 1, y: -1 });
    assert_eq!(all[WIDTH], Pos { x: 1, y: 0 });
    for (k, pos) in all.iter().enumerate() {
        assert_eq!(pos_to_index(*pos), Index2d { row: k / WIDTH, col: k % WIDTH });
    }
    let inner = inner_positions();
    assert_eq!(inner.len(), (WIDTH - 2) * (HEIGHT - 2));
    assert_eq!(inner[0], index_to_pos(Index2d { row: 1, col: 1 }));
}

#[test]
fn location_of_positions() {
    let loc = pos_to_location(index_to_pos(Index2d { row: 3, col: 5 }));
    assert_eq!((loc.x, loc.y), (11, 3));
    let loc = pos_to_location(index_to_pos(Index2d { row: 4, col: 5 }));
    assert_eq!((loc.x, loc.y), (10, 4));
}

#[test]
fn distance_laws() {
    let p = Pos { x: 3, y: -7 };
    let q = Pos { x: -2, y: 4 };
    assert_eq!(p.distance(q), q.distance(p));
    assert_eq!(p.distance(p), 0);
    assert_eq!(p.distance(q), 11);
    assert_eq!(Displacement { x: 2, y: 3 }.distance(), 5);
    assert_eq!(Displacement { x: 2, y: -3 }.distance(), 3);
    for d in DIRECTIONS.iter() {
        for n in 0..20i32 {
            assert_eq!(p.distance(p + *d * n), n as u32);
        }
    }
}

#[test]
fn rotation_laws() {
    for d in DIRECTIONS.iter() {
        assert_eq!(d.rotate(6), *d);
        assert_eq!(d.rotate(-1).rotate(1), *d);
        assert_eq!(d.rotate(3), -*d);
        assert_eq!(d.rotate(3).to_displacement(), -d.to_displacement());
        assert_eq!(d.rotate(i32::MIN).rotate(i32::MIN), d.rotate(-4));
    }
    assert_eq!(Direction::Northeast.rotate(1), Direction::East);
    assert_eq!(Direction::Northeast.rotate(-7), Direction::Northwest);
    assert_eq!(Direction::Southwest.x(), 0);
    assert_eq!(Direction::Southwest.y(), 1);
}

#[test]
fn vector_laws() {
    let a = Displacement { x: -5, y: 9 };
    let b = Displacement { x: 7, y: 2 };
    assert_eq!((a + b) - b, a);
    assert_eq!(a + a, a * 2);
    assert_eq!(a * 3u32, Displacement { x: -15, y: 27 });
    assert_eq!(Pos { x: 1, y: 1 } - Direction::East, Pos { x: 0, y: 2 });
    assert_eq!(Pos { x: 1, y: 1 } - a, Pos { x: 6, y: -8 });
    assert_eq!(a + Direction::West, Displacement { x: -6, y: 10 });
    assert_eq!(Direction::East * 4u32, Displacement { x: 4, y: -4 });
    let (dx, dy) = decompose(a, Direction::Southeast, Direction::Southwest);
    assert_eq!(Direction::Southeast * dx + Direction::Southwest * dy, a);
    let (s, t) = decompose(a, Direction::Southeast, Direction::East);
    assert_eq!(Direction::Southeast * s + Direction::East * t, a);
    assert_eq!((s, t), (4, -9));
}

#[test]
fn division_rounds_to_nearest_hex() {
    for d in DIRECTIONS.iter() {
        for n in 1..30u32 {
            assert_eq!((*d * n) / n, d.to_displacement());
            assert_eq!((*d * n).direction(), Some(*d));
        }
    }
    assert_eq!(Displacement { x: 7, y: 0 } / 2, Displacement { x: 4, y: 0 });
    assert_eq!(Displacement { x: -7, y: 0 } / 2, Displacement { x: -4, y: 0 });
    assert_eq!(Displacement { x: 2, y: 1 } / 3, Displacement { x: 1, y: 0 });
    assert_eq!(Displacement { x: 3, y: 3 } / 4, Displacement { x: 1, y: 1 });
    assert_eq!(Displacement { x: i32::MAX, y: i32::MIN } / 1, Displacement { x: i32::MAX, y: i32::MIN });
}

#[test]
fn direction_of_displacements() {
    assert_eq!(Displacement { x: 0, y: 0 }.direction(), None);
    assert_eq!(Displacement { x: 5, y: -5 }.direction(), Some(Direction::East));
    assert_eq!(Displacement { x: 3, y: 1 }.direction(), Some(Direction::Southeast));
    assert_eq!(Displacement { x: 0, y: -2 }.direction(), Some(Direction::Northeast));
}

#[test]
fn neighbors_in_direction_order() {
    let p = Pos { x: 4, y: 4 };
    let n = p.neighbors();
    assert_eq!(n.len(), 6);
    for (k, d) in DIRECTIONS.iter().enumerate() {
        assert_eq!(n[k], p + *d);
        assert_eq!(p.distance(n[k]), 1);
    }
}

#[test]
fn grid_set_and_from_vec() {
    let mut g = Grid::new(|_pos| 0u8);
    let p = index_to_pos(Index2d { row: 5, col: 7 });
    g.set(p, 9);
    assert_eq!(*g.at(p), 9);
    assert_eq!(*g.at(corner()), 0);
    assert_eq!(g.iter().filter(|v| **v == 9).count(), 1);
    let h = Grid::from_vec(vec![1u8; WIDTH * HEIGHT]);
    assert_eq!(*h.at(center()), 1);
}

#[test]
fn grid_indexed_by_row_and_column() {
    let mut g = Grid::new(|pos| pos_to_index(pos));
    let i = Index2d { row: 7, col: 12 };
    assert_eq!(*g.at_index(i), i);
    assert_eq!(*g.at(index_to_pos(i)), i);
    let j = Index2d { row: 0, col: 0 };
    g.set_index(j, i);
    assert_eq!(*g.at(corner()), i);
}
