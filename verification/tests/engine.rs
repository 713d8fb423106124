//! Unit tests for the geometry table, the coordinate mapping, the cube
//! container, and concrete instances of the rotation laws.

use rubiks::cube::Color::{Blue, Green, Orange, Red, White, Yellow};
use rubiks::cube::Color;
use rubiks::cube::RubiksCube;
use rubiks::geometry::Face::{Back, Down, Front, Left, Right, Up};
use rubiks::geometry::Face;
use rubiks::geometry::Movement::{Clockwise, CounterClockwise, Half};
use rubiks::geometry::{face_to_index, get_sides, position_based_off_corner_and_move_count, Corner};
use rubiks::rotation::rotate_face;

const ALL_FACES: [Face; 6] = [Up, Left, Front, Right, Back, Down];
const ALL_COLORS: [Color; 6] = [White, Yellow, Red, Orange, Blue, Green];

fn count_color(rc: &RubiksCube, color: Color) -> usize {
    let mut n = 0;
    for face in &rc.faces {
        for row in face {
            for cell in row {
                if *cell == color {
                    n += 1;
                }
            }
        }
    }
    n
}

fn scramble(rc: &mut RubiksCube) {
    let moves = [
        (Front, Clockwise, 0),
        (Up, Half, 1),
        (Right, CounterClockwise, 2),
        (Down, Clockwise, 0),
        (Back, Half, 1),
        (Left, CounterClockwise, 0),
    ];
    for (face, movement, depth) in moves {
        let depth = depth % rc.size;
        rotate_face(rc, face, movement, depth);
    }
}

#[test]
fn new_cube_is_solved() {
    let rc = RubiksCube::new(4);
    assert_eq!(rc.size, 4);
    assert_eq!(rc.faces.len(), 6);
    let start = [Yellow, Orange, Blue, Red, Green, White];
    for (g, face) in rc.faces.iter().enumerate() {
        assert_eq!(face.len(), 4);
        for row in face {
            assert_eq!(row.len(), 4);
            for cell in row {
                assert_eq!(*cell, start[g]);
            }
        }
    }
}

#[test]
fn border_position_mapping() {
    // Walking the border near each corner of a 5x5 grid at depth 1.
    assert_eq!(
        position_based_off_corner_and_move_count(Corner::TopLeft, 2, 5, 1),
        (2, 1)
    );
    assert_eq!(
        position_based_off_corner_and_move_count(Corner::TopRight, 2, 5, 1),
        (1, 2)
    );
    assert_eq!(
        position_based_off_corner_and_move_count(Corner::BottomRight, 2, 5, 1),
        (2, 3)
    );
    assert_eq!(
        position_based_off_corner_and_move_count(Corner::BottomLeft, 2, 5, 1),
        (3, 2)
    );
    // The walk sweeps the whole border: first and last step at depth 0.
    assert_eq!(
        position_based_off_corner_and_move_count(Corner::TopLeft, 0, 3, 0),
        (0, 0)
    );
    assert_eq!(
        position_based_off_corner_and_move_count(Corner::TopLeft, 2, 3, 0),
        (2, 0)
    );
}

#[test]
fn adjacency_table_is_symmetric() {
    // Every neighbor of a face lists that face among its own neighbors.
    for f in ALL_FACES {
        let sides = get_sides(f);
        for side in sides {
            let back_sides = get_sides(side.0);
            let mut found = false;
            for back in back_sides {
                if face_to_index(back.0) == face_to_index(f) {
                    found = true;
                }
            }
            assert!(found);
        }
    }
}

#[test]
fn adjacency_excludes_self_and_opposite() {
    let opposite = [Down, Right, Back, Left, Front, Up];
    for (i, f) in ALL_FACES.into_iter().enumerate() {
        let sides = get_sides(f);
        for side in sides {
            assert_ne!(face_to_index(side.0), face_to_index(f));
            assert_ne!(face_to_index(side.0), face_to_index(opposite[i]));
        }
    }
}

#[test]
fn get_set_cell_roundtrip() {
    let mut rc = RubiksCube::new(3);
    rc.set_cell(2, 0, 1, Red);
    assert_eq!(rc.get_cell(2, 0, 1), Red);
    assert_eq!(rc.get_cell(2, 0, 0), Blue);
}

#[test]
fn front_face_clockwise_rotation_literal() {
    // A 3x3 Front face with top row [Yellow, Blue, Red], turned clockwise
    // at depth 0: cell (row, col) moves to (col, size - 1 - row), so the
    // old top row becomes the right column and the new top row reads
    // [old bottom-left, old middle-left, old top-left].
    let mut rc = RubiksCube::new(3);
    let front = face_to_index(Front);
    rc.set_cell(front, 0, 0, Yellow);
    rc.set_cell(front, 0, 1, Blue);
    rc.set_cell(front, 0, 2, Red);
    rotate_face(&mut rc, Front, Clockwise, 0);
    let expected = vec![
        vec![Blue, Blue, Yellow],
        vec![Blue, Blue, Blue],
        vec![Blue, Blue, Red],
    ];
    assert_eq!(rc.faces[front], expected);
}

#[test]
fn clockwise_then_counter_clockwise_restores() {
    for size in [1, 2, 3, 4, 5] {
        let mut rc = RubiksCube::new(size);
        scramble(&mut rc);
        let before = rc.clone();
        for f in ALL_FACES {
            for depth in 0..size {
                rotate_face(&mut rc, f, Clockwise, depth);
                rotate_face(&mut rc, f, CounterClockwise, depth);
                assert_eq!(rc, before);
                rotate_face(&mut rc, f, CounterClockwise, depth);
                rotate_face(&mut rc, f, Clockwise, depth);
                assert_eq!(rc, before);
            }
        }
    }
}

#[test]
fn four_quarter_turns_restore() {
    for size in [2, 3, 5] {
        let mut rc = RubiksCube::new(size);
        scramble(&mut rc);
        let before = rc.clone();
        for f in ALL_FACES {
            for depth in 0..size {
                for _ in 0..4 {
                    rotate_face(&mut rc, f, Clockwise, depth);
                }
                assert_eq!(rc, before);
            }
        }
    }
}

#[test]
fn two_half_turns_restore() {
    let mut rc = RubiksCube::new(4);
    scramble(&mut rc);
    let before = rc.clone();
    for f in ALL_FACES {
        for depth in 0..4 {
            rotate_face(&mut rc, f, Half, depth);
            rotate_face(&mut rc, f, Half, depth);
            assert_eq!(rc, before);
        }
    }
}

#[test]
fn rotation_conserves_color_counts() {
    let mut rc = RubiksCube::new(5);
    for color in ALL_COLORS {
        assert_eq!(count_color(&rc, color), 25);
    }
    scramble(&mut rc);
    rotate_face(&mut rc, Up, Clockwise, 4);
    rotate_face(&mut rc, Back, Half, 2);
    for color in ALL_COLORS {
        assert_eq!(count_color(&rc, color), 25);
    }
}

#[test]
fn rotation_is_local() {
    // Turning Front at depth 1 of a 5x5x5: the Back face (opposite) and
    // the Front face itself (depth > 0) keep every facelet; on Up only
    // row 3 changes, the border row that depth 1 selects.
    let mut rc = RubiksCube::new(5);
    scramble(&mut rc);
    let before = rc.clone();
    rotate_face(&mut rc, Front, Clockwise, 1);
    let back = face_to_index(Back);
    let front = face_to_index(Front);
    let up = face_to_index(Up);
    assert_eq!(rc.faces[back], before.faces[back]);
    assert_eq!(rc.faces[front], before.faces[front]);
    for row in [0, 1, 2, 4] {
        assert_eq!(rc.faces[up][row], before.faces[up][row]);
    }
    assert_ne!(rc.faces[up][3], before.faces[up][3]);
}

#[test]
fn equator_turn_of_odd_cube() {
    // Depth 1 of a 3x3x3 is the single center layer: no face grid turns,
    // only the four borders shift. Up's middle row takes Right's middle
    // column when Front's equator turns clockwise.
    let mut rc = RubiksCube::new(3);
    rotate_face(&mut rc, Front, Clockwise, 1);
    let up = face_to_index(Up);
    let down = face_to_index(Down);
    let left = face_to_index(Left);
    let right = face_to_index(Right);
    assert_eq!(rc.faces[up][1], vec![Orange, Orange, Orange]);
    assert_eq!(rc.faces[down][1], vec![Red, Red, Red]);
    for r in 0..3 {
        assert_eq!(rc.faces[right][r][1], Yellow);
        assert_eq!(rc.faces[left][r][1], White);
    }
}
