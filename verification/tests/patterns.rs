//! The checkerboard composite pattern as an end-to-end scenario.

use rubiks::cube::Color::{Blue, Green, Orange, Red, White, Yellow};
use rubiks::cube::Color;
use rubiks::cube::RubiksCube;
use rubiks::pattern::checkerboard;

const START: [Color; 6] = [Yellow, Orange, Blue, Red, Green, White];
// Opposite faces by index: Up-Down, Left-Right, Front-Back.
const OPPOSITE_START: [Color; 6] = [White, Red, Green, Orange, Blue, Yellow];

#[test]
fn checkerboard_5x5x5() {
    let mut rc = RubiksCube::new(5);
    checkerboard(&mut rc);
    // Facelets alternate between the face's own color and the opposite
    // face's color; the corners, untouched by any inner-layer turn, keep
    // their original color.
    for g in 0..6 {
        for r in 0..5 {
            for c in 0..5 {
                let expected = if (r + c) % 2 == 0 {
                    START[g]
                } else {
                    OPPOSITE_START[g]
                };
                assert_eq!(rc.faces[g][r][c], expected);
            }
        }
    }
}

#[test]
fn checkerboard_1x1x1_and_2x2x2_do_nothing() {
    // Below size 3 there is no inner layer to turn.
    for size in [1, 2] {
        let mut rc = RubiksCube::new(size);
        let before = rc.clone();
        checkerboard(&mut rc);
        assert_eq!(rc, before);
    }
}

#[test]
fn checkerboard_3x3x3_turns_only_equators() {
    let mut rc = RubiksCube::new(3);
    checkerboard(&mut rc);
    // Depth 1 is its own mirror layer on a 3x3x3, so each axis gets a
    // single equator half turn: edge centers swap with the opposite
    // face's color, corners and face centers stay.
    for g in 0..6 {
        for r in 0..3 {
            for c in 0..3 {
                let expected = if (r + c) % 2 == 0 {
                    START[g]
                } else {
                    OPPOSITE_START[g]
                };
                assert_eq!(rc.faces[g][r][c], expected);
            }
        }
    }
}
