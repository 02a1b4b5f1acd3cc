use rustris_core::piece::{Piece, PieceType, Position};

const ALL_TYPES: [PieceType; 7] = [
    PieceType::O,
    PieceType::J,
    PieceType::L,
    PieceType::I,
    PieceType::S,
    PieceType::Z,
    PieceType::T,
];

#[test]
fn shape_table_values() {
    assert_eq!(PieceType::O.get_shape(0), 0xCC00);
    assert_eq!(PieceType::O.get_shape(3), 0xCC00);
    assert_eq!(PieceType::J.get_shape(0), 0x44C0);
    assert_eq!(PieceType::J.get_shape(1), 0x8E00);
    assert_eq!(PieceType::J.get_shape(2), 0x6440);
    assert_eq!(PieceType::J.get_shape(3), 0x0E20);
    assert_eq!(PieceType::L.get_shape(0), 0x4460);
    assert_eq!(PieceType::L.get_shape(1), 0x0E80);
    assert_eq!(PieceType::L.get_shape(2), 0xC440);
    assert_eq!(PieceType::L.get_shape(3), 0x2E00);
    assert_eq!(PieceType::I.get_shape(0), 0x0F00);
    assert_eq!(PieceType::I.get_shape(1), 0x2222);
    assert_eq!(PieceType::I.get_shape(2), 0x00F0);
    assert_eq!(PieceType::I.get_shape(3), 0x4444);
    assert_eq!(PieceType::S.get_shape(0), 0x06C0);
    assert_eq!(PieceType::S.get_shape(1), 0x8C40);
    assert_eq!(PieceType::S.get_shape(2), 0x6C00);
    assert_eq!(PieceType::S.get_shape(3), 0x4620);
    assert_eq!(PieceType::Z.get_shape(0), 0x0C60);
    assert_eq!(PieceType::Z.get_shape(1), 0x4C80);
    assert_eq!(PieceType::Z.get_shape(2), 0xC600);
    assert_eq!(PieceType::Z.get_shape(3), 0x2640);
    assert_eq!(PieceType::T.get_shape(0), 0x0E40);
    assert_eq!(PieceType::T.get_shape(1), 0x4C40);
    assert_eq!(PieceType::T.get_shape(2), 0x4E00);
    assert_eq!(PieceType::T.get_shape(3), 0x4640);
}

#[test]
fn shape_rotation_index_wraps_modulo_4() {
    assert_eq!(PieceType::J.get_shape(4), PieceType::J.get_shape(0));
    assert_eq!(PieceType::J.get_shape(7), PieceType::J.get_shape(3));
    assert_eq!(PieceType::I.get_shape(255), PieceType::I.get_shape(3));
}

#[test]
fn filled_positions_exactly_four_distinct() {
    // Every piece and rotation occupies exactly 4 pairwise distinct cells.
    for t in ALL_TYPES {
        for rot in 0..4u8 {
            let mut p = Piece::new(t);
            p.rotation = rot;
            let cells = p.get_filled_positions(&Position { row: 5, col: 4 });
            assert_eq!(cells.len(), 4);
            for a in 0..4 {
                for b in (a + 1)..4 {
                    assert_ne!(cells[a], cells[b]);
                }
            }
        }
    }
}

#[test]
fn filled_positions_decode_inverted_rows() {
    // I at rotation 0 (mask 0x0F00) fills mask row 2, which maps to board row
    // anchor + (3 - 2) = anchor + 1, columns anchor .. anchor + 3 in order.
    let p = Piece::new(PieceType::I);
    let cells = p.get_filled_positions(&Position { row: 0, col: 0 });
    assert_eq!(cells[0], Position { row: 1, col: 0 });
    assert_eq!(cells[1], Position { row: 1, col: 1 });
    assert_eq!(cells[2], Position { row: 1, col: 2 });
    assert_eq!(cells[3], Position { row: 1, col: 3 });

    // Vertical I (rotation 3, mask 0x4444) fills column anchor + 2 over four rows,
    // decoded bottom-up in row-major bit order.
    let mut p = Piece::new(PieceType::I);
    p.rotation = 3;
    let cells = p.get_filled_positions(&Position { row: 10, col: 3 });
    assert_eq!(cells[0], Position { row: 13, col: 5 });
    assert_eq!(cells[1], Position { row: 12, col: 5 });
    assert_eq!(cells[2], Position { row: 11, col: 5 });
    assert_eq!(cells[3], Position { row: 10, col: 5 });
}

#[test]
fn filled_positions_follow_anchor() {
    let p = Piece::new(PieceType::T);
    let at_origin = p.get_filled_positions(&Position { row: 0, col: 0 });
    let moved = p.get_filled_positions(&Position { row: 7, col: 2 });
    for k in 0..4 {
        assert_eq!(moved[k].row, at_origin[k].row + 7);
        assert_eq!(moved[k].col, at_origin[k].col + 2);
    }
}

#[test]
fn rotate_cw_four_times_is_identity() {
    for t in ALL_TYPES {
        for rot in 0..4u8 {
            let mut p = Piece::new(t);
            p.rotation = rot;
            let anchor = Position { row: 3, col: 3 };
            let before = p.get_filled_positions(&anchor);
            for _ in 0..4 {
                p.rotate_cw();
            }
            assert_eq!(p.rotation, rot);
            assert_eq!(p.get_filled_positions(&anchor), before);
        }
    }
}

#[test]
fn rotate_ccw_four_times_is_identity() {
    for t in ALL_TYPES {
        for rot in 0..4u8 {
            let mut p = Piece::new(t);
            p.rotation = rot;
            let anchor = Position { row: 3, col: 3 };
            let before = p.get_filled_positions(&anchor);
            for _ in 0..4 {
                p.rotate_ccw();
            }
            assert_eq!(p.rotation, rot);
            assert_eq!(p.get_filled_positions(&anchor), before);
        }
    }
}

#[test]
fn rotate_ccw_wraps_to_three() {
    // A true modulo: rotating counterclockwise from index 0 lands on 3.
    let mut p = Piece::new(PieceType::L);
    assert_eq!(p.rotation, 0);
    p.rotate_ccw();
    assert_eq!(p.rotation, 3);
    p.rotate_cw();
    assert_eq!(p.rotation, 0);
}

#[test]
fn rotate_cw_steps_through_all_indices() {
    let mut p = Piece::new(PieceType::S);
    p.rotate_cw();
    assert_eq!(p.rotation, 1);
    p.rotate_cw();
    assert_eq!(p.rotation, 2);
    p.rotate_cw();
    assert_eq!(p.rotation, 3);
    p.rotate_cw();
    assert_eq!(p.rotation, 0);
}
