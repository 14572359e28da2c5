use chess::board::{board_pos, chess_pos, BoardDataBase, BoardPos};
use chess::moves::{Piece, PieceKind};

fn occupancy(cells: &[(i32, i32)]) -> BoardDataBase {
    let mut db = BoardDataBase::new();
    for (x, z) in cells {
        db.insert(board_pos(*x as i64, *z as i64), "piece".to_string());
    }
    db
}

#[test]
fn chess_pos_corners() {
    assert_eq!(chess_pos(21, -21), "a1");
    assert_eq!(chess_pos(-21, 21), "h8");
    // X is mirrored: the left-hand corner from the white side is the h file.
    assert_eq!(chess_pos(-21, -21), "h1");
    assert_eq!(chess_pos(21, 21), "a8");
}

#[test]
fn chess_pos_rounds_halves_away_from_zero() {
    assert_eq!(chess_pos(0, 0), "e5");
    assert_eq!(chess_pos(-3, 21), "e8");
    assert_eq!(chess_pos(3, 15), "d7");
}

#[test]
fn chess_pos_off_board() {
    assert_eq!(chess_pos(0, -100), "e-12");
    assert_eq!(chess_pos(27, 27), "`9");
    assert_eq!(chess_pos(0, 45), "e12");
}

#[test]
fn chess_pos_monotonic_over_grid() {
    let mut prev_file = 0u8;
    for i in 0..8 {
        let p = board_pos(21 - 6 * i, 0);
        assert_eq!(p.file, b'a' + i as u8);
        assert!(p.file > prev_file);
        prev_file = p.file;
    }
    for j in 0..8 {
        let p = board_pos(0, -21 + 6 * j);
        assert_eq!(p.rank, 1 + j);
        assert_eq!(p.text(), format!("e{}", 1 + j));
    }
}

#[test]
fn occupancy_last_write_wins() {
    let mut db = BoardDataBase::new();
    let p = BoardPos { file: b'a', rank: 1 };
    assert!(!db.contains_key(p));
    db.insert(p, "first".to_string());
    db.insert(p, "second".to_string());
    assert!(db.contains_key(p));
    assert!(db.occupied(21, -21));
    assert!(!db.occupied(15, -21));
}

#[test]
fn rook_on_empty_board() {
    let rook = Piece::new(PieceKind::Rook);
    let moves = rook.possible_moves(0, 0, 6, &BoardDataBase::new());
    assert_eq!(
        moves,
        vec![
            (0, 6), (0, 12), (0, 18),
            (0, -6), (0, -12), (0, -18),
            (6, 0), (12, 0), (18, 0),
            (-6, 0), (-12, 0), (-18, 0),
        ]
    );
    for (x, z) in moves {
        assert!(x.abs() <= 21 && z.abs() <= 21);
    }
}

#[test]
fn rook_ray_stops_before_blocker() {
    let rook = Piece::new(PieceKind::Rook);
    let db = occupancy(&[(3, 9)]);
    let moves = rook.possible_moves(3, -9, 6, &db);
    assert_eq!(
        moves,
        vec![(3, -3), (3, 3), (3, -15), (3, -21), (9, -9), (15, -9), (21, -9), (-3, -9), (-9, -9), (-15, -9), (-21, -9)]
    );
}

#[test]
fn bishop_rays_guard_only_z() {
    let bishop = Piece::new(PieceKind::Bishop);
    let moves = bishop.possible_moves(-21, 21, -6, &BoardDataBase::new());
    assert_eq!(moves, vec![(-15, 15), (-9, 9), (-3, 3), (3, -3), (9, -9), (15, -15), (21, -21)]);
}

#[test]
fn queen_combines_rook_and_bishop() {
    let queen = Piece::new(PieceKind::Queen);
    let occ = occupancy(&[(3, 15), (-3, 15), (9, 15), (-3, 21), (9, 21)]);
    let moves = queen.possible_moves(3, 21, -6, &occ);
    assert!(moves.is_empty());
    let free = queen.possible_moves(3, 21, -6, &BoardDataBase::new());
    assert_eq!(free.len(), 7 + 4 + 3 + 4 + 3);
}

#[test]
fn king_steps_one_cell() {
    let king = Piece::new(PieceKind::King);
    let moves = king.possible_moves(-3, 21, -6, &occupancy(&[(-9, 21)]));
    assert_eq!(moves, vec![(3, 21), (-9, 15), (3, 15), (-3, 15)]);
}

#[test]
fn pawn_double_step_only_first_move() {
    let mut pawn = Piece::new(PieceKind::Pawn);
    let empty = BoardDataBase::new();
    assert_eq!(pawn.possible_moves(3, 15, -6, &empty), vec![(3, 9), (3, 3)]);
    pawn.move_count = 1;
    assert_eq!(pawn.possible_moves(3, 9, -6, &empty), vec![(3, 3)]);
}

#[test]
fn pawn_double_step_blocked_by_piece_in_between() {
    let pawn = Piece::new(PieceKind::Pawn);
    assert_eq!(pawn.possible_moves(3, 15, -6, &occupancy(&[(3, 9)])), vec![]);
    assert_eq!(pawn.possible_moves(3, 15, -6, &occupancy(&[(3, 3)])), vec![(3, 9)]);
}

#[test]
fn knight_jumps_over_pieces() {
    let knight = Piece::new(PieceKind::Knight);
    let pawns: Vec<(i32, i32)> = (0..8).map(|i| (-21 + 6 * i, 15)).collect();
    let mut cells = pawns.clone();
    cells.push((-21, 21));
    cells.push((-9, 21));
    let moves = knight.possible_moves(-15, 21, -6, &occupancy(&cells));
    assert_eq!(moves, vec![(-21, 9), (-9, 9)]);
    let open = knight.possible_moves(-3, -3, 6, &BoardDataBase::new());
    assert_eq!(open.len(), 8);
}
