use chess::board::Position;
use chess::layout::{spawn_basic_chess_board, Side};
use chess::moves::Piece;
use chess::selection::{
    camera_focus, chess_data_piece, chess_data_square, chess_movement_script, purge_square_script,
    update_board_state, Controller, Game, MovementDataBase, PieceEntity, SquareMarker,
};

fn black_pieces() -> Vec<PieceEntity> {
    spawn_basic_chess_board()
        .iter()
        .filter(|p| p.side == Side::Black)
        .enumerate()
        .map(|(i, p)| PieceEntity {
            id: 100 + i as u64,
            name: p.label(),
            piece: Piece::new(p.kind),
            pos: Position { x: p.x, y: 0, z: p.z },
            selected: false,
        })
        .collect()
}

fn index_at(game: &Game, x: i32, z: i32) -> usize {
    game.pieces.iter().position(|e| e.pos.x == x && e.pos.z == z).unwrap()
}

#[test]
fn arm_then_square_relocates_once() {
    let mut game = Game::new(black_pieces());
    let pawn = index_at(&game, 3, 15);
    game.pieces[pawn].selected = true;
    game.frame();
    game.pieces[pawn].selected = false;
    assert!(game.controller.piece_flag);
    assert!(!game.controller.spawn_square_flag);
    let cells: Vec<(i32, i32)> = game.squares.iter().map(|s| (s.pos.x, s.pos.z)).collect();
    assert_eq!(cells, vec![(3, 9), (3, 3)]);
    assert_eq!(game.movement.piece_id, Some(game.pieces[pawn].id));

    game.squares[1].selected = true;
    game.frame();
    assert_eq!(game.pieces[pawn].pos, Position { x: 3, y: 0, z: 3 });
    assert_eq!(game.pieces[pawn].piece.move_count, 1);
    assert!(!game.controller.piece_flag);
    assert!(!game.controller.square_flag);
    assert!(game.controller.purge_square_flag);
    assert!(game.board.occupied(3, 3));
    assert!(!game.board.occupied(3, 15));

    // A further frame removes the markers and moves nothing again.
    game.frame();
    assert!(game.squares.is_empty());
    assert!(game.controller.spawn_square_flag);
    assert!(!game.controller.purge_square_flag);
    assert_eq!(game.pieces[pawn].pos, Position { x: 3, y: 0, z: 3 });
    assert_eq!(game.pieces[pawn].piece.move_count, 1);
}

#[test]
fn moved_pawn_has_single_step() {
    let mut game = Game::new(black_pieces());
    let pawn = index_at(&game, -9, 15);
    game.pieces[pawn].selected = true;
    game.frame();
    game.pieces[pawn].selected = false;
    game.squares[0].selected = true;
    game.frame();
    game.frame();
    game.pieces[pawn].selected = true;
    game.frame();
    let cells: Vec<(i32, i32)> = game.squares.iter().map(|s| (s.pos.x, s.pos.z)).collect();
    assert_eq!(cells, vec![(-9, 3)]);
}

#[test]
fn later_selection_replaces_armed_piece() {
    let mut game = Game::new(black_pieces());
    let first = index_at(&game, 3, 15);
    let second = index_at(&game, -15, 21);
    game.pieces[first].selected = true;
    game.frame();
    game.pieces[first].selected = false;
    game.pieces[second].selected = true;
    game.frame();
    game.pieces[second].selected = false;
    assert_eq!(game.movement.piece_id, Some(game.pieces[second].id));
    assert_eq!(game.movement.piece, Some(Position { x: -15, y: 0, z: 21 }));
    let cells: Vec<(i32, i32)> = game.squares.iter().map(|s| (s.pos.x, s.pos.z)).collect();
    assert_eq!(cells, vec![(-21, 9), (-9, 9)]);
    game.squares[1].selected = true;
    game.frame();
    assert_eq!(game.pieces[second].pos, Position { x: -9, y: 0, z: 9 });
    assert_eq!(game.pieces[first].pos, Position { x: 3, y: 0, z: 15 });
}

#[test]
fn square_ignored_while_nothing_armed() {
    let mut db = MovementDataBase::new();
    let mut ct = Controller::new();
    let squares = vec![SquareMarker { pos: Position { x: 3, y: 0, z: 9 }, selected: true }];
    chess_data_square(&mut db, &mut ct, &squares);
    assert_eq!(db, MovementDataBase::new());
    assert_eq!(ct, Controller::new());
    let mut pieces = black_pieces();
    chess_movement_script(&db, &mut ct, &mut pieces);
    assert_eq!(pieces[0].pos, Position { x: -21, y: 0, z: 21 });
    assert_eq!(camera_focus(&db, &ct), None);
}

#[test]
fn systems_step_by_step() {
    let mut pieces = black_pieces();
    let mut board = chess::board::BoardDataBase::new();
    update_board_state(&mut board, &pieces);
    let mut db = MovementDataBase::new();
    let mut ct = Controller::new();
    let mut squares = Vec::new();
    pieces[3].selected = true;
    chess_data_piece(&mut db, &mut ct, &pieces, &board, &mut squares);
    pieces[3].selected = false;
    assert_eq!(camera_focus(&db, &ct), Some((pieces[3].pos.x, 8, pieces[3].pos.z)));
    assert!(squares.is_empty());
    squares.push(SquareMarker { pos: Position { x: -3, y: 0, z: 3 }, selected: true });
    chess_data_square(&mut db, &mut ct, &squares);
    assert!(ct.square_flag);
    chess_movement_script(&db, &mut ct, &mut pieces);
    assert_eq!(pieces[3].pos, Position { x: -3, y: 0, z: 3 });
    assert_eq!(pieces[3].piece.move_count, 1);
    purge_square_script(&mut ct, &mut squares);
    assert!(squares.is_empty());
    assert_eq!(ct, Controller::new());
}

#[test]
fn first_selected_piece_armed_within_frame() {
    let mut game = Game::new(black_pieces());
    let first = index_at(&game, -15, 21);
    let second = index_at(&game, 3, 15);
    assert!(first < second);
    game.pieces[first].selected = true;
    game.pieces[second].selected = true;
    game.frame();
    assert_eq!(game.movement.piece_id, Some(game.pieces[first].id));
    let cells: Vec<(i32, i32)> = game.squares.iter().map(|s| (s.pos.x, s.pos.z)).collect();
    assert_eq!(cells, vec![(-21, 9), (-9, 9)]);
}
