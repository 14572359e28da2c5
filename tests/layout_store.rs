use chess::dbmu::{sort_dedup, Database, QueryError};
use chess::layout::{model_name, model_path, spawn_basic_chess_board, Side, Turn};
use chess::moves::PieceKind;

#[test]
fn starting_layout() {
    let l = spawn_basic_chess_board();
    assert_eq!(l.len(), 32);
    assert_eq!(l[0].kind, PieceKind::Rook);
    assert_eq!((l[0].x, l[0].z), (-21, 21));
    assert_eq!(l[3].kind, PieceKind::King);
    assert_eq!((l[3].x, l[3].hit_box_height), (-3, Some(18)));
    assert_eq!((l[4].kind, l[4].x, l[4].hit_box_height), (PieceKind::Queen, 3, Some(15)));
    assert_eq!(l[5].hit_box_height, Some(14));
    assert_eq!(l[6].turn, Turn::Left);
    assert_eq!((l[8].kind, l[8].x, l[8].z), (PieceKind::Pawn, -21, 15));
    assert_eq!((l[15].x, l[15].z), (21, 15));
    assert_eq!((l[16].side, l[16].z, l[16].hit_box_height), (Side::White, -21, None));
    assert_eq!(l[17].turn, Turn::Left);
    assert_eq!(l[22].turn, Turn::Right);
    assert_eq!((l[31].x, l[31].z), (21, -15));
    assert_eq!(l.iter().filter(|p| p.side == Side::Black).count(), 16);
}

#[test]
fn layout_names() {
    let l = spawn_basic_chess_board();
    assert_eq!(l[3].label(), "BLACK KING");
    assert_eq!(l[4].label(), "bqueen");
    assert_eq!(l[5].label(), "bbsishop");
    assert_eq!(l[0].label(), "BLACK ROOK");
    assert_eq!(l[7].label(), "brook");
    assert_eq!(l[9].label(), "bpawn");
    assert_eq!(l[19].label(), "white king");
    assert_eq!(model_path(Side::Black, PieceKind::King), "bking.glb#Scene0");
    assert_eq!(model_path(Side::White, PieceKind::Knight), "wknight.glb#Scene0");
    assert_eq!(model_name(Side::Black, PieceKind::Pawn), "black pawn");
    assert_eq!(PieceKind::Bishop.word(), "bishop");
}

#[test]
fn query_sorted_and_deduplicated() {
    let mut db = Database::new();
    db.insert_data(&"a".to_string());
    db.insert_data(&"b".to_string());
    assert_eq!(db.read_data(&"a|b".to_string()), Ok(vec!["a".to_string(), "b".to_string()]));
    let mut rev = Database::new();
    rev.insert_data(&"b".to_string());
    rev.insert_data(&"a".to_string());
    rev.insert_data(&"b".to_string());
    assert_eq!(rev.read_data(&"a|b".to_string()), Ok(vec!["a".to_string(), "b".to_string()]));
}

#[test]
fn query_whole_match_only() {
    let mut db = Database::new();
    db.insert_data(&"user=carol".to_string());
    db.insert_data(&"user=alice".to_string());
    db.insert_data(&"admin=bob".to_string());
    let r = db.read_data(&"user=(\\w+)".to_string()).unwrap();
    assert_eq!(r, vec!["user=alice".to_string(), "user=carol".to_string()]);
    assert_eq!(db.read_data(&"zzz".to_string()), Ok(vec![]));
}

#[test]
fn query_invalid_pattern() {
    let db = Database::new();
    assert_eq!(db.read_data(&"(".to_string()), Err(QueryError::InvalidPattern));
}

#[test]
fn sort_dedup_orders_by_character() {
    let v = vec!["b".to_string(), "ab".to_string(), "a".to_string(), "b".to_string(), "B".to_string()];
    assert_eq!(sort_dedup(&v), vec!["B".to_string(), "a".to_string(), "ab".to_string(), "b".to_string()]);
    assert_eq!(sort_dedup(&vec![]), Vec::<String>::new());
}

#[test]
fn insert_unique_twice() {
    let mut db = Database::new();
    db.insert_data_unique(&"x".to_string());
    db.insert_data_unique(&"x".to_string());
    assert_eq!(db.save_database(), "x\n");
    db.insert_data_unique(&"xy".to_string());
    db.insert_data_unique(&"y".to_string());
    assert_eq!(db.data, "x\nxy\n");
}

#[test]
fn insert_appends_newline() {
    let mut db = Database::new();
    db.insert_data(&"one".to_string());
    db.insert_data(&"one".to_string());
    assert_eq!(db.data, "one\none\n");
}

#[test]
fn save_then_load_round_trip() {
    let mut db = Database::new();
    db.insert_data(&"alpha".to_string());
    db.insert_data(&"beta".to_string());
    let saved = db.save_database();
    db.clear();
    assert_eq!(db.data, "");
    db.load_database(&saved);
    assert_eq!(db.data, "alpha\nbeta\n");
    db.load_database(&saved);
    assert_eq!(db.data, "alpha\nbeta\nalpha\nbeta\n");
}

#[test]
fn delete_removes_every_occurrence() {
    let mut db = Database::new();
    db.insert_data(&"xylophone".to_string());
    db.insert_data(&"box".to_string());
    db.insert_data(&"x".to_string());
    db.delete_data(&"x".to_string());
    assert_eq!(db.data, "ylophone\nbo\n\n");
    db.delete_data(&"bo\n".to_string());
    assert_eq!(db.data, "ylophone\n\n");
    db.delete_data(&"".to_string());
    assert_eq!(db.data, "ylophone\n\n");
}
