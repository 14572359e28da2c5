//! The starting scene: where each piece stands, how its pickable hit-box is
//! shaped, which way its model faces, and which model file it shows.
use vstd::prelude::*;
use crate::moves::PieceKind;

verus! {

/// The side a piece plays for. Only black pieces are interactive.
#[derive(Clone, Copy, Debug, PartialEq, Eq, Structural)]
pub enum Side {
    White,
    Black,
}

/// Which way a model is turned about the vertical axis: not at all, or
/// 1.5 radians one way or the other.
#[derive(Clone, Copy, Debug, PartialEq, Eq, Structural)]
pub enum Turn {
    Straight,
    Left,
    Right,
}

/// One piece of the starting scene. Interactive pieces have a pickable
/// hit-box three units wide and deep and `hit_box_height` tall.
#[derive(Clone, Copy, Debug, PartialEq, Eq, Structural)]
pub struct Placement {
    pub side: Side,
    pub kind: PieceKind,
    pub x: i32,
    pub z: i32,
    pub hit_box_height: Option<u32>,
    pub turn: Turn,
}

/// The kind on the back rank's `i`-th file, counted from X = -21.
pub open spec fn back_rank_kind(i: int) -> PieceKind {
    if i == 0 || i == 7 {
        PieceKind::Rook
    } else if i == 1 || i == 6 {
        PieceKind::Knight
    } else if i == 2 || i == 5 {
        PieceKind::Bishop
    } else if i == 3 {
        PieceKind::King
    } else {
        PieceKind::Queen
    }
}

/// The hit-box height of an interactive piece of the given kind.
pub open spec fn hit_box_height(k: PieceKind) -> u32 {
    match k {
        PieceKind::King => 18,
        PieceKind::Queen => 15,
        PieceKind::Bishop => 14,
        _ => 10,
    }
}

/// Black knights, rooks and pawns are turned; the others face straight.
pub open spec fn black_turn(k: PieceKind) -> Turn {
    match k {
        PieceKind::Knight | PieceKind::Rook | PieceKind::Pawn => Turn::Left,
        _ => Turn::Straight,
    }
}

/// White knights are turned towards the centre; the others face straight.
pub open spec fn white_turn(i: int) -> Turn {
    if i == 1 { Turn::Left } else if i == 6 { Turn::Right } else { Turn::Straight }
}

/// The `i`-th placement of the starting scene: the black back rank from
/// X = -21 to 21 at Z = 21, the black pawns at Z = 15, then the white back
/// rank at Z = -21 and the white pawns at Z = -15, each without a hit-box.
pub open spec fn starting_placement(i: int) -> Placement {
    let f = i % 8;
    let x = (-21 + 6 * f) as i32;
    if i < 8 {
        Placement { side: Side::Black, kind: back_rank_kind(f), x, z: 21,
            hit_box_height: Some(hit_box_height(back_rank_kind(f))), turn: black_turn(back_rank_kind(f)) }
    } else if i < 16 {
        Placement { side: Side::Black, kind: PieceKind::Pawn, x, z: 15,
            hit_box_height: Some(10), turn: Turn::Left }
    } else if i < 24 {
        Placement { side: Side::White, kind: back_rank_kind(f), x, z: -21i32, hit_box_height: None, turn: white_turn(f) }
    } else {
        Placement { side: Side::White, kind: PieceKind::Pawn, x, z: -15i32, hit_box_height: None, turn: Turn::Straight }
    }
}

fn back_rank_kind_exec(i: i32) -> (k: PieceKind)
    ensures
        k == back_rank_kind(i as int),
{
    if i == 0 || i == 7 {
        PieceKind::Rook
    } else if i == 1 || i == 6 {
        PieceKind::Knight
    } else if i == 2 || i == 5 {
        PieceKind::Bishop
    } else if i == 3 {
        PieceKind::King
    } else {
        PieceKind::Queen
    }
}

fn hit_box_height_exec(k: PieceKind) -> (h: u32)
    ensures
        h == hit_box_height(k),
{
    match k {
        PieceKind::King => 18,
        PieceKind::Queen => 15,
        PieceKind::Bishop => 14,
        _ => 10,
    }
}

fn black_turn_exec(k: PieceKind) -> (t: Turn)
    ensures
        t == black_turn(k),
{
    match k {
        PieceKind::Knight | PieceKind::Rook | PieceKind::Pawn => Turn::Left,
        _ => Turn::Straight,
    }
}

fn white_turn_exec(i: i32) -> (t: Turn)
    ensures
        t == white_turn(i as int),
{
    if i == 1 { Turn::Left } else if i == 6 { Turn::Right } else { Turn::Straight }
}

/// The 32 pieces of the starting scene, in the order of `starting_placement`.
pub fn spawn_basic_chess_board() -> (r: Vec<Placement>)
    ensures
        r@.len() == 32,
        forall|i: int| 0 <= i < 32 ==> #[trigger] r@[i] == starting_placement(i),
{
    let mut r: Vec<Placement> = Vec::new();
    let mut group: i32 = 0;
    while group < 4
        invariant
            0 <= group <= 4,
            r@.len() == 8 * group,
            forall|i: int| 0 <= i < r@.len() ==> #[trigger] r@[i] == starting_placement(i),
        decreases 4 - group,
    {
        let mut f: i32 = 0;
        while f < 8
            invariant
                0 <= group < 4,
                0 <= f <= 8,
                r@.len() == 8 * group + f,
                forall|i: int| 0 <= i < r@.len() ==> #[trigger] r@[i] == starting_placement(i),
            decreases 8 - f,
        {
            let x = -21 + 6 * f;
            let back = back_rank_kind_exec(f);
            let p = if group == 0 {
                Placement { side: Side::Black, kind: back, x, z: 21,
                    hit_box_height: Some(hit_box_height_exec(back)), turn: black_turn_exec(back) }
            } else if group == 1 {
                Placement { side: Side::Black, kind: PieceKind::Pawn, x, z: 15, hit_box_height: Some(10), turn: Turn::Left }
            } else if group == 2 {
                Placement { side: Side::White, kind: back, x, z: -21, hit_box_height: None, turn: white_turn_exec(f) }
            } else {
                Placement { side: Side::White, kind: PieceKind::Pawn, x, z: -15, hit_box_height: None, turn: Turn::Straight }
            };
            let ghost n = r@.len() as int;
            assert(n % 8 == f as int && (n < 8 <==> group == 0) && (n < 16 <==> group <= 1) && (n < 24 <==> group <= 2))
                by (nonlinear_arith)
                requires
                    n == 8 * group + f,
                    0 <= f < 8,
                    0 <= group < 4,
            ;
            r.push(p);
            assert(r@[n] == starting_placement(n));
            f = f + 1;
        }
        group = group + 1;
    }
    r
}

/// The lower-case word for a piece kind.
pub open spec fn kind_word(k: PieceKind) -> Seq<char> {
    match k {
        PieceKind::King => "king"@,
        PieceKind::Queen => "queen"@,
        PieceKind::Rook => "rook"@,
        PieceKind::Bishop => "bishop"@,
        PieceKind::Knight => "knight"@,
        PieceKind::Pawn => "pawn"@,
    }
}

/// The lower-case word for a side.
pub open spec fn side_word(s: Side) -> Seq<char> {
    match s {
        Side::White => "white"@,
        Side::Black => "black"@,
    }
}

/// The one-letter prefix of a side's model files.
pub open spec fn side_letter(s: Side) -> Seq<char> {
    match s {
        Side::White => "w"@,
        Side::Black => "b"@,
    }
}

/// The asset path of a piece model: side letter, kind word, `.glb`, scene 0.
pub open spec fn model_path_text(side: Side, k: PieceKind) -> Seq<char> {
    side_letter(side) + kind_word(k) + ".glb#Scene0"@
}

/// The display name of a piece model, such as `black king`.
pub open spec fn model_name_text(side: Side, k: PieceKind) -> Seq<char> {
    side_word(side) + " "@ + kind_word(k)
}

/// The name of a placed piece: its hit-box label for black pieces (as
/// authored, with uneven capitals), its model name for white pieces.
pub open spec fn label_text(p: Placement) -> Seq<char> {
    match p.side {
        Side::White => model_name_text(p.side, p.kind),
        Side::Black => match p.kind {
            PieceKind::King => "BLACK KING"@,
            PieceKind::Queen => "bqueen"@,
            PieceKind::Bishop => if p.x < 0 { "bbishop"@ } else { "bbsishop"@ },
            PieceKind::Knight => if p.x < 0 { "BLACK KNIGHT"@ } else { "bknight"@ },
            PieceKind::Rook => if p.x < 0 { "BLACK ROOK"@ } else { "brook"@ },
            PieceKind::Pawn => "bpawn"@,
        },
    }
}

impl PieceKind {
    /// The lower-case word for this kind, such as `knight`.
    pub fn word(&self) -> (r: String)
        ensures
            r@ == kind_word(*self),
    {
        match self {
            PieceKind::King => String::from_str("king"),
            PieceKind::Queen => String::from_str("queen"),
            PieceKind::Rook => String::from_str("rook"),
            PieceKind::Bishop => String::from_str("bishop"),
            PieceKind::Knight => String::from_str("knight"),
            PieceKind::Pawn => String::from_str("pawn"),
        }
    }
}

/// The asset path of a piece model, such as `bking.glb#Scene0`.
pub fn model_path(side: Side, kind: PieceKind) -> (r: String)
    ensures
        r@ == model_path_text(side, kind),
{
    let mut r = match side {
        Side::White => String::from_str("w"),
        Side::Black => String::from_str("b"),
    };
    let w = kind.word();
    r.append(w.as_str());
    r.append(".glb#Scene0");
    r
}

/// The display name of a piece model, such as `black king`.
pub fn model_name(side: Side, kind: PieceKind) -> (r: String)
    ensures
        r@ == model_name_text(side, kind),
{
    let mut r = match side {
        Side::White => String::from_str("white"),
        Side::Black => String::from_str("black"),
    };
    r.append(" ");
    let w = kind.word();
    r.append(w.as_str());
    r
}

impl Placement {
    /// The name the placed piece carries in the scene and the occupancy map.
    pub fn label(&self) -> (r: String)
        ensures
            r@ == label_text(*self),
    {
        match self.side {
            Side::White => model_name(self.side, self.kind),
            Side::Black => match self.kind {
                PieceKind::King => String::from_str("BLACK KING"),
                PieceKind::Queen => String::from_str("bqueen"),
                PieceKind::Bishop => if self.x < 0 { String::from_str("bbishop") } else { String::from_str("bbsishop") },
                PieceKind::Knight => if self.x < 0 { String::from_str("BLACK KNIGHT") } else { String::from_str("bknight") },
                PieceKind::Rook => if self.x < 0 { String::from_str("BLACK ROOK") } else { String::from_str("brook") },
                PieceKind::Pawn => String::from_str("bpawn"),
            },
        }
    }
}

} // verus!
