//! World coordinates, algebraic board positions and the occupancy map.
//!
//! The board spans world coordinates -21 to 21 on X and Z in steps of 6:
//! eight cells of six units, centred on the origin. Positions on it are whole
//! world units.
use vstd::prelude::*;
use crate::text::{decimal, push_char, push_decimal};
use vstd::arithmetic::div_mod::{lemma_div_is_ordered, lemma_div_multiples_vanish_fancy};

verus! {

/// A world translation in whole units (Y is height above the board).
#[derive(Clone, Copy, Debug, PartialEq, Eq, Structural)]
pub struct Position {
    pub x: i32,
    pub y: i32,
    pub z: i32,
}

/// `n / 6` rounded to the nearest integer, halves away from zero.
pub open spec fn round_sixth(n: int) -> int {
    if n >= 0 {
        (n + 3) / 6
    } else {
        -((-n + 3) / 6)
    }
}

/// Zero-based file index of world X: the board is mirrored, so X = 21 is file `a`.
pub open spec fn file_index(x: int) -> int {
    round_sixth(21 - x)
}

/// Rank number of world Z: Z = -21 is rank 1.
pub open spec fn rank_of(z: int) -> int {
    round_sixth(z + 21) + 1
}

/// Byte code of the file letter: `a` plus the file index, held to `0..=255`.
pub open spec fn file_code(x: int) -> int {
    let c = 97 + file_index(x);
    if c < 0 { 0 } else if c > 255 { 255 } else { c }
}

/// An algebraic board position: a file letter code and a rank number.
/// Off-board coordinates give codes and ranks outside `a..=h` and `1..=8`.
#[derive(Clone, Copy, Debug, PartialEq, Eq, Structural)]
pub struct BoardPos {
    pub file: u8,
    pub rank: i64,
}

/// The board position of world coordinates (X, Z).
pub open spec fn board_pos_of(x: int, z: int) -> BoardPos {
    BoardPos { file: file_code(x) as u8, rank: rank_of(z) as i64 }
}

/// Text of a position: the file letter, then the rank in decimal.
pub open spec fn pos_text(p: BoardPos) -> Seq<char> {
    seq![(p.file as char)] + decimal(p.rank as int)
}

/// `n / 6` rounded, halves away from zero.
fn round_sixth_exec(n: i64) -> (r: i64)
    requires
        -0x100_0000_0000 <= n <= 0x100_0000_0000,
    ensures
        r == round_sixth(n as int),
{
    if n >= 0 {
        (n + 3) / 6
    } else {
        -((-n + 3) / 6)
    }
}

/// The board position of world coordinates (X, Z).
pub fn board_pos(x: i64, z: i64) -> (p: BoardPos)
    requires
        -0x80_0000_0000 <= x <= 0x80_0000_0000,
        -0x80_0000_0000 <= z <= 0x80_0000_0000,
    ensures
        p == board_pos_of(x as int, z as int),
{
    let f = round_sixth_exec(21 - x);
    let c: i64 = 97 + f;
    let code: u8 = if c < 0 { 0 } else if c > 255 { 255 } else { c as u8 };
    let rank = round_sixth_exec(z + 21) + 1;
    BoardPos { file: code, rank }
}

impl BoardPos {
    /// The position as text, for example `a1` or `h8`.
    pub fn text(&self) -> (s: String)
        ensures
            s@ == pos_text(*self),
    {
        let mut s = String::new();
        push_char(&mut s, self.file as char);
        push_decimal(&mut s, self.rank);
        assert(s@ =~= pos_text(*self));
        s
    }
}

/// The algebraic position of world coordinates (X, Z): X is mirrored, the
/// file is `round((21 - X) / 6)` counted from `a`, the rank `round((Z + 21) / 6) + 1`.
pub fn chess_pos(x: i32, z: i32) -> (s: String)
    ensures
        s@ == pos_text(board_pos_of(x as int, z as int)),
{
    board_pos(x as i64, z as i64).text()
}

/// Rounding a sixth never decreases as its argument grows.
pub proof fn lemma_round_sixth_monotonic(a: int, b: int)
    requires
        a <= b,
    ensures
        round_sixth(a) <= round_sixth(b),
{
    if a >= 0 {
        lemma_div_is_ordered(a + 3, b + 3, 6);
    } else if b < 0 {
        lemma_div_is_ordered(-b + 3, -a + 3, 6);
    } else {
        lemma_div_is_ordered(0, -a + 3, 6);
        lemma_div_is_ordered(0, b + 3, 6);
    }
}

/// The cell centres of the board map onto the 64 positions: the `i`-th
/// column from X = 21 is file `a` plus `i`, the `j`-th row from Z = -21 is
/// rank `j + 1`.
pub proof fn lemma_chess_pos_grid(i: int, j: int)
    requires
        0 <= i < 8,
        0 <= j < 8,
    ensures
        board_pos_of(21 - 6 * i, -21 + 6 * j) == (BoardPos { file: (97 + i) as u8, rank: (1 + j) as i64 }),
{
    lemma_div_multiples_vanish_fancy(i, 3, 6);
    lemma_div_multiples_vanish_fancy(j, 3, 6);
}

/// Positions are monotonic in each axis: the file letter never rises as X
/// grows (the board is mirrored), the rank never falls as Z grows.
pub proof fn lemma_chess_pos_monotonic(x1: int, x2: int, z1: int, z2: int)
    requires
        x1 <= x2,
        z1 <= z2,
    ensures
        file_code(x2) <= file_code(x1),
        rank_of(z1) <= rank_of(z2),
{
    lemma_round_sixth_monotonic(21 - x2, 21 - x1);
    lemma_round_sixth_monotonic(z1 + 21, z2 + 21);
}

/// The corner cells read `a1` (X = 21, Z = -21) and `h8` (X = -21, Z = 21).
pub proof fn lemma_chess_pos_corners()
    ensures
        pos_text(board_pos_of(21, -21)) == "a1"@,
        pos_text(board_pos_of(-21, 21)) == "h8"@,
{
    reveal_strlit("a1");
    reveal_strlit("h8");
    lemma_chess_pos_grid(0, 0);
    lemma_chess_pos_grid(7, 7);
    assert(decimal(1) =~= seq!['1']);
    assert(decimal(8) =~= seq!['8']);
    assert(pos_text(board_pos_of(21, -21)) =~= "a1"@);
    assert(pos_text(board_pos_of(-21, 21)) =~= "h8"@);
}

/// The occupancy map built from a list of (position, name) records, in order:
/// a later record for the same position replaces an earlier one.
pub open spec fn occupancy_map(s: Seq<(BoardPos, String)>) -> Map<BoardPos, Seq<char>>
    decreases s.len(),
{
    if s.len() == 0 {
        Map::empty()
    } else {
        occupancy_map(s.drop_last()).insert(s.last().0, s.last().1@)
    }
}

/// A position lies in the occupancy map exactly when some record names it.
pub proof fn lemma_occupancy_dom(s: Seq<(BoardPos, String)>, p: BoardPos)
    ensures
        occupancy_map(s).dom().contains(p) <==> exists|i: int| 0 <= i < s.len() && s[i].0 == p,
    decreases s.len(),
{
    if s.len() > 0 {
        lemma_occupancy_dom(s.drop_last(), p);
        if occupancy_map(s.drop_last()).dom().contains(p) {
            let i = choose|i: int| 0 <= i < s.drop_last().len() && s.drop_last()[i].0 == p;
            assert(s[i].0 == p);
        }
        if exists|i: int| 0 <= i < s.len() && s[i].0 == p {
            let i = choose|i: int| 0 <= i < s.len() && s[i].0 == p;
            if i < s.len() - 1 {
                assert(s.drop_last()[i].0 == p);
            }
        }
    }
}

/// The board occupancy: which piece name stands on which position.
pub struct BoardDataBase {
    pub data: Vec<(BoardPos, String)>,
}

impl View for BoardDataBase {
    type V = Map<BoardPos, Seq<char>>;

    open spec fn view(&self) -> Map<BoardPos, Seq<char>> {
        occupancy_map(self.data@)
    }
}

impl BoardDataBase {
    /// An empty map.
    pub fn new() -> (db: BoardDataBase)
        ensures
            db@ == Map::<BoardPos, Seq<char>>::empty(),
    {
        BoardDataBase { data: Vec::new() }
    }

    /// Records `name` at `pos`, replacing what stood there.
    pub fn insert(&mut self, pos: BoardPos, name: String)
        ensures
            final(self)@ == old(self)@.insert(pos, name@),
    {
        self.data.push((pos, name));
        assert(final(self).data@.drop_last() =~= old(self).data@);
    }

    /// Whether a piece stands at `pos`.
    pub fn contains_key(&self, pos: BoardPos) -> (r: bool)
        ensures
            r == self@.dom().contains(pos),
    {
        proof { lemma_occupancy_dom(self.data@, pos); }
        let mut i: usize = 0;
        while i < self.data.len()
            invariant
                0 <= i <= self.data@.len(),
                forall|j: int| 0 <= j < i ==> self.data@[j].0 != pos,
            decreases self.data@.len() - i,
        {
            if self.data[i].0 == pos {
                assert(self.data@[i as int].0 == pos);
                proof { lemma_occupancy_dom(self.data@, pos); }
                return true;
            }
            i = i + 1;
        }
        false
    }

    /// Whether a piece stands at world coordinates (X, Z).
    pub fn occupied(&self, x: i64, z: i64) -> (r: bool)
        requires
            -0x80_0000_0000 <= x <= 0x80_0000_0000,
            -0x80_0000_0000 <= z <= 0x80_0000_0000,
        ensures
            r == self@.dom().contains(board_pos_of(x as int, z as int)),
    {
        self.contains_key(board_pos(x, z))
    }
}

} // verus!
