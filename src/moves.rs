//! Per-piece move generation: the geometric destinations of a piece, filtered
//! against the board edge and the occupancy map.
use vstd::prelude::*;
use crate::board::{board_pos_of, BoardDataBase, BoardPos};

verus! {

/// The kind of a chess piece.
#[derive(Clone, Copy, Debug, PartialEq, Eq, Structural)]
pub enum PieceKind {
    King,
    Queen,
    Rook,
    Bishop,
    Knight,
    Pawn,
}

/// A piece: its kind and how many relocations it has made.
#[derive(Clone, Copy, Debug, PartialEq, Eq, Structural)]
pub struct Piece {
    pub kind: PieceKind,
    pub move_count: u64,
}

/// Rays stop once the guarded coordinate leaves -24..=24, one cell beyond
/// the playable edge; the final filter then applies the true edge, 21.
pub const RAY_LIMIT: i64 = 24;

/// Absolute value.
pub open spec fn abs(v: int) -> int {
    if v < 0 { -v } else { v }
}

/// Whether world cell (X, Z) is taken in the occupancy map.
pub open spec fn occupied(occ: Map<BoardPos, Seq<char>>, x: int, z: int) -> bool {
    occ.dom().contains(board_pos_of(x, z))
}

/// The cells of a ray from (X, Z) in steps of (dx, dz), from step `k` on. It
/// ends before the first occupied cell, or before the first cell whose
/// guarded coordinate (X when `guard_x`, else Z) lies beyond the ray limit.
pub open spec fn ray(
    occ: Map<BoardPos, Seq<char>>,
    x: int,
    z: int,
    dx: int,
    dz: int,
    guard_x: bool,
    k: int,
) -> Seq<(int, int)>
    decreases (if guard_x { 30 + abs(x) } else { 30 + abs(z) }) - 6 * k,
{
    let px = x + k * dx;
    let pz = z + k * dz;
    let g = if guard_x { px } else { pz };
    let dg = if guard_x { dx } else { dz };
    if !(dg == 6 || dg == -6) || k < 1 {
        seq![]
    } else if occupied(occ, px, pz) || abs(g) > 24 {
        seq![]
    } else {
        seq![(px, pz)] + ray(occ, x, z, dx, dz, guard_x, k + 1)
    }
}

/// The four orthogonal rays: forward, back, right, left.
pub open spec fn orthogonal_rays(occ: Map<BoardPos, Seq<char>>, x: int, z: int, o: int) -> Seq<(int, int)> {
    ray(occ, x, z, 0, o, false, 1) + ray(occ, x, z, 0, -o, false, 1) + ray(occ, x, z, o, 0, true, 1)
        + ray(occ, x, z, -o, 0, true, 1)
}

/// The four diagonal rays, each guarded on Z.
pub open spec fn diagonal_rays(occ: Map<BoardPos, Seq<char>>, x: int, z: int, o: int) -> Seq<(int, int)> {
    ray(occ, x, z, o, o, false, 1) + ray(occ, x, z, -o, o, false, 1) + ray(occ, x, z, o, -o, false, 1)
        + ray(occ, x, z, -o, -o, false, 1)
}

/// The destinations a piece at (X, Z) reaches with forward offset `o`, in
/// order, before the final filter.
pub open spec fn candidates(piece: Piece, x: int, z: int, o: int, occ: Map<BoardPos, Seq<char>>) -> Seq<(int, int)> {
    match piece.kind {
        PieceKind::King => seq![
            (x + o, z), (x - o, z), (x + o, z + o), (x - o, z + o),
            (x + o, z - o), (x - o, z - o), (x, z + o), (x, z - o),
        ],
        PieceKind::Queen => orthogonal_rays(occ, x, z, o) + diagonal_rays(occ, x, z, o),
        PieceKind::Rook => orthogonal_rays(occ, x, z, o),
        PieceKind::Bishop => diagonal_rays(occ, x, z, o),
        PieceKind::Knight => seq![
            (x + o, z + 2 * o), (x - o, z + 2 * o), (x + o, z - 2 * o), (x - o, z - 2 * o),
            (x + 2 * o, z + o), (x - 2 * o, z + o), (x + 2 * o, z - o), (x - 2 * o, z - o),
        ],
        PieceKind::Pawn => if piece.move_count == 0 && !occupied(occ, x, z + o) {
            seq![(x, z + o), (x, z + 2 * o)]
        } else {
            seq![(x, z + o)]
        },
    }
}

/// A destination survives the final filter when its cell is free and both
/// coordinates lie within the playable edge.
pub open spec fn legal_target(occ: Map<BoardPos, Seq<char>>, p: (int, int)) -> bool {
    !occupied(occ, p.0, p.1) && abs(p.0) <= 21 && abs(p.1) <= 21
}

/// The destinations of `s` that survive the final filter, in order.
pub open spec fn keep_legal(occ: Map<BoardPos, Seq<char>>, s: Seq<(int, int)>) -> Seq<(int, int)>
    decreases s.len(),
{
    if s.len() == 0 {
        seq![]
    } else if legal_target(occ, s.last()) {
        keep_legal(occ, s.drop_last()).push(s.last())
    } else {
        keep_legal(occ, s.drop_last())
    }
}

/// The legal destinations of a piece at (X, Z) with forward offset `o`.
pub open spec fn legal_moves(piece: Piece, x: int, z: int, o: int, occ: Map<BoardPos, Seq<char>>) -> Seq<(int, int)> {
    keep_legal(occ, candidates(piece, x, z, o, occ))
}

/// Integer view of a list of coordinate pairs.
pub open spec fn pairs64(s: Seq<(i64, i64)>) -> Seq<(int, int)> {
    s.map_values(|p: (i64, i64)| (p.0 as int, p.1 as int))
}

/// Integer view of a list of coordinate pairs.
pub open spec fn pairs32(s: Seq<(i32, i32)>) -> Seq<(int, int)> {
    s.map_values(|p: (i32, i32)| (p.0 as int, p.1 as int))
}

fn push_pair(out: &mut Vec<(i64, i64)>, x: i64, z: i64)
    ensures
        pairs64(final(out)@) == pairs64(old(out)@).push((x as int, z as int)),
{
    out.push((x, z));
    assert(pairs64(final(out)@) =~= pairs64(old(out)@).push((x as int, z as int)));
}

/// Appends the cells of the ray from (X, Z) in steps of (dx, dz).
fn cast_ray(
    out: &mut Vec<(i64, i64)>,
    x: i64,
    z: i64,
    dx: i64,
    dz: i64,
    guard_x: bool,
    db: &BoardDataBase,
)
    requires
        -0x8000_0000 <= x <= 0x8000_0000,
        -0x8000_0000 <= z <= 0x8000_0000,
        dx == 0 || dx == 6 || dx == -6,
        dz == 0 || dz == 6 || dz == -6,
        if guard_x { dx != 0 } else { dz != 0 },
    ensures
        pairs64(final(out)@) == pairs64(old(out)@) + ray(db@, x as int, z as int, dx as int, dz as int, guard_x, 1),
{
    let ghost g0: int = if guard_x { x as int } else { z as int };
    let ghost whole = ray(db@, x as int, z as int, dx as int, dz as int, guard_x, 1);
    let mut k: i64 = 1;
    assert(pairs64(out@) + whole =~= pairs64(old(out)@) + whole);
    loop
        invariant
            1 <= k,
            6 * k <= 30 + abs(g0),
            g0 == if guard_x { x as int } else { z as int },
            -0x8000_0000 <= x <= 0x8000_0000,
            -0x8000_0000 <= z <= 0x8000_0000,
            dx == 0 || dx == 6 || dx == -6,
            dz == 0 || dz == 6 || dz == -6,
            if guard_x { dx != 0 } else { dz != 0 },
            whole == ray(db@, x as int, z as int, dx as int, dz as int, guard_x, 1),
            pairs64(out@) + ray(db@, x as int, z as int, dx as int, dz as int, guard_x, k as int)
                == pairs64(old(out)@) + whole,
        ensures
            pairs64(out@) == pairs64(old(out)@) + whole,
        decreases 30 + abs(g0) - 6 * k,
    {
        assert(-0x8_0000_0000 <= k * dx <= 0x8_0000_0000 && -0x8_0000_0000 <= k * dz <= 0x8_0000_0000)
            by (nonlinear_arith)
            requires
                1 <= k,
                6 * k <= 30 + 0x8000_0000,
                dx == 0 || dx == 6 || dx == -6,
                dz == 0 || dz == 6 || dz == -6,
        ;
        let px = x + k * dx;
        let pz = z + k * dz;
        let g = if guard_x { px } else { pz };
        if db.occupied(px, pz) || g > RAY_LIMIT || g < -RAY_LIMIT {
            assert(ray(db@, x as int, z as int, dx as int, dz as int, guard_x, k as int) =~= seq![]);
            assert(pairs64(out@) + seq![] =~= pairs64(out@));
            break;
        }
        let ghost before = pairs64(out@);
        push_pair(out, px, pz);
        assert(pairs64(out@) + ray(db@, x as int, z as int, dx as int, dz as int, guard_x, k + 1)
            =~= before + ray(db@, x as int, z as int, dx as int, dz as int, guard_x, k as int));
        assert(6 * (k + 1) <= 30 + abs(g0)) by (nonlinear_arith)
            requires
                -24 <= g <= 24,
                g == g0 + k * (if guard_x { dx } else { dz }),
                (if guard_x { dx } else { dz }) == 6 || (if guard_x { dx } else { dz }) == -6,
                1 <= k,
        ;
        k = k + 1;
    }
}

fn cast_orthogonal_rays(out: &mut Vec<(i64, i64)>, x: i64, z: i64, o: i64, db: &BoardDataBase)
    requires
        -0x8000_0000 <= x <= 0x8000_0000,
        -0x8000_0000 <= z <= 0x8000_0000,
        o == 6 || o == -6,
    ensures
        pairs64(final(out)@) == pairs64(old(out)@) + orthogonal_rays(db@, x as int, z as int, o as int),
{
    cast_ray(out, x, z, 0, o, false, db);
    cast_ray(out, x, z, 0, -o, false, db);
    cast_ray(out, x, z, o, 0, true, db);
    cast_ray(out, x, z, -o, 0, true, db);
    assert(pairs64(out@) =~= pairs64(old(out)@) + orthogonal_rays(db@, x as int, z as int, o as int));
}

fn cast_diagonal_rays(out: &mut Vec<(i64, i64)>, x: i64, z: i64, o: i64, db: &BoardDataBase)
    requires
        -0x8000_0000 <= x <= 0x8000_0000,
        -0x8000_0000 <= z <= 0x8000_0000,
        o == 6 || o == -6,
    ensures
        pairs64(final(out)@) == pairs64(old(out)@) + diagonal_rays(db@, x as int, z as int, o as int),
{
    cast_ray(out, x, z, o, o, false, db);
    cast_ray(out, x, z, -o, o, false, db);
    cast_ray(out, x, z, o, -o, false, db);
    cast_ray(out, x, z, -o, -o, false, db);
    assert(pairs64(out@) =~= pairs64(old(out)@) + diagonal_rays(db@, x as int, z as int, o as int));
}

/// The destinations of `cands` that survive the final filter.
fn filter_legal(cands: &Vec<(i64, i64)>, db: &BoardDataBase) -> (r: Vec<(i32, i32)>)
    requires
        within(pairs64(cands@), 0x40_0000_0000),
    ensures
        pairs32(r@) == keep_legal(db@, pairs64(cands@)),
{
    let mut r: Vec<(i32, i32)> = Vec::new();
    let mut i: usize = 0;
    assert(pairs32(r@) =~= keep_legal(db@, pairs64(cands@).take(0)));
    while i < cands.len()
        invariant
            0 <= i <= cands@.len(),
            within(pairs64(cands@), 0x40_0000_0000),
            pairs32(r@) == keep_legal(db@, pairs64(cands@).take(i as int)),
        decreases cands@.len() - i,
    {
        let (x, z) = cands[i];
        assert(pairs64(cands@)[i as int] == (x as int, z as int));
        let ghost before = pairs32(r@);
        assert(pairs64(cands@).take(i as int + 1).drop_last() =~= pairs64(cands@).take(i as int));
        if !(db.occupied(x, z) || x > 21 || x < -21 || z > 21 || z < -21) {
            r.push((x as i32, z as i32));
            assert(pairs32(r@) =~= before.push((x as int, z as int)));
        }
        i = i + 1;
    }
    assert(pairs64(cands@).take(i as int) =~= pairs64(cands@));
    r
}

impl Piece {
    /// A piece of the given kind that has not moved yet.
    pub fn new(kind: PieceKind) -> (p: Piece)
        ensures
            p.kind == kind,
            p.move_count == 0,
    {
        Piece { kind, move_count: 0 }
    }

    /// The legal destinations of this piece standing at (X, Z), in order, where
    /// `offset` is one cell towards the piece's forward direction (6 or -6).
    /// Kings step one cell in eight directions; queens, rooks and bishops run
    /// rays; knights jump in L shapes past any piece; pawns step forward, or
    /// two cells on their first move when the cell between is free. Every
    /// destination on an occupied cell or beyond the board edge is dropped.
    pub fn possible_moves(&self, x: i32, z: i32, offset: i32, db: &BoardDataBase) -> (r: Vec<(i32, i32)>)
        requires
            offset == 6 || offset == -6,
        ensures
            pairs32(r@) == legal_moves(*self, x as int, z as int, offset as int, db@),
    {
        let x = x as i64;
        let z = z as i64;
        let o = offset as i64;
        let mut c: Vec<(i64, i64)> = Vec::new();
        assert(pairs64(c@) =~= seq![]);
        match self.kind {
            PieceKind::King => {
                push_pair(&mut c, x + o, z);
                push_pair(&mut c, x - o, z);
                push_pair(&mut c, x + o, z + o);
                push_pair(&mut c, x - o, z + o);
                push_pair(&mut c, x + o, z - o);
                push_pair(&mut c, x - o, z - o);
                push_pair(&mut c, x, z + o);
                push_pair(&mut c, x, z - o);
            },
            PieceKind::Queen => {
                cast_orthogonal_rays(&mut c, x, z, o, db);
                cast_diagonal_rays(&mut c, x, z, o, db);
            },
            PieceKind::Rook => {
                cast_orthogonal_rays(&mut c, x, z, o, db);
            },
            PieceKind::Bishop => {
                cast_diagonal_rays(&mut c, x, z, o, db);
            },
            PieceKind::Knight => {
                push_pair(&mut c, x + o, z + 2 * o);
                push_pair(&mut c, x - o, z + 2 * o);
                push_pair(&mut c, x + o, z - 2 * o);
                push_pair(&mut c, x - o, z - 2 * o);
                push_pair(&mut c, x + 2 * o, z + o);
                push_pair(&mut c, x - 2 * o, z + o);
                push_pair(&mut c, x + 2 * o, z - o);
                push_pair(&mut c, x - 2 * o, z - o);
            },
            PieceKind::Pawn => {
                push_pair(&mut c, x, z + o);
                if self.move_count == 0 && !db.occupied(x, z + o) {
                    push_pair(&mut c, x, z + 2 * o);
                }
            },
        }
        let ghost cands = candidates(*self, x as int, z as int, o as int, db@);
        assert(pairs64(c@) =~= cands);
        proof { lemma_candidates_bounded(*self, x as int, z as int, o as int, db@); }
        filter_legal(&c, db)
    }
}

/// Every pair of `s` has both coordinates within `-b..=b`.
pub open spec fn within(s: Seq<(int, int)>, b: int) -> bool {
    forall|i: int| 0 <= i < s.len() ==> -b <= #[trigger] s[i].0 <= b && -b <= s[i].1 <= b
}

proof fn lemma_within_concat(a: Seq<(int, int)>, c: Seq<(int, int)>, b: int)
    requires
        within(a, b),
        within(c, b),
    ensures
        within(a + c, b),
{
    assert forall|i: int| 0 <= i < (a + c).len() implies -b <= #[trigger] (a + c)[i].0 <= b && -b <= (a + c)[i].1 <= b by {
        if i >= a.len() {
            assert((a + c)[i] == c[i - a.len()]);
        }
    }
}

/// Every cell of a ray stays within reach of its start.
proof fn lemma_ray_bounded(
    occ: Map<BoardPos, Seq<char>>,
    x: int,
    z: int,
    dx: int,
    dz: int,
    guard_x: bool,
    k: int,
)
    requires
        -0x8000_0000 <= x <= 0x8000_0000,
        -0x8000_0000 <= z <= 0x8000_0000,
        dx == 0 || dx == 6 || dx == -6,
        dz == 0 || dz == 6 || dz == -6,
        k >= 1,
    ensures
        within(ray(occ, x, z, dx, dz, guard_x, k), 0x40_0000_0000),
    decreases (if guard_x { 30 + abs(x) } else { 30 + abs(z) }) - 6 * k,
{
    let px = x + k * dx;
    let pz = z + k * dz;
    let g = if guard_x { px } else { pz };
    let dg = if guard_x { dx } else { dz };
    if !(dg == 6 || dg == -6) || k < 1 {
    } else if occupied(occ, px, pz) || abs(g) > 24 {
    } else {
        let g0 = if guard_x { x } else { z };
        assert(6 * k <= 24 + abs(g0)) by (nonlinear_arith)
            requires
                -24 <= g <= 24,
                g == g0 + k * dg,
                dg == 6 || dg == -6,
                k >= 1,
        ;
        assert(-0x40_0000_0000 <= px <= 0x40_0000_0000 && -0x40_0000_0000 <= pz <= 0x40_0000_0000)
            by (nonlinear_arith)
            requires
                px == x + k * dx,
                pz == z + k * dz,
                6 * k <= 24 + 0x8000_0000,
                k >= 1,
                -0x8000_0000 <= x <= 0x8000_0000,
                -0x8000_0000 <= z <= 0x8000_0000,
                dx == 0 || dx == 6 || dx == -6,
                dz == 0 || dz == 6 || dz == -6,
        ;
        lemma_ray_bounded(occ, x, z, dx, dz, guard_x, k + 1);
        lemma_within_concat(seq![(px, pz)], ray(occ, x, z, dx, dz, guard_x, k + 1), 0x40_0000_0000);
    }
}

/// Every candidate destination stays within reach of its start.
proof fn lemma_candidates_bounded(piece: Piece, x: int, z: int, o: int, occ: Map<BoardPos, Seq<char>>)
    requires
        -0x8000_0000 <= x <= 0x8000_0000,
        -0x8000_0000 <= z <= 0x8000_0000,
        o == 6 || o == -6,
    ensures
        within(candidates(piece, x, z, o, occ), 0x40_0000_0000),
{
    let b: int = 0x40_0000_0000;
    match piece.kind {
        PieceKind::Queen | PieceKind::Rook | PieceKind::Bishop => {
            lemma_ray_bounded(occ, x, z, 0, o, false, 1);
            lemma_ray_bounded(occ, x, z, 0, -o, false, 1);
            lemma_ray_bounded(occ, x, z, o, 0, true, 1);
            lemma_ray_bounded(occ, x, z, -o, 0, true, 1);
            lemma_ray_bounded(occ, x, z, o, o, false, 1);
            lemma_ray_bounded(occ, x, z, -o, o, false, 1);
            lemma_ray_bounded(occ, x, z, o, -o, false, 1);
            lemma_ray_bounded(occ, x, z, -o, -o, false, 1);
            let r1 = ray(occ, x, z, 0, o, false, 1);
            let r2 = ray(occ, x, z, 0, -o, false, 1);
            let r3 = ray(occ, x, z, o, 0, true, 1);
            let r4 = ray(occ, x, z, -o, 0, true, 1);
            let d1 = ray(occ, x, z, o, o, false, 1);
            let d2 = ray(occ, x, z, -o, o, false, 1);
            let d3 = ray(occ, x, z, o, -o, false, 1);
            let d4 = ray(occ, x, z, -o, -o, false, 1);
            lemma_within_concat(r1, r2, b);
            lemma_within_concat(r1 + r2, r3, b);
            lemma_within_concat(r1 + r2 + r3, r4, b);
            lemma_within_concat(d1, d2, b);
            lemma_within_concat(d1 + d2, d3, b);
            lemma_within_concat(d1 + d2 + d3, d4, b);
            lemma_within_concat(orthogonal_rays(occ, x, z, o), diagonal_rays(occ, x, z, o), b);
        },
        _ => {},
    }
}

/// The filter keeps exactly the destinations that are legal, in order.
pub proof fn lemma_keep_legal_members(occ: Map<BoardPos, Seq<char>>, s: Seq<(int, int)>, p: (int, int))
    ensures
        keep_legal(occ, s).contains(p) <==> s.contains(p) && legal_target(occ, p),
    decreases s.len(),
{
    if s.len() > 0 {
        lemma_keep_legal_members(occ, s.drop_last(), p);
        let r = keep_legal(occ, s.drop_last());
        if s.contains(p) && p != s.last() {
            let i = choose|i: int| 0 <= i < s.len() && s[i] == p;
            assert(s.drop_last()[i] == p);
        }
        if s.drop_last().contains(p) {
            let i = choose|i: int| 0 <= i < s.drop_last().len() && s.drop_last()[i] == p;
            assert(s[i] == p);
        }
        if legal_target(occ, s.last()) {
            assert(r.push(s.last())[r.len() as int] == s.last());
            if r.push(s.last()).contains(p) && p != s.last() {
                let i = choose|i: int| 0 <= i < r.push(s.last()).len() && r.push(s.last())[i] == p;
                assert(r[i] == p);
            }
            if r.contains(p) {
                let i = choose|i: int| 0 <= i < r.len() && r[i] == p;
                assert(r.push(s.last())[i] == p);
            }
        }
        assert(s[s.len() - 1] == s.last());
    }
}

/// Every destination the generator returns is a free cell within the
/// playable edge: both coordinates lie in -21..=21 and no piece stands there.
pub proof fn lemma_destinations_legal(piece: Piece, x: int, z: int, o: int, occ: Map<BoardPos, Seq<char>>)
    ensures
        forall|i: int| 0 <= i < legal_moves(piece, x, z, o, occ).len()
            ==> legal_target(occ, #[trigger] legal_moves(piece, x, z, o, occ)[i]),
{
    let m = legal_moves(piece, x, z, o, occ);
    assert forall|i: int| 0 <= i < m.len() implies legal_target(occ, #[trigger] m[i]) by {
        assert(m.contains(m[i]));
        lemma_keep_legal_members(occ, candidates(piece, x, z, o, occ), m[i]);
    }
}

/// A pawn that has moved offers at most the single step forward; an unmoved
/// pawn on an empty board, with both forward cells on the board, offers the
/// single and the double step, in that order.
pub proof fn lemma_pawn_destinations(piece: Piece, x: int, z: int, o: int, occ: Map<BoardPos, Seq<char>>)
    requires
        piece.kind == PieceKind::Pawn,
    ensures
        piece.move_count > 0 ==> legal_moves(piece, x, z, o, occ) == keep_legal(occ, seq![(x, z + o)]),
        piece.move_count == 0 && occ == Map::<BoardPos, Seq<char>>::empty() && abs(x) <= 21
            && abs(z + o) <= 21 && abs(z + 2 * o) <= 21
            ==> legal_moves(piece, x, z, o, occ) == seq![(x, z + o), (x, z + 2 * o)],
{
    let two = seq![(x, z + o), (x, z + 2 * o)];
    assert(two.drop_last() =~= seq![(x, z + o)]);
    assert(seq![(x, z + o)].drop_last() =~= Seq::<(int, int)>::empty());
    if piece.move_count == 0 && occ == Map::<BoardPos, Seq<char>>::empty() && abs(x) <= 21
        && abs(z + o) <= 21 && abs(z + 2 * o) <= 21 {
        assert(!occ.dom().contains(board_pos_of(x, z + o)));
        assert(!occ.dom().contains(board_pos_of(x, z + 2 * o)));
        assert(legal_target(occ, (x, z + o)));
        assert(legal_target(occ, (x, z + 2 * o)));
        assert(seq![(x, z + o)].last() == (x, z + o));
        assert(two.last() == (x, z + 2 * o));
        assert(keep_legal(occ, Seq::<(int, int)>::empty()) == Seq::<(int, int)>::empty());
        assert(keep_legal(occ, seq![(x, z + o)]) =~= seq![(x, z + o)]);
        assert(keep_legal(occ, two) =~= two);
    }
}

/// The eight knight jumps from (X, Z) with offset `o`.
pub open spec fn knight_jumps(x: int, z: int, o: int) -> Seq<(int, int)> {
    seq![
        (x + o, z + 2 * o), (x - o, z + 2 * o), (x + o, z - 2 * o), (x - o, z - 2 * o),
        (x + 2 * o, z + o), (x - 2 * o, z + o), (x + 2 * o, z - o), (x - 2 * o, z - o),
    ]
}

/// A knight is never blocked: its destinations are its eight jumps, whatever
/// stands between, each kept exactly when it passes the final filter.
pub proof fn lemma_knight_unblocked(piece: Piece, x: int, z: int, o: int, occ: Map<BoardPos, Seq<char>>)
    requires
        piece.kind == PieceKind::Knight,
    ensures
        candidates(piece, x, z, o, occ) == knight_jumps(x, z, o),
        forall|p: (int, int)| #[trigger] legal_moves(piece, x, z, o, occ).contains(p)
            <==> knight_jumps(x, z, o).contains(p) && legal_target(occ, p),
{
    assert(candidates(piece, x, z, o, occ) =~= knight_jumps(x, z, o));
    assert forall|p: (int, int)| #[trigger] legal_moves(piece, x, z, o, occ).contains(p)
        <==> knight_jumps(x, z, o).contains(p) && legal_target(occ, p) by {
        lemma_keep_legal_members(occ, knight_jumps(x, z, o), p);
    }
}

} // verus!
