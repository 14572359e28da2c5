//! The two-phase selection protocol: a piece is armed, then a destination
//! square, and the piece is relocated. Each step below runs once per frame,
//! in the order of `Game::frame`.
use vstd::prelude::*;
use crate::board::{board_pos_of, occupancy_map, BoardDataBase, BoardPos, Position};
use crate::moves::{legal_moves, pairs32, Piece};

verus! {

/// One cell towards the interactive (black) side's forward direction.
pub const BLACK_FORWARD: i32 = -6;

/// An interactive piece in the scene: its identity, display name, piece data,
/// translation, and whether the pointer selected it this frame.
#[derive(Debug)]
pub struct PieceEntity {
    pub id: u64,
    pub name: String,
    pub piece: Piece,
    pub pos: Position,
    pub selected: bool,
}

/// A transient destination marker, and whether the pointer selected it this frame.
#[derive(Clone, Copy, Debug, PartialEq, Eq, Structural)]
pub struct SquareMarker {
    pub pos: Position,
    pub selected: bool,
}

/// What the protocol has captured: the armed piece's translation and
/// identity, and the armed square's translation.
#[derive(Clone, Copy, Debug, PartialEq, Eq, Structural)]
pub struct MovementDataBase {
    pub piece: Option<Position>,
    pub square: Option<Position>,
    pub piece_id: Option<u64>,
}

/// The protocol's flags: a piece is armed, a square is armed, a fresh set of
/// markers may be spawned (none is live), and the markers await removal.
#[derive(Clone, Copy, Debug, PartialEq, Eq, Structural)]
pub struct Controller {
    pub piece_flag: bool,
    pub square_flag: bool,
    pub spawn_square_flag: bool,
    pub purge_square_flag: bool,
}

impl Controller {
    /// Idle: nothing armed, markers may be spawned, nothing to remove.
    pub fn new() -> (c: Controller)
        ensures
            c == (Controller { piece_flag: false, square_flag: false, spawn_square_flag: true, purge_square_flag: false }),
    {
        Controller { piece_flag: false, square_flag: false, spawn_square_flag: true, purge_square_flag: false }
    }
}

impl MovementDataBase {
    /// Nothing captured.
    pub fn new() -> (db: MovementDataBase)
        ensures
            db == (MovementDataBase { piece: None, square: None, piece_id: None }),
    {
        MovementDataBase { piece: None, square: None, piece_id: None }
    }
}

/// The index of the first selected piece at or after index `k`, if any.
pub open spec fn first_selected_from(ps: Seq<PieceEntity>, k: int) -> Option<int>
    decreases ps.len() - k,
{
    if k < 0 || k >= ps.len() {
        None
    } else if ps[k].selected {
        Some(k)
    } else {
        first_selected_from(ps, k + 1)
    }
}

/// The index of the first selected piece, if any.
pub open spec fn first_selected_piece(ps: Seq<PieceEntity>) -> Option<int> {
    first_selected_from(ps, 0)
}

/// The index of the last selected marker, if any.
pub open spec fn last_selected_square(sq: Seq<SquareMarker>) -> Option<int>
    decreases sq.len(),
{
    if sq.len() == 0 {
        None
    } else if sq.last().selected {
        Some(sq.len() - 1)
    } else {
        last_selected_square(sq.drop_last())
    }
}

/// Unselected markers at board height on the given cells.
pub open spec fn markers_at(cells: Seq<(int, int)>) -> Seq<SquareMarker> {
    cells.map_values(|c: (int, int)| SquareMarker { pos: Position { x: c.0 as i32, y: 0, z: c.1 as i32 }, selected: false })
}

/// The destinations offered to a piece standing at `pos`.
pub open spec fn destinations(piece: Piece, pos: Position, occ: Map<BoardPos, Seq<char>>) -> Seq<(int, int)> {
    legal_moves(piece, pos.x as int, pos.z as int, BLACK_FORWARD as int, occ)
}

/// Arming: when pieces were selected, the first of them is captured
/// (replacing any piece armed before), and the markers are replaced by one
/// per destination of that piece.
pub open spec fn arm_step(
    db: MovementDataBase,
    ct: Controller,
    ps: Seq<PieceEntity>,
    occ: Map<BoardPos, Seq<char>>,
    sq: Seq<SquareMarker>,
) -> (MovementDataBase, Controller, Seq<SquareMarker>) {
    match first_selected_piece(ps) {
        Some(i) => (
            MovementDataBase { piece: Some(ps[i].pos), square: db.square, piece_id: Some(ps[i].id) },
            Controller { piece_flag: true, spawn_square_flag: false, ..ct },
            markers_at(destinations(ps[i].piece, ps[i].pos, occ)),
        ),
        None => (db, ct, sq),
    }
}

/// Square capture: only while a piece is armed and its markers are live, the
/// last selected marker's translation is captured.
pub open spec fn square_step(db: MovementDataBase, ct: Controller, sq: Seq<SquareMarker>) -> (MovementDataBase, Controller) {
    if ct.piece_flag && !ct.spawn_square_flag {
        match last_selected_square(sq) {
            Some(j) => (MovementDataBase { square: Some(sq[j].pos), ..db }, Controller { square_flag: true, ..ct }),
            None => (db, ct),
        }
    } else {
        (db, ct)
    }
}

/// Whether the relocation fires: a piece and a square are armed, a square
/// translation is captured, and a piece with the captured identity exists.
pub open spec fn relocation_fires(db: MovementDataBase, ct: Controller, ps: Seq<PieceEntity>) -> bool {
    ct.piece_flag && ct.square_flag && db.square.is_some()
        && exists|i: int| 0 <= i < ps.len() && db.piece_id == Some(#[trigger] ps[i].id)
}

/// A piece after relocation onto `to`: moved there, one more move counted.
pub open spec fn relocated(e: PieceEntity, to: Position) -> PieceEntity {
    PieceEntity { pos: to, piece: Piece { move_count: (e.piece.move_count + 1) as u64, ..e.piece }, ..e }
}

/// Relocation: the armed piece takes the captured square's translation and
/// counts one more move; both armed flags reset and the markers await removal.
pub open spec fn move_step(db: MovementDataBase, ct: Controller, ps: Seq<PieceEntity>) -> (Controller, Seq<PieceEntity>) {
    if relocation_fires(db, ct, ps) {
        (
            Controller { piece_flag: false, square_flag: false, purge_square_flag: true, ..ct },
            ps.map_values(|e: PieceEntity| if db.piece_id == Some(e.id) { relocated(e, db.square.unwrap()) } else { e }),
        )
    } else {
        (ct, ps)
    }
}

/// Marker removal: after a relocation every marker goes, and a fresh set may
/// be spawned again.
pub open spec fn purge_step(ct: Controller, sq: Seq<SquareMarker>) -> (Controller, Seq<SquareMarker>) {
    if ct.purge_square_flag {
        (Controller { purge_square_flag: false, spawn_square_flag: true, ..ct }, Seq::empty())
    } else {
        (ct, sq)
    }
}

/// The protocol's invariant: an armed piece has its translation and identity
/// captured, and an armed square has its translation captured.
pub open spec fn protocol_wf(db: MovementDataBase, ct: Controller) -> bool {
    &&& ct.piece_flag ==> db.piece.is_some() && db.piece_id.is_some()
    &&& ct.square_flag ==> db.square.is_some()
}

/// Every step keeps the protocol's invariant.
pub proof fn lemma_steps_keep_wf(
    db: MovementDataBase,
    ct: Controller,
    ps: Seq<PieceEntity>,
    occ: Map<BoardPos, Seq<char>>,
    sq: Seq<SquareMarker>,
)
    requires
        protocol_wf(db, ct),
    ensures
        protocol_wf(arm_step(db, ct, ps, occ, sq).0, arm_step(db, ct, ps, occ, sq).1),
        protocol_wf(square_step(db, ct, sq).0, square_step(db, ct, sq).1),
        protocol_wf(db, move_step(db, ct, ps).0),
        protocol_wf(db, purge_step(ct, sq).0),
{
}

/// The occupancy of a list of pieces: each piece's name at its position, a
/// later piece replacing an earlier one on the same position.
pub open spec fn occupancy_of(ps: Seq<PieceEntity>) -> Map<BoardPos, Seq<char>>
    decreases ps.len(),
{
    if ps.len() == 0 {
        Map::empty()
    } else {
        occupancy_of(ps.drop_last()).insert(
            board_pos_of(ps.last().pos.x as int, ps.last().pos.z as int),
            ps.last().name@,
        )
    }
}

fn find_first_selected_piece(ps: &Vec<PieceEntity>) -> (r: Option<usize>)
    ensures
        match r {
            Some(i) => first_selected_piece(ps@) == Some(i as int) && i < ps@.len(),
            None => first_selected_piece(ps@) is None,
        },
{
    let mut i: usize = 0;
    while i < ps.len()
        invariant
            0 <= i <= ps@.len(),
            first_selected_piece(ps@) == first_selected_from(ps@, i as int),
        decreases ps@.len() - i,
    {
        if ps[i].selected {
            return Some(i);
        }
        i = i + 1;
    }
    None
}

fn find_last_selected_square(sq: &Vec<SquareMarker>) -> (r: Option<usize>)
    ensures
        match r {
            Some(j) => last_selected_square(sq@) == Some(j as int) && j < sq@.len(),
            None => last_selected_square(sq@) is None,
        },
{
    let mut n: usize = sq.len();
    assert(sq@.take(n as int) =~= sq@);
    while n > 0
        invariant
            n <= sq@.len(),
            last_selected_square(sq@) == last_selected_square(sq@.take(n as int)),
        decreases n,
    {
        assert(sq@.take(n as int).drop_last() =~= sq@.take(n - 1));
        if sq[n - 1].selected {
            return Some(n - 1);
        }
        n = n - 1;
    }
    None
}

/// Arms the first selected piece, if any: captures its translation and
/// identity, and replaces the markers by one per legal destination of it.
pub fn chess_data_piece(
    db: &mut MovementDataBase,
    ct: &mut Controller,
    pieces: &Vec<PieceEntity>,
    board: &BoardDataBase,
    squares: &mut Vec<SquareMarker>,
)
    ensures
        (*final(db), *final(ct), final(squares)@) == arm_step(*old(db), *old(ct), pieces@, board@, old(squares)@),
{
    match find_first_selected_piece(pieces) {
        Some(i) => {
            let e = &pieces[i];
            db.piece = Some(e.pos);
            db.piece_id = Some(e.id);
            ct.piece_flag = true;
            let moves = e.piece.possible_moves(e.pos.x, e.pos.z, BLACK_FORWARD, board);
            squares.clear();
            let ghost cells = destinations(e.piece, e.pos, board@);
            let mut k: usize = 0;
            while k < moves.len()
                invariant
                    0 <= k <= moves@.len(),
                    pairs32(moves@) == cells,
                    squares@ == markers_at(cells.take(k as int)),
                decreases moves@.len() - k,
            {
                let (mx, mz) = moves[k];
                assert(cells[k as int] == (mx as int, mz as int));
                squares.push(SquareMarker { pos: Position { x: mx, y: 0, z: mz }, selected: false });
                assert(cells.take(k as int + 1) =~= cells.take(k as int).push(cells[k as int]));
                assert(squares@ =~= markers_at(cells.take(k as int + 1)));
                k = k + 1;
            }
            assert(cells.take(k as int) =~= cells);
            ct.spawn_square_flag = false;
        },
        None => {},
    }
}

/// While a piece is armed and its markers are live, captures the last
/// selected marker's translation and arms the square.
pub fn chess_data_square(db: &mut MovementDataBase, ct: &mut Controller, squares: &Vec<SquareMarker>)
    ensures
        (*final(db), *final(ct)) == square_step(*old(db), *old(ct), squares@),
{
    if ct.piece_flag && !ct.spawn_square_flag {
        match find_last_selected_square(squares) {
            Some(j) => {
                db.square = Some(squares[j].pos);
                ct.square_flag = true;
            },
            None => {},
        }
    }
}

/// When a piece and a square are armed, relocates the piece with the
/// captured identity onto the captured square, counts its move, resets both
/// armed flags and marks the markers for removal.
pub fn chess_movement_script(db: &MovementDataBase, ct: &mut Controller, pieces: &mut Vec<PieceEntity>)
    requires
        forall|i: int| 0 <= i < old(pieces)@.len() ==> #[trigger] old(pieces)@[i].piece.move_count < u64::MAX,
    ensures
        (*final(ct), final(pieces)@) == move_step(*db, *old(ct), old(pieces)@),
{
    let ghost ps = pieces@;
    if ct.square_flag && ct.piece_flag {
        match db.square {
            Some(to) => {
                let mut found = false;
                let mut i: usize = 0;
                while i < pieces.len()
                    invariant
                        0 <= i <= pieces@.len(),
                        pieces@.len() == ps.len(),
                        db.square == Some(to),
                        forall|j: int| 0 <= j < ps.len() ==> #[trigger] ps[j].piece.move_count < u64::MAX,
                        forall|j: int| 0 <= j < i ==> #[trigger] pieces@[j] == (if db.piece_id == Some(ps[j].id) { relocated(ps[j], to) } else { ps[j] }),
                        forall|j: int| i <= j < ps.len() ==> #[trigger] pieces@[j] == ps[j],
                        found == exists|j: int| 0 <= j < i && db.piece_id == Some(#[trigger] ps[j].id),
                        !found ==> *ct == *old(ct),
                        found ==> *ct == (Controller { piece_flag: false, square_flag: false, purge_square_flag: true, ..*old(ct) }),
                    decreases pieces@.len() - i,
                {
                    if db.piece_id == Some(pieces[i].id) {
                        assert(pieces@[i as int] == ps[i as int]);
                        let count = pieces[i].piece.move_count + 1;
                        pieces[i].pos = to;
                        pieces[i].piece.move_count = count;
                        ct.piece_flag = false;
                        ct.square_flag = false;
                        ct.purge_square_flag = true;
                        found = true;
                    }
                    i = i + 1;
                }
                let ghost expected = ps.map_values(|e: PieceEntity| if db.piece_id == Some(e.id) { relocated(e, to) } else { e });
                if found {
                    assert(pieces@ =~= expected);
                } else {
                    assert(!relocation_fires(*db, *old(ct), ps));
                    assert(pieces@ =~= ps);
                }
            },
            None => {},
        }
    }
}

/// After a relocation, removes every marker and lets a fresh set be spawned.
pub fn purge_square_script(ct: &mut Controller, squares: &mut Vec<SquareMarker>)
    ensures
        (*final(ct), final(squares)@) == purge_step(*old(ct), old(squares)@),
{
    if ct.purge_square_flag {
        squares.clear();
        ct.purge_square_flag = false;
        ct.spawn_square_flag = true;
    }
}

/// Rebuilds the occupancy map from scratch out of every piece's position and name.
pub fn update_board_state(db: &mut BoardDataBase, pieces: &Vec<PieceEntity>)
    ensures
        final(db)@ == occupancy_of(pieces@),
{
    let mut data = BoardDataBase::new();
    let mut i: usize = 0;
    while i < pieces.len()
        invariant
            0 <= i <= pieces@.len(),
            data@ == occupancy_of(pieces@.take(i as int)),
        decreases pieces@.len() - i,
    {
        let e = &pieces[i];
        let pos = crate::board::board_pos(e.pos.x as i64, e.pos.z as i64);
        data.insert(pos, e.name.clone());
        assert(pieces@.take(i as int + 1).drop_last() =~= pieces@.take(i as int));
        i = i + 1;
    }
    assert(pieces@.take(i as int) =~= pieces@);
    *db = data;
}

/// Where the focus key puts the camera while a piece is armed: above the
/// armed piece, eight units higher than it.
pub fn camera_focus(db: &MovementDataBase, ct: &Controller) -> (r: Option<(i32, i64, i32)>)
    ensures
        r == (if ct.piece_flag && db.piece.is_some() {
            Some((db.piece.unwrap().x, (db.piece.unwrap().y + 8) as i64, db.piece.unwrap().z))
        } else {
            None
        }),
{
    if ct.piece_flag {
        match db.piece {
            Some(p) => Some((p.x, p.y as i64 + 8, p.z)),
            None => None,
        }
    } else {
        None
    }
}

/// The scene state the protocol works on: what it captured, its flags, the
/// occupancy map, the interactive pieces and the live markers.
pub struct Game {
    pub movement: MovementDataBase,
    pub controller: Controller,
    pub board: BoardDataBase,
    pub pieces: Vec<PieceEntity>,
    pub squares: Vec<SquareMarker>,
}

impl Game {
    /// An idle game over the given pieces, with their occupancy and no markers.
    pub fn new(pieces: Vec<PieceEntity>) -> (g: Game)
        ensures
            g.movement == (MovementDataBase { piece: None, square: None, piece_id: None }),
            g.controller == (Controller { piece_flag: false, square_flag: false, spawn_square_flag: true, purge_square_flag: false }),
            g.board@ == occupancy_of(pieces@),
            g.pieces@ == pieces@,
            g.squares@ == Seq::<SquareMarker>::empty(),
            protocol_wf(g.movement, g.controller),
    {
        let mut board = BoardDataBase::new();
        update_board_state(&mut board, &pieces);
        Game {
            movement: MovementDataBase::new(),
            controller: Controller::new(),
            board,
            pieces,
            squares: Vec::new(),
        }
    }

    /// One frame of the protocol, in a fixed order: remove the markers of the
    /// last relocation, arm a selected piece, capture a selected marker,
    /// relocate, and rebuild the occupancy map.
    pub fn frame(&mut self)
        requires
            forall|i: int| 0 <= i < old(self).pieces@.len() ==> #[trigger] old(self).pieces@[i].piece.move_count < u64::MAX,
        ensures
            ({
                let (c1, s1) = purge_step(old(self).controller, old(self).squares@);
                let (d2, c2, s2) = arm_step(old(self).movement, c1, old(self).pieces@, old(self).board@, s1);
                let (d3, c3) = square_step(d2, c2, s2);
                let (c4, p4) = move_step(d3, c3, old(self).pieces@);
                &&& final(self).movement == d3
                &&& final(self).controller == c4
                &&& final(self).squares@ == s2
                &&& final(self).pieces@ == p4
                &&& final(self).board@ == occupancy_of(p4)
            }),
            protocol_wf(old(self).movement, old(self).controller)
                ==> protocol_wf(final(self).movement, final(self).controller),
    {
        proof {
            if protocol_wf(self.movement, self.controller) {
                let (c1, s1) = purge_step(self.controller, self.squares@);
                lemma_steps_keep_wf(self.movement, self.controller, self.pieces@, self.board@, self.squares@);
                let (d2, c2, s2) = arm_step(self.movement, c1, self.pieces@, self.board@, s1);
                lemma_steps_keep_wf(self.movement, c1, self.pieces@, self.board@, s1);
                let (d3, c3) = square_step(d2, c2, s2);
                lemma_steps_keep_wf(d2, c2, self.pieces@, self.board@, s2);
                lemma_steps_keep_wf(d3, c3, self.pieces@, self.board@, s2);
            }
        }
        purge_square_script(&mut self.controller, &mut self.squares);
        chess_data_piece(&mut self.movement, &mut self.controller, &self.pieces, &self.board, &mut self.squares);
        chess_data_square(&mut self.movement, &mut self.controller, &self.squares);
        chess_movement_script(&self.movement, &mut self.controller, &mut self.pieces);
        update_board_state(&mut self.board, &self.pieces);
    }
}

/// A relocation fires once per armed pair. With a piece and a square armed
/// and the armed identity present, the pieces with that identity take
/// exactly the captured square's translation and count one more move, every
/// other piece is unchanged, both armed flags reset, the markers await
/// removal, and running the relocation again changes nothing.
pub proof fn lemma_relocation_once(db: MovementDataBase, ct: Controller, ps: Seq<PieceEntity>)
    requires
        protocol_wf(db, ct),
        ct.piece_flag,
        ct.square_flag,
        exists|i: int| 0 <= i < ps.len() && db.piece_id == Some(#[trigger] ps[i].id),
        forall|i: int| 0 <= i < ps.len() ==> #[trigger] ps[i].piece.move_count < u64::MAX,
    ensures
        relocation_fires(db, ct, ps),
        ({
            let (ct1, ps1) = move_step(db, ct, ps);
            &&& ct1 == (Controller { piece_flag: false, square_flag: false, purge_square_flag: true, ..ct })
            &&& ps1.len() == ps.len()
            &&& forall|i: int| 0 <= i < ps.len() && db.piece_id == Some(ps[i].id)
                ==> #[trigger] ps1[i].pos == db.square.unwrap()
                    && ps1[i].piece.move_count == ps[i].piece.move_count + 1
                    && ps1[i].piece.kind == ps[i].piece.kind && ps1[i].id == ps[i].id
                    && ps1[i].name == ps[i].name
            &&& forall|i: int| 0 <= i < ps.len() && db.piece_id != Some(ps[i].id) ==> #[trigger] ps1[i] == ps[i]
            &&& move_step(db, ct1, ps1) == (ct1, ps1)
        }),
{
}

/// Last writer wins: when a second piece is selected before any square, the
/// second arming replaces the captured piece identity and translation.
pub proof fn lemma_rearm_replaces(
    db: MovementDataBase,
    ct: Controller,
    first: Seq<PieceEntity>,
    second: Seq<PieceEntity>,
    occ: Map<BoardPos, Seq<char>>,
    sq: Seq<SquareMarker>,
    i: int,
)
    requires
        0 <= i < second.len(),
        second[i].selected,
        forall|j: int| 0 <= j < i ==> !(#[trigger] second[j].selected),
    ensures
        ({
            let (db1, ct1, sq1) = arm_step(db, ct, first, occ, sq);
            let (db2, ct2, sq2) = arm_step(db1, ct1, second, occ, sq1);
            &&& db2.piece_id == Some(second[i].id)
            &&& db2.piece == Some(second[i].pos)
            &&& ct2.piece_flag
            &&& sq2 == markers_at(destinations(second[i].piece, second[i].pos, occ))
        }),
{
    lemma_first_selected_piece(second, 0, i);
}

/// Within one frame the first selected piece is the one armed: the search
/// from any index up to it finds it.
pub proof fn lemma_first_selected_piece(ps: Seq<PieceEntity>, k: int, i: int)
    requires
        0 <= k <= i < ps.len(),
        ps[i].selected,
        forall|j: int| 0 <= j < i ==> !(#[trigger] ps[j].selected),
    ensures
        first_selected_from(ps, k) == Some(i),
    decreases i - k,
{
    if k < i {
        lemma_first_selected_piece(ps, k + 1, i);
    }
}

/// After a relocation every marker is removed before the next arming: the
/// removal step leaves none, and the next arming shows only the markers of
/// the piece it arms.
pub proof fn lemma_markers_purged(
    db: MovementDataBase,
    ct: Controller,
    ps: Seq<PieceEntity>,
    sq: Seq<SquareMarker>,
    next: Seq<PieceEntity>,
    occ: Map<BoardPos, Seq<char>>,
)
    requires
        relocation_fires(db, ct, ps),
    ensures
        ({
            let (ct1, ps1) = move_step(db, ct, ps);
            let (ct2, sq2) = purge_step(ct1, sq);
            let (db3, ct3, sq3) = arm_step(db, ct2, next, occ, sq2);
            &&& sq2.len() == 0
            &&& ct2.spawn_square_flag && !ct2.purge_square_flag
            &&& sq3 == match first_selected_piece(next) {
                Some(i) => markers_at(destinations(next[i].piece, next[i].pos, occ)),
                None => Seq::<SquareMarker>::empty(),
            }
        }),
{
}

} // verus!
