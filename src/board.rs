//! The board: a 5 x 5 grid of columns, each with levels 0 (ground) to 4,
//! and the rule engine that mutates it.
use vstd::multiset::Multiset;
use vstd::prelude::*;

verus! {

/// Whose turn it is, or who has won.
#[derive(Clone, Copy, Debug, PartialEq, Eq, Hash, Structural)]
pub enum Turn {
    P1,
    P2,
    WinP1,
    WinP2,
}

/// What can occupy one position of the board.
#[derive(Clone, Copy, Debug, PartialEq, Eq, Hash, Structural)]
pub enum Piece {
    Block,
    Board,
    Worker { turn: Turn },
}

/// Why the rule engine refused an operation.
#[derive(Clone, Copy, Debug, PartialEq, Eq, Hash, Structural)]
pub enum RuleError {
    CellOccupied,
    NoWorkerAtSource,
    InvalidHeight,
}

/// A piece together with the position it occupies.
#[derive(Clone, Copy, Debug, PartialEq, Eq, Hash, Structural)]
pub struct PieceMarker {
    pub piece: Piece,
    pub row: usize,
    pub column: usize,
    pub height: usize,
}

impl Turn {
    /// The two players; the other two values are outcomes.
    pub open spec fn is_player(self) -> bool {
        self is P1 || self is P2
    }

    /// The turn after this one: players alternate, outcomes stay.
    pub open spec fn next(self) -> Turn {
        match self {
            Turn::P1 => Turn::P2,
            Turn::P2 => Turn::P1,
            _ => self,
        }
    }

    /// The outcome in which this player has won.
    pub open spec fn win(self) -> Turn {
        match self {
            Turn::P1 => Turn::WinP1,
            Turn::P2 => Turn::WinP2,
            _ => self,
        }
    }
}

/// Number of positions on the board.
pub const CELLS: usize = 125;

/// The content of a position is a worker of either player.
pub open spec fn is_worker(p: Option<Piece>) -> bool {
    p matches Some(Piece::Worker { .. })
}

/// (row2, column2) is one of the up to eight columns around (row, column).
pub open spec fn is_neighbour(row: int, column: int, row2: int, column2: int) -> bool {
    &&& 0 <= row2 < 5
    &&& 0 <= column2 < 5
    &&& row - 1 <= row2 <= row + 1
    &&& column - 1 <= column2 <= column + 1
    &&& (row2 != row || column2 != column)
}

/// Flat index of the position (row, column, height).
pub open spec fn idx(row: int, column: int, height: int) -> int {
    row * 25 + column * 5 + height
}

pub open spec fn row_of(i: int) -> int {
    i / 25
}

pub open spec fn column_of(i: int) -> int {
    (i % 25) / 5
}

pub open spec fn height_of(i: int) -> int {
    i % 5
}

pub open spec fn in_grid(row: int, column: int, height: int) -> bool {
    0 <= row < 5 && 0 <= column < 5 && 0 <= height < 5
}

/// The flat index of a position on the grid is in range and gives the position back.
pub proof fn lemma_idx(row: int, column: int, height: int)
    requires
        in_grid(row, column, height),
    ensures
        0 <= idx(row, column, height) < 125,
        row_of(idx(row, column, height)) == row,
        column_of(idx(row, column, height)) == column,
        height_of(idx(row, column, height)) == height,
{
}

/// Every flat index in range is the index of the position it names.
pub proof fn lemma_of_idx(i: int)
    requires
        0 <= i < 125,
    ensures
        in_grid(row_of(i), column_of(i), height_of(i)),
        idx(row_of(i), column_of(i), height_of(i)) == i,
{
}

fn index(row: usize, column: usize, height: usize) -> (i: usize)
    requires
        in_grid(row as int, column as int, height as int),
    ensures
        i == idx(row as int, column as int, height as int),
        i < CELLS,
{
    row * 25 + column * 5 + height
}

/// Flat index of the position a marker names.
pub open spec fn marker_idx(m: PieceMarker) -> int {
    idx(m.row as int, m.column as int, m.height as int)
}

/// What the board looks like after putting each marker's piece at its position,
/// in order, onto an empty grid.
pub open spec fn grid_of(ms: Seq<PieceMarker>) -> Seq<Option<Piece>>
    decreases ms.len(),
{
    if ms.len() == 0 {
        Seq::new(125, |i: int| None::<Piece>)
    } else {
        grid_of(ms.drop_last()).update(marker_idx(ms.last()), Some(ms.last().piece))
    }
}

/// What one position contributes to the pieces on the board.
pub open spec fn piece_of(o: Option<Piece>) -> Multiset<Piece> {
    match o {
        Some(p) => Multiset::singleton(p),
        None => Multiset::empty(),
    }
}

/// The pieces held by a sequence of positions, wherever they stand.
pub open spec fn pieces_of(cells: Seq<Option<Piece>>) -> Multiset<Piece>
    decreases cells.len(),
{
    if cells.len() == 0 {
        Multiset::empty()
    } else {
        pieces_of(cells.drop_last()).add(piece_of(cells.last()))
    }
}

/// Replacing one position trades what it held for what it now holds.
pub proof fn lemma_pieces_update(s: Seq<Option<Piece>>, i: int, x: Option<Piece>)
    requires
        0 <= i < s.len(),
    ensures
        pieces_of(s.update(i, x)).add(piece_of(s[i])) == pieces_of(s).add(piece_of(x)),
    decreases s.len(),
{
    broadcast use vstd::multiset::group_multiset_axioms;
    let u = s.update(i, x);
    if i == s.len() - 1 {
        assert(u.drop_last() =~= s.drop_last());
        assert(pieces_of(u).add(piece_of(s[i])) =~= pieces_of(s).add(piece_of(x)));
    } else {
        lemma_pieces_update(s.drop_last(), i, x);
        assert(u.drop_last() =~= s.drop_last().update(i, x));
        assert(s.drop_last()[i] == s[i]);
        assert(u.last() == s.last());
        let a = pieces_of(s.drop_last().update(i, x));
        let b = pieces_of(s.drop_last());
        assert(pieces_of(u) == a.add(piece_of(s.last())));
        assert(pieces_of(s) == b.add(piece_of(s.last())));
        assert forall|v: Piece| #[trigger] a.count(v) + piece_of(s[i]).count(v) == b.count(v) + piece_of(x).count(v) by {
            assert(a.add(piece_of(s[i])).count(v) == b.add(piece_of(x)).count(v));
        }
        assert(pieces_of(u).add(piece_of(s[i])) =~= pieces_of(s).add(piece_of(x)));
    }
}

/// The board as a mathematical value: what occupies each flat index, and the turn.
pub struct BoardView {
    pub cells: Seq<Option<Piece>>,
    pub turn: Turn,
}

impl BoardView {
    pub open spec fn at(self, row: int, column: int, height: int) -> Option<Piece> {
        self.cells[idx(row, column, height)]
    }

    /// Every piece on the board, as a multiset.
    pub open spec fn pieces(self) -> Multiset<Piece> {
        pieces_of(self.cells)
    }

    /// The board with one position replaced.
    pub open spec fn with(self, row: int, column: int, height: int, p: Option<Piece>) -> BoardView {
        BoardView { cells: self.cells.update(idx(row, column, height), p), turn: self.turn }
    }

    /// A full grid whose ground level, and only it, holds the board tiles.
    pub open spec fn wf(self) -> bool {
        &&& self.cells.len() == 125
        &&& forall|i: int|
            0 <= i < 125 ==> (#[trigger] self.cells[i] == Some(Piece::Board) <==> height_of(i) == 0)
    }

    /// The level under (row, column, height) is a tile or a block.
    pub open spec fn supports(self, row: int, column: int, height: int) -> bool {
        &&& 1 <= height
        &&& (self.at(row, column, height - 1) == Some(Piece::Block) || self.at(
            row,
            column,
            height - 1,
        ) == Some(Piece::Board))
    }

    /// Every piece above the ground stands on a tile or a block.
    pub open spec fn supported(self) -> bool {
        forall|i: int|
            0 <= i < 125 && height_of(i) >= 1 && (#[trigger] self.cells[i]) is Some ==> (
            self.cells[i - 1] == Some(Piece::Block) || self.cells[i - 1] == Some(Piece::Board))
    }

    /// Height of the topmost block of a column that a piece could be put on:
    /// `None` when a worker stands on the column or its four levels are built.
    pub open spec fn top_from(self, row: int, column: int, height: int) -> Option<int>
        decreases 5 - height,
    {
        if height >= 5 {
            None
        } else {
            match self.at(row, column, height) {
                Some(Piece::Block) => self.top_from(row, column, height + 1),
                None => Some(height - 1),
                _ => None,
            }
        }
    }

    pub open spec fn top(self, row: int, column: int) -> Option<int> {
        self.top_from(row, column, 1)
    }

    /// Height of the stack of blocks of a column, whatever stands on it.
    pub open spec fn surface_from(self, row: int, column: int, height: int) -> int
        decreases 5 - height,
    {
        if height >= 5 {
            4
        } else if self.at(row, column, height) == Some(Piece::Block) {
            self.surface_from(row, column, height + 1)
        } else {
            height - 1
        }
    }

    pub open spec fn surface(self, row: int, column: int) -> int {
        self.surface_from(row, column, 1)
    }

    /// A worker at (row, column, height) could step onto some neighbouring column:
    /// one whose blocks reach at most the worker's own height.
    pub open spec fn can_step(self, row: int, column: int, height: int) -> bool {
        exists|r: int, c: int| is_neighbour(row, column, r, c) && #[trigger] self.surface(r, c) <= height
    }

    /// Some worker of `t` stands on the board.
    pub open spec fn has_worker(self, t: Turn) -> bool {
        exists|i: int| 0 <= i < 125 && #[trigger] self.cells[i] == Some(Piece::Worker { turn: t })
    }

    /// Some worker of `t` stands on the fourth level.
    pub open spec fn on_top(self, t: Turn) -> bool {
        exists|i: int|
            0 <= i < 125 && #[trigger] self.cells[i] == Some(Piece::Worker { turn: t }) && height_of(i) == 4
    }

    /// No worker of `t` can step anywhere.
    pub open spec fn smothered(self, t: Turn) -> bool {
        forall|i: int|
            0 <= i < 125 && #[trigger] self.cells[i] == Some(Piece::Worker { turn: t }) ==> !self.can_step(
                row_of(i),
                column_of(i),
                height_of(i),
            )
    }

    /// The turn after the win check: a worker on the fourth level wins first;
    /// otherwise a player whose workers are all smothered loses. A decided game stays decided.
    #[verifier::opaque]
    pub open spec fn outcome(self) -> Turn {
        if !self.turn.is_player() {
            self.turn
        } else if self.on_top(Turn::P1) {
            Turn::WinP1
        } else if self.on_top(Turn::P2) {
            Turn::WinP2
        } else if self.has_worker(Turn::P1) && self.smothered(Turn::P1) {
            Turn::WinP2
        } else if self.has_worker(Turn::P2) && self.smothered(Turn::P2) {
            Turn::WinP1
        } else {
            self.turn
        }
    }
}

/// The topmost free level of a column lies right above a tile or a block,
/// below the fourth level.
pub proof fn lemma_top(b: BoardView, row: int, column: int)
    requires
        b.wf(),
        0 <= row < 5,
        0 <= column < 5,
        b.top(row, column) is Some,
    ensures
        0 <= b.top(row, column)->0 <= 3,
        b.at(row, column, b.top(row, column)->0 + 1) is None,
        b.at(row, column, b.top(row, column)->0) == Some(Piece::Block) || b.at(
            row,
            column,
            b.top(row, column)->0,
        ) == Some(Piece::Board),
{
    lemma_idx(row, column, 0);
    lemma_top_from(b, row, column, 1);
}

proof fn lemma_top_from(b: BoardView, row: int, column: int, height: int)
    requires
        b.wf(),
        0 <= row < 5,
        0 <= column < 5,
        1 <= height <= 5,
        b.top_from(row, column, height) is Some,
        height == 1 || b.at(row, column, height - 1) == Some(Piece::Block),
        b.at(row, column, 0) == Some(Piece::Board),
    ensures
        height - 1 <= b.top_from(row, column, height)->0 <= 3,
        b.at(row, column, b.top_from(row, column, height)->0 + 1) is None,
        b.at(row, column, b.top_from(row, column, height)->0) == Some(Piece::Block) || b.at(
            row,
            column,
            b.top_from(row, column, height)->0,
        ) == Some(Piece::Board),
    decreases 5 - height,
{
    if height < 5 && b.at(row, column, height) == Some(Piece::Block) {
        lemma_top_from(b, row, column, height + 1);
    }
}

/// The win check leaves the turn as it is or decides the game.
pub proof fn lemma_outcome_cases(b: BoardView)
    ensures
        b.outcome() == b.turn || b.outcome() == Turn::WinP1 || b.outcome() == Turn::WinP2,
{
    reveal(BoardView::outcome);
}

/// Passing the turn twice gives it back to the same player; once the game is
/// decided, passing the turn changes nothing.
pub proof fn lemma_next_turn_twice(t: Turn)
    ensures
        t.next().next() == t,
        !t.is_player() ==> t.next() == t,
{
}

/// A worker on the fourth level wins for its player, even when every worker of
/// the other player is smothered: the height check comes first.
pub proof fn lemma_top_wins_first(b: BoardView, t: Turn)
    requires
        b.turn.is_player(),
        t.is_player(),
        b.on_top(t),
        !b.on_top(t.next()),
    ensures
        b.outcome() == t.win(),
{
    reveal(BoardView::outcome);
}

/// The board state: one optional piece per position, and the turn.
pub struct Board {
    data: Vec<Option<Piece>>,
    turn: Turn,
}

impl View for Board {
    type V = BoardView;

    closed spec fn view(&self) -> BoardView {
        BoardView { cells: self.data@, turn: self.turn }
    }
}

/// Moving a worker onto a free level keeps the board well formed, and keeps
/// every piece supported when the level under the destination is a tile or a block.
proof fn lemma_move_keeps_shape(w: BoardView, f: int, t: int)
    requires
        w.wf(),
        0 <= f < 125,
        0 <= t < 125,
        is_worker(w.cells[f]),
        w.cells[t] is None,
    ensures
        ({
            let n = BoardView { cells: w.cells.update(t, w.cells[f]).update(f, None), turn: w.turn };
            &&& n.wf()
            &&& w.supported() && height_of(t) >= 1 && (w.cells[t - 1] == Some(Piece::Block)
                || w.cells[t - 1] == Some(Piece::Board)) ==> n.supported()
        }),
{
    let n = BoardView { cells: w.cells.update(t, w.cells[f]).update(f, None), turn: w.turn };
    assert forall|i: int| 0 <= i < 125 implies (#[trigger] n.cells[i] == Some(Piece::Board) <==> height_of(i) == 0) by {
        assert(w.cells[i] == Some(Piece::Board) <==> height_of(i) == 0);
    }
    if w.supported() && height_of(t) >= 1 && (w.cells[t - 1] == Some(Piece::Block) || w.cells[t - 1] == Some(Piece::Board)) {
        assert forall|j: int|
            0 <= j < 125 && height_of(j) >= 1 && (#[trigger] n.cells[j]) is Some implies (
            n.cells[j - 1] == Some(Piece::Block) || n.cells[j - 1] == Some(Piece::Board)) by {
            if j != t {
                assert(w.cells[j] is Some);
            }
        }
    }
}

impl Board {
    pub open spec fn wf(&self) -> bool {
        self@.wf()
    }

    /// Puts a block at (row, column, height).
    pub fn build(&mut self, row: usize, column: usize, height: usize) -> (r: Result<(), RuleError>)
        requires
            old(self).wf(),
            row < 5,
            column < 5,
        ensures
            final(self).wf(),
            (height == 0 || height > 4) ==> r == Err::<(), RuleError>(RuleError::InvalidHeight),
            1 <= height <= 4 && old(self)@.at(row as int, column as int, height as int) is Some
                ==> r == Err::<(), RuleError>(RuleError::CellOccupied),
            1 <= height <= 4 && old(self)@.at(row as int, column as int, height as int) is None ==> r is Ok,
            r is Err ==> final(self)@ == old(self)@,
            r is Ok ==> 1 <= height <= 4 && old(self)@.at(row as int, column as int, height as int) is None
                && final(self)@ == old(self)@.with(row as int, column as int, height as int, Some(Piece::Block)),
            r is Ok && old(self)@.supported() && old(self)@.supports(row as int, column as int, height as int)
                ==> final(self)@.supported(),
            forall|i: int| 0 <= i < 125 && old(self)@.cells[i] is Some ==> #[trigger] final(self)@.cells[i] == old(self)@.cells[i],
            final(self)@.pieces() == (if r is Ok { old(self)@.pieces().insert(Piece::Block) } else { old(self)@.pieces() }),
            final(self)@.pieces().len() == old(self)@.pieces().len() + (if r is Ok { 1int } else { 0int }),
    {
        if height == 0 || height > 4 {
            return Err(RuleError::InvalidHeight);
        }
        let i = index(row, column, height);
        proof { lemma_idx(row as int, column as int, height as int); }
        if self.data[i].is_some() {
            return Err(RuleError::CellOccupied);
        }
        self.data[i] = Some(Piece::Block);
        proof {
            assert(self@.cells =~= old(self)@.cells.update(i as int, Some(Piece::Block)));
            lemma_pieces_update(old(self)@.cells, i as int, Some(Piece::Block));
            assert(pieces_of(self@.cells) =~= old(self)@.pieces().insert(Piece::Block));
        }
        Ok(())
    }
}

impl Board {
    /// What occupies (row, column, height).
    pub fn get_piece(&self, row: usize, column: usize, height: usize) -> (r: Option<&Piece>)
        requires
            self.wf(),
            in_grid(row as int, column as int, height as int),
        ensures
            r == (match self@.at(row as int, column as int, height as int) {
                Some(p) => Some(&p),
                None => None,
            }),
    {
        let i = index(row, column, height);
        self.data[i].as_ref()
    }

    /// Height of the topmost block of the column, or of its tile, when the level above is free.
    pub fn get_top(&self, row: usize, column: usize) -> (r: Option<usize>)
        requires
            self.wf(),
            row < 5,
            column < 5,
        ensures
            r matches Some(t) ==> self@.top(row as int, column as int) == Some(t as int),
            r is None ==> self@.top(row as int, column as int) is None,
    {
        let mut height: usize = 1;
        while height < 5
            invariant
                1 <= height <= 5,
                self.wf(),
                row < 5,
                column < 5,
                self@.top(row as int, column as int) == self@.top_from(row as int, column as int, height as int),
            decreases 5 - height,
        {
            let i = index(row, column, height);
            match self.data[i] {
                Some(Piece::Block) => {},
                None => return Some(height - 1),
                _ => return None,
            }
            height = height + 1;
        }
        None
    }

    pub fn get_turn(&self) -> (r: &Turn)
        ensures
            *r == self@.turn,
    {
        &self.turn
    }

    /// Passes the turn to the other player; an outcome stays as it is.
    pub fn next_turn(&mut self)
        ensures
            final(self)@ == (BoardView { turn: old(self)@.turn.next(), ..old(self)@ }),
    {
        self.turn = match self.turn {
            Turn::P1 => Turn::P2,
            Turn::P2 => Turn::P1,
            _ => self.turn,
        };
    }

    /// Puts a worker of `turn` at (row, column, height).
    pub fn place_worker(&mut self, row: usize, column: usize, height: usize, turn: Turn) -> (r: Result<(), RuleError>)
        requires
            old(self).wf(),
            row < 5,
            column < 5,
            turn.is_player(),
        ensures
            final(self).wf(),
            height > 4 ==> r == Err::<(), RuleError>(RuleError::InvalidHeight),
            height <= 4 && old(self)@.at(row as int, column as int, height as int) is Some
                ==> r == Err::<(), RuleError>(RuleError::CellOccupied),
            height <= 4 && old(self)@.at(row as int, column as int, height as int) is None ==> r is Ok,
            r is Err ==> final(self)@ == old(self)@,
            r is Ok ==> height <= 4 && old(self)@.at(row as int, column as int, height as int) is None
                && final(self)@ == old(self)@.with(row as int, column as int, height as int, Some(Piece::Worker { turn })),
            r is Ok && old(self)@.supported() && old(self)@.supports(row as int, column as int, height as int)
                ==> final(self)@.supported(),
            forall|i: int| 0 <= i < 125 && old(self)@.cells[i] is Some ==> #[trigger] final(self)@.cells[i] == old(self)@.cells[i],
            final(self)@.pieces() == (if r is Ok {
                old(self)@.pieces().insert(Piece::Worker { turn })
            } else {
                old(self)@.pieces()
            }),
            final(self)@.pieces().len() == old(self)@.pieces().len() + (if r is Ok { 1int } else { 0int }),
    {
        if height > 4 {
            return Err(RuleError::InvalidHeight);
        }
        let i = index(row, column, height);
        proof { lemma_idx(row as int, column as int, height as int); }
        if self.data[i].is_some() {
            return Err(RuleError::CellOccupied);
        }
        self.data[i] = Some(Piece::Worker { turn });
        proof {
            assert(self@.cells =~= old(self)@.cells.update(i as int, Some(Piece::Worker { turn })));
            lemma_pieces_update(old(self)@.cells, i as int, Some(Piece::Worker { turn }));
            assert(pieces_of(self@.cells) =~= old(self)@.pieces().insert(Piece::Worker { turn }));
        }
        Ok(())
    }

    /// Moves the worker of `player` at the first position to the second.
    pub fn movement(
        &mut self,
        from_row: usize,
        from_column: usize,
        from_height: usize,
        to_row: usize,
        to_column: usize,
        to_height: usize,
        player: Turn,
    ) -> (r: Result<(), RuleError>)
        requires
            old(self).wf(),
            from_row < 5,
            from_column < 5,
            to_row < 5,
            to_column < 5,
            player.is_player(),
        ensures
            final(self).wf(),
            (from_height > 4 || to_height > 4) ==> r == Err::<(), RuleError>(RuleError::InvalidHeight),
            from_height <= 4 && to_height <= 4 && old(self)@.at(from_row as int, from_column as int, from_height as int)
                != Some(Piece::Worker { turn: player })
                ==> r == Err::<(), RuleError>(RuleError::NoWorkerAtSource),
            from_height <= 4 && to_height <= 4 && old(self)@.at(from_row as int, from_column as int, from_height as int)
                == Some(Piece::Worker { turn: player })
                && old(self)@.at(to_row as int, to_column as int, to_height as int) is Some
                ==> r == Err::<(), RuleError>(RuleError::CellOccupied),
            from_height <= 4 && to_height <= 4 && old(self)@.at(from_row as int, from_column as int, from_height as int)
                == Some(Piece::Worker { turn: player })
                && old(self)@.at(to_row as int, to_column as int, to_height as int) is None ==> r is Ok,
            r is Err ==> final(self)@ == old(self)@,
            r is Ok ==> from_height <= 4 && to_height <= 4
                && old(self)@.at(from_row as int, from_column as int, from_height as int)
                    == Some(Piece::Worker { turn: player })
                && old(self)@.at(to_row as int, to_column as int, to_height as int) is None
                && final(self)@ == old(self)@.with(to_row as int, to_column as int, to_height as int,
                    Some(Piece::Worker { turn: player })).with(
                    from_row as int, from_column as int, from_height as int, None),
            final(self)@.pieces() == old(self)@.pieces(),
            forall|i: int|
                0 <= i < 125 && i != idx(from_row as int, from_column as int, from_height as int)
                    && i != idx(to_row as int, to_column as int, to_height as int)
                    ==> #[trigger] final(self)@.cells[i] == old(self)@.cells[i],
            r is Ok && old(self)@.supported() && old(self)@.supports(to_row as int, to_column as int, to_height as int)
                ==> final(self)@.supported(),
    {
        if from_height > 4 || to_height > 4 {
            return Err(RuleError::InvalidHeight);
        }
        let f = index(from_row, from_column, from_height);
        let t = index(to_row, to_column, to_height);
        proof {
            lemma_idx(from_row as int, from_column as int, from_height as int);
            lemma_idx(to_row as int, to_column as int, to_height as int);
        }
        let moved = self.data[f];
        if !(moved == Some(Piece::Worker { turn: player })) {
            return Err(RuleError::NoWorkerAtSource);
        }
        if self.data[t].is_some() {
            return Err(RuleError::CellOccupied);
        }
        self.data[t] = moved;
        self.data[f] = None;
        proof {
            assert(self@.cells =~= old(self)@.cells.update(t as int, moved).update(f as int, None));
            lemma_move_keeps_shape(old(self)@, f as int, t as int);
            broadcast use vstd::multiset::group_multiset_axioms;
            let w = old(self)@.cells;
            let w2 = w.update(t as int, moved);
            lemma_pieces_update(w, t as int, moved);
            lemma_pieces_update(w2, f as int, None);
            assert(w2[f as int] == moved);
            assert(w[t as int] is None);
            assert(pieces_of(w2) =~= pieces_of(w2).add(piece_of(w[t as int])));
            assert(pieces_of(w2) =~= pieces_of(w).add(piece_of(moved)));
            let n = w2.update(f as int, None);
            assert(self@.cells == n);
            assert(pieces_of(n).add(piece_of(moved)) =~= pieces_of(w2));
            assert forall|v: Piece| #[trigger] pieces_of(n).count(v) == pieces_of(w).count(v) by {
                assert(pieces_of(n).add(piece_of(moved)).count(v) == pieces_of(w).add(piece_of(moved)).count(v));
            }
            assert(pieces_of(self@.cells) =~= pieces_of(w));
        }
        Ok(())
    }
}

impl Board {
    fn surface(&self, row: usize, column: usize) -> (s: usize)
        requires
            self.wf(),
            row < 5,
            column < 5,
        ensures
            s == self@.surface(row as int, column as int),
    {
        let mut height: usize = 1;
        while height < 5
            invariant
                1 <= height <= 5,
                self.wf(),
                row < 5,
                column < 5,
                self@.surface(row as int, column as int) == self@.surface_from(row as int, column as int, height as int),
            decreases 5 - height,
        {
            let i = index(row, column, height);
            if !(self.data[i] == Some(Piece::Block)) {
                return height - 1;
            }
            height = height + 1;
        }
        4
    }

    fn can_step(&self, row: usize, column: usize, height: usize) -> (r: bool)
        requires
            self.wf(),
            row < 5,
            column < 5,
        ensures
            r == self@.can_step(row as int, column as int, height as int),
    {
        let mut r2: usize = 0;
        while r2 < 5
            invariant
                r2 <= 5,
                self.wf(),
                row < 5,
                column < 5,
                forall|a: int, b: int|
                    0 <= a < r2 && is_neighbour(row as int, column as int, a, b) ==> !(#[trigger] self@.surface(a, b) <= height),
            decreases 5 - r2,
        {
            let mut c2: usize = 0;
            while c2 < 5
                invariant
                    r2 < 5,
                    c2 <= 5,
                    self.wf(),
                    row < 5,
                    column < 5,
                    forall|a: int, b: int|
                        0 <= a < r2 && is_neighbour(row as int, column as int, a, b) ==> !(#[trigger] self@.surface(a, b) <= height),
                    forall|b: int|
                        0 <= b < c2 && is_neighbour(row as int, column as int, r2 as int, b) ==> !(#[trigger] self@.surface(r2 as int, b) <= height),
                decreases 5 - c2,
            {
                let near = r2 + 1 >= row && r2 <= row + 1 && c2 + 1 >= column && c2 <= column + 1 && (r2 != row || c2 != column);
                if near && self.surface(r2, c2) <= height {
                    return true;
                }
                c2 = c2 + 1;
            }
            r2 = r2 + 1;
        }
        false
    }

    /// Ends the game when a worker has reached the fourth level, or when every
    /// worker of a player is smothered.
    pub fn check_win(&mut self)
        requires
            old(self).wf(),
        ensures
            final(self)@.cells == old(self)@.cells,
            final(self)@.turn == old(self)@.outcome(),
    {
        let ghost v = self@;
        let mut p1_exists = false;
        let mut p1_top = false;
        let mut p1_smothered = true;
        let mut p2_exists = false;
        let mut p2_top = false;
        let mut p2_smothered = true;
        let mut i: usize = 0;
        while i < CELLS
            invariant
                i <= CELLS,
                self@ == v,
                v.wf(),
                p1_exists == exists|j: int| 0 <= j < i && #[trigger] v.cells[j] == Some(Piece::Worker { turn: Turn::P1 }),
                p2_exists == exists|j: int| 0 <= j < i && #[trigger] v.cells[j] == Some(Piece::Worker { turn: Turn::P2 }),
                p1_top == exists|j: int|
                    0 <= j < i && #[trigger] v.cells[j] == Some(Piece::Worker { turn: Turn::P1 }) && height_of(j) == 4,
                p2_top == exists|j: int|
                    0 <= j < i && #[trigger] v.cells[j] == Some(Piece::Worker { turn: Turn::P2 }) && height_of(j) == 4,
                p1_smothered == forall|j: int|
                    0 <= j < i && #[trigger] v.cells[j] == Some(Piece::Worker { turn: Turn::P1 })
                        ==> !v.can_step(row_of(j), column_of(j), height_of(j)),
                p2_smothered == forall|j: int|
                    0 <= j < i && #[trigger] v.cells[j] == Some(Piece::Worker { turn: Turn::P2 })
                        ==> !v.can_step(row_of(j), column_of(j), height_of(j)),
            decreases CELLS - i,
        {
            proof { lemma_of_idx(i as int); }
            let row = i / 25;
            let column = (i % 25) / 5;
            let height = i % 5;
            match self.data[i] {
                Some(Piece::Worker { turn: Turn::P1 }) => {
                    p1_exists = true;
                    if height == 4 {
                        p1_top = true;
                    }
                    if self.can_step(row, column, height) {
                        p1_smothered = false;
                    }
                },
                Some(Piece::Worker { turn: Turn::P2 }) => {
                    p2_exists = true;
                    if height == 4 {
                        p2_top = true;
                    }
                    if self.can_step(row, column, height) {
                        p2_smothered = false;
                    }
                },
                _ => {},
            }
            i = i + 1;
        }
        proof {
            reveal(BoardView::outcome);
        }
        if !(self.turn == Turn::P1 || self.turn == Turn::P2) {
            return;
        }
        if p1_top {
            self.turn = Turn::WinP1;
        } else if p2_top {
            self.turn = Turn::WinP2;
        } else if p1_exists && p1_smothered {
            self.turn = Turn::WinP2;
        } else if p2_exists && p2_smothered {
            self.turn = Turn::WinP1;
        }
    }
}

impl Board {
    /// Every piece above the ground level, with its position, in order of position.
    pub fn get_pieces(&self) -> (r: Vec<PieceMarker>)
        requires
            self.wf(),
        ensures
            forall|k: int|
                0 <= k < r@.len() ==> {
                    let m = #[trigger] r@[k];
                    &&& in_grid(m.row as int, m.column as int, m.height as int)
                    &&& m.height >= 1
                    &&& self@.at(m.row as int, m.column as int, m.height as int) == Some(m.piece)
                },
            forall|k1: int, k2: int|
                0 <= k1 < k2 < r@.len() ==> marker_idx(#[trigger] r@[k1]) < marker_idx(#[trigger] r@[k2]),
            forall|i: int|
                0 <= i < 125 && height_of(i) >= 1 && (#[trigger] self@.cells[i]) is Some ==> exists|k: int|
                    0 <= k < r@.len() && marker_idx(#[trigger] r@[k]) == i,
    {
        let mut pieces: Vec<PieceMarker> = Vec::new();
        let mut i: usize = 0;
        while i < CELLS
            invariant
                i <= CELLS,
                self.wf(),
                forall|k: int|
                    0 <= k < pieces@.len() ==> {
                        let m = #[trigger] pieces@[k];
                        &&& in_grid(m.row as int, m.column as int, m.height as int)
                        &&& m.height >= 1
                        &&& marker_idx(m) < i
                        &&& self@.at(m.row as int, m.column as int, m.height as int) == Some(m.piece)
                    },
                forall|k1: int, k2: int|
                    0 <= k1 < k2 < pieces@.len() ==> marker_idx(#[trigger] pieces@[k1]) < marker_idx(#[trigger] pieces@[k2]),
                forall|j: int|
                    0 <= j < i && height_of(j) >= 1 && (#[trigger] self@.cells[j]) is Some ==> exists|k: int|
                        0 <= k < pieces@.len() && marker_idx(#[trigger] pieces@[k]) == j,
            decreases CELLS - i,
        {
            proof { lemma_of_idx(i as int); }
            let height = i % 5;
            if height >= 1 {
                if let Some(piece) = self.data[i] {
                    let m = PieceMarker { piece, row: i / 25, column: (i % 25) / 5, height };
                    let ghost before = pieces@;
                    pieces.push(m);
                    proof {
                        assert(pieces@[before.len() as int] == m);
                        assert forall|j: int|
                            0 <= j < i + 1 && height_of(j) >= 1 && (#[trigger] self@.cells[j]) is Some implies exists|k: int|
                                0 <= k < pieces@.len() && marker_idx(#[trigger] pieces@[k]) == j by {
                            if j == i {
                                assert(marker_idx(pieces@[before.len() as int]) == j);
                            } else {
                                let k = choose|k: int| 0 <= k < before.len() && marker_idx(#[trigger] before[k]) == j;
                                assert(pieces@[k] == before[k]);
                            }
                        }
                    }
                }
            }
            i = i + 1;
        }
        pieces
    }

    /// The markers describe the board exactly: placing each marker's piece at its
    /// position, in order, on an empty grid gives the board's contents.
    pub fn validate_world_pieces(&self, piece_markers: &Vec<PieceMarker>) -> (r: bool)
        requires
            self.wf(),
            forall|k: int|
                0 <= k < piece_markers@.len() ==> in_grid(
                    (#[trigger] piece_markers@[k]).row as int,
                    piece_markers@[k].column as int,
                    piece_markers@[k].height as int,
                ),
        ensures
            r == (self@.cells == grid_of(piece_markers@)),
    {
        let mut pieces: Vec<Option<Piece>> = Vec::new();
        let mut i: usize = 0;
        while i < CELLS
            invariant
                i <= CELLS,
                pieces@.len() == i,
                forall|j: int| 0 <= j < i ==> #[trigger] pieces@[j] is None,
            decreases CELLS - i,
        {
            pieces.push(None);
            i = i + 1;
        }
        proof {
            assert(pieces@ =~= grid_of(piece_markers@.take(0)));
        }
        let mut k: usize = 0;
        while k < piece_markers.len()
            invariant
                k <= piece_markers@.len(),
                pieces@ == grid_of(piece_markers@.take(k as int)),
                pieces@.len() == 125,
                forall|k: int|
                    0 <= k < piece_markers@.len() ==> in_grid(
                        (#[trigger] piece_markers@[k]).row as int,
                        piece_markers@[k].column as int,
                        piece_markers@[k].height as int,
                    ),
            decreases piece_markers@.len() - k,
        {
            let m = piece_markers[k];
            proof {
                lemma_idx(m.row as int, m.column as int, m.height as int);
                assert(piece_markers@.take(k + 1).drop_last() =~= piece_markers@.take(k as int));
                assert(piece_markers@.take(k + 1).last() == m);
            }
            let j = index(m.row, m.column, m.height);
            pieces[j] = Some(m.piece);
            k = k + 1;
        }
        proof {
            assert(piece_markers@.take(piece_markers@.len() as int) =~= piece_markers@);
        }
        let mut i: usize = 0;
        while i < CELLS
            invariant
                i <= CELLS,
                self.wf(),
                pieces@.len() == 125,
                pieces@ == grid_of(piece_markers@),
                forall|j: int| 0 <= j < i ==> self@.cells[j] == #[trigger] pieces@[j],
            decreases CELLS - i,
        {
            if !(self.data[i] == pieces[i]) {
                proof {
                    assert(self@.cells[i as int] != pieces@[i as int]);
                }
                return false;
            }
            i = i + 1;
        }
        proof {
            assert(self@.cells =~= pieces@);
        }
        true
    }
}

impl Default for Board {
    /// The board at the start of a game: ground tiles only, and player one to move.
    fn default() -> (b: Self)
        ensures
            b.wf(),
            b@.turn == Turn::P1,
            b@.supported(),
            forall|i: int| 0 <= i < 125 && height_of(i) != 0 ==> #[trigger] b@.cells[i] is None,
    {
        let mut data: Vec<Option<Piece>> = Vec::new();
        let mut i: usize = 0;
        while i < CELLS
            invariant
                i <= CELLS,
                data@.len() == i,
                forall|j: int|
                    0 <= j < i ==> #[trigger] data@[j] == (if height_of(j) == 0 {
                        Some(Piece::Board)
                    } else {
                        None::<Piece>
                    }),
            decreases CELLS - i,
        {
            if i % 5 == 0 {
                data.push(Some(Piece::Board));
            } else {
                data.push(None);
            }
            i = i + 1;
        }
        Board { data, turn: Turn::P1 }
    }
}

} // verus!
