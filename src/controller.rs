//! The per-player interaction state machine: it turns one click per tick into
//! at most one rule-engine action, offering as clickable only the positions on
//! which that action succeeds.
use vstd::prelude::*;

use crate::board::{
    grid_of, Board, BoardView, Piece, PieceMarker, Turn, CELLS, idx, row_of, column_of, height_of, in_grid,
    is_neighbour, is_worker, lemma_idx, lemma_of_idx, lemma_outcome_cases, lemma_top,
};

verus! {

/// Who plays one side.
#[derive(Clone, Copy, Debug, PartialEq, Eq, Hash, Structural)]
pub enum Controller {
    Human,
}

/// Who plays each side.
#[derive(Clone, Copy, Debug, PartialEq, Eq, Hash, Structural)]
pub struct Controllers {
    pub p1: Controller,
    pub p2: Controller,
}

/// A click on the piece at (row, column, height).
#[derive(Clone, Copy, Debug, PartialEq, Eq, Hash, Structural)]
pub struct Clicked {
    pub row: usize,
    pub column: usize,
    pub height: usize,
}

/// The phase of a player's turn.
#[derive(Clone, Copy, Debug, PartialEq, Eq, Hash, Structural)]
pub enum HumanControllerState {
    PrepPlaceWorker,
    PlaceWorker1,
    PlaceWorker2,
    PrepMovement,
    Movement1,
    Movement2 { selected_row: usize, selected_column: usize, selected_height: usize },
    PrepBuild { selected_row: usize, selected_column: usize },
    Build,
}

pub open spec fn click_idx(p: Clicked) -> int {
    idx(p.row as int, p.column as int, p.height as int)
}

/// Nothing clickable.
pub open spec fn none_selected() -> Seq<bool> {
    Seq::new(125, |i: int| false)
}

/// The ground tiles with nothing on them.
pub open spec fn free_ground(b: BoardView) -> Seq<bool> {
    Seq::new(125, |i: int| height_of(i) == 0 && b.top(row_of(i), column_of(i)) == Some(0int))
}

/// The positions of the workers of `t`.
pub open spec fn own_workers(b: BoardView, t: Turn) -> Seq<bool> {
    Seq::new(125, |i: int| b.cells[i] == Some(Piece::Worker { turn: t }))
}

/// `base`, together with the free tops of the columns around (row, column); with a
/// limit, only those no higher than it.
pub open spec fn tops_around(b: BoardView, row: int, column: int, limit: Option<usize>, base: Seq<bool>) -> Seq<bool> {
    Seq::new(
        125,
        |i: int|
            base[i] || (is_neighbour(row, column, row_of(i), column_of(i)) && b.top(row_of(i), column_of(i))
                == Some(height_of(i)) && (limit is None || height_of(i) <= limit->0)),
    )
}

/// The level above flat index `i` is free, and `i` itself holds a tile or a block.
pub open spec fn free_above(b: BoardView, i: int) -> bool {
    &&& height_of(i) < 4
    &&& b.cells[i + 1] is None
    &&& (b.cells[i] == Some(Piece::Block) || b.cells[i] == Some(Piece::Board))
}

/// A free top found around a worker is a position whose level above is free.
proof fn lemma_top_free(b: BoardView, i: int)
    requires
        b.wf(),
        0 <= i < 125,
        b.top(row_of(i), column_of(i)) == Some(height_of(i)),
    ensures
        free_above(b, i),
        !is_worker(b.cells[i]),
{
    lemma_of_idx(i);
    lemma_top(b, row_of(i), column_of(i));
}

fn none_vec() -> (r: Vec<bool>)
    ensures
        r@ == none_selected(),
{
    let mut r: Vec<bool> = Vec::new();
    let mut i: usize = 0;
    while i < CELLS
        invariant
            i <= CELLS,
            r@.len() == i,
            forall|j: int| 0 <= j < i ==> !#[trigger] r@[j],
        decreases CELLS - i,
    {
        r.push(false);
        i = i + 1;
    }
    proof {
        assert(r@ =~= none_selected());
    }
    r
}

fn select_free_ground(board: &Board) -> (r: Vec<bool>)
    requires
        board.wf(),
    ensures
        r@ == free_ground(board@),
{
    let mut r: Vec<bool> = Vec::new();
    let mut i: usize = 0;
    while i < CELLS
        invariant
            i <= CELLS,
            board.wf(),
            r@.len() == i,
            forall|j: int| 0 <= j < i ==> #[trigger] r@[j] == free_ground(board@)[j],
        decreases CELLS - i,
    {
        proof { lemma_of_idx(i as int); }
        let mut v = false;
        if i % 5 == 0 {
            match board.get_top(i / 25, (i % 25) / 5) {
                Some(t) => {
                    v = t == 0;
                },
                None => {},
            }
        }
        r.push(v);
        i = i + 1;
    }
    proof {
        assert(r@ =~= free_ground(board@));
    }
    r
}

fn select_workers(board: &Board, t: Turn) -> (r: Vec<bool>)
    requires
        board.wf(),
    ensures
        r@ == own_workers(board@, t),
{
    let mut r: Vec<bool> = Vec::new();
    let mut i: usize = 0;
    while i < CELLS
        invariant
            i <= CELLS,
            board.wf(),
            r@.len() == i,
            forall|j: int| 0 <= j < i ==> #[trigger] r@[j] == own_workers(board@, t)[j],
        decreases CELLS - i,
    {
        proof { lemma_of_idx(i as int); }
        let v = match board.get_piece(i / 25, (i % 25) / 5, i % 5) {
            Some(p) => *p == Piece::Worker { turn: t },
            None => false,
        };
        r.push(v);
        i = i + 1;
    }
    proof {
        assert(r@ =~= own_workers(board@, t));
    }
    r
}

fn select_tops_around(board: &Board, row: usize, column: usize, limit: Option<usize>, base: &Vec<bool>) -> (r: Vec<bool>)
    requires
        board.wf(),
        row < 5,
        column < 5,
        base@.len() == 125,
    ensures
        r@ == tops_around(board@, row as int, column as int, limit, base@),
{
    let mut r: Vec<bool> = Vec::new();
    let mut i: usize = 0;
    while i < CELLS
        invariant
            i <= CELLS,
            board.wf(),
            row < 5,
            column < 5,
            base@.len() == 125,
            r@.len() == i,
            forall|j: int| 0 <= j < i ==> #[trigger] r@[j] == tops_around(board@, row as int, column as int, limit, base@)[j],
        decreases CELLS - i,
    {
        proof { lemma_of_idx(i as int); }
        let r2 = i / 25;
        let c2 = (i % 25) / 5;
        let h = i % 5;
        let mut v = base[i];
        let near = r2 + 1 >= row && r2 <= row + 1 && c2 + 1 >= column && c2 <= column + 1 && (r2 != row || c2 != column);
        if !v && near {
            let low = match limit {
                Some(l) => h <= l,
                None => true,
            };
            if low {
                match board.get_top(r2, c2) {
                    Some(t) => {
                        v = t == h;
                    },
                    None => {},
                }
            }
        }
        r.push(v);
        i = i + 1;
    }
    proof {
        assert(r@ =~= tops_around(board@, row as int, column as int, limit, base@));
    }
    r
}

/// A controller as a mathematical value.
pub struct ControllerView {
    pub turn: Turn,
    pub state: HumanControllerState,
    pub selectable: Seq<bool>,
}

impl ControllerView {
    /// The click names a position of the grid that is currently clickable.
    pub open spec fn clickable(self, p: Clicked) -> bool {
        in_grid(p.row as int, p.column as int, p.height as int) && self.selectable[click_idx(p)]
    }

    pub open spec fn picked(self, click: Option<Clicked>) -> bool {
        click is Some && self.clickable(click->0)
    }

    pub open spec fn with_state(self, state: HumanControllerState, selectable: Seq<bool>) -> ControllerView {
        ControllerView { turn: self.turn, state, selectable }
    }

    /// One tick of the controller on board `b` with the tick's click, if any:
    /// the controller and the board afterwards. Only the player to move acts;
    /// a click on a position that is not clickable changes nothing.
    #[verifier::opaque]
    pub open spec fn step(self, b: BoardView, click: Option<Clicked>) -> (ControllerView, BoardView) {
        let p = click->0;
        let above = (p.row as int, p.column as int, p.height as int + 1);
        if self.turn != b.turn {
            (self, b)
        } else {
            match self.state {
                HumanControllerState::PrepPlaceWorker => (
                    self.with_state(HumanControllerState::PlaceWorker1, free_ground(b)),
                    b,
                ),
                HumanControllerState::PlaceWorker1 => if self.picked(click) {
                    (
                        self.with_state(
                            HumanControllerState::PlaceWorker2,
                            self.selectable.update(click_idx(p), false),
                        ),
                        b.with(above.0, above.1, above.2, Some(Piece::Worker { turn: self.turn })),
                    )
                } else {
                    (self, b)
                },
                HumanControllerState::PlaceWorker2 => if self.picked(click) {
                    let placed = b.with(above.0, above.1, above.2, Some(Piece::Worker { turn: self.turn }));
                    (
                        self.with_state(HumanControllerState::PrepMovement, none_selected()),
                        BoardView { cells: placed.cells, turn: b.turn.next() },
                    )
                } else {
                    (self, b)
                },
                HumanControllerState::PrepMovement => (
                    self.with_state(HumanControllerState::Movement1, own_workers(b, self.turn)),
                    b,
                ),
                HumanControllerState::Movement1 => if self.picked(click) {
                    (
                        self.with_state(
                            HumanControllerState::Movement2 {
                                selected_row: p.row,
                                selected_column: p.column,
                                selected_height: p.height,
                            },
                            tops_around(
                                b,
                                p.row as int,
                                p.column as int,
                                Some(p.height),
                                self.selectable.update(click_idx(p), false),
                            ),
                        ),
                        b,
                    )
                } else {
                    (self, b)
                },
                HumanControllerState::Movement2 { selected_row, selected_column, selected_height } => {
                    let s = (selected_row as int, selected_column as int, selected_height as int);
                    if !self.picked(click) {
                        (self, b)
                    } else if is_worker(b.at(p.row as int, p.column as int, p.height as int)) {
                        (
                            self.with_state(
                                HumanControllerState::Movement2 {
                                    selected_row: p.row,
                                    selected_column: p.column,
                                    selected_height: p.height,
                                },
                                tops_around(
                                    b,
                                    p.row as int,
                                    p.column as int,
                                    Some(p.height),
                                    none_selected().update(idx(s.0, s.1, s.2), true),
                                ),
                            ),
                            b,
                        )
                    } else {
                        (
                            self.with_state(
                                HumanControllerState::PrepBuild { selected_row: p.row, selected_column: p.column },
                                none_selected(),
                            ),
                            b.with(above.0, above.1, above.2, b.at(s.0, s.1, s.2)).with(s.0, s.1, s.2, None),
                        )
                    }
                },
                HumanControllerState::PrepBuild { selected_row, selected_column } => (
                    self.with_state(
                        HumanControllerState::Build,
                        tops_around(b, selected_row as int, selected_column as int, None, none_selected()),
                    ),
                    b,
                ),
                HumanControllerState::Build => if self.picked(click) {
                    let built = b.with(above.0, above.1, above.2, Some(Piece::Block));
                    (
                        self.with_state(HumanControllerState::PrepMovement, none_selected()),
                        BoardView { cells: built.cells, turn: b.turn.next() },
                    )
                } else {
                    (self, b)
                },
            }
        }
    }

    /// The tick changes the board.
    pub open spec fn commits(self, b: BoardView, click: Option<Clicked>) -> bool {
        &&& self.turn == b.turn
        &&& self.picked(click)
        &&& match self.state {
            HumanControllerState::PlaceWorker1 => true,
            HumanControllerState::PlaceWorker2 => true,
            HumanControllerState::Movement2 { .. } => !is_worker(
                b.at((click->0).row as int, (click->0).column as int, (click->0).height as int),
            ),
            HumanControllerState::Build => true,
            _ => false,
        }
    }

    /// What the controller offers as clickable agrees with board `b`: every
    /// action that a click can start succeeds. A controller that is not to move
    /// waits in a preparing phase.
    #[verifier::opaque]
    pub open spec fn inv(self, b: BoardView) -> bool {
        &&& self.selectable.len() == 125
        &&& self.turn.is_player()
        &&& (self.turn != b.turn && b.turn.is_player()) ==> (self.state is PrepPlaceWorker
            || self.state is PrepMovement)
        &&& self.turn == b.turn ==> match self.state {
            HumanControllerState::PlaceWorker1 => forall|i: int|
                0 <= i < 125 && #[trigger] self.selectable[i] ==> free_above(b, i),
            HumanControllerState::PlaceWorker2 => forall|i: int|
                0 <= i < 125 && #[trigger] self.selectable[i] ==> free_above(b, i),
            HumanControllerState::Build => forall|i: int|
                0 <= i < 125 && #[trigger] self.selectable[i] ==> free_above(b, i),
            HumanControllerState::Movement1 => forall|i: int|
                0 <= i < 125 && #[trigger] self.selectable[i] ==> b.cells[i] == Some(
                    Piece::Worker { turn: self.turn },
                ),
            HumanControllerState::PrepBuild { selected_row, selected_column } => selected_row < 5
                && selected_column < 5,
            HumanControllerState::Movement2 { selected_row, selected_column, selected_height } => {
                &&& in_grid(selected_row as int, selected_column as int, selected_height as int)
                &&& b.at(selected_row as int, selected_column as int, selected_height as int) == Some(
                    Piece::Worker { turn: self.turn },
                )
                &&& forall|i: int|
                    0 <= i < 125 && #[trigger] self.selectable[i] ==> ((b.cells[i] == Some(
                        Piece::Worker { turn: self.turn },
                    ) && i != idx(selected_row as int, selected_column as int, selected_height as int))
                        || (free_above(b, i) && !is_worker(b.cells[i])))
            },
            _ => true,
        }
    }
}

/// The interaction state machine of one human player.
pub struct HumanController {
    turn: Turn,
    state: HumanControllerState,
    selectable: Vec<bool>,
}

impl View for HumanController {
    type V = ControllerView;

    closed spec fn view(&self) -> ControllerView {
        ControllerView { turn: self.turn, state: self.state, selectable: self.selectable@ }
    }
}

impl HumanController {
    /// A controller for player `turn`, about to offer its first placements.
    pub fn new(turn: Turn) -> (r: HumanController)
        requires
            turn.is_player(),
        ensures
            r@ == (ControllerView {
                turn,
                state: HumanControllerState::PrepPlaceWorker,
                selectable: none_selected(),
            }),
    {
        HumanController { turn, state: HumanControllerState::PrepPlaceWorker, selectable: none_vec() }
    }

    pub fn get_turn(&self) -> (r: Turn)
        ensures
            r == self@.turn,
    {
        self.turn
    }

    pub fn get_state(&self) -> (r: HumanControllerState)
        ensures
            r == self@.state,
    {
        self.state
    }

    /// The piece at (row, column, height) currently answers clicks.
    pub fn is_selectable(&self, row: usize, column: usize, height: usize) -> (r: bool)
        requires
            self@.selectable.len() == 125,
        ensures
            r == (in_grid(row as int, column as int, height as int) && self@.selectable[idx(
                row as int,
                column as int,
                height as int,
            )]),
    {
        if row < 5 && column < 5 && height < 5 {
            proof { lemma_idx(row as int, column as int, height as int); }
            self.selectable[row * 25 + column * 5 + height]
        } else {
            false
        }
    }

    /// One tick of the controller, with the tick's click if any. Returns
    /// whether the board changed.
    pub fn run(&mut self, board: &mut Board, click: Option<Clicked>) -> (committed: bool)
        requires
            old(board).wf(),
            old(self)@.inv(old(board)@),
        ensures
            final(board).wf(),
            (final(self)@, final(board)@) == old(self)@.step(old(board)@, click),
            committed == old(self)@.commits(old(board)@, click),
            final(self)@.inv(final(board)@),
            final(self)@.turn == old(self)@.turn,
            old(board)@.supported() ==> final(board)@.supported(),
    {
        let ghost b = board@;
        proof {
            reveal(ControllerView::step);
            reveal(ControllerView::inv);
        }
        if !(self.turn == *board.get_turn()) {
            return false;
        }
        let picked: Option<Clicked> = match click {
            Some(p) => if self.is_selectable(p.row, p.column, p.height) {
                Some(p)
            } else {
                None
            },
            None => None,
        };
        match self.state {
            HumanControllerState::PrepPlaceWorker => {
                self.selectable = select_free_ground(board);
                self.state = HumanControllerState::PlaceWorker1;
                proof {
                    assert forall|i: int| 0 <= i < 125 && #[trigger] self@.selectable[i] implies free_above(b, i) by {
                        lemma_top_free(b, i);
                    }
                }
                false
            },
            HumanControllerState::PlaceWorker1 => {
                if let Some(p) = picked {
                    proof { lemma_idx(p.row as int, p.column as int, p.height as int); }
                    // The level above a clickable position is free: the placement succeeds.
                    let r = board.place_worker(p.row, p.column, p.height + 1, self.turn);
                    proof {
                        assert(r is Ok);
                    }
                    let k = p.row * 25 + p.column * 5 + p.height;
                    self.selectable.set(k, false);
                    self.state = HumanControllerState::PlaceWorker2;
                    proof {
                        let b2 = board@;
                        assert forall|i: int| 0 <= i < 125 && #[trigger] self@.selectable[i] implies free_above(b2, i) by {
                            assert(free_above(b, i));
                        }
                    }
                    true
                } else {
                    false
                }
            },
            HumanControllerState::PlaceWorker2 => {
                if let Some(p) = picked {
                    proof { lemma_idx(p.row as int, p.column as int, p.height as int); }
                    // The level above a clickable position is free: the placement succeeds.
                    let r = board.place_worker(p.row, p.column, p.height + 1, self.turn);
                    proof {
                        assert(r is Ok);
                    }
                    board.next_turn();
                    self.selectable = none_vec();
                    self.state = HumanControllerState::PrepMovement;
                    true
                } else {
                    false
                }
            },
            HumanControllerState::PrepMovement => {
                self.selectable = select_workers(board, self.turn);
                self.state = HumanControllerState::Movement1;
                false
            },
            HumanControllerState::Movement1 => {
                if let Some(p) = picked {
                    proof { lemma_idx(p.row as int, p.column as int, p.height as int); }
                    let k = p.row * 25 + p.column * 5 + p.height;
                    self.selectable.set(k, false);
                    let ghost base = self.selectable@;
                    self.selectable = select_tops_around(board, p.row, p.column, Some(p.height), &self.selectable);
                    self.state = HumanControllerState::Movement2 {
                        selected_row: p.row,
                        selected_column: p.column,
                        selected_height: p.height,
                    };
                    proof {
                        assert forall|i: int| 0 <= i < 125 && #[trigger] self@.selectable[i] implies ((b.cells[i] == Some(
                            Piece::Worker { turn: self.turn },
                        ) && i != k) || (free_above(b, i) && !is_worker(b.cells[i]))) by {
                            if !base[i] {
                                lemma_top_free(b, i);
                            }
                        }
                    }
                    false
                } else {
                    false
                }
            },
            HumanControllerState::Movement2 { selected_row, selected_column, selected_height } => {
                if let Some(p) = picked {
                    proof {
                        lemma_idx(p.row as int, p.column as int, p.height as int);
                        lemma_idx(selected_row as int, selected_column as int, selected_height as int);
                    }
                    let on_worker = match board.get_piece(p.row, p.column, p.height) {
                        Some(Piece::Worker { .. }) => true,
                        _ => false,
                    };
                    if on_worker {
                        let mut base = none_vec();
                        let s = selected_row * 25 + selected_column * 5 + selected_height;
                        base.set(s, true);
                        self.selectable = select_tops_around(board, p.row, p.column, Some(p.height), &base);
                        self.state = HumanControllerState::Movement2 {
                            selected_row: p.row,
                            selected_column: p.column,
                            selected_height: p.height,
                        };
                        proof {
                            let k = click_idx(p);
                            assert forall|i: int| 0 <= i < 125 && #[trigger] self@.selectable[i] implies ((b.cells[i] == Some(
                                Piece::Worker { turn: self.turn },
                            ) && i != k) || (free_above(b, i) && !is_worker(b.cells[i]))) by {
                                if !base@[i] {
                                    lemma_top_free(b, i);
                                }
                            }
                        }
                        false
                    } else {
                        let r = board.movement(
                            selected_row,
                            selected_column,
                            selected_height,
                            p.row,
                            p.column,
                            p.height + 1,
                            self.turn,
                        );
                        proof {
                            assert(r is Ok);
                        }
                        self.selectable = none_vec();
                        self.state = HumanControllerState::PrepBuild {
                            selected_row: p.row,
                            selected_column: p.column,
                        };
                        true
                    }
                } else {
                    false
                }
            },
            HumanControllerState::PrepBuild { selected_row, selected_column } => {
                let base = none_vec();
                self.selectable = select_tops_around(board, selected_row, selected_column, None, &base);
                self.state = HumanControllerState::Build;
                proof {
                    assert forall|i: int| 0 <= i < 125 && #[trigger] self@.selectable[i] implies free_above(b, i) by {
                        lemma_top_free(b, i);
                    }
                }
                false
            },
            HumanControllerState::Build => {
                if let Some(p) = picked {
                    proof { lemma_idx(p.row as int, p.column as int, p.height as int); }
                    let r = board.build(p.row, p.column, p.height + 1);
                    proof {
                        assert(r is Ok);
                    }
                    board.next_turn();
                    self.selectable = none_vec();
                    self.state = HumanControllerState::PrepMovement;
                    true
                } else {
                    false
                }
            },
        }
    }
}


/// Some side is played by a human.
pub fn is_controller_used(controllers: &Controllers) -> (r: bool)
    ensures
        r == (controllers.p1 == Controller::Human || controllers.p2 == Controller::Human),
{
    controllers.p1 == Controller::Human || controllers.p2 == Controller::Human
}

/// A fresh controller for each side that a human plays.
pub fn spawn_controllers(controllers: &Controllers) -> (r: (Option<HumanController>, Option<HumanController>))
    ensures
        r.0 is Some <==> controllers.p1 == Controller::Human,
        r.1 is Some <==> controllers.p2 == Controller::Human,
        r.0 matches Some(c) ==> c@ == (ControllerView {
            turn: Turn::P1,
            state: HumanControllerState::PrepPlaceWorker,
            selectable: none_selected(),
        }),
        r.1 matches Some(c) ==> c@ == (ControllerView {
            turn: Turn::P2,
            state: HumanControllerState::PrepPlaceWorker,
            selectable: none_selected(),
        }),
{
    let p1 = match controllers.p1 {
        Controller::Human => Some(HumanController::new(Turn::P1)),
    };
    let p2 = match controllers.p2 {
        Controller::Human => Some(HumanController::new(Turn::P2)),
    };
    (p1, p2)
}

pub open spec fn opt_view(c: Option<HumanController>) -> Option<ControllerView> {
    match c {
        Some(c) => Some(c@),
        None => None,
    }
}

/// A controller whose player is not to move waits in a preparing phase, and
/// so agrees with every board.
proof fn lemma_waiting_inv(c: ControllerView, b: BoardView, b2: BoardView)
    requires
        c.inv(b),
        c.turn != b.turn,
        b.turn.is_player(),
    ensures
        c.inv(b2),
{
    reveal(ControllerView::inv);
}

/// The win check keeps a controller in agreement with the board: it either
/// leaves the turn as it is or ends the game.
proof fn lemma_outcome_inv(c: ControllerView, b: BoardView)
    requires
        c.inv(b),
    ensures
        c.inv(BoardView { cells: b.cells, turn: b.outcome() }),
{
    reveal(ControllerView::inv);
    crate::board::lemma_outcome_cases(b);
}

/// One tick of the controller of one side, if a human plays it.
fn run_side(side: &mut Option<HumanController>, board: &mut Board, click: Option<Clicked>) -> (committed: bool)
    requires
        old(board).wf(),
        *old(side) matches Some(c) ==> c@.inv(old(board)@),
    ensures
        final(board).wf(),
        *old(side) is None ==> *final(side) == *old(side) && final(board)@ == old(board)@ && !committed,
        *old(side) matches Some(c) ==> ({
            let (c2, b2) = c@.step(old(board)@, click);
            &&& opt_view(*final(side)) == Some(c2)
            &&& final(board)@ == b2
            &&& committed == c@.commits(old(board)@, click)
            &&& c2.inv(b2)
            &&& c2.turn == c@.turn
        }),
        old(board)@.supported() ==> final(board)@.supported(),
{
    match side {
        Some(c) => c.run(board, click),
        None => false,
    }
}

/// A game session as a mathematical value.
pub struct SessionView {
    pub board: BoardView,
    pub p1: Option<ControllerView>,
    pub p2: Option<ControllerView>,
    pub locked: bool,
}

/// The click that a tick acts on: the first of the batch; the rest are dropped.
pub open spec fn first_click(clicks: Seq<Clicked>) -> Option<Clicked> {
    if clicks.len() > 0 {
        Some(clicks[0])
    } else {
        None
    }
}

impl SessionView {
    /// The controller of the player to move, if a human plays that side.
    pub open spec fn live(self) -> Option<ControllerView> {
        if self.board.turn == Turn::P1 {
            self.p1
        } else if self.board.turn == Turn::P2 {
            self.p2
        } else {
            None
        }
    }

    /// One tick of the session: while locked nothing happens; otherwise the
    /// controller of the player to move takes one step on the click, and an
    /// action that changed the board is followed by the win check and locks
    /// the session.
    pub open spec fn tick(self, click: Option<Clicked>) -> SessionView {
        if self.locked || self.live() is None {
            self
        } else {
            let c = self.live()->0;
            let (c2, b2) = c.step(self.board, click);
            let committed = c.commits(self.board, click);
            let b3 = if committed {
                BoardView { cells: b2.cells, turn: b2.outcome() }
            } else {
                b2
            };
            if self.board.turn == Turn::P1 {
                SessionView { board: b3, p1: Some(c2), p2: self.p2, locked: committed }
            } else {
                SessionView { board: b3, p1: self.p1, p2: Some(c2), locked: committed }
            }
        }
    }

    /// Each controller plays its own side and agrees with the board.
    pub open spec fn wf(self) -> bool {
        &&& self.board.wf()
        &&& self.board.supported()
        &&& self.p1 matches Some(c) ==> c.turn == Turn::P1 && c.inv(self.board)
        &&& self.p2 matches Some(c) ==> c.turn == Turn::P2 && c.inv(self.board)
    }
}

/// Once the game is decided no controller is live: a tick changes nothing,
/// whatever the click.
pub proof fn lemma_decided_game_is_final(s: SessionView, click: Option<Clicked>)
    requires
        !s.board.turn.is_player(),
    ensures
        s.tick(click) == s,
{
}

/// At most one action per tick. When the player to move is about to place a
/// worker and a batch brings clicks on two different clickable positions, only
/// the first click is acted on: one worker is placed, above the first position;
/// the level above the second stays free; the controller moves on to its
/// second placement with the first position no longer clickable; and the
/// session is locked, so a further tick does nothing. Once the lock is
/// released, a tick without a click places nothing either.
pub proof fn lemma_one_action_per_tick(s: SessionView, clicks: Seq<Clicked>)
    requires
        s.wf(),
        !s.locked,
        s.live() is Some,
        s.live()->0.state == HumanControllerState::PlaceWorker1,
        clicks.len() == 2,
        s.live()->0.clickable(clicks[0]),
        s.live()->0.clickable(clicks[1]),
        click_idx(clicks[0]) != click_idx(clicks[1]),
    ensures
        ({
            let n = s.tick(first_click(clicks));
            let c = s.live()->0;
            let placed = s.board.cells.update(click_idx(clicks[0]) + 1, Some(Piece::Worker { turn: c.turn }));
            &&& n.board.cells == placed
            &&& n.board.cells[click_idx(clicks[1]) + 1] is None
            &&& n.board.turn == (BoardView { cells: placed, turn: s.board.turn }).outcome()
            &&& n.live() is Some ==> n.live()->0 == c.with_state(
                HumanControllerState::PlaceWorker2,
                c.selectable.update(click_idx(clicks[0]), false),
            )
            &&& n.locked
            &&& n.tick(None) == n
            &&& (SessionView { locked: false, ..n }).tick(None).board == n.board
        }),
{
    reveal(ControllerView::step);
    reveal(ControllerView::inv);
    let c = s.live()->0;
    let p = clicks[0];
    let q = clicks[1];
    lemma_idx(p.row as int, p.column as int, p.height as int);
    lemma_idx(q.row as int, q.column as int, q.height as int);
    assert(c.turn == s.board.turn);
    assert(free_above(s.board, click_idx(q)));
    assert(first_click(clicks) == Some(p));
    lemma_outcome_cases(BoardView { cells: s.board.cells.update(click_idx(p) + 1, Some(Piece::Worker { turn: c.turn })), turn: s.board.turn });
}

/// A game in progress: the board, a controller for each human side, and the
/// turn lock that holds input back until the last action has been seen.
pub struct Session {
    board: Board,
    p1: Option<HumanController>,
    p2: Option<HumanController>,
    locked: bool,
}

impl View for Session {
    type V = SessionView;

    closed spec fn view(&self) -> SessionView {
        SessionView { board: self.board@, p1: opt_view(self.p1), p2: opt_view(self.p2), locked: self.locked }
    }
}

impl Session {
    /// A new game: an empty board, player one to move, nothing locked.
    pub fn new(controllers: &Controllers) -> (r: Session)
        ensures
            r@.wf(),
            !r@.locked,
            r@.board.turn == Turn::P1,
            forall|i: int| 0 <= i < 125 && height_of(i) != 0 ==> #[trigger] r@.board.cells[i] is None,
            r@.p1 == Some(
                ControllerView { turn: Turn::P1, state: HumanControllerState::PrepPlaceWorker, selectable: none_selected() },
            ),
            r@.p2 == Some(
                ControllerView { turn: Turn::P2, state: HumanControllerState::PrepPlaceWorker, selectable: none_selected() },
            ),
    {
        let (p1, p2) = spawn_controllers(controllers);
        proof {
            reveal(ControllerView::inv);
        }
        Session { board: Board::default(), p1, p2, locked: false }
    }

    pub fn get_board(&self) -> (r: &Board)
        ensures
            r@ == self@.board,
    {
        &self.board
    }

    pub fn is_locked(&self) -> (r: bool)
        ensures
            r == self@.locked,
    {
        self.locked
    }

    pub fn get_p1(&self) -> (r: &Option<HumanController>)
        ensures
            opt_view(*r) == self@.p1,
    {
        &self.p1
    }

    pub fn get_p2(&self) -> (r: &Option<HumanController>)
        ensures
            opt_view(*r) == self@.p2,
    {
        &self.p2
    }

    /// One tick with the batch of clicks that arrived since the last one.
    /// Returns whether an action changed the board.
    pub fn run_controllers(&mut self, clicks: &Vec<Clicked>) -> (committed: bool)
        requires
            old(self)@.wf(),
        ensures
            final(self)@.wf(),
            final(self)@ == old(self)@.tick(first_click(clicks@)),
            committed == (final(self)@.locked && !old(self)@.locked),
    {
        if self.locked {
            return false;
        }
        let click = if clicks.len() > 0 {
            Some(clicks[0])
        } else {
            None
        };
        let ghost before = self@;
        let turn = *self.board.get_turn();
        let committed = match turn {
            Turn::P1 => run_side(&mut self.p1, &mut self.board, click),
            Turn::P2 => run_side(&mut self.p2, &mut self.board, click),
            _ => false,
        };
        proof {
            if turn == Turn::P1 {
                if before.p2 is Some {
                    lemma_waiting_inv(before.p2->0, before.board, self@.board);
                }
            } else if turn == Turn::P2 {
                if before.p1 is Some {
                    lemma_waiting_inv(before.p1->0, before.board, self@.board);
                }
            }
        }
        if committed {
            let ghost mid = self@;
            self.board.check_win();
            self.locked = true;
            proof {
                if mid.p1 is Some {
                    lemma_outcome_inv(mid.p1->0, mid.board);
                }
                if mid.p2 is Some {
                    lemma_outcome_inv(mid.p2->0, mid.board);
                }
            }
        }
        committed
    }

    /// Releases the turn lock once the pieces shown match the board.
    pub fn release_lock(&mut self, world: &Vec<PieceMarker>) -> (released: bool)
        requires
            old(self)@.wf(),
            forall|k: int|
                0 <= k < world@.len() ==> in_grid(
                    (#[trigger] world@[k]).row as int,
                    world@[k].column as int,
                    world@[k].height as int,
                ),
        ensures
            final(self)@.wf(),
            released == (old(self)@.locked && old(self)@.board.cells == grid_of(world@)),
            final(self)@ == (SessionView { locked: old(self)@.locked && !released, ..old(self)@ }),
    {
        if self.locked && self.board.validate_world_pieces(world) {
            self.locked = false;
            true
        } else {
            false
        }
    }
}

} // verus!
