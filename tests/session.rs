use santorini::board::{Piece, PieceMarker, Turn};
use santorini::controller::{
    is_controller_used, Clicked, Controller, Controllers, HumanControllerState, Session,
};

fn humans() -> Controllers {
    Controllers { p1: Controller::Human, p2: Controller::Human }
}

fn click(row: usize, column: usize, height: usize) -> Clicked {
    Clicked { row, column, height }
}

/// What the presentation layer shows once it has caught up with the board.
fn world(s: &Session) -> Vec<PieceMarker> {
    let mut v = Vec::new();
    for row in 0..5 {
        for column in 0..5 {
            v.push(PieceMarker { piece: Piece::Board, row, column, height: 0 });
        }
    }
    v.extend(s.get_board().get_pieces());
    v
}

fn sync(s: &mut Session) {
    let w = world(s);
    assert!(s.release_lock(&w));
}

fn state(s: &Session, turn: Turn) -> HumanControllerState {
    let c = if turn == Turn::P1 { s.get_p1() } else { s.get_p2() };
    c.as_ref().unwrap().get_state()
}

fn selectable(s: &Session, turn: Turn, row: usize, column: usize, height: usize) -> bool {
    let c = if turn == Turn::P1 { s.get_p1() } else { s.get_p2() };
    c.as_ref().unwrap().is_selectable(row, column, height)
}

fn count_workers(s: &Session) -> usize {
    s.get_board()
        .get_pieces()
        .into_iter()
        .filter(|m| matches!(m.piece, Piece::Worker { .. }))
        .count()
}

/// Places two workers for each player: P1 on (0,0) and (1,1), P2 on (3,3) and (4,4).
fn place_all(s: &mut Session) {
    assert!(!s.run_controllers(&vec![]));
    assert!(s.run_controllers(&vec![click(0, 0, 0)]));
    sync(s);
    assert!(s.run_controllers(&vec![click(1, 1, 0)]));
    sync(s);
    assert!(!s.run_controllers(&vec![]));
    assert!(s.run_controllers(&vec![click(3, 3, 0)]));
    sync(s);
    assert!(s.run_controllers(&vec![click(4, 4, 0)]));
    sync(s);
}

#[test]
fn controllers_are_used_when_human() {
    assert!(is_controller_used(&humans()));
}

#[test]
fn new_session_starts_idle() {
    let s = Session::new(&humans());
    assert!(!s.is_locked());
    assert_eq!(*s.get_board().get_turn(), Turn::P1);
    assert_eq!(state(&s, Turn::P1), HumanControllerState::PrepPlaceWorker);
    assert_eq!(state(&s, Turn::P2), HumanControllerState::PrepPlaceWorker);
}

#[test]
fn prep_place_worker_offers_free_ground() {
    let mut s = Session::new(&humans());
    assert!(!s.run_controllers(&vec![click(2, 2, 0)]));
    assert_eq!(state(&s, Turn::P1), HumanControllerState::PlaceWorker1);
    assert!(selectable(&s, Turn::P1, 2, 2, 0));
    assert!(!selectable(&s, Turn::P1, 2, 2, 1));
    assert_eq!(count_workers(&s), 0);
}

#[test]
fn two_clicks_in_one_tick_place_one_worker() {
    let mut s = Session::new(&humans());
    s.run_controllers(&vec![]);
    assert!(s.run_controllers(&vec![click(0, 0, 0), click(2, 2, 0)]));
    assert_eq!(count_workers(&s), 1);
    assert_eq!(s.get_board().get_piece(0, 0, 1).copied(), Some(Piece::Worker { turn: Turn::P1 }));
    assert_eq!(s.get_board().get_piece(2, 2, 1), None);
    assert_eq!(state(&s, Turn::P1), HumanControllerState::PlaceWorker2);
    assert!(!selectable(&s, Turn::P1, 0, 0, 0));
    assert!(selectable(&s, Turn::P1, 2, 2, 0));
    assert!(s.is_locked());
    assert!(!s.run_controllers(&vec![]));
    sync(&mut s);
    assert!(!s.run_controllers(&vec![]));
    assert_eq!(count_workers(&s), 1);
    assert_eq!(state(&s, Turn::P1), HumanControllerState::PlaceWorker2);
}

#[test]
fn locked_session_ignores_clicks() {
    let mut s = Session::new(&humans());
    s.run_controllers(&vec![]);
    assert!(s.run_controllers(&vec![click(0, 0, 0)]));
    assert!(s.is_locked());
    assert!(!s.run_controllers(&vec![click(2, 2, 0)]));
    assert_eq!(count_workers(&s), 1);
    let stale = vec![];
    assert!(!s.release_lock(&stale));
    assert!(s.is_locked());
    sync(&mut s);
    assert!(!s.is_locked());
    assert!(s.run_controllers(&vec![click(2, 2, 0)]));
    assert_eq!(count_workers(&s), 2);
}

#[test]
fn unselectable_click_is_dropped() {
    let mut s = Session::new(&humans());
    s.run_controllers(&vec![]);
    assert!(!s.run_controllers(&vec![click(0, 0, 1)]));
    assert!(!s.run_controllers(&vec![click(7, 0, 0)]));
    assert_eq!(count_workers(&s), 0);
    assert_eq!(state(&s, Turn::P1), HumanControllerState::PlaceWorker1);
}

#[test]
fn placement_round_trip_through_session() {
    let mut s = Session::new(&humans());
    place_all(&mut s);
    assert_eq!(*s.get_board().get_turn(), Turn::P1);
    assert_eq!(count_workers(&s), 4);
    assert_eq!(state(&s, Turn::P1), HumanControllerState::PrepMovement);
    assert_eq!(state(&s, Turn::P2), HumanControllerState::PrepMovement);
}

#[test]
fn full_turn_moves_then_builds() {
    let mut s = Session::new(&humans());
    place_all(&mut s);
    // PrepMovement: own workers become clickable.
    assert!(!s.run_controllers(&vec![]));
    assert!(selectable(&s, Turn::P1, 0, 0, 1));
    assert!(selectable(&s, Turn::P1, 1, 1, 1));
    assert!(!selectable(&s, Turn::P1, 3, 3, 1));
    // Movement1: pick the worker on (1,1).
    assert!(!s.run_controllers(&vec![click(1, 1, 1)]));
    assert_eq!(
        state(&s, Turn::P1),
        HumanControllerState::Movement2 { selected_row: 1, selected_column: 1, selected_height: 1 }
    );
    assert!(selectable(&s, Turn::P1, 1, 2, 0));
    assert!(selectable(&s, Turn::P1, 0, 0, 1));
    assert!(!selectable(&s, Turn::P1, 0, 0, 0));
    assert!(!selectable(&s, Turn::P1, 3, 3, 0));
    // Movement2: step onto (1,2).
    assert!(s.run_controllers(&vec![click(1, 2, 0)]));
    assert_eq!(s.get_board().get_piece(1, 2, 1).copied(), Some(Piece::Worker { turn: Turn::P1 }));
    assert_eq!(s.get_board().get_piece(1, 1, 1), None);
    assert_eq!(
        state(&s, Turn::P1),
        HumanControllerState::PrepBuild { selected_row: 1, selected_column: 2 }
    );
    sync(&mut s);
    // PrepBuild: free tops around (1,2).
    assert!(!s.run_controllers(&vec![]));
    assert!(selectable(&s, Turn::P1, 1, 1, 0));
    assert!(!selectable(&s, Turn::P1, 1, 2, 0));
    assert!(!selectable(&s, Turn::P1, 1, 4, 0));
    // Build on (1,1).
    assert!(s.run_controllers(&vec![click(1, 1, 0)]));
    assert_eq!(s.get_board().get_piece(1, 1, 1).copied(), Some(Piece::Block));
    assert_eq!(*s.get_board().get_turn(), Turn::P2);
    assert_eq!(state(&s, Turn::P1), HumanControllerState::PrepMovement);
    sync(&mut s);
    assert!(!s.run_controllers(&vec![]));
    assert_eq!(state(&s, Turn::P2), HumanControllerState::Movement1);
}

#[test]
fn reselecting_another_worker() {
    let mut s = Session::new(&humans());
    place_all(&mut s);
    s.run_controllers(&vec![]);
    s.run_controllers(&vec![click(1, 1, 1)]);
    assert!(!s.run_controllers(&vec![click(0, 0, 1)]));
    assert_eq!(
        state(&s, Turn::P1),
        HumanControllerState::Movement2 { selected_row: 0, selected_column: 0, selected_height: 1 }
    );
    assert!(selectable(&s, Turn::P1, 1, 1, 1));
    assert!(selectable(&s, Turn::P1, 0, 1, 0));
    assert!(!selectable(&s, Turn::P1, 1, 2, 0));
    assert_eq!(count_workers(&s), 4);
}

#[test]
fn other_player_cannot_act() {
    let mut s = Session::new(&humans());
    place_all(&mut s);
    s.run_controllers(&vec![]);
    assert!(!s.run_controllers(&vec![click(3, 3, 1)]));
    assert_eq!(state(&s, Turn::P1), HumanControllerState::Movement1);
    assert_eq!(state(&s, Turn::P2), HumanControllerState::PrepMovement);
}
