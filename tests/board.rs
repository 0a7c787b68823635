use santorini::board::{Board, Piece, PieceMarker, RuleError, Turn};

fn worker(turn: Turn) -> Option<Piece> {
    Some(Piece::Worker { turn })
}

#[test]
fn default_board_has_ground_only() {
    let b = Board::default();
    assert_eq!(*b.get_turn(), Turn::P1);
    for r in 0..5 {
        for c in 0..5 {
            assert_eq!(b.get_piece(r, c, 0).copied(), Some(Piece::Board));
            for h in 1..5 {
                assert_eq!(b.get_piece(r, c, h), None);
            }
            assert_eq!(b.get_top(r, c), Some(0));
        }
    }
    assert!(b.get_pieces().is_empty());
}

#[test]
fn build_puts_a_block() {
    let mut b = Board::default();
    assert_eq!(b.build(2, 3, 1), Ok(()));
    assert_eq!(b.get_piece(2, 3, 1).copied(), Some(Piece::Block));
    assert_eq!(b.get_top(2, 3), Some(1));
}

#[test]
fn build_on_occupied_cell_fails() {
    let mut b = Board::default();
    b.build(2, 3, 1).unwrap();
    assert_eq!(b.build(2, 3, 1), Err(RuleError::CellOccupied));
    assert_eq!(b.get_piece(2, 3, 1).copied(), Some(Piece::Block));
}

#[test]
fn build_at_invalid_height_fails() {
    let mut b = Board::default();
    assert_eq!(b.build(0, 0, 0), Err(RuleError::InvalidHeight));
    assert_eq!(b.build(0, 0, 5), Err(RuleError::InvalidHeight));
    assert_eq!(b.get_piece(0, 0, 0).copied(), Some(Piece::Board));
}

#[test]
fn place_worker_and_occupied() {
    let mut b = Board::default();
    assert_eq!(b.place_worker(1, 1, 1, Turn::P1), Ok(()));
    assert_eq!(b.get_piece(1, 1, 1).copied(), worker(Turn::P1));
    assert_eq!(b.place_worker(1, 1, 1, Turn::P2), Err(RuleError::CellOccupied));
    assert_eq!(b.get_piece(1, 1, 1).copied(), worker(Turn::P1));
    assert_eq!(b.place_worker(1, 1, 0, Turn::P2), Err(RuleError::CellOccupied));
    assert_eq!(b.place_worker(1, 1, 7, Turn::P2), Err(RuleError::InvalidHeight));
}

#[test]
fn movement_moves_the_worker() {
    let mut b = Board::default();
    b.place_worker(1, 1, 1, Turn::P2).unwrap();
    b.build(1, 2, 1).unwrap();
    assert_eq!(b.movement(1, 1, 1, 1, 2, 2, Turn::P2), Ok(()));
    assert_eq!(b.get_pieces().len(), 2);
    assert_eq!(b.get_piece(1, 1, 1), None);
    assert_eq!(b.get_piece(1, 2, 2).copied(), worker(Turn::P2));
}

#[test]
fn movement_errors() {
    let mut b = Board::default();
    b.place_worker(1, 1, 1, Turn::P1).unwrap();
    b.place_worker(2, 2, 1, Turn::P2).unwrap();
    b.build(3, 3, 1).unwrap();
    assert_eq!(b.movement(0, 0, 1, 0, 1, 1, Turn::P1), Err(RuleError::NoWorkerAtSource));
    assert_eq!(b.movement(3, 3, 1, 0, 1, 1, Turn::P1), Err(RuleError::NoWorkerAtSource));
    assert_eq!(b.movement(1, 1, 1, 2, 2, 1, Turn::P1), Err(RuleError::CellOccupied));
    assert_eq!(b.movement(1, 1, 1, 2, 2, 5, Turn::P1), Err(RuleError::InvalidHeight));
    assert_eq!(b.get_piece(1, 1, 1).copied(), worker(Turn::P1));
    assert_eq!(b.get_piece(2, 2, 1).copied(), worker(Turn::P2));
}

#[test]
fn movement_of_the_other_players_worker_fails() {
    let mut b = Board::default();
    b.place_worker(1, 1, 1, Turn::P2).unwrap();
    assert_eq!(b.movement(1, 1, 1, 1, 2, 1, Turn::P1), Err(RuleError::NoWorkerAtSource));
    assert_eq!(b.movement(1, 1, 1, 2, 2, 1, Turn::P1), Err(RuleError::NoWorkerAtSource));
    assert_eq!(b.get_piece(1, 1, 1).copied(), worker(Turn::P2));
    assert_eq!(b.get_piece(1, 2, 1), None);
    assert_eq!(b.movement(1, 1, 1, 1, 2, 1, Turn::P2), Ok(()));
    assert_eq!(b.get_piece(1, 2, 1).copied(), worker(Turn::P2));
}

#[test]
fn failed_operations_keep_every_piece() {
    let mut b = Board::default();
    b.build(0, 0, 1).unwrap();
    b.place_worker(0, 0, 2, Turn::P1).unwrap();
    let before = b.get_pieces();
    assert_eq!(b.build(0, 0, 2), Err(RuleError::CellOccupied));
    assert_eq!(b.place_worker(0, 0, 1, Turn::P2), Err(RuleError::CellOccupied));
    assert_eq!(b.movement(0, 0, 2, 0, 0, 1, Turn::P1), Err(RuleError::CellOccupied));
    assert_eq!(b.get_pieces(), before);
}

#[test]
fn get_top_cases() {
    let mut b = Board::default();
    b.build(0, 0, 1).unwrap();
    b.build(0, 0, 2).unwrap();
    assert_eq!(b.get_top(0, 0), Some(2));
    b.place_worker(0, 0, 3, Turn::P1).unwrap();
    assert_eq!(b.get_top(0, 0), None);
    for h in 1..5 {
        b.build(4, 4, h).unwrap();
    }
    assert_eq!(b.get_top(4, 4), None);
    b.build(3, 4, 1).unwrap();
    b.build(3, 4, 2).unwrap();
    b.build(3, 4, 3).unwrap();
    assert_eq!(b.get_top(3, 4), Some(3));
}

#[test]
fn get_pieces_lists_everything_above_ground() {
    let mut b = Board::default();
    b.build(4, 0, 1).unwrap();
    b.place_worker(4, 0, 2, Turn::P2).unwrap();
    b.place_worker(0, 3, 1, Turn::P1).unwrap();
    let pieces = b.get_pieces();
    assert_eq!(
        pieces,
        vec![
            PieceMarker { piece: Piece::Worker { turn: Turn::P1 }, row: 0, column: 3, height: 1 },
            PieceMarker { piece: Piece::Block, row: 4, column: 0, height: 1 },
            PieceMarker { piece: Piece::Worker { turn: Turn::P2 }, row: 4, column: 0, height: 2 },
        ]
    );
}

fn ground_markers() -> Vec<PieceMarker> {
    let mut v = Vec::new();
    for row in 0..5 {
        for column in 0..5 {
            v.push(PieceMarker { piece: Piece::Board, row, column, height: 0 });
        }
    }
    v
}

#[test]
fn validate_world_pieces_matches_board() {
    let mut b = Board::default();
    b.build(2, 2, 1).unwrap();
    let mut world = ground_markers();
    assert!(!b.validate_world_pieces(&world));
    world.extend(b.get_pieces());
    assert!(b.validate_world_pieces(&world));
    b.place_worker(2, 2, 2, Turn::P1).unwrap();
    assert!(!b.validate_world_pieces(&world));
    world.push(PieceMarker { piece: Piece::Worker { turn: Turn::P2 }, row: 2, column: 2, height: 2 });
    assert!(!b.validate_world_pieces(&world));
    world.push(PieceMarker { piece: Piece::Worker { turn: Turn::P1 }, row: 2, column: 2, height: 2 });
    assert!(b.validate_world_pieces(&world));
    assert!(!b.validate_world_pieces(&Vec::new()));
}

#[test]
fn next_turn_alternates_twice() {
    let mut b = Board::default();
    b.next_turn();
    assert_eq!(*b.get_turn(), Turn::P2);
    b.next_turn();
    assert_eq!(*b.get_turn(), Turn::P1);
}

#[test]
fn next_turn_after_win_is_noop() {
    let mut b = Board::default();
    b.build(0, 0, 1).unwrap();
    b.build(0, 0, 2).unwrap();
    b.build(0, 0, 3).unwrap();
    b.place_worker(0, 0, 4, Turn::P2).unwrap();
    b.check_win();
    assert_eq!(*b.get_turn(), Turn::WinP2);
    b.next_turn();
    assert_eq!(*b.get_turn(), Turn::WinP2);
    b.next_turn();
    assert_eq!(*b.get_turn(), Turn::WinP2);
}

#[test]
fn placement_round_trip() {
    let mut b = Board::default();
    b.place_worker(0, 0, 1, Turn::P1).unwrap();
    b.place_worker(1, 1, 1, Turn::P1).unwrap();
    b.next_turn();
    b.place_worker(3, 3, 1, Turn::P2).unwrap();
    b.place_worker(4, 4, 1, Turn::P2).unwrap();
    b.next_turn();
    b.check_win();
    assert_eq!(*b.get_turn(), Turn::P1);
    let workers = b
        .get_pieces()
        .into_iter()
        .filter(|m| matches!(m.piece, Piece::Worker { .. }))
        .count();
    assert_eq!(workers, 4);
}

fn surround_with_two_levels(b: &mut Board, row: usize, column: usize) {
    for r in row.saturating_sub(1)..=(row + 1).min(4) {
        for c in column.saturating_sub(1)..=(column + 1).min(4) {
            if r != row || c != column {
                b.build(r, c, 1).unwrap();
                b.build(r, c, 2).unwrap();
            }
        }
    }
}

#[test]
fn smothered_player_loses() {
    let mut b = Board::default();
    b.place_worker(0, 0, 1, Turn::P1).unwrap();
    b.place_worker(4, 4, 1, Turn::P2).unwrap();
    surround_with_two_levels(&mut b, 0, 0);
    b.check_win();
    assert_eq!(*b.get_turn(), Turn::WinP2);
}

#[test]
fn one_free_worker_keeps_player_alive() {
    let mut b = Board::default();
    b.place_worker(0, 0, 1, Turn::P1).unwrap();
    b.place_worker(4, 4, 1, Turn::P1).unwrap();
    b.place_worker(2, 4, 1, Turn::P2).unwrap();
    surround_with_two_levels(&mut b, 0, 0);
    b.check_win();
    assert_eq!(*b.get_turn(), Turn::P1);
    surround_with_two_levels(&mut b, 4, 4);
    b.check_win();
    assert_eq!(*b.get_turn(), Turn::WinP2);
}

#[test]
fn step_down_is_reachable() {
    let mut b = Board::default();
    b.build(2, 2, 1).unwrap();
    b.build(2, 2, 2).unwrap();
    b.place_worker(2, 2, 3, Turn::P1).unwrap();
    b.place_worker(0, 4, 1, Turn::P2).unwrap();
    b.check_win();
    assert_eq!(*b.get_turn(), Turn::P1);
}

#[test]
fn smother_ignores_workers_on_neighbouring_columns() {
    let mut b = Board::default();
    b.place_worker(0, 0, 1, Turn::P1).unwrap();
    b.place_worker(0, 1, 1, Turn::P2).unwrap();
    b.build(1, 0, 1).unwrap();
    b.build(1, 0, 2).unwrap();
    b.build(1, 1, 1).unwrap();
    b.build(1, 1, 2).unwrap();
    b.check_win();
    assert_eq!(*b.get_turn(), Turn::P1);
}

#[test]
fn reaching_top_level_wins_first() {
    let mut b = Board::default();
    b.place_worker(0, 0, 1, Turn::P2).unwrap();
    surround_with_two_levels(&mut b, 0, 0);
    b.build(1, 1, 3).unwrap();
    b.place_worker(1, 1, 4, Turn::P1).unwrap();
    b.check_win();
    assert_eq!(*b.get_turn(), Turn::WinP1);
}

#[test]
fn decided_game_stays_decided() {
    let mut b = Board::default();
    b.place_worker(0, 0, 1, Turn::P1).unwrap();
    b.place_worker(4, 4, 1, Turn::P2).unwrap();
    surround_with_two_levels(&mut b, 0, 0);
    b.check_win();
    assert_eq!(*b.get_turn(), Turn::WinP2);
    b.build(2, 2, 1).unwrap();
    b.build(2, 2, 2).unwrap();
    b.build(2, 2, 3).unwrap();
    b.place_worker(2, 2, 4, Turn::P1).unwrap();
    b.check_win();
    assert_eq!(*b.get_turn(), Turn::WinP2);
}

#[test]
fn no_workers_no_outcome() {
    let mut b = Board::default();
    b.check_win();
    assert_eq!(*b.get_turn(), Turn::P1);
}
