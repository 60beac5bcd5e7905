use puissance_4::game_config::{
    Config, Mode, PlayerKind, PlayerNb, PlayerNb::P1, PlayerNb::P2,
};
use puissance_4::game_master::{ColError, GameMaster, Position, TurnOutcome, COL, NB_TURNS, ROW};

const A: Option<PlayerNb> = Some(P1);
const B: Option<PlayerNb> = Some(P2);
const O: Option<PlayerNb> = None;

fn multi() -> Config {
    Config::new(Mode::Multi, Config::player_multi_mode())
}

fn empty_rows() -> Vec<Vec<Option<PlayerNb>>> {
    vec![vec![O; COL]; ROW]
}

fn with_column_3(bottom_up: &[Option<PlayerNb>], turn: PlayerNb) -> GameMaster {
    let mut rows = empty_rows();
    for (k, v) in bottom_up.iter().enumerate() {
        rows[ROW - 1 - k][3] = *v;
    }
    GameMaster::from_grid(multi(), rows, turn).unwrap()
}

fn drawn_but_one() -> Vec<Vec<Option<PlayerNb>>> {
    let pattern = ["AABBAAB", "AABBAAB", "BBAABBA", "AABBAAB", "BBAABBA", "BBAABBA"];
    let mut rows: Vec<Vec<Option<PlayerNb>>> = pattern
        .iter()
        .map(|r| r.chars().map(|c| if c == 'A' { A } else { B }).collect())
        .collect();
    rows[0][6] = O;
    rows
}

#[test]
fn vertical_four_wins_after_drop() {
    let mut gm = with_column_3(&[A, A, A], P1);
    let pos = gm.check_column("4".to_string()).ok().unwrap();
    assert_eq!(pos, Position { x: 3, y: 2 });
    assert_eq!(gm.play(pos), TurnOutcome::Won(P1));
    assert!(gm.check_success(pos));
    assert_eq!(gm.turn(), P1);
}

#[test]
fn broken_column_does_not_win() {
    let mut gm = with_column_3(&[A, B, A], P1);
    let pos = gm.check_column("4".to_string()).ok().unwrap();
    assert_eq!(pos, Position { x: 3, y: 2 });
    assert_eq!(gm.play(pos), TurnOutcome::Next(P2));
    assert_eq!(gm.turn(), P2);
}

#[test]
fn win_check_at_start_is_false() {
    let gm = with_column_3(&[A, A, A, A], P1);
    assert!(gm.check_success(Position { x: 3, y: 2 }));
    assert!(!gm.check_success(Position { x: 3, y: 1 }));
    assert!(!gm.check_success(Position { x: 0, y: 5 }));
}

#[test]
fn full_column_is_refused() {
    let gm = with_column_3(&[A, B, A, B, A, B], P1);
    assert!(matches!(gm.check_column("4".to_string()), Err(ColError::FullCol(4))));
    assert!(matches!(gm.check_column("3".to_string()), Ok(Position { x: 2, y: 5 })));
}

#[test]
fn bad_tokens_are_refused() {
    let gm = GameMaster::new(multi());
    match gm.check_column("x".to_string()) {
        Err(ColError::Invalid(s)) => assert_eq!(s, "x"),
        _ => panic!("expected an invalid token"),
    }
    assert!(matches!(gm.check_column("".to_string()), Err(ColError::Invalid(_))));
    assert!(matches!(gm.check_column("+".to_string()), Err(ColError::Invalid(_))));
    assert!(matches!(gm.check_column("-1".to_string()), Err(ColError::Invalid(_))));
    assert!(matches!(gm.check_column("1a".to_string()), Err(ColError::Invalid(_))));
    assert!(matches!(
        gm.check_column("123456789012345678901234567890".to_string()),
        Err(ColError::Invalid(_))
    ));
    assert!(matches!(gm.check_column("0".to_string()), Err(ColError::WrongColNb(0))));
    assert!(matches!(gm.check_column("9".to_string()), Err(ColError::WrongColNb(9))));
    assert!(matches!(gm.check_column("8".to_string()), Err(ColError::WrongColNb(8))));
}

#[test]
fn accepted_tokens_land_at_the_bottom() {
    let gm = GameMaster::new(multi());
    assert_eq!(gm.check_column("1".to_string()).ok(), Some(Position { x: 0, y: 5 }));
    assert_eq!(gm.check_column("7".to_string()).ok(), Some(Position { x: 6, y: 5 }));
    assert_eq!(gm.check_column("+3".to_string()).ok(), Some(Position { x: 2, y: 5 }));
    assert_eq!(gm.check_column("007".to_string()).ok(), Some(Position { x: 6, y: 5 }));
}

#[test]
fn drop_stacks_pieces() {
    let mut gm = GameMaster::new(multi());
    let first = gm.check_column("2".to_string()).ok().unwrap();
    gm.play(first);
    let second = gm.check_column("2".to_string()).ok().unwrap();
    assert_eq!(second, Position { x: 1, y: 4 });
    assert_eq!(gm.cell(1, 5), A);
    assert_eq!(gm.cell(1, 4), O);
}

#[test]
fn move_count_follows_placements() {
    let mut gm = GameMaster::new(multi());
    assert_eq!(gm.nb_turn(), 0);
    for k in 0..5 {
        let pos = gm.check_column(format!("{}", k + 1)).ok().unwrap();
        gm.play(pos);
        assert_eq!(gm.nb_turn(), k + 1);
    }
    let resumed = GameMaster::from_grid(multi(), drawn_but_one(), P2).unwrap();
    assert_eq!(resumed.nb_turn(), NB_TURNS - 1);
    assert!(!resumed.check_full());
}

#[test]
fn turns_alternate() {
    let mut gm = GameMaster::new(multi());
    assert_eq!(gm.turn(), P1);
    let pos = gm.check_column("1".to_string()).ok().unwrap();
    assert_eq!(gm.play(pos), TurnOutcome::Next(P2));
    assert_eq!(gm.turn(), P2);
    let pos = gm.check_column("1".to_string()).ok().unwrap();
    assert_eq!(gm.play(pos), TurnOutcome::Next(P1));
    assert_eq!(gm.turn(), P1);
    assert_eq!(gm.cell(0, 5), A);
    assert_eq!(gm.cell(0, 4), B);
}

#[test]
fn last_cell_without_run_is_a_draw() {
    let mut gm = GameMaster::from_grid(multi(), drawn_but_one(), P2).unwrap();
    let pos = gm.check_column("7".to_string()).ok().unwrap();
    assert_eq!(pos, Position { x: 6, y: 0 });
    assert_eq!(gm.play(pos), TurnOutcome::Draw);
    assert!(gm.check_full());
    assert_eq!(gm.nb_turn(), NB_TURNS);
    assert_eq!(gm.turn(), P2);
    assert_eq!(gm.process_computer_turn(), None);
    assert!(matches!(gm.check_column("7".to_string()), Err(ColError::FullCol(7))));
}

#[test]
fn computer_takes_leftmost_open_column() {
    let gm = GameMaster::new(multi());
    assert_eq!(gm.process_computer_turn(), Some(Position { x: 0, y: 5 }));
    let mut rows = empty_rows();
    for r in 0..ROW {
        rows[r][0] = if r % 2 == 0 { A } else { B };
    }
    rows[5][1] = A;
    let gm = GameMaster::from_grid(multi(), rows, P1).unwrap();
    assert_eq!(gm.process_computer_turn(), Some(Position { x: 1, y: 4 }));
}

#[test]
fn misshaped_grid_is_refused() {
    assert!(GameMaster::from_grid(multi(), vec![vec![O; COL]; ROW - 1], P1).is_none());
    let mut rows = empty_rows();
    rows[2].push(O);
    assert!(GameMaster::from_grid(multi(), rows, P1).is_none());
}

#[test]
fn current_player_follows_turn() {
    let config = Config::new(Mode::Solo, Config::player_solo_mode(P2));
    let mut gm = GameMaster::new(config);
    assert_eq!(gm.current_player().nb, P1);
    assert!(gm.current_player().kind == PlayerKind::Computer);
    let pos = gm.process_computer_turn().unwrap();
    gm.play(pos);
    assert_eq!(gm.current_player().nb, P2);
    assert!(gm.current_player().kind == PlayerKind::User);
}
