use kamplud::flow::{return_to_menu, splash_step, toggle_pause, MenuExit, Overlay, PauseSettings};
use kamplud::score::{
    score_add_record, score_load_start, score_load_step, score_record, PlayerInfo, PlayerToml,
    ScoreAction, ScoreComplaint, ScoreEvent, ScoreLoad,
};

#[test]
fn score_record_text() {
    assert_eq!(score_record(0), "[playerinfo]\nscore = 0\n");
    assert_eq!(score_record(1234), "[playerinfo]\nscore = 1234\n");
    assert_eq!(score_add_record(5, 7), "[playerinfo]\nscore = 12\n");
}

#[test]
fn score_record_reads_back_as_toml() {
    for n in [0usize, 1, 99, 123456] {
        let v: toml::Value = toml::from_str(&score_record(n)).expect("record is TOML");
        assert_eq!(v["playerinfo"]["score"].as_integer(), Some(n as i64));
    }
}

#[test]
fn score_load_reads_existing_file() {
    let (state, action) = score_load_start();
    assert!(matches!(state, ScoreLoad::Reading));
    assert!(matches!(action, ScoreAction::ReadFile));
    let (state, action) = score_load_step(state, ScoreEvent::Read("[playerinfo]\nscore = 9\n".to_string()));
    assert!(matches!(state, ScoreLoad::Parsing));
    match action {
        ScoreAction::Parse(text) => assert_eq!(text, "[playerinfo]\nscore = 9\n"),
        _ => panic!("expected a parse request"),
    }
    let parsed = PlayerToml { playerinfo: PlayerInfo { score: 9 } };
    let (state, action) = score_load_step(state, ScoreEvent::Parsed(Some(parsed)));
    assert!(matches!(state, ScoreLoad::Done(9)));
    assert!(matches!(action, ScoreAction::Finish(9, None)));
}

#[test]
fn score_load_creates_missing_file() {
    let (state, _) = score_load_start();
    let (state, action) = score_load_step(state, ScoreEvent::ReadFailed);
    assert!(matches!(state, ScoreLoad::WritingDefault));
    match action {
        ScoreAction::WriteDefault(text) => assert_eq!(text, "[playerinfo]\nscore = 0\n"),
        _ => panic!("expected a write request"),
    }
    let (state, action) = score_load_step(state, ScoreEvent::Written);
    assert!(matches!(state, ScoreLoad::Parsing));
    match action {
        ScoreAction::Parse(text) => assert_eq!(text, "[playerinfo]\nscore = 0\n"),
        _ => panic!("expected a parse request"),
    }
}

#[test]
fn score_load_gives_zero_on_failures() {
    let (state, action) = score_load_step(ScoreLoad::WritingDefault, ScoreEvent::WriteFailed);
    assert!(matches!(state, ScoreLoad::Done(0)));
    assert!(matches!(action, ScoreAction::Finish(0, Some(ScoreComplaint::WriteFailed))));
    let (state, action) = score_load_step(ScoreLoad::Parsing, ScoreEvent::Parsed(None));
    assert!(matches!(state, ScoreLoad::Done(0)));
    assert!(matches!(action, ScoreAction::Finish(0, Some(ScoreComplaint::Unreadable))));
}

#[test]
fn score_load_ignores_events_out_of_turn() {
    let (state, action) = score_load_step(ScoreLoad::Parsing, ScoreEvent::Written);
    assert!(matches!(state, ScoreLoad::Parsing));
    assert!(matches!(action, ScoreAction::Wait));
    let (state, action) = score_load_step(ScoreLoad::Done(4), ScoreEvent::ReadFailed);
    assert!(matches!(state, ScoreLoad::Done(4)));
    assert!(matches!(action, ScoreAction::Wait));
}

#[test]
fn escape_toggles_pause() {
    assert_eq!(toggle_pause(false, false), None);
    assert_eq!(toggle_pause(true, false), None);
    assert_eq!(
        toggle_pause(false, true),
        Some(PauseSettings { paused: true, physics_active: false, cursor_locked: false, cursor_visible: true })
    );
    assert_eq!(
        toggle_pause(true, true),
        Some(PauseSettings { paused: false, physics_active: true, cursor_locked: true, cursor_visible: false })
    );
}

#[test]
fn escape_twice_restores() {
    for start in [false, true] {
        let once = toggle_pause(start, true).unwrap();
        let twice = toggle_pause(once.paused, true).unwrap();
        assert_eq!(twice.paused, start);
        assert_eq!(twice.physics_active, !start);
    }
}

#[test]
fn exits_to_menu() {
    for exit in [MenuExit::FromPause, MenuExit::AfterWin, MenuExit::AfterGameOver] {
        let r = return_to_menu(exit);
        assert!(r.open_menu && r.physics_active && r.forget_level);
    }
    let p = return_to_menu(MenuExit::FromPause);
    assert!(p.unpause && !p.save_points && !p.reset_points);
    let w = return_to_menu(MenuExit::AfterWin);
    assert!(!w.unpause && w.save_points && !w.reset_points);
    let g = return_to_menu(MenuExit::AfterGameOver);
    assert!(!g.unpause && !g.save_points && g.reset_points);
}

#[test]
fn splash_phases() {
    let s = splash_step(true, true, true, false);
    assert_eq!(s.overlay, Some(Overlay::Lighten));
    assert!(!s.start_timer && s.faded && !s.to_menu);
    let s = splash_step(true, false, true, false);
    assert_eq!(s.overlay, None);
    assert!(s.start_timer && s.faded);
    let s = splash_step(true, false, true, true);
    assert!(!s.faded);
    let s = splash_step(false, true, true, false);
    assert_eq!(s.overlay, Some(Overlay::Darken));
    assert!(!s.to_menu && !s.faded);
    let s = splash_step(false, true, false, false);
    assert_eq!(s.overlay, None);
    assert!(s.to_menu);
}

#[test]
fn adding_points_twice_is_adding_their_sum() {
    let s = 7usize;
    let (a, b) = (3usize, 5usize);
    let after_a = score_add_record(s, a);
    let parsed: toml::Value = toml::from_str(&after_a).expect("record is TOML");
    let read = parsed["playerinfo"]["score"].as_integer().unwrap() as usize;
    let (state, _) = score_load_step(ScoreLoad::Reading, ScoreEvent::Read(after_a));
    let (state, action) = score_load_step(state, ScoreEvent::Parsed(Some(PlayerToml { playerinfo: PlayerInfo { score: read } })));
    assert!(matches!(state, ScoreLoad::Done(10)));
    assert!(matches!(action, ScoreAction::Finish(10, None)));
    assert_eq!(score_add_record(read, b), score_add_record(s, a + b));
    assert_eq!(score_add_record(s, 0), score_record(s));
}
