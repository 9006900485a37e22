use impact::ErrorKind;
use impact::PlaybackController;
use impact::PlaybackState;

#[test]
fn starts_idle_with_no_session() {
    let p = PlaybackController::new();
    assert_eq!(p.state(), PlaybackState::Idle);
    assert_eq!(p.active_track(), None);
}

#[test]
fn pause_from_idle_reports_invalid_state_and_stays_idle() {
    let mut p = PlaybackController::new();
    assert_eq!(p.pause(), Err(ErrorKind::InvalidState));
    assert_eq!(p.state(), PlaybackState::Idle);
    assert_eq!(p.active_track(), None);
}

#[test]
fn play_success_enters_playing() {
    let mut p = PlaybackController::new();
    assert_eq!(p.play(1, true), Ok(()));
    assert_eq!(p.state(), PlaybackState::Playing);
    assert_eq!(p.active_track(), Some(1));
}

#[test]
fn play_failure_reports_and_leaves_state_unchanged() {
    let mut p = PlaybackController::new();
    assert_eq!(p.play(1, false), Err(ErrorKind::PlaybackError));
    assert_eq!(p.state(), PlaybackState::Idle);
    p.play(1, true).unwrap();
    assert_eq!(p.play(2, false), Err(ErrorKind::PlaybackError));
    assert_eq!(p.state(), PlaybackState::Playing);
    assert_eq!(p.active_track(), Some(1));
}

#[test]
fn play_then_play_swaps_to_the_second_session() {
    let mut p = PlaybackController::new();
    p.play(1, true).unwrap();
    p.play(2, true).unwrap();
    assert_eq!(p.state(), PlaybackState::Playing);
    assert_eq!(p.active_track(), Some(2));
}

#[test]
fn play_is_valid_from_paused() {
    let mut p = PlaybackController::new();
    p.play(1, true).unwrap();
    p.pause().unwrap();
    assert_eq!(p.play(2, true), Ok(()));
    assert_eq!(p.state(), PlaybackState::Playing);
    assert_eq!(p.active_track(), Some(2));
}

#[test]
fn pause_resume_cycle() {
    let mut p = PlaybackController::new();
    p.play(1, true).unwrap();
    assert_eq!(p.pause(), Ok(()));
    assert_eq!(p.state(), PlaybackState::Paused);
    assert_eq!(p.active_track(), Some(1));
    assert_eq!(p.resume(), Ok(()));
    assert_eq!(p.state(), PlaybackState::Playing);
}

#[test]
fn pause_twice_reports_invalid_state() {
    let mut p = PlaybackController::new();
    p.play(1, true).unwrap();
    p.pause().unwrap();
    assert_eq!(p.pause(), Err(ErrorKind::InvalidState));
    assert_eq!(p.state(), PlaybackState::Paused);
}

#[test]
fn resume_outside_paused_reports_invalid_state() {
    let mut p = PlaybackController::new();
    assert_eq!(p.resume(), Err(ErrorKind::InvalidState));
    p.play(1, true).unwrap();
    assert_eq!(p.resume(), Err(ErrorKind::InvalidState));
    assert_eq!(p.state(), PlaybackState::Playing);
}

#[test]
fn stop_releases_the_session() {
    let mut p = PlaybackController::new();
    p.play(1, true).unwrap();
    assert_eq!(p.stop(), Ok(()));
    assert_eq!(p.state(), PlaybackState::Idle);
    assert_eq!(p.active_track(), None);
    let mut q = PlaybackController::new();
    q.play(1, true).unwrap();
    q.pause().unwrap();
    assert_eq!(q.stop(), Ok(()));
    assert_eq!(q.state(), PlaybackState::Idle);
}

#[test]
fn stop_from_idle_reports_invalid_state() {
    let mut p = PlaybackController::new();
    assert_eq!(p.stop(), Err(ErrorKind::InvalidState));
    assert_eq!(p.state(), PlaybackState::Idle);
}
