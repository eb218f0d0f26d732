use compactor::background::{reply, ControlToken, Received, Reply};

#[test]
fn fresh_token_lets_the_job_run() {
    let token: ControlToken<u32> = ControlToken::new();
    assert!(!token.is_cancelled());
    assert!(!token.is_paused());
    assert!(!token.handle_pause());
    assert_eq!(token.is_cancelled_with_pause(), Some(false));
    assert_eq!(token.result(), Ok(()));
}

#[test]
fn cancel_is_idempotent_and_final() {
    let mut token: ControlToken<u32> = ControlToken::new();
    token.cancel();
    token.cancel();
    assert!(token.is_cancelled());
    token.pause();
    assert!(token.is_cancelled());
    token.resume();
    assert!(token.is_cancelled());
    token.set_status(1);
    assert!(token.is_cancelled());
    assert_eq!(token.result(), Err(()));
}

#[test]
fn paused_job_waits_until_resumed() {
    let mut token: ControlToken<u32> = ControlToken::new();
    token.pause();
    assert!(token.is_paused());
    assert!(token.handle_pause());
    assert_eq!(token.is_cancelled_with_pause(), None);
    token.resume();
    assert!(!token.is_paused());
    assert_eq!(token.is_cancelled_with_pause(), Some(false));
}

#[test]
fn cancel_wins_over_pause() {
    let mut token: ControlToken<u32> = ControlToken::new();
    token.pause();
    token.cancel();
    assert!(!token.handle_pause());
    assert_eq!(token.is_cancelled_with_pause(), Some(true));
}

#[test]
fn pausing_twice_is_pausing_once() {
    let mut once: ControlToken<u32> = ControlToken::new();
    once.pause();
    once.resume();
    let mut twice: ControlToken<u32> = ControlToken::new();
    twice.pause();
    twice.pause();
    twice.resume();
    assert_eq!(once.is_paused(), twice.is_paused());
    assert_eq!(once.is_cancelled_with_pause(), twice.is_cancelled_with_pause());

    let mut never: ControlToken<u32> = ControlToken::new();
    never.resume();
    assert!(!never.is_paused());
    assert_eq!(never.is_cancelled_with_pause(), Some(false));
}

#[test]
fn status_is_latest_wins_and_read_once() {
    let mut token: ControlToken<u32> = ControlToken::new();
    assert_eq!(token.get_status(), None);
    token.set_status(1);
    token.set_status(2);
    token.set_status(3);
    assert_eq!(token.get_status(), Some(3));
    assert_eq!(token.get_status(), None);
}

#[test]
fn default_token_is_a_fresh_one() {
    let mut token: ControlToken<u32> = ControlToken::default();
    assert!(!token.is_cancelled());
    assert!(!token.is_paused());
    assert_eq!(token.get_status(), None);
}

#[test]
fn a_breakdown_is_told_apart_from_every_output() {
    // A job that was stopped still hands over its output.
    let stopped: Received<Result<u32, u32>> = Received::Ended(Ok(Err(11)));
    assert!(matches!(reply(stopped), Reply::Ready(Err(11))));
    let finished: Received<Result<u32, u32>> = Received::Ended(Ok(Ok(100)));
    assert!(matches!(reply(finished), Reply::Ready(Ok(100))));
    let crashed: Received<Result<u32, u32>> = Received::Ended(Err("index out of bounds".to_string()));
    assert!(matches!(reply(crashed), Reply::Crashed(m) if m == "index out of bounds"));
    let running: Received<u32> = Received::Nothing;
    assert!(matches!(reply(running), Reply::NotYet));
    let gone: Received<u32> = Received::Disconnected;
    assert!(matches!(reply(gone), Reply::Lost));
}
