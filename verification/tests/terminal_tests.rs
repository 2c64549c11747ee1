use nexterm::error::AppError;
use nexterm::state::{SessionState, TerminalEvent};
use nexterm::terminal::{
    channel_step, check_open_terminal, check_terminal, command_step, queue_result, ChannelMessage, CommandOutcome, Next,
};

fn closed_reason(e: Option<TerminalEvent>) -> String {
    match e {
        Some(TerminalEvent::Closed { reason }) => reason,
        other => panic!("expected Closed, got {other:?}"),
    }
}

#[test]
fn channel_messages_become_events() {
    let s = channel_step(ChannelMessage::Data(vec![1, 2, 3]));
    assert_eq!(s.next, Next::StopIfUndelivered);
    assert!(matches!(s.event, Some(TerminalEvent::Output { ref data }) if data == &vec![1, 2, 3]));
    assert_eq!(closed_reason(channel_step(ChannelMessage::ExitStatus(127)).event), "Process exited with code 127");
    assert_eq!(closed_reason(channel_step(ChannelMessage::ExitSignal("TERM".to_string())).event), "Process killed by signal TERM");
    assert_eq!(closed_reason(channel_step(ChannelMessage::Eof).event), "Shell session ended");
    assert_eq!(closed_reason(channel_step(ChannelMessage::Close).event), "Channel closed");
    assert_eq!(closed_reason(channel_step(ChannelMessage::Ended).event), "Connection lost");
    let other = channel_step(ChannelMessage::Other);
    assert!(other.event.is_none());
    assert_eq!(other.next, Next::Continue);
    assert_eq!(channel_step(ChannelMessage::Eof).next, Next::Stop);
}

#[test]
fn command_outcomes_become_events() {
    let w = command_step(CommandOutcome::Written(Err("broken pipe".to_string())));
    assert_eq!(w.next, Next::Stop);
    assert!(matches!(w.event, Some(TerminalEvent::Error { ref message }) if message == "Write failed: broken pipe"));
    let r = command_step(CommandOutcome::Resized(Err("nope".to_string())));
    assert_eq!(r.next, Next::Continue, "a failed resize is not fatal");
    assert!(matches!(r.event, Some(TerminalEvent::Error { ref message }) if message == "Resize failed: nope"));
    assert_eq!(command_step(CommandOutcome::Written(Ok(()))).next, Next::Continue);
    assert_eq!(closed_reason(command_step(CommandOutcome::Closed).event), "Terminal closed by user");
    assert_eq!(closed_reason(command_step(CommandOutcome::HandleDropped).event), "Terminal handle dropped");
}

#[test]
fn terminal_command_checks() {
    assert_eq!(queue_result(true), Ok(()));
    assert_eq!(queue_result(false), Err(AppError::Other("Terminal channel closed".to_string())));
    assert_eq!(check_open_terminal(1, None, true), Err(AppError::SessionNotFound(1)));
    assert_eq!(check_open_terminal(1, Some(&SessionState::Connecting), true), Err(AppError::NotConnected));
    assert_eq!(check_open_terminal(1, Some(&SessionState::Connected), false), Err(AppError::NotConnected));
    assert_eq!(check_open_terminal(1, Some(&SessionState::Connected), true), Ok(()));
    assert_eq!(check_terminal(1, false, 2, false), Err(AppError::SessionNotFound(1)));
    assert_eq!(check_terminal(1, true, 2, false), Err(AppError::TerminalNotFound(2)));
    assert_eq!(check_terminal(1, true, 2, true), Ok(()));
}
