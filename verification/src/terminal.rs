use crate::error::{AppError, AppErrorView};
use crate::state::{SessionState, TerminalEvent};
use crate::text::{decimal, decimal_string};
use vstd::prelude::*;

verus! {

/// `TerminalEvent` with its bytes and texts as sequences.
pub enum TerminalEventView {
    Output(Seq<u8>),
    Closed(Seq<char>),
    Error(Seq<char>),
}

impl View for TerminalEvent {
    type V = TerminalEventView;

    open spec fn view(&self) -> TerminalEventView {
        match self {
            TerminalEvent::Output { data } => TerminalEventView::Output(data@),
            TerminalEvent::Closed { reason } => TerminalEventView::Closed(reason@),
            TerminalEvent::Error { message } => TerminalEventView::Error(message@),
        }
    }
}

/// What the terminal task does once it has handled one input.
#[derive(Debug, Clone, Copy, PartialEq, Eq)]
pub enum Next {
    /// Keep serving the terminal.
    Continue,
    /// Stop the task.
    Stop,
    /// Stop the task if the event could not be delivered to the front end.
    StopIfUndelivered,
}

/// One step of the terminal task: the event to send, if any, and what to
/// do next.
pub struct TerminalStep {
    pub event: Option<TerminalEvent>,
    pub next: Next,
}

/// A message of the SSH channel, as the terminal task sees it.
pub enum ChannelMessage {
    /// Output of the remote shell.
    Data(Vec<u8>),
    /// Extended output (stderr).
    ExtendedData(Vec<u8>),
    /// The remote process exited with this status.
    ExitStatus(u32),
    /// The remote process was killed; the signal's name as debug text.
    ExitSignal(String),
    Eof,
    Close,
    /// The channel's message stream ended.
    Ended,
    /// Any other message (window adjustments and the like).
    Other,
}

/// The event a channel message gives, if any, and what follows it.
pub open spec fn channel_step_spec(msg: ChannelMessage) -> (Option<TerminalEventView>, Next) {
    match msg {
        ChannelMessage::Data(d) => (Some(TerminalEventView::Output(d@)), Next::StopIfUndelivered),
        ChannelMessage::ExtendedData(d) => (Some(TerminalEventView::Output(d@)), Next::StopIfUndelivered),
        ChannelMessage::ExitStatus(n) => (
            Some(TerminalEventView::Closed("Process exited with code "@ + decimal(n as nat))),
            Next::Stop,
        ),
        ChannelMessage::ExitSignal(s) => (Some(TerminalEventView::Closed("Process killed by signal "@ + s@)), Next::Stop),
        ChannelMessage::Eof => (Some(TerminalEventView::Closed("Shell session ended"@)), Next::Stop),
        ChannelMessage::Close => (Some(TerminalEventView::Closed("Channel closed"@)), Next::Stop),
        ChannelMessage::Ended => (Some(TerminalEventView::Closed("Connection lost"@)), Next::Stop),
        ChannelMessage::Other => (None, Next::Continue),
    }
}

/// `Option<TerminalEvent>` by its view.
pub open spec fn event_view(e: Option<TerminalEvent>) -> Option<TerminalEventView> {
    match e {
        Some(e) => Some(e@),
        None => None,
    }
}

/// Handle a message of the SSH channel: forward output, report the end of
/// the shell, or ignore it.
pub fn channel_step(msg: ChannelMessage) -> (r: TerminalStep)
    ensures
        (event_view(r.event), r.next) == channel_step_spec(msg),
{
    match msg {
        ChannelMessage::Data(data) => TerminalStep {
            event: Some(TerminalEvent::Output { data }),
            next: Next::StopIfUndelivered,
        },
        ChannelMessage::ExtendedData(data) => TerminalStep {
            event: Some(TerminalEvent::Output { data }),
            next: Next::StopIfUndelivered,
        },
        ChannelMessage::ExitStatus(n) => TerminalStep {
            event: Some(TerminalEvent::Closed {
                reason: "Process exited with code ".to_owned().concat(decimal_string(n as u64).as_str()),
            }),
            next: Next::Stop,
        },
        ChannelMessage::ExitSignal(s) => TerminalStep {
            event: Some(TerminalEvent::Closed { reason: "Process killed by signal ".to_owned().concat(s.as_str()) }),
            next: Next::Stop,
        },
        ChannelMessage::Eof => TerminalStep {
            event: Some(TerminalEvent::Closed { reason: "Shell session ended".to_owned() }),
            next: Next::Stop,
        },
        ChannelMessage::Close => TerminalStep {
            event: Some(TerminalEvent::Closed { reason: "Channel closed".to_owned() }),
            next: Next::Stop,
        },
        ChannelMessage::Ended => TerminalStep {
            event: Some(TerminalEvent::Closed { reason: "Connection lost".to_owned() }),
            next: Next::Stop,
        },
        ChannelMessage::Other => TerminalStep { event: None, next: Next::Continue },
    }
}

/// What carrying out a command of the front end gave.
pub enum CommandOutcome {
    /// Writing bytes to the channel; the error's message on failure.
    Written(Result<(), String>),
    /// Changing the window size; the error's message on failure.
    Resized(Result<(), String>),
    /// The channel was closed on request (a failure to close is ignored).
    Closed,
    /// Every sender of commands is gone; the channel was closed.
    HandleDropped,
}

/// The event a command outcome gives, if any, and what follows it. A failed
/// write ends the terminal; a failed resize does not.
pub open spec fn command_step_spec(outcome: CommandOutcome) -> (Option<TerminalEventView>, Next) {
    match outcome {
        CommandOutcome::Written(Ok(())) => (None, Next::Continue),
        CommandOutcome::Written(Err(e)) => (Some(TerminalEventView::Error("Write failed: "@ + e@)), Next::Stop),
        CommandOutcome::Resized(Ok(())) => (None, Next::Continue),
        CommandOutcome::Resized(Err(e)) => (Some(TerminalEventView::Error("Resize failed: "@ + e@)), Next::Continue),
        CommandOutcome::Closed => (Some(TerminalEventView::Closed("Terminal closed by user"@)), Next::Stop),
        CommandOutcome::HandleDropped => (Some(TerminalEventView::Closed("Terminal handle dropped"@)), Next::Stop),
    }
}

/// Handle the outcome of a command of the front end.
pub fn command_step(outcome: CommandOutcome) -> (r: TerminalStep)
    ensures
        (event_view(r.event), r.next) == command_step_spec(outcome),
{
    match outcome {
        CommandOutcome::Written(Ok(())) => TerminalStep { event: None, next: Next::Continue },
        CommandOutcome::Written(Err(e)) => TerminalStep {
            event: Some(TerminalEvent::Error { message: "Write failed: ".to_owned().concat(e.as_str()) }),
            next: Next::Stop,
        },
        CommandOutcome::Resized(Ok(())) => TerminalStep { event: None, next: Next::Continue },
        CommandOutcome::Resized(Err(e)) => TerminalStep {
            event: Some(TerminalEvent::Error { message: "Resize failed: ".to_owned().concat(e.as_str()) }),
            next: Next::Continue,
        },
        CommandOutcome::Closed => TerminalStep {
            event: Some(TerminalEvent::Closed { reason: "Terminal closed by user".to_owned() }),
            next: Next::Stop,
        },
        CommandOutcome::HandleDropped => TerminalStep {
            event: Some(TerminalEvent::Closed { reason: "Terminal handle dropped".to_owned() }),
            next: Next::Stop,
        },
    }
}

/// Result of handing a command to the terminal task: an error when the
/// task no longer takes commands.
pub fn queue_result(delivered: bool) -> (r: Result<(), AppError>)
    ensures
        delivered ==> r is Ok,
        !delivered ==> (r matches Err(e) && e@ == AppErrorView::Other("Terminal channel closed"@)),
{
    if delivered {
        Ok(())
    } else {
        Err(AppError::Other("Terminal channel closed".to_owned()))
    }
}

/// Opening a terminal: the session must exist, be connected and hold an
/// SSH connection.
pub open spec fn open_terminal_check(session_id: u128, state: Option<SessionState>, has_connection: bool) -> Result<(), AppErrorView> {
    match state {
        None => Err(AppErrorView::SessionNotFound(session_id)),
        Some(s) => if !(s is Connected) || !has_connection {
            Err(AppErrorView::NotConnected)
        } else {
            Ok(())
        },
    }
}

/// Check that a terminal can be opened on a session; `state` is the
/// session's state, `None` when there is no such session.
pub fn check_open_terminal(session_id: u128, state: Option<&SessionState>, has_connection: bool) -> (r: Result<(), AppError>)
    ensures
        match r {
            Ok(_) => open_terminal_check(session_id, match state { Some(s) => Some(*s), None => None }, has_connection) is Ok,
            Err(e) => open_terminal_check(session_id, match state { Some(s) => Some(*s), None => None }, has_connection)
                == Err::<(), AppErrorView>(e@),
        },
{
    match state {
        None => Err(AppError::SessionNotFound(session_id)),
        Some(s) => match s {
            SessionState::Connected => if has_connection {
                Ok(())
            } else {
                Err(AppError::NotConnected)
            },
            _ => Err(AppError::NotConnected),
        },
    }
}

/// Finding a terminal of a session: the session must exist, then the
/// terminal.
pub fn check_terminal(session_id: u128, session_exists: bool, terminal_id: u128, terminal_exists: bool) -> (r: Result<(), AppError>)
    ensures
        !session_exists ==> (r matches Err(e) && e@ == AppErrorView::SessionNotFound(session_id)),
        session_exists && !terminal_exists ==> (r matches Err(e) && e@ == AppErrorView::TerminalNotFound(terminal_id)),
        session_exists && terminal_exists ==> r is Ok,
{
    if !session_exists {
        Err(AppError::SessionNotFound(session_id))
    } else if !terminal_exists {
        Err(AppError::TerminalNotFound(terminal_id))
    } else {
        Ok(())
    }
}

} // verus!
