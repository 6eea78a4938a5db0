//! The policy of the camera acquisition loop, which runs on its own thread
//! and hands frames to the tracker through a bounded channel.

use vstd::prelude::*;

verus! {

/// What the acquisition loop hands on for one grab.
#[derive(Debug)]
pub enum FrameResult<T> {
    Frame(T),
    SingleFrameError(String),
}

/// The camera's answer to one grab.
pub enum GrabOutcome<T> {
    /// A frame was acquired.
    Frame(T),
    /// This frame was lost; acquisition can go on.
    SingleFrameError(String),
    /// Acquisition failed for good.
    Fatal(String),
}

/// How handing a message to the bounded channel went.
#[derive(Debug, Clone, Copy, PartialEq, Eq)]
pub enum SendStatus {
    Sent,
    /// The channel was full; the message is dropped.
    Full,
    /// The receiver is gone.
    Disconnected,
}

/// What the loop does next.
#[derive(Debug, Clone, Copy, PartialEq, Eq)]
pub enum LoopAction {
    /// Grab the next frame.
    Continue,
    /// The newest message was dropped for backpressure: log it, then grab on.
    LogDropAndContinue,
    /// End the loop.
    Stop,
}

/// The message to hand on for a grab; none on a fatal error, which ends the
/// loop.
pub fn grab_to_message<T>(grab: GrabOutcome<T>) -> (r: Option<FrameResult<T>>)
    ensures
        match grab {
            GrabOutcome::Frame(f) => r == Some(FrameResult::Frame(f)),
            GrabOutcome::SingleFrameError(s) => r == Some(FrameResult::<T>::SingleFrameError(s)),
            GrabOutcome::Fatal(_) => r is None,
        },
{
    match grab {
        GrabOutcome::Frame(f) => Some(FrameResult::Frame(f)),
        GrabOutcome::SingleFrameError(s) => Some(FrameResult::SingleFrameError(s)),
        GrabOutcome::Fatal(_) => None,
    }
}

/// After a send: a full channel drops the newest message and acquisition
/// goes on; a vanished receiver ends the loop.
pub fn after_send(status: SendStatus) -> (r: LoopAction)
    ensures
        status == SendStatus::Sent ==> r == LoopAction::Continue,
        status == SendStatus::Full ==> r == LoopAction::LogDropAndContinue,
        status == SendStatus::Disconnected ==> r == LoopAction::Stop,
{
    match status {
        SendStatus::Sent => LoopAction::Continue,
        SendStatus::Full => LoopAction::LogDropAndContinue,
        SendStatus::Disconnected => LoopAction::Stop,
    }
}

} // verus!
