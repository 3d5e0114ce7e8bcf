//! The decisions of the supervisor that answers seccomp user notifications.
//!
//! Each traced process tree gets a handling task that reads notifications
//! from its notify descriptor, lets a handler record them, and tells the
//! kernel to run each syscall on. The task's waiting and its system calls
//! belong to the caller; this module decides, for each thing that happens,
//! what the task does next: [`task_step`], how reading the descriptor goes
//! on ([`read_step`], [`recv_outcome`]), and what the kernel's answer to a
//! reply means ([`reply_outcome`]).
use vstd::prelude::*;

verus! {

/// `ENOENT`: the target's syscall was interrupted before the reply came.
pub const ENOENT: i32 = 2;
/// `EINTR`.
pub const EINTR: i32 = 4;
/// `EWOULDBLOCK` (`EAGAIN`).
pub const EWOULDBLOCK: i32 = 11;

/// What the kernel's answer to a reply (`ioctl`'s return value and, when
/// it is negative, `errno`) means: an interrupted target is no error, as
/// there is nothing left to reply to.
pub fn reply_outcome(ret: i32, errno: i32) -> (outcome: Result<(), i32>)
    ensures
        outcome == (if ret >= 0 || errno == ENOENT {
            Ok::<(), i32>(())
        } else {
            Err::<(), i32>(errno)
        }),
{
    if ret < 0 && errno != ENOENT {
        Err(errno)
    } else {
        Ok(())
    }
}

/// What polling found of the notify descriptor.
#[derive(Debug, Clone, Copy, PartialEq, Eq, Structural)]
pub struct Readiness {
    pub read_closed: bool,
    pub write_closed: bool,
    pub readable: bool,
}

/// How reading the notify descriptor goes on.
#[derive(Debug, Clone, Copy, PartialEq, Eq, Structural)]
pub enum ReadStep {
    /// Every target has exited: no notification will come.
    Closed,
    /// Nothing to read yet: wait again.
    Wait,
    /// Receive the pending notification.
    Receive,
}

/// How reading goes on after the descriptor was polled: closed on either
/// side ends it, and only a readable descriptor is received from.
pub fn read_step(readiness: Readiness) -> (step: ReadStep)
    ensures
        step == (if readiness.read_closed || readiness.write_closed {
            ReadStep::Closed
        } else if !readiness.readable {
            ReadStep::Wait
        } else {
            ReadStep::Receive
        }),
{
    if readiness.read_closed || readiness.write_closed {
        ReadStep::Closed
    } else if !readiness.readable {
        ReadStep::Wait
    } else {
        ReadStep::Receive
    }
}

/// What came of receiving a notification.
#[derive(Debug, Clone, Copy, PartialEq, Eq, Structural)]
pub enum RecvOutcome {
    /// A notification is in the buffer.
    Notified,
    /// Nothing usable: poll again.
    Retry,
    /// Reading failed with this `errno`.
    Failed(i32),
}

/// What receiving a notification (`Ok`, or the `errno` it failed with)
/// amounts to: an interrupted call, an empty descriptor and a target whose
/// syscall went away are retried; any other failure ends the reading.
pub fn recv_outcome(received: Result<(), i32>) -> (outcome: RecvOutcome)
    ensures
        outcome == match received {
            Ok(()) => RecvOutcome::Notified,
            Err(errno) => if errno == EINTR || errno == EWOULDBLOCK || errno == ENOENT {
                RecvOutcome::Retry
            } else {
                RecvOutcome::Failed(errno)
            },
        },
{
    match received {
        Ok(()) => RecvOutcome::Notified,
        Err(errno) => if errno == EINTR || errno == EWOULDBLOCK || errno == ENOENT {
            RecvOutcome::Retry
        } else {
            RecvOutcome::Failed(errno)
        },
    }
}

/// Where a handling task is.
#[derive(Debug, Clone, Copy, PartialEq, Eq, Structural)]
pub enum TaskState {
    /// Recording notifications with its handler.
    Handling,
    /// The supervisor stopped and took the handler; the task keeps replying
    /// so that live targets' syscalls keep working, and records nothing.
    Draining,
    /// Done: nothing more to do.
    Finished,
}

/// What happened to a handling task.
#[derive(Debug, Clone, Copy, PartialEq, Eq, Structural)]
pub enum TaskEvent {
    /// The supervisor stopped.
    Cancelled,
    /// A notification with this id arrived.
    Notified(u64),
    /// The notify descriptor closed: every target exited.
    Closed,
    /// Reading the descriptor failed.
    ReadFailed,
    /// Replying to the kernel failed.
    ReplyFailed,
}

/// What a handling task does next.
#[derive(Debug, Clone, Copy, PartialEq, Eq, Structural)]
pub enum TaskAction {
    /// Let the handler record the notification (its failure is ignored: a
    /// target that aborted must not stop the others), then let the
    /// syscall run on.
    HandleThenReply(u64),
    /// Let the syscall run on without recording it.
    Reply(u64),
    /// Send the handler to the supervisor, which stopped, and go on
    /// replying.
    HandOver,
    /// Send the handler to the supervisor: its targets are gone.
    Finish,
    /// Send the I/O error to the supervisor.
    Fail,
    /// End the task without a message: its handler was already sent.
    Stop,
    /// Nothing to do.
    Idle,
}

/// One step of a handling task.
pub open spec fn spec_task_step(state: TaskState, event: TaskEvent) -> (TaskState, TaskAction) {
    match state {
        TaskState::Handling => match event {
            TaskEvent::Cancelled => (TaskState::Draining, TaskAction::HandOver),
            TaskEvent::Notified(id) => (TaskState::Handling, TaskAction::HandleThenReply(id)),
            TaskEvent::Closed => (TaskState::Finished, TaskAction::Finish),
            TaskEvent::ReadFailed => (TaskState::Finished, TaskAction::Fail),
            TaskEvent::ReplyFailed => (TaskState::Finished, TaskAction::Fail),
        },
        TaskState::Draining => match event {
            TaskEvent::Notified(id) => (TaskState::Draining, TaskAction::Reply(id)),
            TaskEvent::Cancelled => (TaskState::Draining, TaskAction::Idle),
            _ => (TaskState::Finished, TaskAction::Stop),
        },
        TaskState::Finished => (TaskState::Finished, TaskAction::Idle),
    }
}

/// What a handling task does with `event` in `state`, and where it goes.
pub fn task_step(state: TaskState, event: TaskEvent) -> (next: (TaskState, TaskAction))
    ensures
        next == spec_task_step(state, event),
{
    match state {
        TaskState::Handling => match event {
            TaskEvent::Cancelled => (TaskState::Draining, TaskAction::HandOver),
            TaskEvent::Notified(id) => (TaskState::Handling, TaskAction::HandleThenReply(id)),
            TaskEvent::Closed => (TaskState::Finished, TaskAction::Finish),
            TaskEvent::ReadFailed => (TaskState::Finished, TaskAction::Fail),
            TaskEvent::ReplyFailed => (TaskState::Finished, TaskAction::Fail),
        },
        TaskState::Draining => match event {
            TaskEvent::Notified(id) => (TaskState::Draining, TaskAction::Reply(id)),
            TaskEvent::Cancelled => (TaskState::Draining, TaskAction::Idle),
            TaskEvent::Closed => (TaskState::Finished, TaskAction::Stop),
            TaskEvent::ReadFailed => (TaskState::Finished, TaskAction::Stop),
            TaskEvent::ReplyFailed => (TaskState::Finished, TaskAction::Stop),
        },
        TaskState::Finished => (TaskState::Finished, TaskAction::Idle),
    }
}

/// Whether `action` sends the supervisor a message.
pub open spec fn sends_message(action: TaskAction) -> bool {
    action is HandOver || action is Finish || action is Fail
}

/// The state after `events`, from `state`.
pub open spec fn state_after(state: TaskState, events: Seq<TaskEvent>) -> TaskState
    decreases events.len(),
{
    if events.len() == 0 {
        state
    } else {
        spec_task_step(state_after(state, events.drop_last()), events.last()).0
    }
}

/// How many messages a task sends over `events`, from `state`.
pub open spec fn messages_sent(state: TaskState, events: Seq<TaskEvent>) -> nat
    decreases events.len(),
{
    if events.len() == 0 {
        0
    } else {
        messages_sent(state, events.drop_last()) + if sends_message(
            spec_task_step(state_after(state, events.drop_last()), events.last()).1,
        ) {
            1nat
        } else {
            0nat
        }
    }
}

/// Every task sends the supervisor exactly one message, whatever happens
/// to it: none while it is still handling, one (its handler or its error)
/// from the moment it leaves that state, and never a second.
pub proof fn lemma_task_sends_one_message(events: Seq<TaskEvent>)
    ensures
        messages_sent(TaskState::Handling, events) == (if state_after(TaskState::Handling, events)
            == TaskState::Handling {
            0nat
        } else {
            1nat
        }),
    decreases events.len(),
{
    if events.len() > 0 {
        lemma_task_sends_one_message(events.drop_last());
    }
}

/// Every notification a task gets before it finishes is let through, and
/// recorded only while the task still holds its handler.
pub proof fn lemma_unfinished_tasks_reply(state: TaskState, id: u64)
    requires
        state != TaskState::Finished,
    ensures
        spec_task_step(state, TaskEvent::Notified(id)).1 == (if state == TaskState::Handling {
            TaskAction::HandleThenReply(id)
        } else {
            TaskAction::Reply(id)
        }),
{
}

/// Once handed over, a handler is never used again: no sequence of events
/// brings a task back to handling.
pub proof fn lemma_handling_never_resumes(state: TaskState, events: Seq<TaskEvent>)
    requires
        state != TaskState::Handling,
    ensures
        state_after(state, events) != TaskState::Handling,
    decreases events.len(),
{
    if events.len() > 0 {
        lemma_handling_never_resumes(state, events.drop_last());
    }
}

} // verus!
