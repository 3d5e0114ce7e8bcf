use fspy::seccomp::supervisor::{
    read_step, recv_outcome, reply_outcome, task_step, ReadStep, Readiness, RecvOutcome, TaskAction, TaskEvent,
    TaskState, ENOENT, EINTR, EWOULDBLOCK,
};

#[test]
fn interrupted_targets_are_no_reply_error() {
    assert_eq!(reply_outcome(0, 0), Ok(()));
    assert_eq!(reply_outcome(0, 13), Ok(()));
    assert_eq!(reply_outcome(-1, ENOENT), Ok(()));
    assert_eq!(reply_outcome(-1, 13), Err(13));
    assert_eq!(ENOENT, libc::ENOENT);
    assert_eq!(EINTR, libc::EINTR);
    assert_eq!(EWOULDBLOCK, libc::EWOULDBLOCK);
}

#[test]
fn a_closed_descriptor_ends_the_reading() {
    let ready = |read_closed, write_closed, readable| Readiness { read_closed, write_closed, readable };
    assert_eq!(read_step(ready(true, false, true)), ReadStep::Closed);
    assert_eq!(read_step(ready(false, true, false)), ReadStep::Closed);
    assert_eq!(read_step(ready(false, false, false)), ReadStep::Wait);
    assert_eq!(read_step(ready(false, false, true)), ReadStep::Receive);
}

#[test]
fn transient_receive_failures_are_retried() {
    assert_eq!(recv_outcome(Ok(())), RecvOutcome::Notified);
    assert_eq!(recv_outcome(Err(libc::EINTR)), RecvOutcome::Retry);
    assert_eq!(recv_outcome(Err(libc::EAGAIN)), RecvOutcome::Retry);
    assert_eq!(recv_outcome(Err(libc::ENOENT)), RecvOutcome::Retry);
    assert_eq!(recv_outcome(Err(libc::EBADF)), RecvOutcome::Failed(libc::EBADF));
}

#[test]
fn a_stopped_supervisor_gets_the_handler_and_targets_keep_running() {
    let (state, action) = task_step(TaskState::Handling, TaskEvent::Notified(7));
    assert_eq!((state, action), (TaskState::Handling, TaskAction::HandleThenReply(7)));
    let (state, action) = task_step(state, TaskEvent::Cancelled);
    assert_eq!((state, action), (TaskState::Draining, TaskAction::HandOver));
    let (state, action) = task_step(state, TaskEvent::Notified(8));
    assert_eq!((state, action), (TaskState::Draining, TaskAction::Reply(8)));
    let (state, action) = task_step(state, TaskEvent::ReplyFailed);
    assert_eq!((state, action), (TaskState::Finished, TaskAction::Stop));
    assert_eq!(task_step(state, TaskEvent::Notified(9)), (TaskState::Finished, TaskAction::Idle));
}

#[test]
fn a_task_whose_targets_exit_sends_its_handler() {
    assert_eq!(task_step(TaskState::Handling, TaskEvent::Closed), (TaskState::Finished, TaskAction::Finish));
    assert_eq!(task_step(TaskState::Handling, TaskEvent::ReadFailed), (TaskState::Finished, TaskAction::Fail));
    assert_eq!(task_step(TaskState::Handling, TaskEvent::ReplyFailed), (TaskState::Finished, TaskAction::Fail));
}

#[test]
fn every_task_sends_exactly_one_message_once_it_stops_handling() {
    let events = [
        TaskEvent::Cancelled,
        TaskEvent::Notified(1),
        TaskEvent::Closed,
        TaskEvent::ReadFailed,
        TaskEvent::ReplyFailed,
    ];
    // Every sequence of three events.
    for a in events {
        for b in events {
            for c in events {
                let mut state = TaskState::Handling;
                let mut messages = 0;
                for event in [a, b, c] {
                    let (next, action) = task_step(state, event);
                    if matches!(action, TaskAction::HandOver | TaskAction::Finish | TaskAction::Fail) {
                        messages += 1;
                    }
                    state = next;
                }
                assert_eq!(messages, if state == TaskState::Handling { 0 } else { 1 });
            }
        }
    }
}
