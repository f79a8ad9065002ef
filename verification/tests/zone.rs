//! The two sides of a fork, run against a process table kept in the test.

use rand::{rngs::OsRng, RngCore};
use stronghold_core::transfer::{Transferable, TransferableState};
use stronghold_core::zone::{
    classify, with_guarded_allocator, Child, ChildRequest, ChildStatus, Parent, ParentRequest,
    Returned, Syscall, ZoneError,
};

/// How the computation in the child ends.
enum Ending<T> {
    Returns(T),
    Exits(i32),
    Killed(i32),
}

/// Runs the child: every system call succeeds. Hands back the bytes written
/// to the pipe and the wait status.
fn run_child<T: Transferable>(ending: Ending<T>) -> (Vec<u8>, i32) {
    let mut child = Child::new();
    let mut pipe = Vec::new();
    loop {
        match child.request() {
            ChildRequest::Run => match &ending {
                Ending::Returns(value) => child.ran(value.transfer()),
                Ending::Exits(code) => return (pipe, libc::W_EXITCODE(*code, 0)),
                Ending::Killed(signal) => return (pipe, *signal),
            },
            ChildRequest::Write(byte) => {
                pipe.push(byte);
                child.step(1);
            }
            ChildRequest::Exit(code) => return (pipe, libc::W_EXITCODE(code, 0)),
            _ => child.step(0),
        }
    }
}

/// Runs the parent against a child that ended with `status` and left `pipe`.
fn run_parent<T: Transferable>(pipe: &[u8], status: i32) -> Result<Result<T::Out, T::Error>, ZoneError> {
    let mut parent = Parent::<T>::new();
    let mut read = 0;
    while let Some(request) = parent.request() {
        let event = match request {
            ParentRequest::Pipe => Returned { value: 0, status: 0, byte: 0 },
            ParentRequest::Fork => Returned { value: 4711, status: 0, byte: 0 },
            ParentRequest::CloseWriteEnd => Returned { value: 0, status: 0, byte: 0 },
            ParentRequest::Wait => Returned { value: 4711, status, byte: 0 },
            ParentRequest::Read => {
                if read < pipe.len() {
                    read += 1;
                    Returned { value: 1, status: 0, byte: pipe[read - 1] }
                } else {
                    Returned { value: -1, status: 0, byte: 0 }
                }
            }
            ParentRequest::CloseReadEnd => Returned { value: 0, status: 0, byte: 0 },
        };
        parent.step(event);
    }
    parent.finish()
}

fn fork<T: Transferable>(ending: Ending<T>) -> Result<Result<T::Out, T::Error>, ZoneError> {
    let (pipe, status) = run_child(ending);
    run_parent::<T>(&pipe, status)
}

#[test]
fn pure() {
    assert_eq!(fork(Ending::Returns(7)), Ok(Ok(7)));
}

#[test]
fn pure_buffer() {
    let mut bs = [0u8; 128];
    OsRng.fill_bytes(&mut bs);
    assert_eq!(fork(Ending::Returns(bs)), Ok(Ok(bs)));
}

#[test]
fn unexpected_exit_code() {
    assert_eq!(fork(Ending::<()>::Exits(1)), Err(ZoneError::UnexpectedExitCode(1)));
}

#[test]
fn signal() {
    assert_eq!(fork(Ending::<()>::Killed(libc::SIGKILL)), Err(ZoneError::Signal(libc::SIGKILL)));
}

#[test]
fn panic() {
    assert_eq!(fork(Ending::<()>::Exits(101)), Err(ZoneError::UnexpectedExitCode(101)));
}

#[test]
fn unit_needs_no_bytes() {
    assert_eq!(fork(Ending::Returns(())), Ok(Ok(())));
}

#[test]
fn negative_numbers_cross() {
    assert_eq!(fork(Ending::Returns(-2i32)), Ok(Ok(-2)));
    assert_eq!(fork(Ending::Returns(i32::MIN)), Ok(Ok(i32::MIN)));
    assert_eq!(fork(Ending::Returns(0xdead_beefu32)), Ok(Ok(0xdead_beef)));
    assert_eq!(fork(Ending::Returns(0x5au8)), Ok(Ok(0x5a)));
}

#[test]
fn encodings() {
    assert_eq!(().transfer(), Vec::<u8>::new());
    assert_eq!(0x5au8.transfer(), vec![0x5a]);
    assert_eq!(0x0102_0304u32.transfer(), vec![4, 3, 2, 1]);
    assert_eq!(7i32.transfer(), vec![7, 0, 0, 0]);
    assert_eq!((-1i32).transfer(), vec![0xff; 4]);
    assert_eq!([1u8, 2, 3].transfer(), vec![1, 2, 3]);
}

#[test]
fn receive_asks_for_more_until_complete() {
    let mut state = None;
    assert!(matches!(u32::receive(&mut state, &[]), TransferableState::Continue));
    assert!(matches!(u32::receive(&mut state, &[4, 3]), TransferableState::Continue));
    assert!(matches!(u32::receive(&mut state, &[2]), TransferableState::Continue));
    assert!(matches!(u32::receive(&mut state, &[1]), TransferableState::Done(0x0102_0304)));
    let mut state = None;
    assert!(matches!(<[u8; 2]>::receive(&mut state, &[9]), TransferableState::Continue));
    assert!(matches!(<[u8; 2]>::receive(&mut state, &[8]), TransferableState::Done([9, 8])));
    let mut state = None;
    assert!(matches!(<()>::receive(&mut state, &[]), TransferableState::Done(())));
}

#[test]
fn wait_statuses() {
    assert_eq!(classify(0), ChildStatus::Exited(0));
    assert_eq!(classify(libc::W_EXITCODE(1, 0)), ChildStatus::Exited(1));
    assert_eq!(classify(libc::W_EXITCODE(255, 0)), ChildStatus::Exited(255));
    assert_eq!(classify(libc::SIGKILL), ChildStatus::Signaled(libc::SIGKILL));
    assert_eq!(classify(libc::SIGSEGV | 0x80), ChildStatus::Signaled(libc::SIGSEGV));
    // a stopped child
    assert_eq!(classify(libc::W_STOPCODE(libc::SIGSTOP)), ChildStatus::Other);
    // classify agrees with the functions it is built on
    for status in [0, 1, 9, 0x7f, 0x80, 0xff, 0x100, 0x1234, 0xffff, -1, i32::MIN, i32::MAX] {
        let expected = if libc::WIFEXITED(status) {
            ChildStatus::Exited(libc::WEXITSTATUS(status))
        } else if libc::WIFSIGNALED(status) {
            ChildStatus::Signaled(libc::WTERMSIG(status))
        } else {
            ChildStatus::Other
        };
        assert_eq!(classify(status), expected);
    }
}

#[test]
fn stopped_child_is_unreachable() {
    let status = libc::W_STOPCODE(libc::SIGSTOP);
    assert_eq!(run_parent::<u8>(&[], status), Err(ZoneError::Unreachable));
}

fn parent_at(request: ParentRequest) -> Parent<u8> {
    let mut parent = Parent::<u8>::new();
    while parent.request() != Some(request) {
        let value = if parent.request() == Some(ParentRequest::Fork) { 99 } else { 0 };
        parent.step(Returned { value, status: 0, byte: 0 });
    }
    parent
}

fn failing(request: ParentRequest, value: i64) -> Result<Result<u8, ()>, ZoneError> {
    let mut parent = parent_at(request);
    parent.step(Returned { value, status: 0, byte: 0 });
    assert_eq!(parent.request(), None);
    parent.finish()
}

#[test]
fn failed_system_calls_are_named() {
    assert_eq!(failing(ParentRequest::Pipe, -1), Err(ZoneError::Os(Syscall::Pipe)));
    assert_eq!(failing(ParentRequest::Fork, -1), Err(ZoneError::Os(Syscall::Fork)));
    assert_eq!(failing(ParentRequest::CloseWriteEnd, -1), Err(ZoneError::Os(Syscall::Close)));
    assert_eq!(failing(ParentRequest::Wait, -1), Err(ZoneError::Os(Syscall::Waitpid)));
    assert_eq!(failing(ParentRequest::Read, -1), Err(ZoneError::Os(Syscall::Read)));
}

#[test]
fn failed_close_of_the_read_end_hides_the_result() {
    let mut parent = parent_at(ParentRequest::Read);
    parent.step(Returned { value: 1, status: 0, byte: 42 });
    assert_eq!(parent.request(), Some(ParentRequest::CloseReadEnd));
    parent.step(Returned { value: -1, status: 0, byte: 0 });
    assert_eq!(parent.finish(), Err(ZoneError::Os(Syscall::Close)));
}

#[test]
fn parent_asks_in_order() {
    let mut parent = Parent::<u8>::new();
    let mut asked = Vec::new();
    while let Some(request) = parent.request() {
        asked.push(request);
        let value = if request == ParentRequest::Fork { 99 } else { 0 };
        parent.step(Returned { value, status: 0, byte: 42 });
    }
    assert_eq!(
        asked,
        vec![
            ParentRequest::Pipe,
            ParentRequest::Fork,
            ParentRequest::CloseWriteEnd,
            ParentRequest::Wait,
            ParentRequest::Read,
            ParentRequest::CloseReadEnd
        ]
    );
    assert!(!parent.is_child());
    assert_eq!(parent.finish(), Ok(Ok(42)));
}

#[test]
fn fork_returning_zero_makes_the_child() {
    let mut parent = parent_at(ParentRequest::Fork);
    parent.step(Returned { value: 0, status: 0, byte: 0 });
    assert!(parent.is_child());
    assert_eq!(parent.request(), None);
    assert_eq!(parent.finish(), Err(ZoneError::Unreachable));
}

#[test]
fn parent_ended_early_has_no_result() {
    assert_eq!(Parent::<u8>::new().finish(), Err(ZoneError::Unreachable));
    assert_eq!(parent_at(ParentRequest::Read).finish(), Err(ZoneError::Unreachable));
}

#[test]
fn child_asks_in_order() {
    let mut child = Child::new();
    let mut asked = Vec::new();
    loop {
        let request = child.request();
        asked.push(request);
        match request {
            ChildRequest::Run => child.ran(vec![1, 2]),
            ChildRequest::Exit(_) => break,
            _ => child.step(0),
        }
    }
    assert_eq!(
        asked,
        vec![
            ChildRequest::CloseStdin,
            ChildRequest::RedirectStdout,
            ChildRequest::CloseStderr,
            ChildRequest::CloseReadEnd,
            ChildRequest::Run,
            ChildRequest::Write(1),
            ChildRequest::Write(2),
            ChildRequest::Exit(0)
        ]
    );
    // the exit is final
    child.step(0);
    assert_eq!(child.request(), ChildRequest::Exit(0));
}

#[test]
fn child_exits_with_one_when_a_call_fails() {
    for failing_at in 0..4 {
        let mut child = Child::new();
        for _ in 0..failing_at {
            child.step(0);
        }
        child.step(-1);
        assert_eq!(child.request(), ChildRequest::Exit(1));
    }
    let mut child = Child::new();
    for _ in 0..4 {
        child.step(0);
    }
    child.ran(vec![5, 6, 7]);
    child.step(1);
    assert_eq!(child.request(), ChildRequest::Write(6));
    child.step(-1);
    assert_eq!(child.request(), ChildRequest::Exit(1));
}

#[test]
fn child_waits_for_the_computation() {
    let mut child = Child::new();
    child.ran(vec![1]);
    assert_eq!(child.request(), ChildRequest::CloseStdin);
    for _ in 0..4 {
        child.step(0);
    }
    child.step(0);
    assert_eq!(child.request(), ChildRequest::Run);
    child.ran(vec![]);
    assert_eq!(child.request(), ChildRequest::Exit(0));
}

#[test]
fn guarded_allocator_runs_the_closure() {
    assert_eq!(with_guarded_allocator(|| 6 * 7), 42);
    let text = String::from("kept");
    assert_eq!(with_guarded_allocator(move || text + "!"), "kept!");
}
