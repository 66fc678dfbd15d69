use snail_os::async_io::{ConsumeStep, ReadStep, ReadTarget, Wake};
use snail_os::errors::OsError;
use snail_os::proc::{Process, ProcessManager, WaitStep};
use snail_os::{STDIN, STDOUT};

fn register(mgr: &mut ProcessManager, name: &str) -> u32 {
    mgr.exec_register(name.to_string(), vec![]).unwrap()
}

#[test]
fn test_pids_start_above_one_and_increase() {
    let mut mgr = ProcessManager::new();
    assert_eq!(register(&mut mgr, "a"), 2);
    assert_eq!(register(&mut mgr, "b"), 3);
    assert_eq!(register(&mut mgr, "c"), 4);
}

#[test]
fn test_exec_resolve() {
    let mgr = ProcessManager::new();
    let (location, name) = mgr.exec_resolve("/bin/busybox").unwrap();
    assert_eq!(location, "/bin/busybox.js");
    assert_eq!(name, "busybox");
    assert_eq!(
        mgr.exec_resolve("/usr/bin/go"),
        Err(OsError::ResolveFailed)
    );
}

#[test]
fn test_exit_during_construction_yields_exit_code() {
    // A module that invokes exit(0) synchronously while it is still being
    // constructed: the exit arrives before construction completes, and the
    // later completion must not clobber the exited state.
    let mut mgr = ProcessManager::new();
    let pid = register(&mut mgr, "prog");
    let (_wakes, accepted) = mgr.exit_signal(pid, 0).unwrap();
    assert!(accepted);
    mgr.mark_started(pid).unwrap();
    assert_eq!(mgr.wait_quit_begin(pid), Ok(WaitStep::Done(0)));
}

#[test]
fn test_wait_quit_twice_fails_with_no_such_process() {
    let mut mgr = ProcessManager::new();
    let pid = register(&mut mgr, "prog");
    mgr.mark_started(pid).unwrap();
    mgr.exit_signal(pid, 7).unwrap();
    assert_eq!(mgr.wait_quit_begin(pid), Ok(WaitStep::Done(7)));
    assert_eq!(mgr.wait_quit_begin(pid), Err(OsError::NoSuchProcess));
}

#[test]
fn test_wait_without_exit_reports_zombie() {
    // The module's top-level execution completes without ever invoking the
    // exit hook: the wait must report Zombie, not hang.
    let mut mgr = ProcessManager::new();
    let pid = register(&mut mgr, "prog");
    mgr.mark_started(pid).unwrap();
    assert_eq!(mgr.wait_quit_begin(pid), Ok(WaitStep::AwaitModule));
    // ... the module's completion resolves here, with no exit signal ...
    assert_eq!(mgr.wait_quit_finish(pid), Err(OsError::Zombie));
    // the zombie was reaped too
    assert_eq!(mgr.wait_quit_finish(pid), Err(OsError::NoSuchProcess));
}

#[test]
fn test_wait_after_exit_returns_code() {
    let mut mgr = ProcessManager::new();
    let pid = register(&mut mgr, "prog");
    mgr.mark_started(pid).unwrap();
    assert_eq!(mgr.wait_quit_begin(pid), Ok(WaitStep::AwaitModule));
    mgr.exit_signal(pid, 42).unwrap();
    assert_eq!(mgr.wait_quit_finish(pid), Ok(42));
    assert_eq!(mgr.wait_quit_begin(pid), Err(OsError::NoSuchProcess));
}

#[test]
fn test_duplicate_exit_signal_is_ignored() {
    let mut mgr = ProcessManager::new();
    let pid = register(&mut mgr, "prog");
    mgr.mark_started(pid).unwrap();
    let (_, first) = mgr.exit_signal(pid, 1).unwrap();
    assert!(first);
    let (wakes, second) = mgr.exit_signal(pid, 2).unwrap();
    assert!(!second);
    assert_eq!(wakes, vec![]);
    // the first code is kept
    assert_eq!(mgr.wait_quit_begin(pid), Ok(WaitStep::Done(1)));
}

#[test]
fn test_two_producers_appear_in_call_order() {
    // Two producers write to the same stdin before a single consumer reads:
    // both payloads appear, concatenated in call order, never interleaved
    // within a chunk.
    let mut mgr = ProcessManager::new();
    let pid = register(&mut mgr, "prog");
    mgr.stdin_write(pid, vec![1, 2]).unwrap();
    mgr.stdin_write(pid, vec![3, 4]).unwrap();
    assert_eq!(
        mgr.wait_data(pid, STDIN),
        Ok(ConsumeStep::Data(vec![vec![1, 2], vec![3, 4]]))
    );
}

#[test]
fn test_exit_closes_output_so_writes_fail() {
    let mut mgr = ProcessManager::new();
    let pid = register(&mut mgr, "prog");
    mgr.mark_started(pid).unwrap();
    mgr.write(pid, STDOUT, vec![1]).unwrap();
    mgr.exit_signal(pid, 0).unwrap();
    assert_eq!(
        mgr.write(pid, STDOUT, vec![2]),
        Err(OsError::ChannelClosed)
    );
    // buffered output is still drained, then the stream ends
    assert_eq!(
        mgr.wait_output(pid),
        Ok(ConsumeStep::Data(vec![vec![1]]))
    );
    assert_eq!(mgr.wait_output(pid), Ok(ConsumeStep::EndOfStream));
}

#[test]
fn test_stdin_close_then_write_fails() {
    let mut mgr = ProcessManager::new();
    let pid = register(&mut mgr, "prog");
    assert_eq!(mgr.stdin_close(pid), Ok(None));
    assert_eq!(mgr.stdin_write(pid, vec![1]), Err(OsError::NotOpen));
}

#[test]
fn test_unknown_pid_is_rejected_everywhere() {
    let mut mgr = ProcessManager::new();
    assert_eq!(
        mgr.stdin_write(99, vec![1]),
        Err(OsError::NoSuchProcess)
    );
    assert_eq!(mgr.stdin_close(99), Err(OsError::NoSuchProcess));
    assert_eq!(mgr.wait_data(99, STDOUT), Err(OsError::NoSuchProcess));
    assert_eq!(mgr.wait_quit_begin(99), Err(OsError::NoSuchProcess));
    assert_eq!(mgr.exit_signal(99, 0), Err(OsError::NoSuchProcess));
}

#[test]
fn test_wait_before_start_is_an_impossible_state() {
    let mut mgr = ProcessManager::new();
    let pid = register(&mut mgr, "prog");
    // construction has not completed and no exit fired: waiting now is a
    // state machine violation, reported rather than swallowed
    assert_eq!(mgr.wait_quit_begin(pid), Err(OsError::Unexpected));
}

#[test]
fn test_process_name_is_kept() {
    let p = Process::new("busybox".to_string(), vec!["hush".to_string()]).unwrap();
    assert_eq!(p.name(), "busybox");
}

#[test]
fn test_module_read_hook_drains_stdin_in_order() {
    let mut mgr = ProcessManager::new();
    let pid = register(&mut mgr, "prog");
    mgr.stdin_write(pid, vec![1, 2, 3]).unwrap();
    assert_eq!(
        mgr.read_promise(pid, STDIN, 64, 2),
        Ok(ReadStep::Ready(ReadTarget { offset: 64, length: 2 }, vec![1, 2]))
    );
    assert_eq!(
        mgr.read_promise(pid, STDIN, 64, 8),
        Ok(ReadStep::Ready(ReadTarget { offset: 64, length: 8 }, vec![3]))
    );
}

#[test]
fn test_wait_data_parks_and_is_woken_by_write() {
    let mut mgr = ProcessManager::new();
    let pid = register(&mut mgr, "prog");
    assert_eq!(mgr.wait_data(pid, STDOUT), Ok(ConsumeStep::Pending));
    let (count, wake) = mgr.write(pid, STDOUT, vec![9, 9]).unwrap();
    assert_eq!(count, 2);
    assert_eq!(wake, Some(Wake::Notify));
    assert_eq!(
        mgr.wait_data_resume(pid, STDOUT),
        Ok(ConsumeStep::Data(vec![vec![9, 9]]))
    );
}
