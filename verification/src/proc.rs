//! Processes and the supervisor that registers them.
//!
//! A [`Process`] is one executing unit: a forward-only state machine plus
//! the fd-indexed channel table it owns.  A [`ProcessManager`] is the
//! pid-indexed registry of processes, with the exec/stdin/wait operations.
//!
//! The host-facing plumbing loads and invokes the actual module; every
//! decision it needs is a verified step here.  Construction registers the
//! process first, in state `Initialising`, so that an exit hook fired while
//! the module still runs synchronously finds the process and transitions it;
//! the completion of construction afterwards never clobbers a state the exit
//! hook already reached.

use vstd::prelude::*;

use crate::async_io::{
    close_next, close_wake, consume_matches, consume_next, consume_outcome, read_matches,
    read_next, read_outcome, seeded_channels, write_next, write_wake, AsyncIo, ChannelView,
    ConsumeStep, ReadStep, ReadTarget, Wake,
};
use crate::binfs::{file_name, file_name_spec, resolve_spec, BinFs};
use crate::errors::OsError;
use crate::table::Table;

verus! {

/// The lifecycle of one process.  Transitions only move forward; a duplicate
/// exit signal never re-transitions an exited process.
#[derive(Clone, Copy, Debug, PartialEq, Eq, Structural)]
pub enum State {
    /// The module is being constructed and has not been invoked yet.
    Initialising,
    /// The module was invoked; nobody awaits its completion yet.
    Waiting,
    /// A caller is awaiting the module's completion.
    Running,
    /// The exit hook fired with this code.  Terminal.
    Exited(i32),
}

/// The mathematical state of one process.
#[verifier::ext_equal]
pub struct ProcessView {
    pub name: Seq<char>,
    pub args: Seq<Seq<char>>,
    pub state: State,
    pub output: Map<u32, ChannelView>,
}

/// The state of a process that was just registered.
pub open spec fn fresh_process(name: Seq<char>, args: Seq<Seq<char>>) -> ProcessView {
    ProcessView { name, args, state: State::Initialising, output: seeded_channels() }
}

/// Completing construction moves a freshly registered process to `Waiting`;
/// it never disturbs any state the exit hook reached first.
pub open spec fn started_next(m: ProcessView) -> ProcessView {
    if m.state is Initialising {
        ProcessView { state: State::Waiting, ..m }
    } else {
        m
    }
}

/// Every channel of the process, closed.
pub open spec fn closed_all(om: Map<u32, ChannelView>) -> Map<u32, ChannelView> {
    Map::new(|fd: u32| om.contains_key(fd), |fd: u32| close_next(om[fd]))
}

/// The exit signal: the first one closes all channels and pins the exit
/// code; every later one is ignored.
pub open spec fn exit_next(m: ProcessView, code: i32) -> ProcessView {
    if m.state is Exited {
        m
    } else {
        ProcessView { state: State::Exited(code), output: closed_all(m.output), ..m }
    }
}

/// What one wait step must do next.
#[derive(Clone, Copy, Debug, PartialEq, Eq, Structural)]
pub enum WaitStep {
    /// The process already exited with this code.
    Done(i32),
    /// This caller is the first: it must await the module's completion and
    /// then finish the wait.
    AwaitModule,
    /// Another caller already awaits the completion: this one must await the
    /// exit signal itself.
    AwaitExit,
}

/// What beginning a wait on state `m` reports.
pub open spec fn wait_begin_outcome(m: ProcessView) -> Result<WaitStep, OsError> {
    match m.state {
        State::Waiting => Ok(WaitStep::AwaitModule),
        State::Running => Ok(WaitStep::AwaitExit),
        State::Exited(code) => Ok(WaitStep::Done(code)),
        State::Initialising => Err(OsError::Unexpected),
    }
}

/// The process state after beginning a wait: the first waiter takes the
/// completion and leaves the state `Running`.
pub open spec fn wait_begin_next(m: ProcessView) -> ProcessView {
    if m.state is Waiting {
        ProcessView { state: State::Running, ..m }
    } else {
        m
    }
}

/// What finishing a wait on state `m` reports, once the module's completion
/// has resolved: the exit code if the exit hook fired, and `Zombie` if the
/// module's top-level execution finished without ever invoking it.
pub open spec fn wait_finish_outcome(m: ProcessView) -> Result<i32, OsError> {
    match m.state {
        State::Exited(code) => Ok(code),
        State::Running => Err(OsError::Zombie),
        _ => Err(OsError::Unexpected),
    }
}

/// One executing unit: the state machine and the channel table it owns.
pub struct Process {
    name: String,
    args: Vec<String>,
    state: State,
    output: AsyncIo,
}

impl View for Process {
    type V = ProcessView;

    closed spec fn view(&self) -> ProcessView {
        ProcessView {
            name: self.name@,
            args: self.args.deep_view(),
            state: self.state,
            output: self.output@,
        }
    }
}

impl Process {
    /// A freshly registered process: state `Initialising`, the conventional
    /// channels open and empty.
    pub fn new(name: String, args: Vec<String>) -> (r: Result<Process, OsError>)
        ensures
            r matches Ok(p) && p@ == fresh_process(name@, args.deep_view()),
    {
        let output = match AsyncIo::new() {
            Ok(io) => io,
            Err(e) => {
                return Err(e);
            },
        };
        let p = Process { name, args, state: State::Initialising, output };
        proof {
            assert(p@ =~= fresh_process(p.name@, p.args.deep_view()));
        }
        Ok(p)
    }

    /// The program name the process was registered under.
    pub fn name(&self) -> (r: &str)
        ensures
            r@ == self@.name,
    {
        self.name.as_str()
    }

    /// Marks construction complete: a process still `Initialising` starts
    /// `Waiting`; a process the exit hook already moved is left alone.
    pub fn started(&mut self)
        ensures
            final(self)@ == started_next(old(self)@),
    {
        match self.state {
            State::Initialising => {
                self.state = State::Waiting;
                proof {
                    assert(final(self)@ =~= started_next(old(self)@));
                }
            },
            _ => {
                proof {
                    assert(final(self)@ =~= started_next(old(self)@));
                }
            },
        }
    }

    /// The exit hook.  The first signal closes all owned channels and pins
    /// the exit code; the second component of the result is false when the
    /// signal was a duplicate and was ignored.  The returned pairs name, per
    /// woken descriptor, what its parked completion must be resolved with.
    pub fn exit_signal(&mut self, code: i32) -> (r: (Vec<(u32, Wake)>, bool))
        ensures
            final(self)@ == exit_next(old(self)@, code),
            old(self)@.state is Exited ==> !r.1 && r.0@.len() == 0 && final(self)@ == old(self)@,
            !(old(self)@.state is Exited) ==> r.1,
            forall|i: int|
                0 <= i < r.0@.len() ==> old(self)@.output.contains_key(r.0@[i].0) && Some(
                    r.0@[i].1@,
                ) == close_wake(old(self)@.output[r.0@[i].0]),
            forall|fd: u32|
                old(self)@.output.contains_key(fd) && close_wake(old(self)@.output[fd]) is Some
                    && !(old(self)@.state is Exited) ==> exists|i: int|
                    0 <= i < r.0@.len() && r.0@[i].0 == fd,
            forall|i: int, j: int| 0 <= i < j < r.0@.len() ==> r.0@[i].0 != r.0@[j].0,
    {
        match self.state {
            State::Exited(_) => (Vec::new(), false),
            _ => {
                let wakes = self.output.close_all();
                self.state = State::Exited(code);
                proof {
                    assert(final(self)@.output =~= closed_all(old(self)@.output));
                    assert(final(self)@ =~= exit_next(old(self)@, code));
                }
                (wakes, true)
            },
        }
    }

    /// Begins a wait for the exit code.  The first caller must await the
    /// module's completion; callers while one is already waiting must await
    /// the exit signal itself; a process that already exited reports its
    /// code at once.
    pub fn wait_begin(&mut self) -> (r: Result<WaitStep, OsError>)
        ensures
            final(self)@ == wait_begin_next(old(self)@),
            r == wait_begin_outcome(old(self)@),
    {
        match self.state {
            State::Waiting => {
                self.state = State::Running;
                proof {
                    assert(final(self)@ =~= wait_begin_next(old(self)@));
                }
                Ok(WaitStep::AwaitModule)
            },
            State::Running => Ok(WaitStep::AwaitExit),
            State::Exited(code) => Ok(WaitStep::Done(code)),
            State::Initialising => Err(OsError::Unexpected),
        }
    }

    /// Finishes a wait once the module's completion has resolved: the exit
    /// code if the exit hook fired, `Zombie` if top-level execution finished
    /// without ever invoking it.
    pub fn wait_finish(&self) -> (r: Result<i32, OsError>)
        ensures
            r == wait_finish_outcome(self@),
    {
        match self.state {
            State::Exited(code) => Ok(code),
            State::Running => Err(OsError::Zombie),
            State::Waiting => Err(OsError::Unexpected),
            State::Initialising => Err(OsError::Unexpected),
        }
    }

    /// Writes to one of the process's channels; see [`AsyncIo::write`].
    pub fn write(&mut self, fd: u32, data: Vec<u8>) -> (r: Result<(usize, Option<Wake>), OsError>)
        ensures
            final(self)@.name == old(self)@.name,
            final(self)@.args == old(self)@.args,
            final(self)@.state == old(self)@.state,
            !old(self)@.output.contains_key(fd) ==> {
                &&& r == Err::<(usize, Option<Wake>), OsError>(OsError::NotOpen)
                &&& final(self)@ == old(self)@
            },
            old(self)@.output.contains_key(fd) && old(self)@.output[fd].closed ==> {
                &&& r == Err::<(usize, Option<Wake>), OsError>(OsError::ChannelClosed)
                &&& final(self)@ == old(self)@
            },
            old(self)@.output.contains_key(fd) && !old(self)@.output[fd].closed ==> {
                &&& r matches Ok((count, wake)) && count == data@.len() && crate::async_io::wake_opt_view(
                    wake,
                ) == write_wake(old(self)@.output[fd], data@)
                &&& final(self)@.output == old(self)@.output.insert(
                    fd,
                    write_next(old(self)@.output[fd], data@),
                )
            },
    {
        let r = self.output.write(fd, data);
        proof {
            if !old(self)@.output.contains_key(fd) || old(self)@.output[fd].closed {
                assert(final(self)@ =~= old(self)@);
            }
        }
        r
    }

    /// Closes one of the process's channels and removes the descriptor; see
    /// [`AsyncIo::close`].
    pub fn close_fd(&mut self, fd: u32) -> (r: Result<Option<Wake>, OsError>)
        ensures
            final(self)@.name == old(self)@.name,
            final(self)@.args == old(self)@.args,
            final(self)@.state == old(self)@.state,
            !old(self)@.output.contains_key(fd) ==> {
                &&& r == Err::<Option<Wake>, OsError>(OsError::NotOpen)
                &&& final(self)@ == old(self)@
            },
            old(self)@.output.contains_key(fd) ==> {
                &&& r matches Ok(w) && crate::async_io::wake_opt_view(w) == close_wake(
                    old(self)@.output[fd],
                )
                &&& final(self)@.output == old(self)@.output.remove(fd)
            },
    {
        let r = self.output.close(fd);
        proof {
            if !old(self)@.output.contains_key(fd) {
                assert(final(self)@ =~= old(self)@);
            }
        }
        r
    }

    /// One step of a drain-everything read on one of the process's
    /// channels; see [`AsyncIo::consume_all`].
    pub fn consume_all(&mut self, fd: u32) -> (r: Result<ConsumeStep, OsError>)
        ensures
            final(self)@.name == old(self)@.name,
            final(self)@.args == old(self)@.args,
            final(self)@.state == old(self)@.state,
            !old(self)@.output.contains_key(fd) ==> {
                &&& r == Err::<ConsumeStep, OsError>(OsError::NotOpen)
                &&& final(self)@ == old(self)@
            },
            old(self)@.output.contains_key(fd) ==> {
                &&& consume_matches(r, consume_outcome(old(self)@.output[fd]))
                &&& final(self)@.output == old(self)@.output.insert(
                    fd,
                    consume_next(old(self)@.output[fd]),
                )
            },
    {
        let r = self.output.consume_all(fd);
        proof {
            if !old(self)@.output.contains_key(fd) {
                assert(final(self)@ =~= old(self)@);
            }
        }
        r
    }

    /// Re-checks one of the process's channels after a wake; see
    /// [`AsyncIo::consume_resume`].
    pub fn consume_resume(&mut self, fd: u32) -> (r: Result<ConsumeStep, OsError>)
        ensures
            final(self)@.name == old(self)@.name,
            final(self)@.args == old(self)@.args,
            final(self)@.state == old(self)@.state,
            !old(self)@.output.contains_key(fd) ==> {
                &&& r == Err::<ConsumeStep, OsError>(OsError::NotOpen)
                &&& final(self)@ == old(self)@
            },
            old(self)@.output.contains_key(fd) && old(self)@.output[fd].queue.len() > 0 ==> {
                &&& r matches Ok(ConsumeStep::Data(chunks)) && chunks.deep_view()
                    == old(self)@.output[fd].queue
                &&& final(self)@.output == old(self)@.output.insert(
                    fd,
                    ChannelView { queue: Seq::empty(), ..old(self)@.output[fd] },
                )
            },
            old(self)@.output.contains_key(fd) && old(self)@.output[fd].queue.len() == 0 ==> {
                &&& r == Ok::<ConsumeStep, OsError>(ConsumeStep::EndOfStream)
                &&& final(self)@ == old(self)@
            },
    {
        let r = self.output.consume_resume(fd);
        proof {
            if !old(self)@.output.contains_key(fd) || old(self)@.output[fd].queue.len() == 0 {
                assert(final(self)@ =~= old(self)@);
            }
        }
        r
    }

    /// One step of a copy-into-buffer read on one of the process's
    /// channels; see [`AsyncIo::read_promise`].
    pub fn read_promise(&mut self, fd: u32, offset: usize, length: usize) -> (r: Result<
        ReadStep,
        OsError,
    >)
        ensures
            final(self)@.name == old(self)@.name,
            final(self)@.args == old(self)@.args,
            final(self)@.state == old(self)@.state,
            !old(self)@.output.contains_key(fd) ==> {
                &&& r == Err::<ReadStep, OsError>(OsError::NotOpen)
                &&& final(self)@ == old(self)@
            },
            old(self)@.output.contains_key(fd) ==> {
                &&& read_matches(
                    r,
                    read_outcome(old(self)@.output[fd], ReadTarget { offset, length }),
                )
                &&& final(self)@.output == old(self)@.output.insert(
                    fd,
                    read_next(old(self)@.output[fd], ReadTarget { offset, length }),
                )
            },
    {
        let r = self.output.read_promise(fd, offset, length);
        proof {
            if !old(self)@.output.contains_key(fd) {
                assert(final(self)@ =~= old(self)@);
            }
        }
        r
    }
}

/// A process that signalled exit while still `Initialising` — a module that
/// ran to completion synchronously during construction — is `Exited` with
/// that code; the completion of construction afterwards leaves it exited,
/// and the wait that follows reports exactly that code at once, with no
/// observable window in which the process looks `Running`.
pub proof fn lemma_exit_during_construction(p: ProcessView, code: i32)
    requires
        p.state is Initialising,
    ensures
        exit_next(p, code).state == State::Exited(code),
        started_next(exit_next(p, code)) == exit_next(p, code),
        wait_begin_outcome(started_next(exit_next(p, code))) == Ok::<WaitStep, OsError>(
            WaitStep::Done(code),
        ),
        wait_begin_next(started_next(exit_next(p, code))) == exit_next(p, code),
{
}

/// A module whose top-level execution completes without ever invoking the
/// exit hook leaves the process `Running` when the first waiter's await
/// returns, so finishing the wait reports `Zombie` instead of hanging.
pub proof fn lemma_wait_without_exit_reports_zombie(p: ProcessView)
    requires
        p.state is Waiting,
    ensures
        wait_begin_outcome(p) == Ok::<WaitStep, OsError>(WaitStep::AwaitModule),
        wait_finish_outcome(wait_begin_next(p)) == Err::<i32, OsError>(OsError::Zombie),
{
}


/// The mathematical state of the supervisor.
#[verifier::ext_equal]
pub struct ManagerView {
    /// The pid counter: every registered pid is at most this.
    pub cnt: u32,
    /// The registered processes, by pid.
    pub procs: Map<u32, ProcessView>,
    /// The mount point under which binaries resolve.
    pub mount: Seq<char>,
}

/// The supervisor's invariant: no registered pid exceeds the counter, so the
/// next pid is always fresh.
pub open spec fn manager_wf(m: ManagerView) -> bool {
    forall|pid: u32| m.procs.contains_key(pid) ==> pid <= m.cnt
}

/// The supervisor state with one process replaced.
pub open spec fn with_proc(m: ManagerView, pid: u32, p: ProcessView) -> ManagerView {
    ManagerView { procs: m.procs.insert(pid, p), ..m }
}

/// The process state with one channel replaced.
pub open spec fn with_chan(p: ProcessView, fd: u32, c: ChannelView) -> ProcessView {
    ProcessView { output: p.output.insert(fd, c), ..p }
}

/// What beginning `wait_quit(pid)` reports.
pub open spec fn wait_quit_begin_outcome(m: ManagerView, pid: u32) -> Result<WaitStep, OsError> {
    if !m.procs.contains_key(pid) {
        Err(OsError::NoSuchProcess)
    } else {
        wait_begin_outcome(m.procs[pid])
    }
}

/// The supervisor state after beginning `wait_quit(pid)`: reporting the exit
/// code of an exited process removes the pid at once; a first waiter leaves
/// the process `Running`.
pub open spec fn wait_quit_begin_next(m: ManagerView, pid: u32) -> ManagerView {
    if !m.procs.contains_key(pid) {
        m
    } else if m.procs[pid].state is Exited {
        ManagerView { procs: m.procs.remove(pid), ..m }
    } else {
        with_proc(m, pid, wait_begin_next(m.procs[pid]))
    }
}

/// What finishing `wait_quit(pid)` reports.
pub open spec fn wait_quit_finish_outcome(m: ManagerView, pid: u32) -> Result<i32, OsError> {
    if !m.procs.contains_key(pid) {
        Err(OsError::NoSuchProcess)
    } else {
        wait_finish_outcome(m.procs[pid])
    }
}

/// The supervisor state after finishing `wait_quit(pid)`: both the exit
/// code and a zombie report reap the pid; only an impossible state leaves
/// the table untouched.
pub open spec fn wait_quit_finish_next(m: ManagerView, pid: u32) -> ManagerView {
    if !m.procs.contains_key(pid) {
        m
    } else {
        match m.procs[pid].state {
            State::Exited(_) => ManagerView { procs: m.procs.remove(pid), ..m },
            State::Running => ManagerView { procs: m.procs.remove(pid), ..m },
            _ => m,
        }
    }
}

/// The pid-indexed registry of processes: it assigns pids, routes channel
/// operations, and reaps exit codes at most once.
pub struct ProcessManager {
    cnt: u32,
    map: Table<Process>,
    binfs: BinFs,
}

impl View for ProcessManager {
    type V = ManagerView;

    closed spec fn view(&self) -> ManagerView {
        ManagerView { cnt: self.cnt, procs: self.map@, mount: self.binfs@ }
    }
}

impl ProcessManager {
    /// A fresh supervisor: no processes, the pid counter starting above 1,
    /// binaries resolved under the conventional mount point.
    pub fn new() -> (r: Self)
        ensures
            r@.cnt == 1,
            r@.procs == Map::<u32, ProcessView>::empty(),
            r@.mount == "/bin"@,
            manager_wf(r@),
    {
        ProcessManager { cnt: 1, map: Table::new(), binfs: BinFs::new("/bin") }
    }

    /// Whether another process can still be registered: the pid counter has
    /// not reached its ceiling.
    pub fn can_register(&self) -> (r: bool)
        ensures
            r == (self@.cnt < u32::MAX),
    {
        self.cnt < u32::MAX
    }

    /// The next pid: strictly increasing, so never one already registered.
    fn next_pid(&mut self) -> (r: u32)
        requires
            old(self)@.cnt < u32::MAX,
        ensures
            r == old(self)@.cnt + 1,
            final(self)@ == (ManagerView { cnt: r, ..old(self)@ }),
    {
        self.cnt = self.cnt + 1;
        proof {
            assert(final(self)@ =~= (ManagerView { cnt: (old(self)@.cnt + 1) as u32, ..old(self)@ }));
        }
        self.cnt
    }

    /// Resolves the binary to execute: the backing location and the program
    /// name (the path's base name).  A path that does not resolve fails the
    /// whole attempt with `ResolveFailed`.
    pub fn exec_resolve(&self, file_path: &str) -> (r: Result<(String, String), OsError>)
        ensures
            resolve_spec(self@.mount, file_path@) is None ==> r == Err::<
                (String, String),
                OsError,
            >(OsError::ResolveFailed),
            resolve_spec(self@.mount, file_path@) matches Some(loc) ==> r matches Ok(pair)
                && pair.0@ == loc && Some(pair.1@) == file_name_spec(file_path@),
    {
        match self.binfs.resolve(file_path) {
            None => Err(OsError::ResolveFailed),
            Some(loc) => {
                match file_name(file_path) {
                    Some(n) => Ok((loc, n)),
                    None => {
                        proof {
                            assert(false);
                        }
                        Err(OsError::Unexpected)
                    },
                }
            },
        }
    }

    /// Registers a new process for a loaded module under a fresh pid, in
    /// state `Initialising`, and returns the pid.  The module is invoked
    /// after registration, so an exit hook that fires synchronously already
    /// finds the process.
    pub fn exec_register(&mut self, name: String, args: Vec<String>) -> (r: Result<u32, OsError>)
        requires
            manager_wf(old(self)@),
            old(self)@.cnt < u32::MAX,
        ensures
            manager_wf(final(self)@),
            r matches Ok(pid) && pid == old(self)@.cnt + 1 && !old(self)@.procs.contains_key(pid)
                && final(self)@ == (ManagerView {
                cnt: (old(self)@.cnt + 1) as u32,
                procs: old(self)@.procs.insert(pid, fresh_process(name@, args.deep_view())),
                ..old(self)@
            }),
    {
        let pid = self.next_pid();
        let p = match Process::new(name, args) {
            Ok(p) => p,
            Err(_) => {
                proof {
                    assert(false);
                }
                return Err(OsError::Unexpected);
            },
        };
        proof {
            assert(!self@.procs.contains_key(pid));
        }
        self.map.insert(pid, p);
        proof {
            assert(final(self)@ =~= (ManagerView {
                cnt: (old(self)@.cnt + 1) as u32,
                procs: old(self)@.procs.insert(pid, fresh_process(p@.name, p@.args)),
                ..old(self)@
            }));
        }
        Ok(pid)
    }

    /// Marks a process's construction complete; see [`Process::started`].
    pub fn mark_started(&mut self, pid: u32) -> (r: Result<(), OsError>)
        requires
            manager_wf(old(self)@),
        ensures
            manager_wf(final(self)@),
            !old(self)@.procs.contains_key(pid) ==> {
                &&& r == Err::<(), OsError>(OsError::NoSuchProcess)
                &&& final(self)@ == old(self)@
            },
            old(self)@.procs.contains_key(pid) ==> {
                &&& r == Ok::<(), OsError>(())
                &&& final(self)@ == with_proc(
                    old(self)@,
                    pid,
                    started_next(old(self)@.procs[pid]),
                )
            },
    {
        match self.map.take(pid) {
            None => {
                proof {
                    assert(final(self)@ =~= old(self)@);
                }
                Err(OsError::NoSuchProcess)
            },
            Some(mut p) => {
                p.started();
                self.map.insert(pid, p);
                proof {
                    assert(final(self)@ =~= with_proc(
                        old(self)@,
                        pid,
                        started_next(old(self)@.procs[pid]),
                    ));
                }
                Ok(())
            },
        }
    }

    /// Routes the exit hook to a process; see [`Process::exit_signal`].
    pub fn exit_signal(&mut self, pid: u32, code: i32) -> (r: Result<
        (Vec<(u32, Wake)>, bool),
        OsError,
    >)
        requires
            manager_wf(old(self)@),
        ensures
            manager_wf(final(self)@),
            !old(self)@.procs.contains_key(pid) ==> {
                &&& r == Err::<(Vec<(u32, Wake)>, bool), OsError>(OsError::NoSuchProcess)
                &&& final(self)@ == old(self)@
            },
            old(self)@.procs.contains_key(pid) ==> {
                &&& r matches Ok((wakes, accepted)) && {
                    let p = old(self)@.procs[pid];
                    &&& accepted == !(p.state is Exited)
                    &&& final(self)@ == with_proc(old(self)@, pid, exit_next(p, code))
                    &&& forall|i: int|
                        0 <= i < wakes@.len() ==> p.output.contains_key(wakes@[i].0) && Some(
                            wakes@[i].1@,
                        ) == close_wake(p.output[wakes@[i].0])
                    &&& forall|fd: u32|
                        p.output.contains_key(fd) && close_wake(p.output[fd]) is Some && !(
                        p.state is Exited) ==> exists|i: int|
                            0 <= i < wakes@.len() && wakes@[i].0 == fd
                    &&& forall|i: int, j: int|
                        0 <= i < j < wakes@.len() ==> wakes@[i].0 != wakes@[j].0
                }
            },
    {
        match self.map.take(pid) {
            None => {
                proof {
                    assert(final(self)@ =~= old(self)@);
                }
                Err(OsError::NoSuchProcess)
            },
            Some(mut p) => {
                let (wakes, accepted) = p.exit_signal(code);
                self.map.insert(pid, p);
                proof {
                    assert(final(self)@ =~= with_proc(
                        old(self)@,
                        pid,
                        exit_next(old(self)@.procs[pid], code),
                    ));
                }
                Ok((wakes, accepted))
            },
        }
    }

    /// Writes `data` to a channel of a process, waking any attached
    /// consumer; see [`Process::write`].
    pub fn write(&mut self, pid: u32, fd: u32, data: Vec<u8>) -> (r: Result<
        (usize, Option<Wake>),
        OsError,
    >)
        requires
            manager_wf(old(self)@),
        ensures
            manager_wf(final(self)@),
            !old(self)@.procs.contains_key(pid) ==> {
                &&& r == Err::<(usize, Option<Wake>), OsError>(OsError::NoSuchProcess)
                &&& final(self)@ == old(self)@
            },
            old(self)@.procs.contains_key(pid) && !old(self)@.procs[pid].output.contains_key(fd)
                ==> {
                &&& r == Err::<(usize, Option<Wake>), OsError>(OsError::NotOpen)
                &&& final(self)@ == old(self)@
            },
            old(self)@.procs.contains_key(pid) && old(self)@.procs[pid].output.contains_key(fd)
                && old(self)@.procs[pid].output[fd].closed ==> {
                &&& r == Err::<(usize, Option<Wake>), OsError>(OsError::ChannelClosed)
                &&& final(self)@ == old(self)@
            },
            old(self)@.procs.contains_key(pid) && old(self)@.procs[pid].output.contains_key(fd)
                && !old(self)@.procs[pid].output[fd].closed ==> {
                &&& r matches Ok((count, wake)) && count == data@.len()
                    && crate::async_io::wake_opt_view(wake) == write_wake(
                    old(self)@.procs[pid].output[fd],
                    data@,
                )
                &&& final(self)@ == with_proc(
                    old(self)@,
                    pid,
                    with_chan(
                        old(self)@.procs[pid],
                        fd,
                        write_next(old(self)@.procs[pid].output[fd], data@),
                    ),
                )
            },
    {
        match self.map.take(pid) {
            None => {
                proof {
                    assert(final(self)@ =~= old(self)@);
                }
                Err(OsError::NoSuchProcess)
            },
            Some(mut p) => {
                let r = p.write(fd, data);
                self.map.insert(pid, p);
                proof {
                    let p0 = old(self)@.procs[pid];
                    if !p0.output.contains_key(fd) || p0.output[fd].closed {
                        assert(final(self)@ =~= old(self)@);
                    } else {
                        assert(p@ =~= with_chan(p0, fd, write_next(p0.output[fd], data@)));
                        assert(final(self)@ =~= with_proc(old(self)@, pid, p@));
                    }
                }
                r
            },
        }
    }

    /// Writes `data` to a process's standard input; see
    /// [`ProcessManager::write`].
    pub fn stdin_write(&mut self, pid: u32, data: Vec<u8>) -> (r: Result<
        (usize, Option<Wake>),
        OsError,
    >)
        requires
            manager_wf(old(self)@),
        ensures
            manager_wf(final(self)@),
            !old(self)@.procs.contains_key(pid) ==> {
                &&& r == Err::<(usize, Option<Wake>), OsError>(OsError::NoSuchProcess)
                &&& final(self)@ == old(self)@
            },
            old(self)@.procs.contains_key(pid) && !old(self)@.procs[pid].output.contains_key(
                crate::STDIN,
            ) ==> {
                &&& r == Err::<(usize, Option<Wake>), OsError>(OsError::NotOpen)
                &&& final(self)@ == old(self)@
            },
            old(self)@.procs.contains_key(pid) && old(self)@.procs[pid].output.contains_key(
                crate::STDIN,
            ) && old(self)@.procs[pid].output[crate::STDIN].closed ==> {
                &&& r == Err::<(usize, Option<Wake>), OsError>(OsError::ChannelClosed)
                &&& final(self)@ == old(self)@
            },
            old(self)@.procs.contains_key(pid) && old(self)@.procs[pid].output.contains_key(
                crate::STDIN,
            ) && !old(self)@.procs[pid].output[crate::STDIN].closed ==> {
                &&& r matches Ok((count, wake)) && count == data@.len()
                    && crate::async_io::wake_opt_view(wake) == write_wake(
                    old(self)@.procs[pid].output[crate::STDIN],
                    data@,
                )
                &&& final(self)@ == with_proc(
                    old(self)@,
                    pid,
                    with_chan(
                        old(self)@.procs[pid],
                        crate::STDIN,
                        write_next(old(self)@.procs[pid].output[crate::STDIN], data@),
                    ),
                )
            },
    {
        self.write(pid, crate::STDIN, data)
    }

    /// Closes a process's standard input, signalling the end of its input
    /// stream; see [`Process::close_fd`].
    pub fn stdin_close(&mut self, pid: u32) -> (r: Result<Option<Wake>, OsError>)
        requires
            manager_wf(old(self)@),
        ensures
            manager_wf(final(self)@),
            !old(self)@.procs.contains_key(pid) ==> {
                &&& r == Err::<Option<Wake>, OsError>(OsError::NoSuchProcess)
                &&& final(self)@ == old(self)@
            },
            old(self)@.procs.contains_key(pid) && !old(self)@.procs[pid].output.contains_key(
                crate::STDIN,
            ) ==> {
                &&& r == Err::<Option<Wake>, OsError>(OsError::NotOpen)
                &&& final(self)@ == old(self)@
            },
            old(self)@.procs.contains_key(pid) && old(self)@.procs[pid].output.contains_key(
                crate::STDIN,
            ) ==> {
                &&& r matches Ok(w) && crate::async_io::wake_opt_view(w) == close_wake(
                    old(self)@.procs[pid].output[crate::STDIN],
                )
                &&& final(self)@ == with_proc(
                    old(self)@,
                    pid,
                    ProcessView {
                        output: old(self)@.procs[pid].output.remove(crate::STDIN),
                        ..old(self)@.procs[pid]
                    },
                )
            },
    {
        match self.map.take(pid) {
            None => {
                proof {
                    assert(final(self)@ =~= old(self)@);
                }
                Err(OsError::NoSuchProcess)
            },
            Some(mut p) => {
                let r = p.close_fd(crate::STDIN);
                self.map.insert(pid, p);
                proof {
                    let p0 = old(self)@.procs[pid];
                    if !p0.output.contains_key(crate::STDIN) {
                        assert(final(self)@ =~= old(self)@);
                    } else {
                        assert(p@ =~= (ProcessView {
                            output: p0.output.remove(crate::STDIN),
                            ..p0
                        }));
                        assert(final(self)@ =~= with_proc(old(self)@, pid, p@));
                    }
                }
                r
            },
        }
    }

    /// One step of a drain-everything read on a channel of a process; see
    /// [`Process::consume_all`].
    pub fn wait_data(&mut self, pid: u32, fd: u32) -> (r: Result<ConsumeStep, OsError>)
        requires
            manager_wf(old(self)@),
        ensures
            manager_wf(final(self)@),
            !old(self)@.procs.contains_key(pid) ==> {
                &&& r == Err::<ConsumeStep, OsError>(OsError::NoSuchProcess)
                &&& final(self)@ == old(self)@
            },
            old(self)@.procs.contains_key(pid) && !old(self)@.procs[pid].output.contains_key(fd)
                ==> {
                &&& r == Err::<ConsumeStep, OsError>(OsError::NotOpen)
                &&& final(self)@ == old(self)@
            },
            old(self)@.procs.contains_key(pid) && old(self)@.procs[pid].output.contains_key(fd)
                ==> {
                &&& consume_matches(r, consume_outcome(old(self)@.procs[pid].output[fd]))
                &&& final(self)@ == with_proc(
                    old(self)@,
                    pid,
                    with_chan(
                        old(self)@.procs[pid],
                        fd,
                        consume_next(old(self)@.procs[pid].output[fd]),
                    ),
                )
            },
    {
        match self.map.take(pid) {
            None => {
                proof {
                    assert(final(self)@ =~= old(self)@);
                }
                Err(OsError::NoSuchProcess)
            },
            Some(mut p) => {
                let r = p.consume_all(fd);
                self.map.insert(pid, p);
                proof {
                    let p0 = old(self)@.procs[pid];
                    if !p0.output.contains_key(fd) {
                        assert(final(self)@ =~= old(self)@);
                    } else {
                        assert(p@ =~= with_chan(p0, fd, consume_next(p0.output[fd])));
                        assert(final(self)@ =~= with_proc(old(self)@, pid, p@));
                    }
                }
                r
            },
        }
    }

    /// Re-checks a channel of a process after a wake; see
    /// [`Process::consume_resume`].
    pub fn wait_data_resume(&mut self, pid: u32, fd: u32) -> (r: Result<ConsumeStep, OsError>)
        requires
            manager_wf(old(self)@),
        ensures
            manager_wf(final(self)@),
            !old(self)@.procs.contains_key(pid) ==> {
                &&& r == Err::<ConsumeStep, OsError>(OsError::NoSuchProcess)
                &&& final(self)@ == old(self)@
            },
            old(self)@.procs.contains_key(pid) && !old(self)@.procs[pid].output.contains_key(fd)
                ==> {
                &&& r == Err::<ConsumeStep, OsError>(OsError::NotOpen)
                &&& final(self)@ == old(self)@
            },
            old(self)@.procs.contains_key(pid) && old(self)@.procs[pid].output.contains_key(fd)
                && old(self)@.procs[pid].output[fd].queue.len() > 0 ==> {
                &&& r matches Ok(ConsumeStep::Data(chunks)) && chunks.deep_view()
                    == old(self)@.procs[pid].output[fd].queue
                &&& final(self)@ == with_proc(
                    old(self)@,
                    pid,
                    with_chan(
                        old(self)@.procs[pid],
                        fd,
                        ChannelView { queue: Seq::empty(), ..old(self)@.procs[pid].output[fd] },
                    ),
                )
            },
            old(self)@.procs.contains_key(pid) && old(self)@.procs[pid].output.contains_key(fd)
                && old(self)@.procs[pid].output[fd].queue.len() == 0 ==> {
                &&& r == Ok::<ConsumeStep, OsError>(ConsumeStep::EndOfStream)
                &&& final(self)@ == old(self)@
            },
    {
        match self.map.take(pid) {
            None => {
                proof {
                    assert(final(self)@ =~= old(self)@);
                }
                Err(OsError::NoSuchProcess)
            },
            Some(mut p) => {
                let r = p.consume_resume(fd);
                self.map.insert(pid, p);
                proof {
                    let p0 = old(self)@.procs[pid];
                    if !p0.output.contains_key(fd) || (p0.output.contains_key(fd)
                        && p0.output[fd].queue.len() == 0) {
                        assert(final(self)@ =~= old(self)@);
                    } else {
                        assert(p@ =~= with_chan(
                            p0,
                            fd,
                            ChannelView { queue: Seq::empty(), ..p0.output[fd] },
                        ));
                        assert(final(self)@ =~= with_proc(old(self)@, pid, p@));
                    }
                }
                r
            },
        }
    }

    /// Waits until a process produces output on stdout; see
    /// [`ProcessManager::wait_data`].
    pub fn wait_output(&mut self, pid: u32) -> (r: Result<ConsumeStep, OsError>)
        requires
            manager_wf(old(self)@),
        ensures
            manager_wf(final(self)@),
            !old(self)@.procs.contains_key(pid) ==> {
                &&& r == Err::<ConsumeStep, OsError>(OsError::NoSuchProcess)
                &&& final(self)@ == old(self)@
            },
            old(self)@.procs.contains_key(pid) && !old(self)@.procs[pid].output.contains_key(
                crate::STDOUT,
            ) ==> {
                &&& r == Err::<ConsumeStep, OsError>(OsError::NotOpen)
                &&& final(self)@ == old(self)@
            },
            old(self)@.procs.contains_key(pid) && old(self)@.procs[pid].output.contains_key(
                crate::STDOUT,
            ) ==> {
                &&& consume_matches(r, consume_outcome(old(self)@.procs[pid].output[crate::STDOUT]))
                &&& final(self)@ == with_proc(
                    old(self)@,
                    pid,
                    with_chan(
                        old(self)@.procs[pid],
                        crate::STDOUT,
                        consume_next(old(self)@.procs[pid].output[crate::STDOUT]),
                    ),
                )
            },
    {
        self.wait_data(pid, crate::STDOUT)
    }

    /// One step of a copy-into-buffer read on a channel of a process; see
    /// [`Process::read_promise`].
    pub fn read_promise(&mut self, pid: u32, fd: u32, offset: usize, length: usize) -> (r: Result<
        ReadStep,
        OsError,
    >)
        requires
            manager_wf(old(self)@),
        ensures
            manager_wf(final(self)@),
            !old(self)@.procs.contains_key(pid) ==> {
                &&& r == Err::<ReadStep, OsError>(OsError::NoSuchProcess)
                &&& final(self)@ == old(self)@
            },
            old(self)@.procs.contains_key(pid) && !old(self)@.procs[pid].output.contains_key(fd)
                ==> {
                &&& r == Err::<ReadStep, OsError>(OsError::NotOpen)
                &&& final(self)@ == old(self)@
            },
            old(self)@.procs.contains_key(pid) && old(self)@.procs[pid].output.contains_key(fd)
                ==> {
                &&& read_matches(
                    r,
                    read_outcome(
                        old(self)@.procs[pid].output[fd],
                        ReadTarget { offset, length },
                    ),
                )
                &&& final(self)@ == with_proc(
                    old(self)@,
                    pid,
                    with_chan(
                        old(self)@.procs[pid],
                        fd,
                        read_next(old(self)@.procs[pid].output[fd], ReadTarget { offset, length }),
                    ),
                )
            },
    {
        match self.map.take(pid) {
            None => {
                proof {
                    assert(final(self)@ =~= old(self)@);
                }
                Err(OsError::NoSuchProcess)
            },
            Some(mut p) => {
                let r = p.read_promise(fd, offset, length);
                self.map.insert(pid, p);
                proof {
                    let p0 = old(self)@.procs[pid];
                    if !p0.output.contains_key(fd) {
                        assert(final(self)@ =~= old(self)@);
                    } else {
                        assert(p@ =~= with_chan(
                            p0,
                            fd,
                            read_next(p0.output[fd], ReadTarget { offset, length }),
                        ));
                        assert(final(self)@ =~= with_proc(old(self)@, pid, p@));
                    }
                }
                r
            },
        }
    }

    /// Begins waiting for a process's exit code; see [`Process::wait_begin`].
    /// A process that already exited is reaped at once: its pid is removed,
    /// and a second wait for it fails with `NoSuchProcess`.
    pub fn wait_quit_begin(&mut self, pid: u32) -> (r: Result<WaitStep, OsError>)
        requires
            manager_wf(old(self)@),
        ensures
            manager_wf(final(self)@),
            r == wait_quit_begin_outcome(old(self)@, pid),
            final(self)@ == wait_quit_begin_next(old(self)@, pid),
    {
        match self.map.take(pid) {
            None => {
                proof {
                    assert(final(self)@ =~= old(self)@);
                }
                Err(OsError::NoSuchProcess)
            },
            Some(mut p) => {
                let r = p.wait_begin();
                match r {
                    Ok(WaitStep::Done(code)) => {
                        proof {
                            assert(final(self)@ =~= wait_quit_begin_next(old(self)@, pid));
                        }
                        Ok(WaitStep::Done(code))
                    },
                    _ => {
                        self.map.insert(pid, p);
                        proof {
                            assert(final(self)@ =~= wait_quit_begin_next(old(self)@, pid));
                        }
                        r
                    },
                }
            },
        }
    }

    /// Finishes waiting for a process's exit code once the module's
    /// completion has resolved; see [`Process::wait_finish`].  Both an exit
    /// code and a zombie report reap the pid.
    pub fn wait_quit_finish(&mut self, pid: u32) -> (r: Result<i32, OsError>)
        requires
            manager_wf(old(self)@),
        ensures
            manager_wf(final(self)@),
            r == wait_quit_finish_outcome(old(self)@, pid),
            final(self)@ == wait_quit_finish_next(old(self)@, pid),
    {
        match self.map.take(pid) {
            None => {
                proof {
                    assert(final(self)@ =~= old(self)@);
                }
                Err(OsError::NoSuchProcess)
            },
            Some(p) => {
                let r = p.wait_finish();
                match r {
                    Ok(code) => {
                        proof {
                            assert(final(self)@ =~= wait_quit_finish_next(old(self)@, pid));
                        }
                        Ok(code)
                    },
                    Err(e) => {
                        if matches!(e, OsError::Zombie) {
                            proof {
                                assert(final(self)@ =~= wait_quit_finish_next(old(self)@, pid));
                            }
                            Err(e)
                        } else {
                            self.map.insert(pid, p);
                            proof {
                                assert(final(self)@ =~= wait_quit_finish_next(old(self)@, pid));
                            }
                            Err(e)
                        }
                    },
                }
            },
        }
    }
}

/// Reaping is at-most-once: the first `wait_quit` on an exited process
/// reports its code and removes the pid; a second `wait_quit` on the same
/// pid fails with `NoSuchProcess`.
pub proof fn lemma_wait_quit_at_most_once(m: ManagerView, pid: u32, code: i32)
    requires
        m.procs.contains_key(pid),
        m.procs[pid].state == State::Exited(code),
    ensures
        wait_quit_begin_outcome(m, pid) == Ok::<WaitStep, OsError>(WaitStep::Done(code)),
        !wait_quit_begin_next(m, pid).procs.contains_key(pid),
        wait_quit_begin_outcome(wait_quit_begin_next(m, pid), pid) == Err::<WaitStep, OsError>(
            OsError::NoSuchProcess,
        ),
{
}

/// A module that signals exit synchronously during construction is observed
/// by the whole supervisor path as already exited: `wait_quit` on its pid
/// reports exactly that code and reaps the pid at once.
pub proof fn lemma_sync_exit_then_wait_quit(m: ManagerView, pid: u32, code: i32)
    requires
        m.procs.contains_key(pid),
        m.procs[pid].state is Initialising,
    ensures
        ({
            let after = with_proc(
                with_proc(m, pid, exit_next(m.procs[pid], code)),
                pid,
                started_next(exit_next(m.procs[pid], code)),
            );
            &&& wait_quit_begin_outcome(after, pid) == Ok::<WaitStep, OsError>(
                WaitStep::Done(code),
            )
            &&& !wait_quit_begin_next(after, pid).procs.contains_key(pid)
        }),
{
    lemma_exit_during_construction(m.procs[pid], code);
}

} // verus!
