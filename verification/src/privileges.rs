//! Launching of processes with scoped privileges.
//!
//! Linux capabilities and network namespace membership belong to a thread, so
//! privileged work runs on short-lived threads that keep exactly the
//! capabilities they need. This module decides which capabilities the runtime
//! must have, how a child is set up before it executes its program, and how
//! its exit is observed exactly once.
use crate::bytes::copy_bytes;
use crate::text::{begins_with, ends_with, lemma_ends_with};
use vstd::prelude::*;

verus! {

/// Capability to administer networks.
pub const CAP_NET_ADMIN: i32 = 12;

/// Capability for system administration, namespaces among it.
pub const CAP_SYS_ADMIN: i32 = 21;

/// How long a dropped child may take to be reaped, in milliseconds.
pub const DROP_REAP_MILLIS: u64 = 100;

/// The name of a capability.
pub open spec fn capability_label(capability: i32) -> Seq<char> {
    if capability == CAP_NET_ADMIN {
        "CAP_NET_ADMIN"@
    } else if capability == CAP_SYS_ADMIN {
        "CAP_SYS_ADMIN"@
    } else {
        "unknown capability"@
    }
}

/// The name of a capability.
pub fn capability_name(capability: i32) -> (name: &'static str)
    ensures
        name@ == capability_label(capability),
{
    if capability == CAP_NET_ADMIN {
        "CAP_NET_ADMIN"
    } else if capability == CAP_SYS_ADMIN {
        "CAP_SYS_ADMIN"
    } else {
        "unknown capability"
    }
}

/// What is known of one capability of the process; `None` where it could not
/// be found out.
#[derive(Debug, Clone, Copy)]
pub struct CapabilityState {
    /// In the effective set.
    pub effective: Option<bool>,
    /// In the inheritable, permitted and effective sets.
    pub delegable: Option<bool>,
}

/// The capabilities of the process that the runtime needs.
#[derive(Debug, Clone, Copy)]
pub struct RuntimeCapabilities {
    pub net_admin: CapabilityState,
    pub sys_admin: CapabilityState,
}

/// Whether a capability is missing: root needs it effective, everyone else
/// delegable. What could not be found out counts as missing.
pub open spec fn is_missing(state: CapabilityState, is_root: bool) -> bool {
    if is_root {
        state.effective != Some(true)
    } else {
        state.delegable != Some(true)
    }
}

/// The names of the missing capabilities, separated by commas.
pub open spec fn missing_names(sets: RuntimeCapabilities, is_root: bool) -> Seq<char> {
    if is_missing(sets.net_admin, is_root) && is_missing(sets.sys_admin, is_root) {
        "CAP_NET_ADMIN"@ + ", "@ + "CAP_SYS_ADMIN"@
    } else if is_missing(sets.net_admin, is_root) {
        "CAP_NET_ADMIN"@
    } else {
        "CAP_SYS_ADMIN"@
    }
}

fn lacks(state: CapabilityState, is_root: bool) -> (missing: bool)
    ensures
        missing == is_missing(state, is_root),
{
    let held: Option<bool> = if is_root {
        state.effective
    } else {
        state.delegable
    };
    match held {
        Some(held) => !held,
        None => true,
    }
}

/// Validate the capability contract required by the non-root runtime. `sets`
/// is what reading the process's capabilities came to.
///
/// The inheritable and permitted checks are intentional: privileged helper
/// processes receive only their required capability through the ambient set
/// immediately before `exec`.
pub fn require_runtime_capabilities(
    sets: Result<RuntimeCapabilities, String>,
    is_root: bool,
) -> (checked: Result<(), String>)
    ensures
        match (sets, checked) {
            (Err(detail), Err(text)) => text@ == "read process capability sets: "@ + detail@,
            (Ok(sets), Ok(())) => !is_missing(sets.net_admin, is_root) && !is_missing(
                sets.sys_admin,
                is_root,
            ),
            (Ok(sets), Err(text)) => {
                &&& is_missing(sets.net_admin, is_root) || is_missing(sets.sys_admin, is_root)
                &&& text@ == "AENV runtime is missing required Linux capabilities: "@
                    + missing_names(sets, is_root)
                    + ". Start it with CAP_NET_ADMIN and CAP_SYS_ADMIN in the inheritable, permitted, and effective sets (the installed systemd unit configures this automatically)"@
            },
            _ => false,
        },
{
    let sets: RuntimeCapabilities = match sets {
        Ok(sets) => sets,
        Err(detail) => {
            let mut text = "read process capability sets: ".to_string();
            text.append(detail.as_str());
            return Err(text);
        },
    };
    let net_admin: bool = lacks(sets.net_admin, is_root);
    let sys_admin: bool = lacks(sets.sys_admin, is_root);
    if !net_admin && !sys_admin {
        return Ok(());
    }
    let mut names = String::new();
    if net_admin {
        names.append(capability_name(CAP_NET_ADMIN));
        if sys_admin {
            names.append(", ");
        }
    }
    if sys_admin {
        names.append(capability_name(CAP_SYS_ADMIN));
    }
    assert(names@ =~= missing_names(sets, is_root));
    let mut text = "AENV runtime is missing required Linux capabilities: ".to_string();
    text.append(names.as_str());
    text.append(
        ". Start it with CAP_NET_ADMIN and CAP_SYS_ADMIN in the inheritable, permitted, and effective sets (the installed systemd unit configures this automatically)",
    );
    Err(text)
}

fn with_context(context: &str, detail: &str) -> (text: String)
    ensures
        text@ == context@ + ": "@ + detail@,
{
    let mut text = context.to_string();
    text.append(": ");
    text.append(detail);
    text
}

/// What clearing the ambient capabilities of the server came to. They are
/// cleared so that ordinary executables do not inherit its network and
/// namespace privileges.
pub fn clear_ambient_capabilities(cleared: Result<(), String>) -> (checked: Result<(), String>)
    ensures
        match (cleared, checked) {
            (Ok(()), Ok(())) => true,
            (Err(detail), Err(text)) => text@ == "clear ambient Linux capabilities"@ + ": "@
                + detail@,
            _ => false,
        },
{
    match cleared {
        Ok(()) => Ok(()),
        Err(detail) => Err(with_context("clear ambient Linux capabilities", detail.as_str())),
    }
}

fn copy_numbers(numbers: &[i32]) -> (copy: Vec<i32>)
    ensures
        copy@ == numbers@,
{
    let mut copy: Vec<i32> = Vec::new();
    let mut i: usize = 0;
    while i < numbers.len()
        invariant
            i <= numbers@.len(),
            copy@ == numbers@.take(i as int),
        decreases numbers@.len() - i,
    {
        copy.push(numbers[i]);
        assert(copy@ =~= numbers@.take(i + 1));
        i = i + 1;
    }
    assert(copy@ =~= numbers@);
    copy
}

/// A step of a capability-scoped thread. The first that fails ends the
/// thread.
#[derive(Debug)]
pub enum ScopedStep {
    /// Keep exactly these capabilities.
    ScopeCapabilities { capabilities: Vec<i32> },
    /// Run the operation.
    Operate,
}

/// Whether `steps` scopes exactly these capabilities and then, once, runs the
/// operation.
pub open spec fn is_scoped_run(capabilities: Seq<i32>, steps: Seq<ScopedStep>) -> bool {
    &&& steps.len() == 2
    &&& steps[0] matches ScopedStep::ScopeCapabilities { capabilities: kept } && kept@
        == capabilities
    &&& steps[1] == ScopedStep::Operate
}

/// The steps of a short-lived thread that runs an operation with an exact
/// capability set.
///
/// The thread inherits the caller's namespace, receives only the requested
/// capabilities, and exits after the operation. Commands spawned by the
/// operation inherit the capabilities through the ambient set.
pub fn run_with_scoped_capabilities(capabilities: &[i32]) -> (steps: Vec<ScopedStep>)
    ensures
        is_scoped_run(capabilities@, steps@),
{
    let mut steps: Vec<ScopedStep> = Vec::new();
    steps.push(ScopedStep::ScopeCapabilities { capabilities: copy_numbers(capabilities) });
    steps.push(ScopedStep::Operate);
    steps
}

/// What running an operation on a capability-scoped thread came to.
#[derive(Debug)]
pub enum ScopedRun<T> {
    /// The thread could not be started.
    SpawnFailed(String),
    /// Its capabilities could not be scoped; the operation did not run.
    ScopeFailed(String),
    /// The thread panicked, with the given rendering of its payload.
    Panicked(String),
    /// The operation ran.
    Finished(Result<T, String>),
}

/// Why an operation on a capability-scoped thread did not run to its end.
pub open spec fn scoped_run_error<T>(run: ScopedRun<T>) -> Option<Seq<char>> {
    match run {
        ScopedRun::SpawnFailed(detail) => Some(
            "spawn capability-scoped command thread"@ + ": "@ + detail@,
        ),
        ScopedRun::ScopeFailed(detail) => Some("scope command capabilities"@ + ": "@ + detail@),
        ScopedRun::Panicked(payload) => Some(
            "capability-scoped command thread panicked"@ + ": "@ + payload@,
        ),
        ScopedRun::Finished(_) => None,
    }
}

/// The result of running an operation on a capability-scoped thread: that of
/// the operation, or why it did not run to its end.
pub fn scoped_result<T>(run: ScopedRun<T>) -> (result: Result<T, String>)
    ensures
        match run {
            ScopedRun::Finished(finished) => result == finished,
            _ => result matches Err(text) && scoped_run_error(run) == Some(text@),
        },
{
    match run {
        ScopedRun::SpawnFailed(detail) => Err(
            with_context("spawn capability-scoped command thread", detail.as_str()),
        ),
        ScopedRun::ScopeFailed(detail) => Err(
            with_context("scope command capabilities", detail.as_str()),
        ),
        ScopedRun::Panicked(payload) => Err(
            with_context("capability-scoped command thread panicked", payload.as_str()),
        ),
        ScopedRun::Finished(finished) => finished,
    }
}

// Setting a child up.

/// Everything needed to exec a scoped child process. Descriptors are known by
/// their numbers.
///
/// The child always inherits the server's environment, and stdin is always
/// `/dev/null`.
#[derive(Debug)]
pub struct ScopedSpawnSpec {
    /// Arguments including the program. The first doubles as the executable
    /// path and must be absolute: no search path is consulted.
    pub argv: Vec<Vec<u8>>,
    /// Working directory applied inside the child before `exec`.
    pub cwd: Option<Vec<u8>>,
    /// Child stdout log file; `None` routes stdout to `/dev/null`.
    pub stdout: Option<i32>,
    /// Child stderr log file; `None` routes stderr to `/dev/null`.
    pub stderr: Option<i32>,
    /// Start the child in its own process group.
    pub process_group: bool,
    /// Network namespace entered on the launcher thread before the spawn, so
    /// the child inherits it. Capabilities are scoped after entering.
    pub netns: Option<i32>,
    /// Child-private descriptor handoff, source and target, applied before
    /// `exec`. The source must differ from the target: duplicating a
    /// descriptor onto itself leaves it to be closed on `exec`.
    pub fd_handoff: Option<(i32, i32)>,
    /// Capabilities the launcher thread keeps while spawning; the child
    /// inherits exactly this ambient set.
    pub capabilities: Vec<i32>,
}

/// A step of the launcher thread. The first that fails ends the launch.
#[derive(Debug)]
pub enum LaunchStep {
    /// Enter the network namespace.
    EnterNetns { fd: i32 },
    /// Keep exactly these capabilities.
    ScopeCapabilities { capabilities: Vec<i32> },
    /// Spawn the child.
    Spawn,
}

/// Whether `steps` enters the namespace if there is one, then scopes the
/// capabilities, then spawns.
pub open spec fn is_launch(spec: ScopedSpawnSpec, steps: Seq<LaunchStep>) -> bool {
    let entering: int = if spec.netns is Some {
        1
    } else {
        0
    };
    &&& steps.len() == entering + 2
    &&& spec.netns matches Some(fd) ==> steps[0] == (LaunchStep::EnterNetns { fd })
    &&& steps[entering] matches LaunchStep::ScopeCapabilities { capabilities } && capabilities@
        == spec.capabilities@
    &&& steps[entering + 1] == LaunchStep::Spawn
}

/// The steps of the launcher thread: the namespace is entered while the
/// thread still may, and the child is created with the scoped capabilities.
pub fn spawn_scoped(spec: &ScopedSpawnSpec) -> (steps: Vec<LaunchStep>)
    ensures
        is_launch(*spec, steps@),
{
    let mut steps: Vec<LaunchStep> = Vec::new();
    if let Some(fd) = spec.netns {
        steps.push(LaunchStep::EnterNetns { fd });
    }
    steps.push(
        LaunchStep::ScopeCapabilities { capabilities: copy_numbers(spec.capabilities.as_slice()) },
    );
    steps.push(LaunchStep::Spawn);
    steps
}

/// What the launcher thread sent back; `None` if it exited without a word.
pub fn launched<T>(reply: Option<Result<T, String>>) -> (child: Result<T, String>)
    ensures
        match reply {
            Some(reply) => child == reply,
            None => child matches Err(text) && text@
                == "scoped command launcher exited without returning a child"@,
        },
{
    match reply {
        Some(reply) => reply,
        None => Err("scoped command launcher exited without returning a child".to_string()),
    }
}

/// A file action that the child performs before `exec`.
#[derive(Debug)]
pub enum FileAction {
    /// Open `/dev/null` at the target, for writing or for reading.
    OpenDevNull { target: i32, write: bool },
    /// Duplicate the source onto the target.
    Dup2 { source: i32, target: i32 },
    /// Change the working directory.
    Chdir { cwd: Vec<u8> },
}

/// How a child is spawned.
#[derive(Debug)]
pub struct SpawnPlan {
    /// The executable.
    pub program: Vec<u8>,
    pub argv: Vec<Vec<u8>>,
    /// File actions, in order.
    pub actions: Vec<FileAction>,
    /// Put the child into a process group of its own.
    pub process_group: bool,
    /// Restore the default disposition of the broken-pipe signal.
    pub default_sigpipe: bool,
    /// Leave the signal mask as the launcher thread has it.
    pub inherit_signal_mask: bool,
    /// Hand the child the environment of the server.
    pub inherit_environment: bool,
}

/// A file action, as the model sees it.
pub ghost enum ActionView {
    OpenDevNull { target: i32, write: bool },
    Dup2 { source: i32, target: i32 },
    Chdir { cwd: Seq<u8> },
}

impl View for FileAction {
    type V = ActionView;

    open spec fn view(&self) -> ActionView {
        match self {
            FileAction::OpenDevNull { target, write } => ActionView::OpenDevNull {
                target: *target,
                write: *write,
            },
            FileAction::Dup2 { source, target } => ActionView::Dup2 {
                source: *source,
                target: *target,
            },
            FileAction::Chdir { cwd } => ActionView::Chdir { cwd: cwd@ },
        }
    }
}

/// Where a standard output stream goes: to the log file, or to `/dev/null`,
/// which takes what is written.
pub open spec fn stream_action(file: Option<i32>, target: i32) -> ActionView {
    match file {
        Some(source) => ActionView::Dup2 { source, target },
        None => ActionView::OpenDevNull { target, write: true },
    }
}

/// The file actions of a child, in order: the three standard streams, the
/// descriptor handoff, the working directory.
pub open spec fn file_actions(spec: ScopedSpawnSpec) -> Seq<ActionView> {
    let streams = seq![
        ActionView::OpenDevNull { target: 0, write: false },
        stream_action(spec.stdout, 1),
        stream_action(spec.stderr, 2),
    ];
    let handoff = match spec.fd_handoff {
        Some((source, target)) => seq![ActionView::Dup2 { source, target }],
        None => Seq::empty(),
    };
    let chdir = match spec.cwd {
        Some(cwd) => seq![ActionView::Chdir { cwd: cwd@ }],
        None => Seq::empty(),
    };
    streams + handoff + chdir
}

/// Byte strings, as the model sees them.
pub open spec fn byte_strings(list: Seq<Vec<u8>>) -> Seq<Seq<u8>> {
    list.map_values(|bytes: Vec<u8>| bytes@)
}

fn stream(file: Option<i32>, target: i32) -> (action: FileAction)
    ensures
        action@ == stream_action(file, target),
{
    match file {
        Some(source) => FileAction::Dup2 { source, target },
        None => FileAction::OpenDevNull { target, write: true },
    }
}

/// Plan the spawn of a child. Caught signals reset to their default
/// disposition and so does the broken-pipe signal; the signal mask and the
/// server's environment are inherited.
pub fn posix_spawn_exec(spec: &ScopedSpawnSpec) -> (plan: Result<SpawnPlan, String>)
    ensures
        match plan {
            Ok(plan) => {
                &&& spec.argv@.len() > 0
                &&& plan.program@ == spec.argv@[0]@
                &&& byte_strings(plan.argv@) == byte_strings(spec.argv@)
                &&& plan.actions@.map_values(|action: FileAction| action@) == file_actions(*spec)
                &&& plan.process_group == spec.process_group
                &&& plan.default_sigpipe
                &&& plan.inherit_signal_mask
                &&& plan.inherit_environment
            },
            Err(text) => spec.argv@.len() == 0 && text@
                == "scoped spawn requires argv[0] to be the program path"@,
        },
{
    if spec.argv.len() == 0 {
        return Err("scoped spawn requires argv[0] to be the program path".to_string());
    }
    let program = copy_bytes(spec.argv[0].as_slice());
    let mut actions: Vec<FileAction> = Vec::new();
    actions.push(FileAction::OpenDevNull { target: 0, write: false });
    actions.push(stream(spec.stdout, 1));
    actions.push(stream(spec.stderr, 2));
    if let Some((source, target)) = spec.fd_handoff {
        actions.push(FileAction::Dup2 { source, target });
    }
    if let Some(cwd) = &spec.cwd {
        actions.push(FileAction::Chdir { cwd: copy_bytes(cwd.as_slice()) });
    }
    assert(actions@.map_values(|action: FileAction| action@) =~= file_actions(*spec));
    let mut argv: Vec<Vec<u8>> = Vec::new();
    let mut i: usize = 0;
    while i < spec.argv.len()
        invariant
            i <= spec.argv@.len(),
            argv@.len() == i,
            forall|j: int| 0 <= j < i ==> (#[trigger] argv@[j])@ == spec.argv@[j]@,
        decreases spec.argv@.len() - i,
    {
        argv.push(copy_bytes(spec.argv[i].as_slice()));
        i = i + 1;
    }
    assert(byte_strings(argv@) =~= byte_strings(spec.argv@));
    Ok(
        SpawnPlan {
            program,
            argv,
            actions,
            process_group: spec.process_group,
            default_sigpipe: true,
            inherit_signal_mask: true,
            inherit_environment: true,
        },
    )
}

/// What an open descriptor of a process refers to, whether it is open for
/// writing (or else for reading), and whether it is closed on `exec`.
pub ghost struct Descriptor {
    pub object: int,
    pub write: bool,
    pub cloexec: bool,
}

/// The descriptors of a process after a file action; `devnull` stands for
/// `/dev/null`. Duplicating a descriptor clears the close-on-exec mark of the
/// target, unless source and target are the same number.
pub open spec fn act(
    table: Map<i32, Descriptor>,
    action: ActionView,
    devnull: int,
) -> Map<i32, Descriptor> {
    match action {
        ActionView::OpenDevNull { target, write } => table.insert(
            target,
            Descriptor { object: devnull, write, cloexec: false },
        ),
        ActionView::Dup2 { source, target } => if source == target {
            table
        } else {
            table.insert(target, Descriptor { cloexec: false, ..table[source] })
        },
        ActionView::Chdir { .. } => table,
    }
}

/// The descriptors of a process after a list of file actions.
pub open spec fn act_all(
    table: Map<i32, Descriptor>,
    actions: Seq<ActionView>,
    devnull: int,
) -> Map<i32, Descriptor>
    decreases actions.len(),
{
    if actions.len() == 0 {
        table
    } else {
        act(act_all(table, actions.drop_last(), devnull), actions.last(), devnull)
    }
}

/// The child's stdin is `/dev/null` for reading, its other streams are the log
/// files as they were opened or `/dev/null` for writing, and the handed-off
/// descriptor arrives on its target and survives `exec`; every other
/// descriptor is as the server had it, so one that is closed on `exec` does
/// not reach the program.
///
/// A handoff whose target is a standard stream takes that stream over, and one
/// whose source is a standard stream hands the child's own stream on. A
/// handoff onto its own number does nothing. Log files are not among the
/// standard streams of the server that are replaced before them.
pub proof fn law_child_descriptors(
    spec: ScopedSpawnSpec,
    table: Map<i32, Descriptor>,
    devnull: int,
    other: i32,
)
    requires
        spec.stdout matches Some(file) ==> file >= 2 && table.contains_key(file),
        spec.stderr matches Some(file) ==> file > 2 && table.contains_key(file),
        spec.fd_handoff matches Some((source, _)) ==> table.contains_key(source),
        other < 0 || other > 2,
        spec.fd_handoff matches Some((_, target)) ==> other != target,
    ensures
        ({
            let child = act_all(table, file_actions(spec), devnull);
            let taken = |stream: i32| spec.fd_handoff matches Some((source, target)) && target
                == stream && source != target;
            &&& !taken(0) ==> child[0] == (Descriptor {
                object: devnull,
                write: false,
                cloexec: false,
            })
            &&& !taken(1) ==> child[1] == (match spec.stdout {
                Some(file) => Descriptor { cloexec: false, ..table[file] },
                None => Descriptor { object: devnull, write: true, cloexec: false },
            })
            &&& !taken(2) ==> child[2] == (match spec.stderr {
                Some(file) => Descriptor { cloexec: false, ..table[file] },
                None => Descriptor { object: devnull, write: true, cloexec: false },
            })
            &&& spec.fd_handoff matches Some((source, target)) ==> {
                &&& source != target ==> child[target] == (Descriptor {
                    cloexec: false,
                    ..child[source]
                })
                &&& source != target && (source < 0 || source > 2) ==> child[target] == (
                Descriptor { cloexec: false, ..table[source] })
                &&& source == target && (source < 0 || source > 2) ==> child[target]
                    == table[target]
            }
            &&& child.contains_key(other) == table.contains_key(other)
            &&& child.contains_key(other) ==> child[other] == table[other]
        }),
{
    let streams = seq![
        ActionView::OpenDevNull { target: 0, write: false },
        stream_action(spec.stdout, 1),
        stream_action(spec.stderr, 2),
    ];
    let one = seq![ActionView::OpenDevNull { target: 0, write: false }];
    let two = seq![ActionView::OpenDevNull { target: 0, write: false }, stream_action(spec.stdout, 1)];
    assert(one.drop_last() =~= Seq::empty());
    assert(two.drop_last() =~= one);
    assert(streams.drop_last() =~= two);
    let handoff = match spec.fd_handoff {
        Some((source, target)) => seq![ActionView::Dup2 { source, target }],
        None => Seq::empty(),
    };
    let handed = streams + handoff;
    if spec.fd_handoff is Some {
        assert(handed.drop_last() =~= streams);
    } else {
        assert(handed =~= streams);
    }
    if spec.cwd is Some {
        assert(file_actions(spec).drop_last() =~= handed);
    } else {
        assert(file_actions(spec) =~= handed);
    }
    reveal_with_fuel(act_all, 6);
}

/// Map a spawn function's return value: the spawn family returns an error
/// number directly.
pub fn spawn_result(rc: i32) -> (result: Result<(), i32>)
    ensures
        result == (if rc == 0 {
            Ok::<(), i32>(())
        } else {
            Err::<(), i32>(rc)
        }),
{
    if rc == 0 {
        Ok(())
    } else {
        Err(rc)
    }
}

// Observing a child's exit.

/// What one attempt to reap a child came to.
#[derive(Debug, Clone, Copy, PartialEq, Eq, Structural)]
pub enum Reap {
    /// Interrupted: try again.
    Again,
    /// The child has exited, with the raw wait status.
    Exited(i32),
    /// The child is still running.
    Running,
    /// The attempt failed.
    Failed,
}

/// Judge one non-blocking wait for the child `pid`: `rc` is what it returned,
/// `status` the raw wait status that it stored, `interrupted` whether a
/// failure was an interruption.
pub fn try_reap_status(pid: u32, rc: i32, status: i32, interrupted: bool) -> (reap: Reap)
    requires
        pid <= i32::MAX,
    ensures
        reap == (if rc < 0 {
            if interrupted {
                Reap::Again
            } else {
                Reap::Failed
            }
        } else if rc == pid {
            Reap::Exited(status)
        } else {
            Reap::Running
        }),
{
    if rc < 0 {
        if interrupted {
            return Reap::Again;
        }
        return Reap::Failed;
    }
    if rc == pid as i32 {
        Reap::Exited(status)
    } else {
        Reap::Running
    }
}

/// `rustix::process::Pid`, a process number that is not zero.
#[verifier::external_type_specification]
#[verifier::external_body]
pub struct ExPid(rustix::process::Pid);

/// Contract of `rustix::process::Pid::from_raw`: every number but zero is the
/// number of some process.
pub assume_specification[ rustix::process::Pid::from_raw ](raw: rustix::process::RawPid) -> (pid:
    Option<rustix::process::Pid>)
    requires
        raw >= 0,
    ensures
        pid is Some == (raw != 0),
;

/// A spawned child process. The handle is the child's only reaper.
#[derive(Debug)]
pub struct ScopedChild {
    pid: u32,
    status: Option<i32>,
}

/// A child, as the model sees it.
pub ghost struct ChildView {
    pub pid: u32,
    /// The raw wait status, once the child has been reaped.
    pub status: Option<i32>,
}

impl View for ScopedChild {
    type V = ChildView;

    closed spec fn view(&self) -> ChildView {
        ChildView { pid: self.pid, status: self.status }
    }
}

/// How waiting for a child goes on.
#[derive(Debug)]
pub enum WaitStep {
    /// Watch the child for its exit.
    Watch,
    /// Try to reap the child.
    Reap { woken: bool },
    /// Await the wakeup that an exit causes.
    AwaitWakeup,
    /// Forget the wakeup, which was spurious.
    ClearWakeup,
    /// The exit status.
    Done(i32),
    Failed(String),
}

/// What a step of waiting came to.
#[derive(Debug)]
pub enum WaitEvent {
    /// The step is done, or failed.
    Done(Result<(), String>),
    /// An attempt to reap: the raw wait status if the child has exited.
    Reaped(Result<Option<i32>, String>),
}

/// Whether `event` can come of `now`.
pub open spec fn wait_expects(now: WaitStep, event: WaitEvent) -> bool {
    match now {
        WaitStep::Watch | WaitStep::AwaitWakeup => event is Done,
        WaitStep::ClearWakeup => event == WaitEvent::Done(Ok(())),
        WaitStep::Reap { .. } => event is Reaped,
        WaitStep::Done(_) | WaitStep::Failed(_) => false,
    }
}

/// What trying to wait for a child returns, and the child after it: a known
/// status stands, whatever the attempt to reap came to.
pub open spec fn tried<E>(
    before: ChildView,
    reaped: Result<Option<i32>, E>,
    after: ChildView,
    result: Result<Option<i32>, E>,
) -> bool {
    match before.status {
        Some(status) => result == Ok::<Option<i32>, E>(Some(status)) && after == before,
        None => {
            &&& result == reaped
            &&& after == (match reaped {
                Ok(status) => ChildView { status, ..before },
                Err(_) => before,
            })
        },
    }
}

/// How waiting goes on.
pub open spec fn wait_goes_on(
    before: ChildView,
    now: WaitStep,
    event: WaitEvent,
    after: ChildView,
    next: WaitStep,
) -> bool {
    match (now, event) {
        (WaitStep::Reap { woken }, WaitEvent::Reaped(reaped)) => {
            exists|result: Result<Option<i32>, String>|
                {
                    &&& #[trigger] tried(before, reaped, after, result)
                    &&& match result {
                        Ok(Some(status)) => next == WaitStep::Done(status),
                        Ok(None) => next == (if woken {
                            WaitStep::ClearWakeup
                        } else {
                            WaitStep::AwaitWakeup
                        }),
                        Err(text) => next == WaitStep::Failed(text),
                    }
                }
        },
        (_, WaitEvent::Done(Err(detail))) => after == before && next == WaitStep::Failed(detail),
        (WaitStep::AwaitWakeup, WaitEvent::Done(Ok(()))) => after == before && next == (
        WaitStep::Reap { woken: true }),
        (_, WaitEvent::Done(Ok(()))) => after == before && next == (WaitStep::Reap {
            woken: false,
        }),
        (_, _) => false,
    }
}

impl ScopedChild {
    /// A child that has just been spawned. It stays reserved until this
    /// handle reaps it, so its number cannot be recycled before.
    pub fn new(pid: u32) -> (child: Result<Self, String>)
        requires
            pid <= i32::MAX,
        ensures
            match child {
                Ok(child) => pid != 0 && child@ == (ChildView { pid, status: None }),
                Err(text) => pid == 0 && text@ == "spawned pid does not fit pid_t"@,
            },
    {
        match rustix::process::Pid::from_raw(pid as i32) {
            Some(_) => Ok(ScopedChild { pid, status: None }),
            None => Err("spawned pid does not fit pid_t".to_string()),
        }
    }

    /// The child's process number. Stays readable after exit, so callers can
    /// report it.
    pub fn id(&self) -> (pid: u32)
        ensures
            pid == self@.pid,
    {
        self.pid
    }

    /// Whether the child has been reaped, with which status.
    pub fn exit_status(&self) -> (status: Option<i32>)
        ensures
            status == self@.status,
    {
        self.status
    }

    /// The exit status if the child has exited, where `reaped` is what trying
    /// to reap it came to. Once the child has been reaped, its status is
    /// returned and `reaped` not looked at.
    pub fn try_wait<E>(&mut self, reaped: Result<Option<i32>, E>) -> (result: Result<
        Option<i32>,
        E,
    >)
        ensures
            tried(old(self)@, reaped, final(self)@, result),
    {
        if let Some(status) = self.status {
            return Ok(Some(status));
        }
        match reaped {
            Ok(Some(raw)) => {
                self.status = Some(raw);
                Ok(Some(raw))
            },
            Ok(None) => Ok(None),
            Err(error) => Err(error),
        }
    }

    /// Start waiting for the child to exit.
    pub fn begin_wait(&self) -> (next: WaitStep)
        ensures
            next == (match self@.status {
                Some(status) => WaitStep::Done(status),
                None => WaitStep::Watch,
            }),
    {
        match self.status {
            Some(status) => WaitStep::Done(status),
            None => WaitStep::Watch,
        }
    }

    /// Wait for the child to exit: go on from `now` with what it came to. A
    /// spurious wakeup just waits again, never fails.
    pub fn wait(&mut self, now: WaitStep, event: WaitEvent) -> (next: WaitStep)
        requires
            wait_expects(now, event),
        ensures
            wait_goes_on(old(self)@, now, event, final(self)@, next),
    {
        match (now, event) {
            (WaitStep::Reap { woken }, WaitEvent::Reaped(reaped)) => {
                match self.try_wait(reaped) {
                    Ok(Some(status)) => WaitStep::Done(status),
                    Ok(None) => if woken {
                        WaitStep::ClearWakeup
                    } else {
                        WaitStep::AwaitWakeup
                    },
                    Err(text) => WaitStep::Failed(text),
                }
            },
            (_, WaitEvent::Done(Err(detail))) => WaitStep::Failed(detail),
            (WaitStep::AwaitWakeup, WaitEvent::Done(Ok(()))) => WaitStep::Reap { woken: true },
            (_, WaitEvent::Done(Ok(()))) => WaitStep::Reap { woken: false },
            (now, _) => now,
        }
    }

    /// Whether the kill signal is to be sent when the child is to be killed:
    /// not once it has been reaped.
    pub fn start_kill(&self) -> (send: bool)
        ensures
            send == (self@.status is None),
    {
        self.status.is_none()
    }

    /// Whether dropping the handle must kill and reap the child: not once it
    /// has been reaped.
    pub fn needs_reaping(&self) -> (needed: bool)
        ensures
            needed == (self@.status is None),
    {
        self.status.is_none()
    }
}

/// The warning that the last attempt to reap a dropped child is worth.
pub fn drop_warning<E>(reaped: &Result<Option<i32>, E>) -> (warning: Option<&'static str>)
    ensures
        match *reaped {
            Ok(Some(_)) => warning is None,
            Ok(None) => warning matches Some(text) && text@
                == "timed out reaping scoped child process"@,
            Err(_) => warning matches Some(text) && text@
                == "failed to reap scoped child process"@,
        },
{
    match reaped {
        Ok(Some(_)) => None,
        Ok(None) => Some("timed out reaping scoped child process"),
        Err(_) => Some("failed to reap scoped child process"),
    }
}

/// A child that has been reaped keeps its exit status: every later attempt to
/// wait returns the same.
pub proof fn law_exit_status_is_stable<E>(
    before: ChildView,
    first: Result<Option<i32>, E>,
    middle: ChildView,
    first_result: Result<Option<i32>, E>,
    second: Result<Option<i32>, E>,
    after: ChildView,
    second_result: Result<Option<i32>, E>,
    status: i32,
)
    requires
        tried(before, first, middle, first_result),
        first_result == Ok::<Option<i32>, E>(Some(status)),
        tried(middle, second, after, second_result),
    ensures
        second_result == first_result,
        after == middle,
        middle.status == Some(status),
        middle.pid == before.pid,
{
}

/// Waiting ends with the status that reaping the child gave, and in no other
/// way with a status; while the child runs, it awaits the next wakeup.
pub proof fn law_wait_reports_reaped_status(
    before: ChildView,
    woken: bool,
    reaped: Result<Option<i32>, String>,
    after: ChildView,
    next: WaitStep,
)
    requires
        before.status is None,
        wait_goes_on(before, WaitStep::Reap { woken }, WaitEvent::Reaped(reaped), after, next),
    ensures
        forall|status: i32|
            next == WaitStep::Done(status) <==> reaped == Ok::<Option<i32>, String>(Some(status)),
        next is Done ==> after.status == Some(next->Done_0),
        reaped == Ok::<Option<i32>, String>(None) ==> (next is AwaitWakeup || next is ClearWakeup)
            && after == before,
{
}

// What the steps do.

/// A thread that works with scoped privileges.
pub ghost struct ThreadState {
    /// The network namespace that it entered; `None` while it is in that of
    /// its creator.
    pub netns: Option<i32>,
    /// The capabilities that it holds, in the order they were given.
    pub capabilities: Seq<i32>,
    /// For each piece of work that it did (a child that it spawned, an
    /// operation that it ran), the namespace that it was in and the
    /// capabilities that it held then.
    pub done: Seq<(Option<i32>, Seq<i32>)>,
    /// Whether the system refused it something.
    pub refused: bool,
}

/// The thread after a step of a launch. To enter a namespace takes the
/// capability for system administration.
pub open spec fn launch_step(thread: ThreadState, step: LaunchStep) -> ThreadState {
    match step {
        LaunchStep::EnterNetns { fd } => if thread.capabilities.contains(21) {
            ThreadState { netns: Some(fd), ..thread }
        } else {
            ThreadState { refused: true, ..thread }
        },
        LaunchStep::ScopeCapabilities { capabilities } => ThreadState {
            capabilities: capabilities@,
            ..thread
        },
        LaunchStep::Spawn => ThreadState {
            done: thread.done.push((thread.netns, thread.capabilities)),
            ..thread
        },
    }
}

/// The thread after a list of steps of a launch.
pub open spec fn after_launch(thread: ThreadState, steps: Seq<LaunchStep>) -> ThreadState
    decreases steps.len(),
{
    if steps.len() == 0 {
        thread
    } else {
        after_launch(launch_step(thread, steps[0]), steps.skip(1))
    }
}

/// The thread after a list of steps of a capability-scoped thread.
pub open spec fn after_scoped(thread: ThreadState, steps: Seq<ScopedStep>) -> ThreadState
    decreases steps.len(),
{
    if steps.len() == 0 {
        thread
    } else {
        after_scoped(
            match steps[0] {
                ScopedStep::ScopeCapabilities { capabilities } => ThreadState {
                    capabilities: capabilities@,
                    ..thread
                },
                ScopedStep::Operate => ThreadState {
                    done: thread.done.push((thread.netns, thread.capabilities)),
                    ..thread
                },
            },
            steps.skip(1),
        )
    }
}

/// The launcher thread spawns one child. When it does, it holds exactly the
/// capabilities that were asked for, and it is in the network namespace that
/// was asked for, or else still in that of its creator. A creator that may
/// enter the namespace is refused nothing, whichever capabilities the child is
/// to have.
pub proof fn law_children_are_spawned_with_their_privileges(
    spec: ScopedSpawnSpec,
    steps: Vec<LaunchStep>,
    thread: ThreadState,
)
    requires
        call_ensures(spawn_scoped, (&spec,), steps),
        thread.netns is None,
        thread.done.len() == 0,
        !thread.refused,
        spec.netns is Some ==> thread.capabilities.contains(21),
    ensures
        ({
            let end = after_launch(thread, steps@);
            &&& end.done.len() == 1
            &&& end.done[0].0 == spec.netns
            &&& end.done[0].1 == spec.capabilities@
            &&& end.capabilities == spec.capabilities@
            &&& !end.refused
        }),
{
    reveal_with_fuel(after_launch, 5);
}

/// An operation runs once, in the namespace of its creator, with exactly the
/// capabilities that were asked for.
pub proof fn law_operations_run_with_their_capabilities(
    capabilities: &[i32],
    steps: Vec<ScopedStep>,
    thread: ThreadState,
)
    requires
        call_ensures(run_with_scoped_capabilities, (capabilities,), steps),
        thread.done.len() == 0,
        !thread.refused,
    ensures
        ({
            let end = after_scoped(thread, steps@);
            &&& end.done.len() == 1
            &&& end.done[0].0 == thread.netns
            &&& end.done[0].1 == capabilities@
            &&& end.capabilities == capabilities@
            &&& !end.refused
        }),
{
    reveal_with_fuel(after_scoped, 5);
}

/// An operation's own result is handed on as it is; a thread that did not come
/// to run it is an error that ends with its detail, and so is one that
/// panicked.
pub proof fn law_scoped_results<T>(run: ScopedRun<T>, result: Result<T, String>)
    requires
        call_ensures(scoped_result::<T>, (run,), result),
    ensures
        run matches ScopedRun::Finished(finished) ==> result == finished,
        result is Ok ==> run is Finished,
        run matches ScopedRun::SpawnFailed(detail) ==> ends_with(result->Err_0@, detail@),
        run matches ScopedRun::ScopeFailed(detail) ==> ends_with(result->Err_0@, detail@),
        run matches ScopedRun::Panicked(detail) ==> ends_with(result->Err_0@, detail@),
{
    match run {
        ScopedRun::SpawnFailed(detail) => lemma_ends_with(
            "spawn capability-scoped command thread"@ + ": "@,
            detail@,
        ),
        ScopedRun::ScopeFailed(detail) => lemma_ends_with(
            "scope command capabilities"@ + ": "@,
            detail@,
        ),
        ScopedRun::Panicked(detail) => lemma_ends_with(
            "capability-scoped command thread panicked"@ + ": "@,
            detail@,
        ),
        ScopedRun::Finished(_) => {},
    }
}

/// The runtime may start exactly when the two capabilities are known to be at
/// hand: effective for root, delegable for everyone else. To be told more can
/// only help, and what root holds does not matter to the others.
pub proof fn law_runtime_needs_both_capabilities(
    sets: Result<RuntimeCapabilities, String>,
    as_root: Result<(), String>,
    as_user: Result<(), String>,
)
    requires
        call_ensures(require_runtime_capabilities, (sets, true), as_root),
        call_ensures(require_runtime_capabilities, (sets, false), as_user),
    ensures
        as_root is Ok <==> (sets matches Ok(sets) && sets.net_admin.effective == Some(true)
            && sets.sys_admin.effective == Some(true)),
        as_user is Ok <==> (sets matches Ok(sets) && sets.net_admin.delegable == Some(true)
            && sets.sys_admin.delegable == Some(true)),
        sets matches Err(detail) ==> ends_with(as_root->Err_0@, detail@) && ends_with(
            as_user->Err_0@,
            detail@,
        ),
{
    if let Err(detail) = sets {
        lemma_ends_with("read process capability sets: "@, detail@);
    }
}

/// The working directory of a child after a list of file actions.
pub open spec fn working_directory(start: Seq<u8>, actions: Seq<FileAction>) -> Seq<u8>
    decreases actions.len(),
{
    if actions.len() == 0 {
        start
    } else if let FileAction::Chdir { cwd } = actions.last() {
        cwd@
    } else {
        working_directory(start, actions.drop_last())
    }
}

/// A child can be planned exactly if there is a program to run. It runs that
/// program with all of its arguments, in the working directory that was asked
/// for or else in that of the server, in a process group of its own exactly if
/// it was asked for; carrying its file actions out gives it the descriptors
/// that were asked for (see `law_child_descriptors` for those that meet).
pub proof fn law_planned_children(
    spec: ScopedSpawnSpec,
    plan: Result<SpawnPlan, String>,
    table: Map<i32, Descriptor>,
    devnull: int,
    start: Seq<u8>,
    other: i32,
)
    requires
        call_ensures(posix_spawn_exec, (&spec,), plan),
        spec.stdout matches Some(file) ==> file > 2 && table.contains_key(file),
        spec.stderr matches Some(file) ==> file > 2 && table.contains_key(file),
        spec.fd_handoff matches Some((source, target)) ==> {
            &&& source > 2
            &&& target > 2
            &&& source != target
            &&& table.contains_key(source)
        },
        other < 0 || other > 2,
        spec.fd_handoff matches Some((_, target)) ==> other != target,
    ensures
        plan is Ok <==> spec.argv@.len() > 0,
        plan matches Ok(plan) ==> {
            let child = act_all(
                table,
                plan.actions@.map_values(|action: FileAction| action@),
                devnull,
            );
            &&& plan.program@ == spec.argv@[0]@
            &&& plan.argv@.len() == spec.argv@.len()
            &&& forall|i: int|
                0 <= i < spec.argv@.len() ==> (#[trigger] plan.argv@[i])@ == spec.argv@[i]@
            &&& plan.process_group == spec.process_group
            &&& plan.default_sigpipe
            &&& plan.inherit_signal_mask
            &&& plan.inherit_environment
            &&& working_directory(start, plan.actions@) == (match spec.cwd {
                Some(cwd) => cwd@,
                None => start,
            })
            &&& child[0].object == devnull && !child[0].write && !child[0].cloexec
            &&& match spec.stdout {
                Some(file) => child[1].object == table[file].object && child[1].write
                    == table[file].write && !child[1].cloexec,
                None => child[1].object == devnull && child[1].write && !child[1].cloexec,
            }
            &&& match spec.stderr {
                Some(file) => child[2].object == table[file].object && child[2].write
                    == table[file].write && !child[2].cloexec,
                None => child[2].object == devnull && child[2].write && !child[2].cloexec,
            }
            &&& spec.fd_handoff matches Some((source, target)) ==> child[target].object
                == table[source].object && child[target].write == table[source].write
                && !child[target].cloexec
            &&& child.contains_key(other) == table.contains_key(other)
            &&& child.contains_key(other) ==> child[other] == table[other]
        },
{
    if let Ok(plan) = plan {
        law_child_descriptors(spec, table, devnull, other);
        assert(byte_strings(plan.argv@).len() == plan.argv@.len());
        assert(byte_strings(spec.argv@).len() == spec.argv@.len());
        assert forall|i: int| 0 <= i < spec.argv@.len() implies (#[trigger] plan.argv@[i])@
            == spec.argv@[i]@ by {
            assert(byte_strings(plan.argv@)[i] == plan.argv@[i]@);
            assert(byte_strings(spec.argv@)[i] == spec.argv@[i]@);
        }
        let views = plan.actions@.map_values(|action: FileAction| action@);
        assert(views == file_actions(spec));
        assert forall|i: int| 0 <= i < plan.actions@.len() implies (#[trigger] plan.actions@[i])@
            == file_actions(spec)[i] by {
            assert(views[i] == plan.actions@[i]@);
        }
        reveal_with_fuel(working_directory, 7);
    }
}

/// A spawn succeeded exactly when the function returned zero; the error is the
/// number that it returned.
pub proof fn law_spawn_results(rc: i32, result: Result<(), i32>)
    requires
        call_ensures(spawn_result, (rc,), result),
    ensures
        result is Ok <==> rc == 0,
        result matches Err(number) ==> number == rc,
{
}

/// A wait reports an exit exactly when it returned the child's own number, and
/// then with the status that was stored. Only an interruption is tried again,
/// and only a failure can be one.
pub proof fn law_reaping_reports_the_child(
    pid: u32,
    rc: i32,
    status: i32,
    interrupted: bool,
    reap: Reap,
)
    requires
        0 < pid <= i32::MAX,
        call_ensures(try_reap_status, (pid, rc, status, interrupted), reap),
    ensures
        reap is Exited <==> rc == pid,
        reap matches Reap::Exited(code) ==> code == status,
        reap is Running <==> rc >= 0 && rc != pid,
        reap is Again <==> rc < 0 && interrupted,
        reap is Failed <==> rc < 0 && !interrupted,
{
}

/// A new child has its number, has not been reaped, is to be watched and may
/// still be killed; there is one for every number but zero.
pub proof fn law_new_children(
    pid: u32,
    made: Result<ScopedChild, String>,
    child: ScopedChild,
    id: u32,
    status: Option<i32>,
    begun: WaitStep,
    kill: bool,
    needed: bool,
)
    requires
        pid <= i32::MAX,
        call_ensures(ScopedChild::new, (pid,), made),
        made matches Ok(made) ==> child@ == made@,
        call_ensures(ScopedChild::id, (&child,), id),
        call_ensures(ScopedChild::exit_status, (&child,), status),
        call_ensures(ScopedChild::begin_wait, (&child,), begun),
        call_ensures(ScopedChild::start_kill, (&child,), kill),
        call_ensures(ScopedChild::needs_reaping, (&child,), needed),
    ensures
        made is Ok <==> pid != 0,
        made is Ok ==> id == pid && status is None && begun is Watch && kill && needed,
{
}

/// Reaping settles a child: its status is what the first reaping gave, every
/// later attempt returns it whatever that attempt came to, waiting ends at once
/// with it, and nothing is left to kill or to reap. Until then an attempt
/// returns what it came to and changes nothing.
pub proof fn law_reaped_children<E>(
    child: &mut ScopedChild,
    reaped: Result<Option<i32>, E>,
    tried_once: Result<Option<i32>, E>,
    again: &mut ScopedChild,
    later: Result<Option<i32>, E>,
    tried_again: Result<Option<i32>, E>,
    id: u32,
    status: Option<i32>,
    begun: WaitStep,
    kill: bool,
    needed: bool,
)
    requires
        old(child)@.status is None,
        call_ensures(ScopedChild::try_wait::<E>, (child, reaped), tried_once),
        old(again)@ == final(child)@,
        call_ensures(ScopedChild::try_wait::<E>, (again, later), tried_again),
        call_ensures(ScopedChild::id, (&*final(again),), id),
        call_ensures(ScopedChild::exit_status, (&*final(again),), status),
        call_ensures(ScopedChild::begin_wait, (&*final(again),), begun),
        call_ensures(ScopedChild::start_kill, (&*final(again),), kill),
        call_ensures(ScopedChild::needs_reaping, (&*final(again),), needed),
    ensures
        tried_once == reaped,
        id == old(child)@.pid,
        match reaped {
            Ok(Some(code)) => {
                &&& tried_again == Ok::<Option<i32>, E>(Some(code))
                &&& status == Some(code)
                &&& begun matches WaitStep::Done(reported) && reported == code
                &&& !kill
                &&& !needed
            },
            _ => {
                &&& tried_again == later
                &&& status == (match later {
                    Ok(status) => status,
                    Err(_) => None,
                })
                &&& kill == (status is None)
                &&& needed == (status is None)
                &&& status is None ==> begun is Watch
            },
        },
{
}

/// Waiting ends with a status exactly when a reaping gave it, or it was known
/// already, and fails exactly with the failure of a step. Otherwise it goes on:
/// after the watch, a wakeup or a cleared wakeup it tries to reap, and it only
/// sleeps again right after an attempt to reap that no wakeup preceded, so that
/// an exit between the two is not slept through.
pub proof fn law_waiting_goes_on(
    child: &mut ScopedChild,
    now: WaitStep,
    event: WaitEvent,
    next: WaitStep,
)
    requires
        wait_expects(now, event),
        call_ensures(ScopedChild::wait, (child, now, event), next),
    ensures
        final(child)@.pid == old(child)@.pid,
        old(child)@.status is Some ==> final(child)@ == old(child)@,
        next is Done <==> now is Reap && (old(child)@.status is Some || (event matches
            WaitEvent::Reaped(Ok(Some(_))))),
        next matches WaitStep::Done(code) ==> final(child)@.status == Some(code),
        old(child)@.status is None ==> (event matches WaitEvent::Reaped(Ok(Some(code))) ==> next
            matches WaitStep::Done(reported) && reported == code),
        next is Failed <==> (event matches WaitEvent::Done(Err(_))) || (old(child)@.status is None
            && (event matches WaitEvent::Reaped(Err(_)))),
        next matches WaitStep::Failed(text) ==> (match event {
            WaitEvent::Done(Err(detail)) => text == detail,
            WaitEvent::Reaped(Err(detail)) => text == detail,
            _ => false,
        }),
        next is AwaitWakeup ==> (now matches WaitStep::Reap { woken } && !woken),
        next is ClearWakeup ==> (now matches WaitStep::Reap { woken } && woken),
        next is Reap <==> !(now is Reap) && (event matches WaitEvent::Done(Ok(_))),
        next matches WaitStep::Reap { woken } ==> woken == (now is AwaitWakeup),
        !(next is Watch),
        old(child)@.status is None && !(next is Done) ==> final(child)@ == old(child)@,
{
}

/// What the launcher sent back is handed on as it is; a launcher that sent
/// nothing is an error. Clearing the ambient capabilities fails exactly when it
/// failed, with the detail at the end.
pub proof fn law_launcher_replies<T>(
    reply: Option<Result<T, String>>,
    child: Result<T, String>,
    cleared: Result<(), String>,
    checked: Result<(), String>,
)
    requires
        call_ensures(launched::<T>, (reply,), child),
        call_ensures(clear_ambient_capabilities, (cleared,), checked),
    ensures
        reply matches Some(sent) ==> child == sent,
        reply is None ==> child is Err,
        checked is Ok <==> cleared is Ok,
        cleared matches Err(detail) ==> ends_with(checked->Err_0@, detail@),
{
    if let Err(detail) = cleared {
        lemma_ends_with("clear ambient Linux capabilities"@ + ": "@, detail@);
    }
}

/// A dropped child is worth a warning exactly when it was not reaped.
pub proof fn law_drop_warnings<E>(reaped: Result<Option<i32>, E>, warning: Option<&'static str>)
    requires
        call_ensures(drop_warning::<E>, (&reaped,), warning),
    ensures
        warning is None <==> (reaped matches Ok(Some(_))),
{
}

/// The two capabilities that the runtime needs are known by different names,
/// and nothing else is known by either of them.
pub proof fn law_capabilities_have_names(
    a: i32,
    a_name: &'static str,
    b: i32,
    b_name: &'static str,
)
    requires
        call_ensures(capability_name, (a,), a_name),
        call_ensures(capability_name, (b,), b_name),
    ensures
        (a == 12 || a == 21) && a_name@ == b_name@ ==> a == b,
        a == 12 ==> a_name@ == "CAP_NET_ADMIN"@,
        a == 21 ==> a_name@ == "CAP_SYS_ADMIN"@,
{
    reveal_strlit("CAP_NET_ADMIN");
    reveal_strlit("CAP_SYS_ADMIN");
    reveal_strlit("unknown capability");
    assert("CAP_NET_ADMIN"@[4] != "CAP_SYS_ADMIN"@[4]);
    assert("unknown capability"@.len() != "CAP_NET_ADMIN"@.len());
    assert("unknown capability"@.len() != "CAP_SYS_ADMIN"@.len());
}

/// Exactly the capabilities that are not known to be at hand are named as
/// missing.
pub proof fn law_missing_capabilities_are_named(
    sets: RuntimeCapabilities,
    is_root: bool,
    checked: Result<(), String>,
)
    requires
        call_ensures(require_runtime_capabilities, (Ok(sets), is_root), checked),
    ensures
        checked matches Err(text) ==> {
            let net = if is_root {
                sets.net_admin.effective
            } else {
                sets.net_admin.delegable
            };
            let sys = if is_root {
                sets.sys_admin.effective
            } else {
                sets.sys_admin.delegable
            };
            let start = "AENV runtime is missing required Linux capabilities: "@;
            &&& net != Some(true) && sys != Some(true) ==> begins_with(
                text@,
                start + "CAP_NET_ADMIN"@ + ", "@ + "CAP_SYS_ADMIN"@ + "."@,
            )
            &&& net != Some(true) && sys == Some(true) ==> begins_with(
                text@,
                start + "CAP_NET_ADMIN"@ + "."@,
            )
            &&& net == Some(true) && sys != Some(true) ==> begins_with(
                text@,
                start + "CAP_SYS_ADMIN"@ + "."@,
            )
        },
{
    if let Err(text) = checked {
        let start = "AENV runtime is missing required Linux capabilities: "@;
        let end =
            ". Start it with CAP_NET_ADMIN and CAP_SYS_ADMIN in the inheritable, permitted, and effective sets (the installed systemd unit configures this automatically)"@;
        reveal_strlit(".");
        reveal_strlit(
            ". Start it with CAP_NET_ADMIN and CAP_SYS_ADMIN in the inheritable, permitted, and effective sets (the installed systemd unit configures this automatically)",
        );
        let front = start + missing_names(sets, is_root);
        assert(text@ == front + end);
        let pointed = front + "."@;
        assert(text@.take(pointed.len() as int) =~= pointed);
        assert(start + ("CAP_NET_ADMIN"@ + ", "@ + "CAP_SYS_ADMIN"@) + "."@ =~= start
            + "CAP_NET_ADMIN"@ + ", "@ + "CAP_SYS_ADMIN"@ + "."@);
    }
}

} // verus!
