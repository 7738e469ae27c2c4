use agentenv::privileges::{
    capability_name, clear_ambient_capabilities, drop_warning, launched, posix_spawn_exec,
    require_runtime_capabilities, run_with_scoped_capabilities, scoped_result, spawn_result,
    spawn_scoped, try_reap_status, CapabilityState, FileAction, LaunchStep, Reap,
    RuntimeCapabilities, ScopedChild, ScopedRun, ScopedSpawnSpec, ScopedStep, WaitEvent, WaitStep,
    CAP_NET_ADMIN, CAP_SYS_ADMIN,
};

fn state(effective: Option<bool>, delegable: Option<bool>) -> CapabilityState {
    CapabilityState { effective, delegable }
}

fn sets(net_admin: CapabilityState, sys_admin: CapabilityState) -> RuntimeCapabilities {
    RuntimeCapabilities { net_admin, sys_admin }
}

fn spec(argv: &[&str]) -> ScopedSpawnSpec {
    ScopedSpawnSpec {
        argv: argv.iter().map(|arg| arg.as_bytes().to_vec()).collect(),
        cwd: None,
        stdout: None,
        stderr: None,
        process_group: false,
        netns: None,
        fd_handoff: None,
        capabilities: Vec::new(),
    }
}

#[test]
fn capabilities_have_names() {
    assert_eq!(capability_name(CAP_NET_ADMIN), "CAP_NET_ADMIN");
    assert_eq!(capability_name(CAP_SYS_ADMIN), "CAP_SYS_ADMIN");
    assert_eq!(capability_name(1), "unknown capability");
}

#[test]
fn runtime_capabilities_depend_on_the_user() {
    let effective_only = state(Some(true), Some(false));
    let both = state(Some(true), Some(true));
    let unknown = state(None, None);
    assert_eq!(require_runtime_capabilities(Ok(sets(effective_only, both)), true), Ok(()));
    assert_eq!(require_runtime_capabilities(Ok(sets(both, both)), false), Ok(()));
    let tail = ". Start it with CAP_NET_ADMIN and CAP_SYS_ADMIN in the inheritable, permitted, and effective sets (the installed systemd unit configures this automatically)";
    assert_eq!(
        require_runtime_capabilities(Ok(sets(effective_only, both)), false),
        Err(format!(
            "AENV runtime is missing required Linux capabilities: CAP_NET_ADMIN{tail}"
        ))
    );
    assert_eq!(
        require_runtime_capabilities(Ok(sets(both, unknown)), true),
        Err(format!(
            "AENV runtime is missing required Linux capabilities: CAP_SYS_ADMIN{tail}"
        ))
    );
    assert_eq!(
        require_runtime_capabilities(Ok(sets(unknown, unknown)), false),
        Err(format!(
            "AENV runtime is missing required Linux capabilities: CAP_NET_ADMIN, CAP_SYS_ADMIN{tail}"
        ))
    );
    assert_eq!(
        require_runtime_capabilities(Err("denied".to_string()), true),
        Err("read process capability sets: denied".to_string())
    );
}

#[test]
fn operations_run_after_their_capabilities_are_scoped() {
    let steps = run_with_scoped_capabilities(&[CAP_SYS_ADMIN, CAP_NET_ADMIN]);
    assert_eq!(steps.len(), 2);
    match &steps[0] {
        ScopedStep::ScopeCapabilities { capabilities } => {
            assert_eq!(capabilities, &vec![CAP_SYS_ADMIN, CAP_NET_ADMIN])
        }
        other => panic!("unexpected {other:?}"),
    }
    assert!(matches!(steps[1], ScopedStep::Operate));
    let none = run_with_scoped_capabilities(&[]);
    assert!(matches!(
        &none[0],
        ScopedStep::ScopeCapabilities { capabilities } if capabilities.is_empty()
    ));
}

#[test]
fn scoped_runs_are_judged() {
    assert_eq!(scoped_result(ScopedRun::Finished(Ok(4))), Ok(4));
    assert_eq!(
        scoped_result::<u8>(ScopedRun::Finished(Err("own".to_string()))),
        Err("own".to_string())
    );
    assert_eq!(
        scoped_result::<u8>(ScopedRun::SpawnFailed("e".to_string())),
        Err("spawn capability-scoped command thread: e".to_string())
    );
    assert_eq!(
        scoped_result::<u8>(ScopedRun::ScopeFailed("e".to_string())),
        Err("scope command capabilities: e".to_string())
    );
    assert_eq!(
        scoped_result::<u8>(ScopedRun::Panicked("Any".to_string())),
        Err("capability-scoped command thread panicked: Any".to_string())
    );
    assert_eq!(clear_ambient_capabilities(Ok(())), Ok(()));
    assert_eq!(
        clear_ambient_capabilities(Err("e".to_string())),
        Err("clear ambient Linux capabilities: e".to_string())
    );
}

#[test]
fn launches_enter_the_namespace_before_scoping() {
    let mut given = spec(&["/bin/true"]);
    given.capabilities = vec![CAP_NET_ADMIN];
    let steps = spawn_scoped(&given);
    assert_eq!(steps.len(), 2);
    given.netns = Some(9);
    let steps = spawn_scoped(&given);
    assert!(matches!(steps[0], LaunchStep::EnterNetns { fd: 9 }));
    match &steps[1] {
        LaunchStep::ScopeCapabilities { capabilities } => {
            assert_eq!(capabilities, &vec![CAP_NET_ADMIN])
        }
        other => panic!("unexpected {other:?}"),
    }
    assert!(matches!(steps[2], LaunchStep::Spawn));
    assert_eq!(launched(Some(Ok(1))), Ok(1));
    assert_eq!(
        launched::<u8>(None),
        Err("scoped command launcher exited without returning a child".to_string())
    );
}

#[test]
fn spawn_plans_follow_the_spec() {
    let mut given = spec(&["/bin/sh", "-c", "exit 3"]);
    given.stdout = Some(11);
    given.fd_handoff = Some((12, 3));
    given.cwd = Some(b"/tmp".to_vec());
    given.process_group = true;
    let plan = posix_spawn_exec(&given).expect("plan");
    assert_eq!(plan.program, b"/bin/sh");
    assert_eq!(plan.argv, given.argv);
    assert!(plan.process_group);
    assert!(plan.default_sigpipe);
    assert!(plan.inherit_signal_mask);
    assert!(plan.inherit_environment);
    assert_eq!(plan.actions.len(), 5);
    assert!(matches!(plan.actions[0], FileAction::OpenDevNull { target: 0, write: false }));
    assert!(matches!(plan.actions[1], FileAction::Dup2 { source: 11, target: 1 }));
    assert!(matches!(plan.actions[2], FileAction::OpenDevNull { target: 2, write: true }));
    assert!(matches!(plan.actions[3], FileAction::Dup2 { source: 12, target: 3 }));
    assert!(matches!(&plan.actions[4], FileAction::Chdir { cwd } if cwd == b"/tmp"));
    assert_eq!(posix_spawn_exec(&spec(&["/bin/true"])).expect("plan").actions.len(), 3);
    assert_eq!(
        posix_spawn_exec(&spec(&[])).err(),
        Some("scoped spawn requires argv[0] to be the program path".to_string())
    );
    assert_eq!(spawn_result(0), Ok(()));
    assert_eq!(spawn_result(2), Err(2));
}

#[test]
fn reap_attempts_are_judged() {
    assert_eq!(try_reap_status(70, 70, 768, false), Reap::Exited(768));
    assert_eq!(try_reap_status(70, 0, 0, false), Reap::Running);
    assert_eq!(try_reap_status(70, -1, 0, true), Reap::Again);
    assert_eq!(try_reap_status(70, -1, 0, false), Reap::Failed);
}

#[test]
fn children_keep_their_status() {
    assert_eq!(
        ScopedChild::new(0).err(),
        Some("spawned pid does not fit pid_t".to_string())
    );
    let mut child = ScopedChild::new(70).expect("child");
    assert_eq!(child.id(), 70);
    assert!(child.start_kill());
    assert!(child.needs_reaping());
    assert_eq!(child.try_wait::<u8>(Ok(None)), Ok(None));
    assert_eq!(child.try_wait::<u8>(Err(5)), Err(5));
    assert_eq!(child.try_wait::<u8>(Ok(Some(768))), Ok(Some(768)));
    // Reaped: later attempts are not looked at, and there is nothing to kill.
    assert_eq!(child.try_wait::<u8>(Err(5)), Ok(Some(768)));
    assert_eq!(child.exit_status(), Some(768));
    assert!(!child.start_kill());
    assert!(!child.needs_reaping());
    assert!(matches!(child.begin_wait(), WaitStep::Done(768)));
}

#[test]
fn waiting_survives_spurious_wakeups() {
    let mut child = ScopedChild::new(70).expect("child");
    let mut step = child.begin_wait();
    assert!(matches!(step, WaitStep::Watch));
    step = child.wait(step, WaitEvent::Done(Ok(())));
    step = child.wait(step, WaitEvent::Reaped(Ok(None)));
    assert!(matches!(step, WaitStep::AwaitWakeup));
    step = child.wait(step, WaitEvent::Done(Ok(())));
    step = child.wait(step, WaitEvent::Reaped(Ok(None)));
    assert!(matches!(step, WaitStep::ClearWakeup));
    step = child.wait(step, WaitEvent::Done(Ok(())));
    assert!(matches!(step, WaitStep::Reap { woken: false }));
    step = child.wait(step, WaitEvent::Reaped(Ok(Some(0))));
    assert!(matches!(step, WaitStep::Done(0)));
    let mut other = ScopedChild::new(71).expect("child");
    let step = other.begin_wait();
    assert!(matches!(
        other.wait(step, WaitEvent::Done(Err("e".to_string()))),
        WaitStep::Failed(text) if text == "e"
    ));
}

#[test]
fn dropped_children_warn_when_left_behind() {
    assert_eq!(drop_warning::<u8>(&Ok(Some(9))), None);
    assert_eq!(
        drop_warning::<u8>(&Ok(None)),
        Some("timed out reaping scoped child process")
    );
    assert_eq!(
        drop_warning::<u8>(&Err(1)),
        Some("failed to reap scoped child process")
    );
}
