use agentenv::driver::{LoopbackUrmaDriver, RegionAccess, UrmaCompletion, UrmaReadOp};
use agentenv::worker::{
    accept_reply, check_sent, run_worker, Command, DriverCall, ShutdownPlan, UrmaIo, WorkerEvent,
    WorkerStep,
};

fn completion(user_ctx: u64, status: i32) -> UrmaCompletion {
    UrmaCompletion { user_ctx, status }
}

#[test]
fn reads_complete_through_worker_loop() {
    let mut driver = LoopbackUrmaDriver::new("worker-test");
    let source = [9u8, 8, 7, 6, 5, 4, 3, 2];
    let mut dest = [0u8; 4];
    let region = driver.register_region(
        source.as_ptr() as usize,
        source.len() as u64,
        RegionAccess::RemoteRead,
    );
    let mut io: UrmaIo<&str> = UrmaIo::start();

    let user_ctx = io.alloc_completion("reader");
    let op = UrmaReadOp {
        remote_wire: Vec::new(),
        remote_addr: region.base_va + 3,
        len: 4,
        local_addr: dest.as_ptr() as u64,
        peer_eid: [0; 16],
        peer_jetty_id: 1,
        user_ctx,
    };
    io.check_open().expect("worker is up");
    let command = WorkerEvent::Command(Command::PostRead { op });
    let (now, _) = run_worker(&mut io, WorkerStep::Wait, command);
    match &now {
        WorkerStep::Call(DriverCall::PostRead { op }) => driver
            .post_read(op, &Ok(region), &source, &mut dest)
            .expect("post read"),
        other => panic!("unexpected step {other:?}"),
    }
    let (now, _) = run_worker(&mut io, now, WorkerEvent::Done);
    assert!(matches!(now, WorkerStep::Reply));
    let (now, none) = run_worker(&mut io, now, WorkerEvent::Done);
    assert!(none.is_empty());
    assert!(matches!(now, WorkerStep::Poll));
    let mut completions = Vec::new();
    driver.poll_completions(64, &mut completions);
    let (now, answers) = run_worker(&mut io, now, WorkerEvent::Polled(completions));
    assert!(matches!(now, WorkerStep::Wait));
    assert_eq!(answers, vec![("reader", Ok(()))]);
    assert_eq!(dest, source[3..7]);

    assert_eq!(io.begin_shutdown(), ShutdownPlan::Send);
    driver.shutdown();
    io.finish_shutdown();
}

#[test]
fn shutdown_rejects_new_work() {
    let mut io: UrmaIo<u8> = UrmaIo::start();
    assert_eq!(io.begin_shutdown(), ShutdownPlan::Send);
    io.finish_shutdown();
    let err = io.check_open().expect_err("must fail");
    assert!(err.contains("shut down"));
    assert_eq!(err, "ub P2P worker is shut down");
}

#[test]
fn completion_tokens_count_up_from_one() {
    let mut io: UrmaIo<char> = UrmaIo::start();
    assert_eq!(io.alloc_completion('a'), 1);
    assert_eq!(io.alloc_completion('b'), 2);
    assert_eq!(io.alloc_completion('c'), 3);
}

#[test]
fn failed_completions_name_their_status() {
    let mut io: UrmaIo<char> = UrmaIo::start();
    let a = io.alloc_completion('a');
    let b = io.alloc_completion('b');
    let answers = io.dispatch(&[completion(b, -5), completion(a, 12), completion(99, 0)]);
    assert_eq!(
        answers,
        vec![
            ('b', Err("ub read failed with URMA completion status -5".to_string())),
            ('a', Err("ub read failed with URMA completion status 12".to_string())),
        ]
    );
}

#[test]
fn only_the_first_completion_counts() {
    let mut io: UrmaIo<char> = UrmaIo::start();
    let a = io.alloc_completion('a');
    assert_eq!(io.dispatch(&[completion(a, 0), completion(a, 1)]), vec![('a', Ok(()))]);
    assert!(io.dispatch(&[completion(a, 0)]).is_empty());
}

#[test]
fn cancelled_reads_are_not_answered() {
    let mut io: UrmaIo<char> = UrmaIo::start();
    let a = io.alloc_completion('a');
    assert!(io.cancel_completion(a));
    assert!(!io.cancel_completion(a));
    assert!(io.dispatch(&[completion(a, 0)]).is_empty());
}

#[test]
fn abandoned_reads_see_errors() {
    let mut io: UrmaIo<char> = UrmaIo::start();
    let _a = io.alloc_completion('a');
    let b = io.alloc_completion('b');
    let answers = io.abandon(&[completion(b, 0)]);
    let error = Err("ub driver shut down mid-read".to_string());
    assert_eq!(answers, vec![('b', error.clone()), ('a', error)]);
    assert!(io.abandon(&[]).is_empty());
}

#[test]
fn second_shutdown_does_nothing() {
    let mut io: UrmaIo<u8> = UrmaIo::start();
    assert_eq!(io.begin_shutdown(), ShutdownPlan::Send);
    assert_eq!(io.begin_shutdown(), ShutdownPlan::Nothing);
    io.finish_shutdown();
    assert_eq!(io.begin_shutdown(), ShutdownPlan::Nothing);
}

#[test]
fn roundtrip_failures_are_told_apart() {
    assert_eq!(check_sent(true), Ok(()));
    assert_eq!(check_sent(false), Err("ub P2P worker channel closed".to_string()));
    assert_eq!(accept_reply(Some(Ok(3))), Ok(3));
    assert_eq!(
        accept_reply::<u8>(None),
        Err("ub P2P worker dropped a reply".to_string())
    );
    assert_eq!(accept_reply::<u8>(Some(Err("no".to_string()))), Err("no".to_string()));
}

#[test]
fn worker_serves_commands_and_ends() {
    let mut io: UrmaIo<char> = UrmaIo::start();
    let register =
        Command::RegisterRegion { addr: 0x1000, len: 4096, access: RegionAccess::LocalOnly };
    assert!(matches!(
        run_worker(&mut io, WorkerStep::Wait, WorkerEvent::Command(register)).0,
        WorkerStep::Call(DriverCall::RegisterRegion {
            addr: 0x1000,
            len: 4096,
            access: RegionAccess::LocalOnly
        })
    ));
    let unregister = WorkerEvent::Command(Command::UnregisterRegion { addr: 7 });
    assert!(matches!(
        run_worker(&mut io, WorkerStep::Wait, unregister).0,
        WorkerStep::Call(DriverCall::UnregisterRegion { addr: 7 })
    ));
    assert!(matches!(
        run_worker(&mut io, WorkerStep::Wait, WorkerEvent::Timeout).0,
        WorkerStep::Poll
    ));
    assert!(matches!(
        run_worker(&mut io, WorkerStep::Wait, WorkerEvent::Disconnected).0,
        WorkerStep::PollLast
    ));
}

#[test]
fn worker_shuts_down_in_order() {
    let mut io: UrmaIo<char> = UrmaIo::start();
    io.alloc_completion('a');
    let b = io.alloc_completion('b');
    let (now, _) =
        run_worker(&mut io, WorkerStep::Wait, WorkerEvent::Command(Command::Shutdown));
    assert!(matches!(now, WorkerStep::ShutDown));
    let (now, _) = run_worker(&mut io, now, WorkerEvent::Done);
    assert!(matches!(now, WorkerStep::ReplyShutDown));
    let (now, none) = run_worker(&mut io, now, WorkerEvent::Done);
    assert!(matches!(now, WorkerStep::PollLast));
    assert!(none.is_empty());
    let (now, answers) =
        run_worker(&mut io, now, WorkerEvent::Polled(vec![completion(b, 0)]));
    assert!(matches!(now, WorkerStep::Ended));
    let error = Err("ub driver shut down mid-read".to_string());
    assert_eq!(answers, vec![('b', error.clone()), ('a', error)]);
    assert!(io.abandon(&[]).is_empty());
}
