//! Dedicated worker owning a URMA driver.
//!
//! All driver calls (register, unregister, post) are funneled through a
//! command channel, and the same loop polls completions and resolves the
//! slots of awaited reads. This module holds the bookkeeping: which slot
//! belongs to which completion token, what each completion means, and what
//! the worker does next. A slot is whatever the embedding program answers an
//! awaited read through.
use crate::driver::{RegionAccess, UrmaCompletion, UrmaReadOp};
use crate::text::push_signed_decimal;
use std::collections::HashMap;
use vstd::prelude::*;

verus! {

broadcast use vstd::std_specs::hash::group_hash_axioms;

/// How long the worker waits for a command before it polls, in microseconds.
pub const IDLE_POLL_INTERVAL_MICROS: u64 = 200;

/// Completions drained per poll iteration.
pub const POLL_BATCH: usize = 64;

/// Bookkeeping of the worker and its callers.
#[derive(Debug)]
pub struct UrmaIo<S> {
    open: bool,
    pending: HashMap<u64, S>,
    next_ctx: u64,
    shutdown_started: bool,
}

/// The bookkeeping, as the model sees it.
#[verifier::ext_equal]
pub ghost struct IoView<S> {
    /// Whether commands are accepted.
    pub open: bool,
    /// Slots of awaited reads by their completion token.
    pub pending: Map<u64, S>,
    /// The next completion token.
    pub next_ctx: u64,
    pub shutdown_started: bool,
}

impl<S> View for UrmaIo<S> {
    type V = IoView<S>;

    closed spec fn view(&self) -> IoView<S> {
        IoView {
            open: self.open,
            pending: self.pending@,
            next_ctx: self.next_ctx,
            shutdown_started: self.shutdown_started,
        }
    }
}

impl<S> IoView<S> {
    /// With a slot reserved under the next token.
    pub open spec fn reserved(self, slot: S) -> IoView<S> {
        IoView {
            pending: self.pending.insert(self.next_ctx, slot),
            next_ctx: if self.next_ctx == u64::MAX {
                0
            } else {
                (self.next_ctx + 1) as u64
            },
            ..self
        }
    }

    /// Without the slot of a token.
    pub open spec fn released(self, user_ctx: u64) -> IoView<S> {
        IoView { pending: self.pending.remove(user_ctx), ..self }
    }
}

/// Why a read with this completion failed, if it did.
pub open spec fn completion_error(completion: UrmaCompletion) -> Option<Seq<char>> {
    if completion.status == 0 {
        None
    } else {
        Some(
            "ub read failed with URMA completion status "@ + crate::text::signed_decimal(
                completion.status as int,
            ),
        )
    }
}

/// The pending slots after a list of completions: theirs are gone.
pub open spec fn still_pending<S>(
    pending: Map<u64, S>,
    completions: Seq<UrmaCompletion>,
) -> Map<u64, S>
    decreases completions.len(),
{
    if completions.len() == 0 {
        pending
    } else {
        still_pending(pending, completions.drop_last()).remove(completions.last().user_ctx)
    }
}

/// The slots that a list of completions resolves, each with its completion,
/// in the order of the completions. A completion without a slot, such as that
/// of a cancelled read, resolves nothing.
pub open spec fn resolved<S>(pending: Map<u64, S>, completions: Seq<UrmaCompletion>) -> Seq<
    (S, UrmaCompletion),
>
    decreases completions.len(),
{
    if completions.len() == 0 {
        Seq::empty()
    } else {
        let before = still_pending(pending, completions.drop_last());
        let last = completions.last();
        if before.contains_key(last.user_ctx) {
            resolved(pending, completions.drop_last()).push((before[last.user_ctx], last))
        } else {
            resolved(pending, completions.drop_last())
        }
    }
}

/// Whether `answers` hands each of the resolved slots the outcome of its
/// completion.
pub open spec fn answer_resolved<S>(
    answers: Seq<(S, Result<(), String>)>,
    resolved: Seq<(S, UrmaCompletion)>,
) -> bool {
    &&& answers.len() == resolved.len()
    &&& forall|i: int|
        0 <= i < answers.len() ==> {
            &&& (#[trigger] answers[i]).0 == resolved[i].0
            &&& match answers[i].1 {
                Ok(()) => completion_error(resolved[i].1) is None,
                Err(text) => completion_error(resolved[i].1) == Some(text@),
            }
        }
}

/// Whether `answers` hands each of the slots the error of a read that the
/// shutdown cut short.
pub open spec fn answer_cut_short<S>(answers: Seq<(S, Result<(), String>)>, slots: Seq<S>) -> bool {
    &&& answers.len() == slots.len()
    &&& forall|i: int|
        0 <= i < answers.len() ==> {
            &&& (#[trigger] answers[i]).0 == slots[i]
            &&& answers[i].1 matches Err(text) && text@ == "ub driver shut down mid-read"@
        }
}

/// The slots of a list of tokens.
pub open spec fn slots_of<S>(pending: Map<u64, S>, tokens: Seq<u64>) -> Seq<S> {
    tokens.map_values(|token: u64| pending[token])
}

/// The slots that a list of completions resolves, without the completions.
pub open spec fn resolved_slots<S>(pending: Map<u64, S>, completions: Seq<UrmaCompletion>) -> Seq<
    S,
> {
    resolved(pending, completions).map_values(|entry: (S, UrmaCompletion)| entry.0)
}

/// What handing out a list of completions does: their slots are taken out
/// and answered with the outcomes.
pub open spec fn dispatched<S>(
    before: IoView<S>,
    completions: Seq<UrmaCompletion>,
    after: IoView<S>,
    answers: Seq<(S, Result<(), String>)>,
) -> bool {
    &&& after == (IoView { pending: still_pending(before.pending, completions), ..before })
    &&& answer_resolved(answers, resolved(before.pending, completions))
}

/// What ending the worker does: every slot is taken out and answered with an
/// error, those of the queued completions first.
pub open spec fn abandoned<S>(
    before: IoView<S>,
    leftovers: Seq<UrmaCompletion>,
    after: IoView<S>,
    answers: Seq<(S, Result<(), String>)>,
) -> bool {
    &&& after == (IoView { pending: Map::empty(), ..before })
    &&& exists|rest: Seq<u64>|
        {
            &&& #[trigger] rest.no_duplicates()
            &&& rest.to_set() == still_pending(before.pending, leftovers).dom()
            &&& answer_cut_short(
                answers,
                resolved_slots(before.pending, leftovers) + slots_of(
                    still_pending(before.pending, leftovers),
                    rest,
                ),
            )
        }
}

/// What to do about a request to shut down.
#[derive(Debug, Clone, Copy, PartialEq, Eq, Structural)]
pub enum ShutdownPlan {
    /// A shutdown has been started before: nothing.
    Nothing,
    /// Send the worker the shutdown command and, if it was sent, await the
    /// reply; then [`UrmaIo::finish_shutdown`].
    Send,
    /// There is no worker to tell: only [`UrmaIo::finish_shutdown`].
    Finish,
}

impl<S> UrmaIo<S> {
    /// The bookkeeping of a worker that has just been started.
    pub fn start() -> (io: Self)
        ensures
            io@ == (IoView {
                open: true,
                pending: Map::<u64, S>::empty(),
                next_ctx: 1,
                shutdown_started: false,
            }),
    {
        UrmaIo { open: true, pending: HashMap::new(), next_ctx: 1, shutdown_started: false }
    }

    /// Check that commands are still accepted, before one is sent.
    pub fn check_open(&self) -> (checked: Result<(), String>)
        ensures
            match checked {
                Ok(()) => self@.open,
                Err(text) => !self@.open && text@ == "ub P2P worker is shut down"@,
            },
    {
        if self.open {
            Ok(())
        } else {
            Err("ub P2P worker is shut down".to_string())
        }
    }

    /// Reserve a completion slot for an upcoming read and return its
    /// completion token.
    pub fn alloc_completion(&mut self, slot: S) -> (user_ctx: u64)
        ensures
            user_ctx == old(self)@.next_ctx,
            final(self)@ == old(self)@.reserved(slot),
    {
        let user_ctx: u64 = self.next_ctx;
        self.next_ctx = self.next_ctx.wrapping_add(1);
        self.pending.insert(user_ctx, slot);
        user_ctx
    }

    /// Drop a completion slot whose read will no longer be awaited (e.g.
    /// after a timeout). Returns `false` if the completion already fired.
    pub fn cancel_completion(&mut self, user_ctx: u64) -> (cancelled: bool)
        ensures
            cancelled == old(self)@.pending.contains_key(user_ctx),
            final(self)@ == old(self)@.released(user_ctx),
    {
        self.pending.remove(&user_ctx).is_some()
    }

    /// Take the slots of completed reads out, each with its outcome.
    pub fn dispatch(&mut self, completions: &[UrmaCompletion]) -> (answers: Vec<
        (S, Result<(), String>),
    >)
        ensures
            dispatched(old(self)@, completions@, final(self)@, answers@),
    {
        let ghost before = self@;
        let mut answers: Vec<(S, Result<(), String>)> = Vec::new();
        let mut i: usize = 0;
        while i < completions.len()
            invariant
                i <= completions@.len(),
                self@ == (IoView {
                    pending: still_pending(before.pending, completions@.take(i as int)),
                    ..before
                }),
                answer_resolved(
                    answers@,
                    resolved(before.pending, completions@.take(i as int)),
                ),
            decreases completions@.len() - i,
        {
            let completion: UrmaCompletion = completions[i];
            assert(completions@.take(i + 1).drop_last() =~= completions@.take(i as int));
            if let Some(slot) = self.pending.remove(&completion.user_ctx) {
                answers.push((slot, Self::outcome(completion)));
            }
            i = i + 1;
        }
        assert(completions@.take(completions@.len() as int) =~= completions@);
        answers
    }

    fn outcome(completion: UrmaCompletion) -> (outcome: Result<(), String>)
        ensures
            match outcome {
                Ok(()) => completion_error(completion) is None,
                Err(text) => completion_error(completion) == Some(text@),
            },
    {
        if completion.status == 0 {
            return Ok(());
        }
        let mut text = "ub read failed with URMA completion status ".to_string();
        push_signed_decimal(&mut text, completion.status);
        Err(text)
    }

    /// Take every slot out when the worker ends, so that awaited reads see
    /// errors, not hangs. `leftovers` are the completions that were still
    /// queued; their slots come first.
    pub fn abandon(&mut self, leftovers: &[UrmaCompletion]) -> (answers: Vec<
        (S, Result<(), String>),
    >)
        ensures
            abandoned(old(self)@, leftovers@, final(self)@, answers@),
    {
        let ghost before = self@;
        let mut answers: Vec<(S, Result<(), String>)> = Vec::new();
        let mut i: usize = 0;
        while i < leftovers.len()
            invariant
                i <= leftovers@.len(),
                self@ == (IoView {
                    pending: still_pending(before.pending, leftovers@.take(i as int)),
                    ..before
                }),
                answer_cut_short(
                    answers@,
                    resolved_slots(before.pending, leftovers@.take(i as int)),
                ),
            decreases leftovers@.len() - i,
        {
            let completion: UrmaCompletion = leftovers[i];
            assert(leftovers@.take(i + 1).drop_last() =~= leftovers@.take(i as int));
            if let Some(slot) = self.pending.remove(&completion.user_ctx) {
                answers.push((slot, Err("ub driver shut down mid-read".to_string())));
            }
            i = i + 1;
        }
        assert(leftovers@.take(leftovers@.len() as int) =~= leftovers@);
        let ghost first = resolved_slots(before.pending, leftovers@);

        let ghost still = self@.pending;
        let rest = self.tokens();
        let mut i: usize = 0;
        assert(first + slots_of(still, rest@.take(0)) =~= first);
        while i < rest.len()
            invariant
                i <= rest@.len(),
                rest@.no_duplicates(),
                self@ == (IoView { pending: self@.pending, ..before }),
                forall|j: int|
                    i <= j < rest@.len() ==> self@.pending.contains_key(#[trigger] rest@[j])
                        && self@.pending[rest@[j]] == still[rest@[j]],
                forall|token: u64| #[trigger]
                    self@.pending.contains_key(token) ==> exists|j: int|
                        i <= j < rest@.len() && #[trigger] rest@[j] == token,
                answer_cut_short(answers@, first + slots_of(still, rest@.take(i as int))),
            decreases rest@.len() - i,
        {
            let token: u64 = rest[i];
            let ghost left = self@.pending;
            if let Some(slot) = self.pending.remove(&token) {
                answers.push((slot, Err("ub driver shut down mid-read".to_string())));
            }
            proof {
                assert(self@.pending == left.remove(token));
                assert(first + slots_of(still, rest@.take(i + 1)) =~= (first + slots_of(
                    still,
                    rest@.take(i as int),
                )).push(still[token]));
                assert forall|other: u64| #[trigger]
                    self@.pending.contains_key(other) implies exists|j: int|
                    i + 1 <= j < rest@.len() && #[trigger] rest@[j] == other by {
                    assert(left.contains_key(other));
                    let j = choose|j: int| i <= j < rest@.len() && #[trigger] rest@[j] == other;
                    assert(j != i);
                }
            }
            i = i + 1;
        }
        assert(rest@.take(rest@.len() as int) =~= rest@);
        assert(self@.pending =~= Map::empty());
        answers
    }

    /// The tokens of the pending slots, in no particular order.
    fn tokens(&self) -> (tokens: Vec<u64>)
        ensures
            tokens@.no_duplicates(),
            tokens@.to_set() == self@.pending.dom(),
            forall|token: u64| #[trigger]
                self@.pending.contains_key(token) ==> exists|j: int|
                    0 <= j < tokens@.len() && #[trigger] tokens@[j] == token,
            forall|j: int|
                0 <= j < tokens@.len() ==> self@.pending.contains_key(#[trigger] tokens@[j]),
    {
        let mut tokens: Vec<u64> = Vec::new();
        for token in iter: self.pending.keys()
            invariant
                tokens@.len() == iter.index(),
                forall|j: int| 0 <= j < tokens@.len() ==> tokens@[j] == *iter.seq()[j],
        {
            tokens.push(*token);
        }
        proof {
            let keys = vstd::std_specs::hash::spec_keys_iter(&self.pending);
            assert(tokens@ =~= vstd::std_specs::iter::IteratorSpec::remaining(&keys).unref());
            assert forall|token: u64| #[trigger] self@.pending.contains_key(token) implies exists|
                j: int,
            |
                0 <= j < tokens@.len() && #[trigger] tokens@[j] == token by {
                assert(tokens@.to_set().contains(token));
            }
            assert forall|j: int| 0 <= j < tokens@.len() implies self@.pending.contains_key(
                #[trigger] tokens@[j],
            ) by {
                assert(tokens@.to_set().contains(tokens@[j]));
            }
        }
        tokens
    }

    /// Start shutting down.
    pub fn begin_shutdown(&mut self) -> (plan: ShutdownPlan)
        ensures
            plan == (if old(self)@.shutdown_started {
                ShutdownPlan::Nothing
            } else if old(self)@.open {
                ShutdownPlan::Send
            } else {
                ShutdownPlan::Finish
            }),
            final(self)@ == (IoView { shutdown_started: true, ..old(self)@ }),
    {
        if self.shutdown_started {
            return ShutdownPlan::Nothing;
        }
        self.shutdown_started = true;
        if self.open {
            ShutdownPlan::Send
        } else {
            ShutdownPlan::Finish
        }
    }

    /// End the shutdown: no more commands, no more slots.
    pub fn finish_shutdown(&mut self)
        ensures
            final(self)@ == (IoView { open: false, pending: Map::empty(), ..old(self)@ }),
    {
        self.open = false;
        self.pending.clear();
    }
}

/// What sending a command came to: a worker that is gone cannot be reached.
pub fn check_sent(sent: bool) -> (checked: Result<(), String>)
    ensures
        match checked {
            Ok(()) => sent,
            Err(text) => !sent && text@ == "ub P2P worker channel closed"@,
        },
{
    if sent {
        Ok(())
    } else {
        Err("ub P2P worker channel closed".to_string())
    }
}

/// The worker's reply to a command; `None` if it was dropped unanswered.
pub fn accept_reply<T>(reply: Option<Result<T, String>>) -> (result: Result<T, String>)
    ensures
        match reply {
            Some(reply) => result == reply,
            None => result matches Err(text) && text@ == "ub P2P worker dropped a reply"@,
        },
{
    match reply {
        Some(reply) => reply,
        None => Err("ub P2P worker dropped a reply".to_string()),
    }
}

/// A command to the worker.
#[derive(Debug)]
pub enum Command {
    RegisterRegion { addr: usize, len: u64, access: RegionAccess },
    UnregisterRegion { addr: usize },
    PostRead { op: UrmaReadOp },
    Shutdown,
}

/// A call of the driver that a command asks for.
#[derive(Debug)]
pub enum DriverCall {
    RegisterRegion { addr: usize, len: u64, access: RegionAccess },
    UnregisterRegion { addr: usize },
    PostRead { op: UrmaReadOp },
}

/// What the worker does next.
#[derive(Debug)]
pub enum WorkerStep {
    /// Wait for a command, for as long as the poll interval.
    Wait,
    /// Make the call that a command asks for.
    Call(DriverCall),
    /// Reply with the result of the call.
    Reply,
    /// Poll the driver.
    Poll,
    /// Shut the driver down.
    ShutDown,
    /// Reply to the command to shut down.
    ReplyShutDown,
    /// Poll the driver for the last time.
    PollLast,
    Ended,
}

/// What a step of the worker came to.
#[derive(Debug)]
pub enum WorkerEvent {
    /// A command arrived.
    Command(Command),
    /// No command arrived within the poll interval.
    Timeout,
    /// Every sender is gone.
    Disconnected,
    /// The step is done.
    Done,
    /// The completions that polling gave.
    Polled(Vec<UrmaCompletion>),
}

/// Whether `event` can come of `now`.
pub open spec fn worker_expects(now: WorkerStep, event: WorkerEvent) -> bool {
    match now {
        WorkerStep::Wait => event is Command || event is Timeout || event is Disconnected,
        WorkerStep::Call(_) | WorkerStep::Reply | WorkerStep::ShutDown
        | WorkerStep::ReplyShutDown => event is Done,
        WorkerStep::Poll | WorkerStep::PollLast => event is Polled,
        WorkerStep::Ended => false,
    }
}

/// Where a command leads: to its call, or to the end.
pub open spec fn command_step(command: Command) -> WorkerStep {
    match command {
        Command::RegisterRegion { addr, len, access } => WorkerStep::Call(
            DriverCall::RegisterRegion { addr, len, access },
        ),
        Command::UnregisterRegion { addr } => WorkerStep::Call(
            DriverCall::UnregisterRegion { addr },
        ),
        Command::PostRead { op } => WorkerStep::Call(DriverCall::PostRead { op }),
        Command::Shutdown => WorkerStep::ShutDown,
    }
}

/// How the worker goes on. Each command is called, then answered, then the
/// driver is polled, as it is when no command arrives; what polling gives
/// resolves slots, and the worker waits again. A shutdown takes the driver
/// down, then is answered; then, as when every sender is gone, the driver is
/// polled once more, every slot is answered and the worker ends.
pub open spec fn worker_goes_on<S>(
    before: IoView<S>,
    now: WorkerStep,
    event: WorkerEvent,
    after: IoView<S>,
    next: WorkerStep,
    answers: Seq<(S, Result<(), String>)>,
) -> bool {
    match (now, event) {
        (WorkerStep::Poll, WorkerEvent::Polled(completions)) => {
            &&& next == WorkerStep::Wait
            &&& dispatched(before, completions@, after, answers)
        },
        (WorkerStep::PollLast, WorkerEvent::Polled(leftovers)) => {
            &&& next == WorkerStep::Ended
            &&& abandoned(before, leftovers@, after, answers)
        },
        (_, _) => {
            &&& after == before
            &&& answers.len() == 0
            &&& match (now, event) {
                (WorkerStep::Wait, WorkerEvent::Command(command)) => next == command_step(command),
                (WorkerStep::Wait, WorkerEvent::Timeout) => next == WorkerStep::Poll,
                (WorkerStep::Wait, WorkerEvent::Disconnected) => next == WorkerStep::PollLast,
                (WorkerStep::Call(_), WorkerEvent::Done) => next == WorkerStep::Reply,
                (WorkerStep::Reply, WorkerEvent::Done) => next == WorkerStep::Poll,
                (WorkerStep::ShutDown, WorkerEvent::Done) => next == WorkerStep::ReplyShutDown,
                (WorkerStep::ReplyShutDown, WorkerEvent::Done) => next == WorkerStep::PollLast,
                (_, _) => false,
            }
        },
    }
}

/// Run the worker: go on from `now`, at first [`WorkerStep::Wait`], with what
/// it came to. The slots handed back are to be answered, each with its
/// outcome.
pub fn run_worker<S>(io: &mut UrmaIo<S>, now: WorkerStep, event: WorkerEvent) -> (went: (
    WorkerStep,
    Vec<(S, Result<(), String>)>,
))
    requires
        worker_expects(now, event),
    ensures
        worker_goes_on(old(io)@, now, event, final(io)@, went.0, went.1@),
{
    match (now, event) {
        (WorkerStep::Poll, WorkerEvent::Polled(completions)) => (
            WorkerStep::Wait,
            io.dispatch(completions.as_slice()),
        ),
        (WorkerStep::PollLast, WorkerEvent::Polled(leftovers)) => (
            WorkerStep::Ended,
            io.abandon(leftovers.as_slice()),
        ),
        (WorkerStep::Wait, WorkerEvent::Command(command)) => {
            let next = match command {
                Command::RegisterRegion { addr, len, access } => WorkerStep::Call(
                    DriverCall::RegisterRegion { addr, len, access },
                ),
                Command::UnregisterRegion { addr } => WorkerStep::Call(
                    DriverCall::UnregisterRegion { addr },
                ),
                Command::PostRead { op } => WorkerStep::Call(DriverCall::PostRead { op }),
                Command::Shutdown => WorkerStep::ShutDown,
            };
            (next, Vec::new())
        },
        (WorkerStep::Wait, WorkerEvent::Timeout) => (WorkerStep::Poll, Vec::new()),
        (WorkerStep::Wait, WorkerEvent::Disconnected) => (WorkerStep::PollLast, Vec::new()),
        (WorkerStep::Call(_), WorkerEvent::Done) => (WorkerStep::Reply, Vec::new()),
        (WorkerStep::Reply, WorkerEvent::Done) => (WorkerStep::Poll, Vec::new()),
        (WorkerStep::ShutDown, WorkerEvent::Done) => (WorkerStep::ReplyShutDown, Vec::new()),
        (WorkerStep::ReplyShutDown, WorkerEvent::Done) => (WorkerStep::PollLast, Vec::new()),
        (now, _) => (now, Vec::new()),
    }
}

/// A slot leaves the table with the first completion for its token and not
/// before; nothing else leaves it.
pub proof fn law_slots_leave_with_their_completion<S>(
    pending: Map<u64, S>,
    completions: Seq<UrmaCompletion>,
    user_ctx: u64,
)
    ensures
        still_pending(pending, completions).contains_key(user_ctx) <==> pending.contains_key(
            user_ctx,
        ) && (forall|i: int|
            0 <= i < completions.len() ==> (#[trigger] completions[i]).user_ctx != user_ctx),
        still_pending(pending, completions).contains_key(user_ctx) ==> still_pending(
            pending,
            completions,
        )[user_ctx] == pending[user_ctx],
    decreases completions.len(),
{
    if completions.len() > 0 {
        let init = completions.drop_last();
        law_slots_leave_with_their_completion(pending, init, user_ctx);
        assert(completions.last() == completions[completions.len() - 1]);
        if still_pending(pending, completions).contains_key(user_ctx) {
            assert forall|i: int| 0 <= i < completions.len() implies (
            #[trigger] completions[i]).user_ctx != user_ctx by {
                if i < init.len() {
                    assert(init[i] == completions[i]);
                }
            }
        }
    }
}

/// An awaited read is resolved by its first completion: its slot is answered
/// with that completion's outcome.
pub proof fn law_completed_reads_are_resolved<S>(
    pending: Map<u64, S>,
    completions: Seq<UrmaCompletion>,
    at: int,
)
    requires
        0 <= at < completions.len(),
        pending.contains_key(completions[at].user_ctx),
        forall|i: int| 0 <= i < at ==> (#[trigger] completions[i]).user_ctx != completions[at].user_ctx,
    ensures
        resolved(pending, completions).contains(
            (pending[completions[at].user_ctx], completions[at]),
        ),
    decreases completions.len(),
{
    let init = completions.drop_last();
    let entry = (pending[completions[at].user_ctx], completions[at]);
    if at == completions.len() - 1 {
        law_slots_leave_with_their_completion(pending, init, completions[at].user_ctx);
        let whole = resolved(pending, completions);
        assert(whole[whole.len() - 1] == entry);
    } else {
        assert(init[at] == completions[at]);
        law_completed_reads_are_resolved(pending, init, at);
        let part = resolved(pending, init);
        let i = choose|i: int| 0 <= i < part.len() && part[i] == entry;
        assert(resolved(pending, completions)[i] == entry);
    }
}

/// A cancelled read is not resolved: once its slot has been dropped, its
/// completion finds no slot, and no slot of another read is answered in its
/// place.
pub proof fn law_cancelled_reads_are_not_resolved<S>(
    pending: Map<u64, S>,
    cancelled: u64,
    completions: Seq<UrmaCompletion>,
)
    ensures
        forall|i: int|
            0 <= i < resolved(pending.remove(cancelled), completions).len() ==> (
            #[trigger] resolved(pending.remove(cancelled), completions)[i]).1.user_ctx != cancelled,
    decreases completions.len(),
{
    if completions.len() > 0 {
        let init = completions.drop_last();
        law_cancelled_reads_are_not_resolved(pending, cancelled, init);
        law_slots_leave_with_their_completion(
            pending.remove(cancelled),
            init,
            completions.last().user_ctx,
        );
        let part = resolved(pending.remove(cancelled), init);
        let whole = resolved(pending.remove(cancelled), completions);
        assert forall|i: int| 0 <= i < whole.len() implies (#[trigger] whole[i]).1.user_ctx
            != cancelled by {
            if i < part.len() {
                assert(whole[i] == part[i]);
            }
        }
    }
}

/// No awaited read hangs when the worker ends: every slot is among those that
/// are answered, whether its completion was still queued or not. `rest` are
/// the tokens of the slots without one.
pub proof fn law_ending_worker_answers_every_slot<S>(
    pending: Map<u64, S>,
    leftovers: Seq<UrmaCompletion>,
    rest: Seq<u64>,
    user_ctx: u64,
)
    requires
        pending.contains_key(user_ctx),
        rest.to_set() == still_pending(pending, leftovers).dom(),
    ensures
        (resolved_slots(pending, leftovers) + slots_of(
            still_pending(pending, leftovers),
            rest,
        )).contains(pending[user_ctx]),
{
    let first = resolved_slots(pending, leftovers);
    let slots = first + slots_of(still_pending(pending, leftovers), rest);
    law_slots_leave_with_their_completion(pending, leftovers, user_ctx);
    if still_pending(pending, leftovers).contains_key(user_ctx) {
        assert(rest.to_set().contains(user_ctx));
        let i = choose|i: int| 0 <= i < rest.len() && rest[i] == user_ctx;
        assert(slots[first.len() + i] == pending[user_ctx]);
    } else {
        let any = choose|i: int|
            0 <= i < leftovers.len() && (#[trigger] leftovers[i]).user_ctx == user_ctx;
        let at = lemma_first_completion(leftovers, user_ctx, any);
        law_completed_reads_are_resolved(pending, leftovers, at);
        let entries = resolved(pending, leftovers);
        let j = choose|j: int|
            0 <= j < entries.len() && entries[j] == (pending[user_ctx], leftovers[at]);
        assert(slots[j] == pending[user_ctx]);
    }
}

proof fn lemma_first_completion(completions: Seq<UrmaCompletion>, user_ctx: u64, any: int) -> (at:
    int)
    requires
        0 <= any < completions.len(),
        completions[any].user_ctx == user_ctx,
    ensures
        0 <= at <= any,
        completions[at].user_ctx == user_ctx,
        forall|i: int| 0 <= i < at ==> (#[trigger] completions[i]).user_ctx != user_ctx,
    decreases any,
{
    if exists|i: int| 0 <= i < any && (#[trigger] completions[i]).user_ctx == user_ctx {
        let i = choose|i: int| 0 <= i < any && (#[trigger] completions[i]).user_ctx == user_ctx;
        lemma_first_completion(completions, user_ctx, i)
    } else {
        any
    }
}

/// A command is called, then answered, then the driver is polled and what it
/// gives handed out, before the next command is waited for; until then no
/// slot is touched.
pub proof fn law_commands_are_answered_before_polling<S>(
    io: IoView<S>,
    command: Command,
    called: IoView<S>,
    calling: WorkerStep,
    first: Seq<(S, Result<(), String>)>,
    replied: IoView<S>,
    replying: WorkerStep,
    second: Seq<(S, Result<(), String>)>,
    polled: IoView<S>,
    polling: WorkerStep,
    third: Seq<(S, Result<(), String>)>,
    completions: Vec<UrmaCompletion>,
    after: IoView<S>,
    next: WorkerStep,
    answers: Seq<(S, Result<(), String>)>,
)
    requires
        command !is Shutdown,
        worker_goes_on(
            io,
            WorkerStep::Wait,
            WorkerEvent::Command(command),
            called,
            calling,
            first,
        ),
        worker_goes_on(called, calling, WorkerEvent::Done, replied, replying, second),
        worker_goes_on(replied, replying, WorkerEvent::Done, polled, polling, third),
        worker_goes_on(polled, polling, WorkerEvent::Polled(completions), after, next, answers),
    ensures
        calling is Call,
        replying == WorkerStep::Reply,
        polling == WorkerStep::Poll,
        next == WorkerStep::Wait,
        polled == io,
        dispatched(io, completions@, after, answers),
{
}

/// A shutdown takes the driver down, then is answered, then the driver is
/// polled for the last time and the worker ends: no slot is left, and each one
/// that was there has been answered with an error.
pub proof fn law_shutdown_ends_in_order<S>(
    io: IoView<S>,
    downed: IoView<S>,
    shutting: WorkerStep,
    first: Seq<(S, Result<(), String>)>,
    replied: IoView<S>,
    replying: WorkerStep,
    second: Seq<(S, Result<(), String>)>,
    polled: IoView<S>,
    polling: WorkerStep,
    third: Seq<(S, Result<(), String>)>,
    leftovers: Vec<UrmaCompletion>,
    after: IoView<S>,
    next: WorkerStep,
    answers: Seq<(S, Result<(), String>)>,
    user_ctx: u64,
)
    requires
        worker_goes_on(
            io,
            WorkerStep::Wait,
            WorkerEvent::Command(Command::Shutdown),
            downed,
            shutting,
            first,
        ),
        worker_goes_on(downed, shutting, WorkerEvent::Done, replied, replying, second),
        worker_goes_on(replied, replying, WorkerEvent::Done, polled, polling, third),
        worker_goes_on(polled, polling, WorkerEvent::Polled(leftovers), after, next, answers),
        io.pending.contains_key(user_ctx),
    ensures
        shutting == WorkerStep::ShutDown,
        replying == WorkerStep::ReplyShutDown,
        polling == WorkerStep::PollLast,
        next == WorkerStep::Ended,
        after.pending == Map::<u64, S>::empty(),
        exists|i: int|
            {
                &&& 0 <= i < answers.len()
                &&& (#[trigger] answers[i]).0 == io.pending[user_ctx]
            },
        forall|i: int|
            0 <= i < answers.len() ==> ((#[trigger] answers[i]).1 matches Err(text) && text@
                == "ub driver shut down mid-read"@),
{
    let still = still_pending(io.pending, leftovers@);
    let rest = choose|rest: Seq<u64>|
        {
            &&& #[trigger] rest.no_duplicates()
            &&& rest.to_set() == still.dom()
            &&& answer_cut_short(
                answers,
                resolved_slots(io.pending, leftovers@) + slots_of(still, rest),
            )
        };
    let slots = resolved_slots(io.pending, leftovers@) + slots_of(still, rest);
    law_ending_worker_answers_every_slot(io.pending, leftovers@, rest, user_ctx);
    let i = choose|i: int| 0 <= i < slots.len() && slots[i] == io.pending[user_ctx];
    assert(answers[i].0 == io.pending[user_ctx]);
}

/// How far a worker that has stopped serving has come; zero while it serves.
pub open spec fn ending(step: WorkerStep) -> nat {
    match step {
        WorkerStep::Wait | WorkerStep::Call(_) | WorkerStep::Reply | WorkerStep::Poll => 0,
        WorkerStep::ShutDown => 1,
        WorkerStep::ReplyShutDown => 2,
        WorkerStep::PollLast => 3,
        WorkerStep::Ended => 4,
    }
}

/// A worker that has stopped serving never serves again: every step takes it
/// further to its end, so the driver is taken down at most once.
pub proof fn law_ending_worker_does_not_serve<S>(
    before: IoView<S>,
    now: WorkerStep,
    event: WorkerEvent,
    after: IoView<S>,
    next: WorkerStep,
    answers: Seq<(S, Result<(), String>)>,
)
    requires
        worker_expects(now, event),
        worker_goes_on(before, now, event, after, next, answers),
        ending(now) > 0,
    ensures
        ending(next) == ending(now) + 1,
{
}

/// A list of indices in ascending order.
pub open spec fn ascending(list: Seq<int>) -> bool {
    forall|i: int, j: int| 0 <= i < j < list.len() ==> list[i] < list[j]
}

/// The completion at `at` is the first one for its token.
pub open spec fn is_first(completions: Seq<UrmaCompletion>, at: int) -> bool {
    &&& 0 <= at < completions.len()
    &&& forall|i: int|
        0 <= i < at ==> (#[trigger] completions[i]).user_ctx != completions[at].user_ctx
}

/// The completions that resolve a slot, by their index.
proof fn lemma_resolving<S>(pending: Map<u64, S>, completions: Seq<UrmaCompletion>) -> (from: Seq<
    int,
>)
    ensures
        from.len() == resolved(pending, completions).len(),
        ascending(from),
        forall|i: int|
            0 <= i < from.len() ==> {
                let at = #[trigger] from[i];
                &&& is_first(completions, at)
                &&& pending.contains_key(completions[at].user_ctx)
                &&& resolved(pending, completions)[i] == (
                    pending[completions[at].user_ctx],
                    completions[at],
                )
            },
        forall|at: int| #[trigger]
            is_first(completions, at) && pending.contains_key(completions[at].user_ctx)
                ==> from.contains(at),
    decreases completions.len(),
{
    if completions.len() == 0 {
        Seq::empty()
    } else {
        let init = completions.drop_last();
        let n = completions.len() - 1;
        let last = completions[n];
        let head = lemma_resolving(pending, init);
        law_slots_leave_with_their_completion(pending, init, last.user_ctx);
        assert forall|at: int| 0 <= at < n implies is_first(init, at) == #[trigger] is_first(
            completions,
            at,
        ) by {
            assert forall|i: int| 0 <= i <= at implies init[i] == completions[i] by {}
            if is_first(init, at) {
                assert forall|i: int| 0 <= i < at implies (#[trigger] completions[i]).user_ctx
                    != completions[at].user_ctx by {
                    assert(init[i].user_ctx != init[at].user_ctx);
                }
            }
            if is_first(completions, at) {
                assert forall|i: int| 0 <= i < at implies (#[trigger] init[i]).user_ctx
                    != init[at].user_ctx by {
                    assert(completions[i].user_ctx != completions[at].user_ctx);
                }
            }
        }
        let taken = still_pending(pending, init).contains_key(last.user_ctx);
        assert(taken == (pending.contains_key(last.user_ctx) && is_first(completions, n))) by {
            if is_first(completions, n) {
                assert forall|i: int| 0 <= i < init.len() implies (#[trigger] init[i]).user_ctx
                    != last.user_ctx by {
                    assert(completions[i].user_ctx != completions[n].user_ctx);
                }
            }
            if taken {
                assert forall|i: int| 0 <= i < n implies (#[trigger] completions[i]).user_ctx
                    != completions[n].user_ctx by {
                    assert(init[i].user_ctx != last.user_ctx);
                }
            }
        }
        let from = if taken {
            head.push(n)
        } else {
            head
        };
        assert forall|i: int| 0 <= i < head.len() implies 0 <= #[trigger] head[i] < n by {
            assert(is_first(init, head[i]));
        }
        assert forall|i: int| 0 <= i < from.len() implies {
            let at = #[trigger] from[i];
            &&& is_first(completions, at)
            &&& pending.contains_key(completions[at].user_ctx)
            &&& resolved(pending, completions)[i] == (
                pending[completions[at].user_ctx],
                completions[at],
            )
        } by {
            if i < head.len() {
                let at = head[i];
                assert(is_first(init, at));
                assert(init[at] == completions[at]);
            }
        }
        assert forall|at: int| #[trigger]
            is_first(completions, at) && pending.contains_key(
                completions[at].user_ctx,
            ) implies from.contains(at) by {
            if at < n {
                assert(is_first(init, at));
                assert(init[at] == completions[at]);
                assert(head.contains(at));
                let i = choose|i: int| 0 <= i < head.len() && head[i] == at;
                assert(from[i] == at);
            } else {
                assert(from[from.len() - 1] == n);
            }
        }
        from
    }
}

/// What polling does for the awaited reads: each of them whose completion has
/// arrived is answered, once, in the order of the completions; the answer is a
/// success exactly when the completion's status is zero, and names the status
/// otherwise. Completions for which no read waits answer nobody, a repeated
/// one answers nobody again, and reads without a completion go on waiting.
pub proof fn law_reads_succeed_exactly_with_status_zero<S>(
    io: &mut UrmaIo<S>,
    completions: Vec<UrmaCompletion>,
    went: (WorkerStep, Vec<(S, Result<(), String>)>),
)
    requires
        call_ensures(
            run_worker::<S>,
            (io, WorkerStep::Poll, WorkerEvent::Polled(completions)),
            went,
        ),
    ensures
        exists|from: Seq<int>|
            {
                &&& #[trigger] ascending(from)
                &&& from.len() == went.1@.len()
                &&& forall|at: int| #[trigger]
                    is_first(completions@, at) && old(io)@.pending.contains_key(
                        completions@[at].user_ctx,
                    ) <==> from.contains(at)
                &&& forall|i: int|
                    #![trigger went.1@[i]]
                    0 <= i < went.1@.len() ==> {
                        let completion = completions@[from[i]];
                        &&& went.1@[i].0 == old(io)@.pending[completion.user_ctx]
                        &&& went.1@[i].1 is Ok <==> completion.status == 0
                        &&& went.1@[i].1 matches Err(text) ==> text@
                            == "ub read failed with URMA completion status "@
                            + crate::text::signed_decimal(completion.status as int)
                    }
            },
        forall|token: u64| #[trigger]
            final(io)@.pending.contains_key(token) <==> old(io)@.pending.contains_key(token) && (
            forall|i: int|
                0 <= i < completions@.len() ==> (#[trigger] completions@[i]).user_ctx != token),
        forall|token: u64| #[trigger]
            final(io)@.pending.contains_key(token) ==> final(io)@.pending[token]
                == old(io)@.pending[token],
        final(io)@.next_ctx == old(io)@.next_ctx,
        final(io)@.open == old(io)@.open,
        went.0 is Wait,
{
    let pending = old(io)@.pending;
    let from = lemma_resolving(pending, completions@);
    assert forall|at: int| from.contains(at) implies #[trigger] is_first(completions@, at)
        && pending.contains_key(completions@[at].user_ctx) by {
        let i = choose|i: int| 0 <= i < from.len() && from[i] == at;
        assert(is_first(completions@, from[i]));
    }
    assert forall|i: int| #![trigger went.1@[i]] 0 <= i < went.1@.len() implies {
        let completion = completions@[from[i]];
        &&& went.1@[i].0 == pending[completion.user_ctx]
        &&& went.1@[i].1 is Ok <==> completion.status == 0
        &&& went.1@[i].1 matches Err(text) ==> text@
            == "ub read failed with URMA completion status "@ + crate::text::signed_decimal(
            completion.status as int,
        )
    } by {
        let at = from[i];
        assert(resolved(pending, completions@)[i] == (
            pending[completions@[at].user_ctx],
            completions@[at],
        ));
    }
    assert forall|token: u64| #[trigger]
        final(io)@.pending.contains_key(token) <==> pending.contains_key(token) && (forall|i: int|
        0 <= i < completions@.len() ==> (#[trigger] completions@[i]).user_ctx != token) by {
        law_slots_leave_with_their_completion(pending, completions@, token);
    }
    assert forall|token: u64| #[trigger] final(io)@.pending.contains_key(token) implies
        final(io)@.pending[token] == pending[token] by {
        law_slots_leave_with_their_completion(pending, completions@, token);
    }
    assert(ascending(from));
}

/// A read is awaited under a token of its own: the slot that a read reserves
/// is the one that its token finds until it is cancelled, other slots stay
/// where they are, and the next read gets another token.
pub proof fn law_tokens_find_their_slot<S>(
    io: &mut UrmaIo<S>,
    slot: S,
    user_ctx: u64,
    again: &mut UrmaIo<S>,
    next_slot: S,
    next_ctx: u64,
    end: &mut UrmaIo<S>,
    cancelled: bool,
    other: u64,
)
    requires
        call_ensures(UrmaIo::<S>::alloc_completion, (io, slot), user_ctx),
        old(again)@ == final(io)@,
        call_ensures(UrmaIo::<S>::alloc_completion, (again, next_slot), next_ctx),
        old(end)@ == final(again)@,
        call_ensures(UrmaIo::<S>::cancel_completion, (end, user_ctx), cancelled),
    ensures
        next_ctx != user_ctx,
        next_ctx == if user_ctx == u64::MAX {
            0
        } else {
            user_ctx + 1
        },
        final(again)@.pending.contains_key(user_ctx),
        final(again)@.pending[user_ctx] == slot,
        final(again)@.pending.contains_key(next_ctx),
        final(again)@.pending[next_ctx] == next_slot,
        other != user_ctx && other != next_ctx ==> {
            &&& final(again)@.pending.contains_key(other) == old(io)@.pending.contains_key(other)
            &&& final(again)@.pending.contains_key(other) ==> final(again)@.pending[other]
                == old(io)@.pending[other]
        },
        cancelled,
        !final(end)@.pending.contains_key(user_ctx),
        other != user_ctx ==> {
            &&& final(end)@.pending.contains_key(other) == final(again)@.pending.contains_key(other)
            &&& final(end)@.pending.contains_key(other) ==> final(end)@.pending[other]
                == final(again)@.pending[other]
        },
{
}

/// The worker makes the very call that a command asks for, with the very
/// arguments; nothing is answered before it has been made.
pub proof fn law_commands_reach_the_driver<S>(
    io: &mut UrmaIo<S>,
    command: Command,
    went: (WorkerStep, Vec<(S, Result<(), String>)>),
)
    requires
        call_ensures(
            run_worker::<S>,
            (io, WorkerStep::Wait, WorkerEvent::Command(command)),
            went,
        ),
    ensures
        final(io)@ == old(io)@,
        went.1@.len() == 0,
        match went.0 {
            WorkerStep::Call(call) => match (command, call) {
                (
                    Command::RegisterRegion { addr, len, access },
                    DriverCall::RegisterRegion { addr: at, len: size, access: granted },
                ) => at == addr && size == len && granted == access,
                (
                    Command::UnregisterRegion { addr },
                    DriverCall::UnregisterRegion { addr: at },
                ) => at == addr,
                (Command::PostRead { op }, DriverCall::PostRead { op: posted }) => posted == op,
                (_, _) => false,
            },
            WorkerStep::ShutDown => command is Shutdown,
            _ => false,
        },
{
}

/// A worker that nobody sends commands to any more ends: it polls once, and
/// every read still awaited is answered with an error, so that none hangs.
pub proof fn law_disconnected_worker_ends<S>(
    io: &mut UrmaIo<S>,
    went: (WorkerStep, Vec<(S, Result<(), String>)>),
    last: &mut UrmaIo<S>,
    leftovers: Vec<UrmaCompletion>,
    ended: (WorkerStep, Vec<(S, Result<(), String>)>),
    user_ctx: u64,
)
    requires
        call_ensures(run_worker::<S>, (io, WorkerStep::Wait, WorkerEvent::Disconnected), went),
        old(last)@ == final(io)@,
        call_ensures(run_worker::<S>, (last, went.0, WorkerEvent::Polled(leftovers)), ended),
    ensures
        went.0 is PollLast,
        went.1@.len() == 0,
        ended.0 is Ended,
        final(last)@.pending.dom() =~= Set::<u64>::empty(),
        old(io)@.pending.contains_key(user_ctx) ==> exists|i: int|
            0 <= i < ended.1@.len() && (#[trigger] ended.1@[i]).0 == old(io)@.pending[user_ctx],
        forall|i: int| 0 <= i < ended.1@.len() ==> (#[trigger] ended.1@[i]).1 is Err,
{
    let pending = old(io)@.pending;
    let still = still_pending(pending, leftovers@);
    let rest = choose|rest: Seq<u64>|
        {
            &&& #[trigger] rest.no_duplicates()
            &&& rest.to_set() == still.dom()
            &&& answer_cut_short(
                ended.1@,
                resolved_slots(pending, leftovers@) + slots_of(still, rest),
            )
        };
    if pending.contains_key(user_ctx) {
        let slots = resolved_slots(pending, leftovers@) + slots_of(still, rest);
        law_ending_worker_answers_every_slot(pending, leftovers@, rest, user_ctx);
        let i = choose|i: int| 0 <= i < slots.len() && slots[i] == pending[user_ctx];
        assert(ended.1@[i].0 == pending[user_ctx]);
    }
}

/// A worker that waits in vain polls, and after polling waits again: reads
/// are resolved whether or not commands arrive.
pub proof fn law_idle_worker_polls<S>(
    io: &mut UrmaIo<S>,
    went: (WorkerStep, Vec<(S, Result<(), String>)>),
)
    requires
        call_ensures(run_worker::<S>, (io, WorkerStep::Wait, WorkerEvent::Timeout), went),
    ensures
        went.0 is Poll,
        final(io)@ == old(io)@,
        went.1@.len() == 0,
{
}

/// Shutting down is begun once: the first request tells the worker if
/// commands are accepted, every later one does nothing. Afterwards no command
/// is accepted and no slot is left.
pub proof fn law_shutdown_is_begun_once<S>(
    io: &mut UrmaIo<S>,
    first: ShutdownPlan,
    again: &mut UrmaIo<S>,
    second: ShutdownPlan,
    end: &mut UrmaIo<S>,
    done: (),
    checked: Result<(), String>,
)
    requires
        call_ensures(UrmaIo::<S>::begin_shutdown, (io,), first),
        old(again)@ == final(io)@,
        call_ensures(UrmaIo::<S>::begin_shutdown, (again,), second),
        old(end)@ == final(again)@,
        call_ensures(UrmaIo::<S>::finish_shutdown, (end,), done),
        call_ensures(UrmaIo::<S>::check_open, (&*final(end),), checked),
    ensures
        first is Nothing <==> old(io)@.shutdown_started,
        first is Send <==> !old(io)@.shutdown_started && old(io)@.open,
        second is Nothing,
        final(again)@.pending == old(io)@.pending,
        final(again)@.open == old(io)@.open,
        checked is Err,
        final(end)@.pending.dom() =~= Set::<u64>::empty(),
{
}

/// A new worker accepts commands and has nothing to wait for; its first token
/// is not zero. What is sent is refused exactly once the worker is gone, and a
/// reply is handed on as it is, unless it was dropped.
pub proof fn law_new_workers<S, T>(
    io: UrmaIo<S>,
    checked: Result<(), String>,
    token: u64,
    any: UrmaIo<S>,
    accepted: Result<(), String>,
    sent: bool,
    reached: Result<(), String>,
    reply: Option<Result<T, String>>,
    result: Result<T, String>,
)
    requires
        call_ensures(UrmaIo::<S>::start, (), io),
        call_ensures(UrmaIo::<S>::check_open, (&io,), checked),
        call_ensures(UrmaIo::<S>::check_open, (&any,), accepted),
        call_ensures(check_sent, (sent,), reached),
        call_ensures(accept_reply::<T>, (reply,), result),
    ensures
        checked is Ok,
        !io@.pending.contains_key(token),
        io@.next_ctx == 1,
        !io@.shutdown_started,
        accepted is Ok <==> any@.open,
        reached is Ok <==> sent,
        reply matches Some(reply) ==> result == reply,
        reply is None ==> result is Err,
{
}

/// A call is answered before the driver is polled again, and a driver that is
/// taken down is taken down before that is answered; then it is polled once
/// more. None of this touches a slot.
pub proof fn law_workers_answer_in_order<S>(
    io: &mut UrmaIo<S>,
    now: WorkerStep,
    went: (WorkerStep, Vec<(S, Result<(), String>)>),
)
    requires
        now is Call || now is Reply || now is ShutDown || now is ReplyShutDown,
        call_ensures(run_worker::<S>, (io, now, WorkerEvent::Done), went),
    ensures
        now is Call <==> went.0 is Reply,
        now is Reply <==> went.0 is Poll,
        now is ShutDown <==> went.0 is ReplyShutDown,
        now is ReplyShutDown <==> went.0 is PollLast,
        final(io)@ == old(io)@,
        went.1@.len() == 0,
{
}

/// Handing completions out, and giving every slot up, are what polling and the
/// last poll do.
pub proof fn law_polling_hands_completions_out<S>(
    io: &mut UrmaIo<S>,
    completions: &[UrmaCompletion],
    answers: Vec<(S, Result<(), String>)>,
    ending: &mut UrmaIo<S>,
    cut: Vec<(S, Result<(), String>)>,
    token: u64,
    i: int,
)
    requires
        call_ensures(UrmaIo::<S>::dispatch, (io, completions), answers),
        old(ending)@ == old(io)@,
        call_ensures(UrmaIo::<S>::abandon, (ending, completions), cut),
    ensures
        final(io)@.pending.contains_key(token) <==> old(io)@.pending.contains_key(token) && (forall|
            j: int,
        |
            0 <= j < completions@.len() ==> (#[trigger] completions@[j]).user_ctx != token),
        0 <= i < answers@.len() ==> exists|at: int|
            {
                &&& #[trigger] is_first(completions@, at)
                &&& old(io)@.pending.contains_key(completions@[at].user_ctx)
                &&& answers@[i].0 == old(io)@.pending[completions@[at].user_ctx]
                &&& answers@[i].1 is Ok <==> completions@[at].status == 0
            },
        !final(ending)@.pending.contains_key(token),
        0 <= i < cut@.len() ==> cut@[i].1 is Err,
        old(io)@.pending.dom().finite() ==> cut@.len() == old(io)@.pending.dom().len(),
{
    let pending = old(io)@.pending;
    law_slots_leave_with_their_completion(pending, completions@, token);
    let from = lemma_resolving(pending, completions@);
    if 0 <= i < answers@.len() {
        let at = from[i];
        assert(resolved(pending, completions@)[i] == (
            pending[completions@[at].user_ctx],
            completions@[at],
        ));
        assert(is_first(completions@, at));
        assert(answers@[i].0 == pending[completions@[at].user_ctx]);
    }
    let still = still_pending(pending, completions@);
    let rest = choose|rest: Seq<u64>|
        {
            &&& #[trigger] rest.no_duplicates()
            &&& rest.to_set() == still.dom()
            &&& answer_cut_short(
                cut@,
                resolved_slots(pending, completions@) + slots_of(still, rest),
            )
        };
    rest.unique_seq_to_set();
    if pending.dom().finite() {
        lemma_slots_are_counted(pending, completions@);
    }
}

/// Every slot is either resolved or still pending.
proof fn lemma_slots_are_counted<S>(pending: Map<u64, S>, completions: Seq<UrmaCompletion>)
    requires
        pending.dom().finite(),
    ensures
        still_pending(pending, completions).dom().finite(),
        resolved(pending, completions).len() + still_pending(pending, completions).dom().len()
            == pending.dom().len(),
    decreases completions.len(),
{
    if completions.len() > 0 {
        let init = completions.drop_last();
        lemma_slots_are_counted(pending, init);
        let before = still_pending(pending, init);
        let token = completions.last().user_ctx;
        assert(still_pending(pending, completions).dom() =~= before.dom().remove(token));
    }
}

} // verus!
