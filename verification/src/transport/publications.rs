//! Publications and unpublications side by side: what all of them together
//! keep, in whatever order their steps are taken.
use crate::catalog::StorePut;
use crate::transport::fetch::chunks;
use crate::transport::locator::{LocatorView, ResolvedFetch, UbLocator};
use crate::transport::publish::{
    bytes_stored, publish_begins, publish_expects, publish_goes_on, publish_sound,
    published_descriptor, unpublish_expects, unpublish_goes_on, PublishEvent, PublishStep,
    UnpublishEvent, UnpublishStep,
};
use crate::transport::{PublishedRegion, TransportView, LOCATOR_VERSION};
use crate::types::{DescriptorView, P2pPublishRequest};
use vstd::prelude::*;

verus! {

/// A transport, the memory of its arena, and what is under way in it.
#[verifier::ext_equal]
pub ghost struct Activity {
    pub transport: TransportView,
    pub memory: Seq<u8>,
    /// Publications: what is published, and the step each has come to.
    pub publishing: Seq<(P2pPublishRequest, PublishStep)>,
    /// Unpublications: the key, and the step each has come to.
    pub unpublishing: Seq<(Seq<char>, UnpublishStep)>,
}

/// What happens next in a transport.
pub ghost enum Move {
    /// A publication starts.
    StartPublish { request: P2pPublishRequest, step: PublishStep },
    /// A publication goes on with what its step came to.
    Publish { at: int, event: PublishEvent },
    /// An unpublication starts.
    StartUnpublish { key: Seq<char> },
    /// An unpublication goes on with what its step came to.
    Unpublish { at: int, event: UnpublishEvent },
    /// Something is looked up or fetched: at most bounce blocks change hands.
    Read,
}

/// Who answers for the memory of an artifact: the publication that brings it
/// in, the catalog entry that lists it, or the unpublication that takes it
/// away.
pub ghost enum Holder {
    Publishing(int),
    Listed(Seq<char>),
    Unpublishing(int),
}

/// The locator in a descriptor. `parse` is how locator texts are read.
pub open spec fn located(
    parse: spec_fn(Seq<char>) -> LocatorView,
    descriptor: DescriptorView,
) -> LocatorView {
    parse(descriptor.backend_locator->0)
}

/// An address inside the arena's mapping.
pub open spec fn in_arena(transport: TransportView, va: u64) -> bool {
    transport.arena.map.base <= va < transport.arena.map.base + transport.arena.map.len
}

/// A region that backs the artifact at a locator: its place in the arena,
/// below the next free one, or a file's mapping of its size outside the arena.
pub open spec fn backs(
    transport: TransportView,
    region: PublishedRegion,
    locator: LocatorView,
) -> bool {
    match region {
        PublishedRegion::Arena { offset } => {
            &&& in_arena(transport, locator.base_va)
            &&& locator.base_va == transport.arena.map.base + offset
            &&& offset + locator.size <= transport.arena.cursor
        },
        PublishedRegion::File(map) => {
            &&& !in_arena(transport, locator.base_va)
            &&& map.len == locator.size
        },
    }
}

impl Activity {
    /// The artifact that a holder answers for.
    pub open spec fn holds(
        self,
        parse: spec_fn(Seq<char>) -> LocatorView,
        holder: Holder,
    ) -> Option<LocatorView> {
        match holder {
            Holder::Publishing(i) => if 0 <= i < self.publishing.len() {
                match self.publishing[i].1 {
                    PublishStep::SerializeLocator { locator, .. } => Some(locator@),
                    PublishStep::Persist { descriptor, .. } => Some(located(parse, descriptor@)),
                    _ => None,
                }
            } else {
                None
            },
            Holder::Listed(key) => match self.transport.catalog.entry(key) {
                Some(entry) => Some(located(parse, entry)),
                None => None,
            },
            Holder::Unpublishing(i) => if 0 <= i < self.unpublishing.len() {
                match self.unpublishing[i].1 {
                    UnpublishStep::ParseLocator { descriptor } => Some(
                        located(parse, descriptor@),
                    ),
                    _ => None,
                }
            } else {
                None
            },
        }
    }

    /// The region of a publication that is not among the published regions
    /// yet.
    pub open spec fn incoming(self, holder: Holder) -> Option<PublishedRegion> {
        match holder {
            Holder::Publishing(i) => match self.publishing[i].1 {
                PublishStep::SerializeLocator { region, .. } => Some(region),
                _ => None,
            },
            _ => None,
        }
    }

    /// A nonempty artifact has its own memory, which is published unless it
    /// is only just coming in.
    pub open spec fn keeps(self, holder: Holder, locator: LocatorView) -> bool {
        let regions = self.transport.regions;
        &&& locator.v == LOCATOR_VERSION
        &&& locator.size > 0
        &&& match self.incoming(holder) {
            Some(region) => !regions.contains_key(locator.base_va) && backs(
                self.transport,
                region,
                locator,
            ),
            None => regions.contains_key(locator.base_va) && backs(
                self.transport,
                regions[locator.base_va],
                locator,
            ),
        }
    }

    /// A published region lies in the used part of the arena or outside of
    /// it.
    pub open spec fn settled(self, va: u64) -> bool {
        match self.transport.regions[va] {
            PublishedRegion::Arena { .. } => in_arena(self.transport, va) && va
                < self.transport.arena.map.base + self.transport.arena.cursor,
            PublishedRegion::File(_) => !in_arena(self.transport, va),
        }
    }

    /// A publication that persists its descriptor describes itself.
    pub open spec fn describes(
        self,
        parse: spec_fn(Seq<char>) -> LocatorView,
        i: int,
    ) -> bool {
        let (request, step) = self.publishing[i];
        &&& publish_sound(self.transport, step)
        &&& step matches PublishStep::Persist { descriptor, base_va } ==> {
            &&& descriptor@.backend_locator is Some
            &&& descriptor@ == published_descriptor(
                request,
                descriptor@.backend_locator->0,
            )
            &&& located(parse, descriptor@).base_va == base_va
        }
    }

    /// What holds of a transport at every time: each artifact has memory of
    /// its own, and no two of them share an address, whether listed in the
    /// catalog, coming in or going out.
    pub open spec fn apart(self, parse: spec_fn(Seq<char>) -> LocatorView) -> bool {
        let entries = self.transport.catalog.entries;
        &&& self.transport.inv()
        &&& self.memory.len() == self.transport.arena.map.len
        &&& forall|va: u64| #[trigger]
            self.transport.regions.contains_key(va) ==> self.settled(va)
        &&& forall|i: int|
            #![trigger self.publishing[i]]
            0 <= i < self.publishing.len() ==> self.describes(parse, i)
        &&& forall|key: Seq<char>| #[trigger]
            entries.contains_key(key) ==> {
                &&& entries[key].key == key
                &&& entries[key].backend_locator is Some
                &&& crate::transport::locator::has_local(entries[key].providers)
            }
        &&& forall|i: int|
            #![trigger self.unpublishing[i]]
            0 <= i < self.unpublishing.len() ==> (self.unpublishing[i].1 matches
                UnpublishStep::ParseLocator { descriptor } ==> descriptor@.backend_locator is Some)
        &&& forall|holder: Holder|
            (#[trigger] self.holds(parse, holder)) matches Some(locator) ==> self.keeps(
                holder,
                locator,
            )
        &&& forall|one: Holder, other: Holder|
            #![trigger self.holds(parse, one), self.holds(parse, other)]
            one != other && self.holds(parse, one) is Some && self.holds(parse, other) is Some
                ==> self.holds(parse, one)->0.base_va != self.holds(parse, other)->0.base_va
    }

    /// Memory that is mapped afresh: it lies outside everything that is
    /// mapped already.
    pub open spec fn fresh(self, va: u64) -> bool {
        &&& !in_arena(self.transport, va)
        &&& !self.transport.regions.contains_key(va)
        &&& forall|i: int|
            #![trigger self.publishing[i]]
            0 <= i < self.publishing.len() ==> (self.publishing[i].1 matches
                PublishStep::SerializeLocator { locator, .. } ==> locator.base_va != va)
    }

    /// What the world around the transport sees to: a locator is read back as
    /// it was written, and a file is mapped afresh. Nothing empty is
    /// published.
    pub open spec fn befalls(
        self,
        parse: spec_fn(Seq<char>) -> LocatorView,
        now: PublishStep,
        event: PublishEvent,
    ) -> bool {
        match (now, event) {
            (PublishStep::CopyBytes { bytes }, PublishEvent::Ready) => 0 < bytes@.len()
                <= usize::MAX,
            (PublishStep::ReadFile { .. }, PublishEvent::Read(Ok(bytes))) => 0 < bytes@.len()
                <= usize::MAX,
            (PublishStep::RegisterFile { .. }, PublishEvent::Registered(Ok(region))) => self.fresh(
                region.base_va,
            ),
            (PublishStep::SerializeLocator { locator, .. }, PublishEvent::Serialized(Ok(text))) => {
                parse(text@) == locator@
            },
            (_, _) => true,
        }
    }

    /// How a transport with everything under way in it goes on.
    pub open spec fn goes_on(
        self,
        parse: spec_fn(Seq<char>) -> LocatorView,
        step: Move,
        after: Activity,
    ) -> bool {
        match step {
            Move::StartPublish { request, step } => {
                &&& publish_begins(request, step)
                &&& after == (Activity { publishing: self.publishing.push((request, step)), ..self })
            },
            Move::Publish { at, event } => {
                let (request, now) = self.publishing[at];
                let next = after.publishing[at].1;
                &&& 0 <= at < self.publishing.len()
                &&& publish_expects(now, event)
                &&& self.befalls(parse, now, event)
                &&& publish_goes_on(
                    self.transport,
                    self.memory,
                    request,
                    now,
                    event,
                    after.transport,
                    after.memory,
                    next,
                )
                &&& after.transport.inv()
                &&& publish_sound(after.transport, next)
                &&& after.publishing == self.publishing.update(at, (request, next))
                &&& after.unpublishing == self.unpublishing
            },
            Move::StartUnpublish { key } => after == (Activity {
                unpublishing: self.unpublishing.push((key, UnpublishStep::Delete)),
                ..self
            }),
            Move::Unpublish { at, event } => {
                let (key, now) = self.unpublishing[at];
                let next = after.unpublishing[at].1;
                &&& 0 <= at < self.unpublishing.len()
                &&& unpublish_expects(now, event)
                &&& (now, event) matches (
                    UnpublishStep::ParseLocator { descriptor },
                    UnpublishEvent::Parsed(Ok(locator)),
                ) ==> locator@ == located(parse, descriptor@)
                &&& unpublish_goes_on(
                    self.transport,
                    key,
                    now,
                    event,
                    after.transport,
                    next,
                )
                &&& after.transport.inv()
                &&& after.memory == self.memory
                &&& after.publishing == self.publishing
                &&& after.unpublishing == self.unpublishing.update(at, (key, next))
            },
            Move::Read => {
                &&& after.transport == (TransportView {
                    bounce: after.transport.bounce,
                    ..self.transport
                })
                &&& after.transport.inv()
                &&& after == (Activity { transport: after.transport, ..self })
            },
        }
    }

    /// Whether a move is one of a publication or unpublication of `key`.
    pub open spec fn concerns(self, step: Move, key: Seq<char>) -> bool {
        match step {
            Move::Publish { at, .. } => self.publishing[at].0.key@ == key,
            Move::Unpublish { at, .. } => self.unpublishing[at].0 == key,
            _ => false,
        }
    }
}

/// Storing bytes writes them into free space: what lies below is left alone,
/// and the free space begins behind them.
proof fn lemma_stored(
    before: TransportView,
    memory: Seq<u8>,
    bytes: Seq<u8>,
    after: TransportView,
    memory_after: Seq<u8>,
    next: PublishStep,
)
    requires
        before.inv(),
        memory.len() == before.arena.map.len,
        0 < bytes.len() <= usize::MAX,
        bytes_stored(before, memory, bytes, after, memory_after, next),
    ensures
        memory_after.len() == memory.len(),
        before.arena.cursor <= after.arena.cursor,
        forall|i: int|
            0 <= i < before.arena.cursor ==> #[trigger] memory_after[i] == memory[i],
        before.arena.fits(bytes.len() as u64) ==> before.arena.cursor + bytes.len()
            <= after.arena.cursor <= before.arena.map.len,
{
    crate::store::lemma_aligned(
        (bytes.len() as u64) as int,
        crate::store::ALLOC_ALIGN as int,
    );
}

/// What every move leaves as it is: the arena's place, and the memory in use.
proof fn lemma_used_memory_stays(
    parse: spec_fn(Seq<char>) -> LocatorView,
    before: Activity,
    step: Move,
    after: Activity,
)
    requires
        before.transport.inv(),
        before.memory.len() == before.transport.arena.map.len,
        before.goes_on(parse, step, after),
    ensures
        after.transport.arena.map == before.transport.arena.map,
        before.transport.arena.cursor <= after.transport.arena.cursor,
        after.memory.len() == before.memory.len(),
        forall|i: int|
            0 <= i < before.transport.arena.cursor ==> #[trigger] after.memory[i]
                == before.memory[i],
{
    if let Move::Publish { at, event } = step {
        let (request, now) = before.publishing[at];
        let next = after.publishing[at].1;
        if let PublishEvent::Read(Ok(bytes)) = event {
            lemma_stored(
                before.transport,
                before.memory,
                bytes@,
                after.transport,
                after.memory,
                next,
            );
        }
        if let PublishStep::CopyBytes { bytes } = now {
            lemma_stored(
                before.transport,
                before.memory,
                bytes@,
                after.transport,
                after.memory,
                next,
            );
        }
    }
}

/// A step of a publication keeps all artifacts apart: new memory is memory
/// that nothing else uses, and memory that is given up was used by nothing
/// else.
proof fn lemma_publish_stays_apart(
    parse: spec_fn(Seq<char>) -> LocatorView,
    before: Activity,
    at: int,
    event: PublishEvent,
    after: Activity,
)
    requires
        before.apart(parse),
        before.goes_on(parse, Move::Publish { at, event }, after),
    ensures
        after.apart(parse),
{
    let step = Move::Publish { at, event };
    let (request, now) = before.publishing[at];
    let next = after.publishing[at].1;
    let mine = Holder::Publishing(at);
    let listed = Holder::Listed(request.key@);
    let handed_over = now is Persist && event == PublishEvent::Persisted(StorePut::Stored);
    let (t, u) = (before.transport, after.transport);
    lemma_used_memory_stays(parse, before, step, after);
    assert(before.describes(parse, at));
    assert(before.holds(parse, mine) matches Some(locator) ==> before.keeps(mine, locator));
    assert forall|i: int| 0 <= i < after.publishing.len() && i != at implies #[trigger]
        after.publishing[i] == before.publishing[i] by {}
    assert forall|i: int|
        #![trigger after.publishing[i]]
        0 <= i < after.publishing.len() implies after.describes(parse, i) by {
        if i != at {
            assert(before.describes(parse, i));
        }
    }
    assert forall|holder: Holder|
        holder != mine && !(handed_over && holder == listed) implies #[trigger] after.holds(
        parse,
        holder,
    ) == before.holds(parse, holder) && (after.holds(parse, holder) is Some ==> after.incoming(
        holder,
    ) == before.incoming(holder)) by {
        if let Holder::Listed(key) = holder {
            if handed_over {
                assert(u.catalog.entries.contains_key(key) == t.catalog.entries.contains_key(key));
            }
        }
    }
    assert forall|holder: Holder|
        (#[trigger] after.holds(parse, holder)) matches Some(locator) implies after.keeps(
        holder,
        after.holds(parse, holder)->0,
    ) by {
        let locator = after.holds(parse, holder)->0;
        if holder == mine {
            assert(after.keeps(holder, locator));
        } else if handed_over && holder == listed {
            assert(Some(locator) == before.holds(parse, mine));
        } else {
            assert(before.keeps(holder, locator));
            if before.holds(parse, mine) is Some {
                assert(before.holds(parse, mine)->0.base_va != locator.base_va);
            }
        }
    }
    assert forall|one: Holder, other: Holder|
        #![trigger after.holds(parse, one), after.holds(parse, other)]
        one != other && after.holds(parse, one) is Some && after.holds(parse, other)
            is Some implies after.holds(parse, one)->0.base_va != after.holds(
        parse,
        other,
    )->0.base_va by {
        assert(before.holds(parse, one) is Some ==> before.keeps(
            one,
            before.holds(parse, one)->0,
        ));
        assert(before.holds(parse, other) is Some ==> before.keeps(
            other,
            before.holds(parse, other)->0,
        ));
    }
    assert forall|va: u64| #[trigger] u.regions.contains_key(va) implies after.settled(va) by {
        if t.regions.contains_key(va) {
            assert(before.settled(va));
        }
    }
    if let PublishStep::Persist { descriptor, .. } = now {
        assert(descriptor@.providers[0] is Local);
        assert(crate::transport::locator::has_local(descriptor@.providers));
    }
    assert forall|key: Seq<char>| #[trigger] u.catalog.entries.contains_key(key) implies {
        let entry = u.catalog.entries[key];
        &&& entry.key == key
        &&& entry.backend_locator is Some
        &&& crate::transport::locator::has_local(entry.providers)
    } by {
        if !(handed_over && key == request.key@) {
            assert(t.catalog.entries.contains_key(key));
        }
    }
}

/// A step of an unpublication keeps all artifacts apart: it gives up the
/// memory of its own artifact only.
proof fn lemma_unpublish_stays_apart(
    parse: spec_fn(Seq<char>) -> LocatorView,
    before: Activity,
    at: int,
    event: UnpublishEvent,
    after: Activity,
)
    requires
        before.apart(parse),
        before.goes_on(parse, Move::Unpublish { at, event }, after),
    ensures
        after.apart(parse),
{
    let (key, now) = before.unpublishing[at];
    let mine = Holder::Unpublishing(at);
    let listed = Holder::Listed(key);
    let (t, u) = (before.transport, after.transport);
    let taken_out = now is Delete && (event matches UnpublishEvent::Deleted(Ok(_)));
    assert(before.holds(parse, mine) matches Some(locator) ==> before.keeps(mine, locator));
    assert(before.holds(parse, listed) matches Some(locator) ==> before.keeps(listed, locator));
    assert forall|i: int| 0 <= i < after.publishing.len() implies after.describes(parse, i) by {
        assert(before.describes(parse, i));
    }
    assert forall|i: int| 0 <= i < after.unpublishing.len() && i != at implies #[trigger]
        after.unpublishing[i] == before.unpublishing[i] by {}
    assert forall|holder: Holder|
        holder != mine && !(taken_out && holder == listed) implies #[trigger] after.holds(
        parse,
        holder,
    ) == before.holds(parse, holder) && after.incoming(holder) == before.incoming(holder) by {
        if let Holder::Listed(other) = holder {
            assert(u.catalog.entries.contains_key(other) == t.catalog.entries.contains_key(other));
        }
    }
    assert forall|holder: Holder|
        (#[trigger] after.holds(parse, holder)) matches Some(locator) implies after.keeps(
        holder,
        after.holds(parse, holder)->0,
    ) by {
        let locator = after.holds(parse, holder)->0;
        if holder == mine {
            assert(before.holds(parse, listed) == Some(locator));
        } else {
            assert(before.keeps(holder, locator));
            if before.holds(parse, mine) is Some {
                assert(before.holds(parse, mine)->0.base_va != locator.base_va);
            }
        }
    }
    assert forall|one: Holder, other: Holder|
        #![trigger after.holds(parse, one), after.holds(parse, other)]
        one != other && after.holds(parse, one) is Some && after.holds(parse, other)
            is Some implies after.holds(parse, one)->0.base_va != after.holds(
        parse,
        other,
    )->0.base_va by {
        assert(before.holds(parse, one) is Some ==> before.keeps(
            one,
            before.holds(parse, one)->0,
        ));
        assert(before.holds(parse, other) is Some ==> before.keeps(
            other,
            before.holds(parse, other)->0,
        ));
    }
    assert forall|va: u64| #[trigger] u.regions.contains_key(va) implies after.settled(va) by {
        assert(before.settled(va));
    }
}

/// Everything that only adds to what is under way, or moves bounce blocks,
/// keeps all artifacts apart.
proof fn lemma_start_stays_apart(
    parse: spec_fn(Seq<char>) -> LocatorView,
    before: Activity,
    step: Move,
    after: Activity,
)
    requires
        before.apart(parse),
        before.goes_on(parse, step, after),
        !(step is Publish),
        !(step is Unpublish),
    ensures
        after.apart(parse),
{
    let (t, u) = (before.transport, after.transport);
    assert forall|holder: Holder| #[trigger]
        after.holds(parse, holder) == before.holds(parse, holder) && (after.holds(parse, holder)
            is Some ==> after.incoming(holder) == before.incoming(holder)) by {
        assert(u.catalog == t.catalog);
    }
    assert forall|holder: Holder|
        (#[trigger] after.holds(parse, holder)) matches Some(locator) implies after.keeps(
        holder,
        after.holds(parse, holder)->0,
    ) by {
        assert(before.keeps(holder, before.holds(parse, holder)->0));
    }
    assert forall|one: Holder, other: Holder|
        #![trigger after.holds(parse, one), after.holds(parse, other)]
        one != other && after.holds(parse, one) is Some && after.holds(parse, other)
            is Some implies after.holds(parse, one)->0.base_va != after.holds(
        parse,
        other,
    )->0.base_va by {
        assert(before.holds(parse, one) is Some && before.holds(parse, other) is Some);
    }
    assert forall|i: int|
        #![trigger after.publishing[i]]
        0 <= i < after.publishing.len() implies after.describes(parse, i) by {
        if i < before.publishing.len() {
            assert(before.describes(parse, i));
        }
    }
    assert forall|i: int|
        #![trigger after.unpublishing[i]]
        0 <= i < after.unpublishing.len() implies (after.unpublishing[i].1 matches
        UnpublishStep::ParseLocator { descriptor } ==> descriptor@.backend_locator is Some) by {
        if i < before.unpublishing.len() {
            assert(after.unpublishing[i] == before.unpublishing[i]);
        }
    }
    assert forall|va: u64| #[trigger] u.regions.contains_key(va) implies after.settled(va) by {
        assert(before.settled(va));
    }
}

/// Where nothing has been published, all artifacts are apart.
pub proof fn law_fresh_transport_is_apart(
    parse: spec_fn(Seq<char>) -> LocatorView,
    fresh: Activity,
)
    requires
        fresh.transport.inv(),
        fresh.memory.len() == fresh.transport.arena.map.len,
        fresh.transport.regions == Map::<u64, PublishedRegion>::empty(),
        fresh.transport.catalog.entries == Map::<Seq<char>, DescriptorView>::empty(),
        fresh.publishing.len() == 0,
        fresh.unpublishing.len() == 0,
    ensures
        fresh.apart(parse),
{
    assert forall|holder: Holder| (#[trigger] fresh.holds(parse, holder)) is None by {}
}

/// Artifacts never share an address: whatever is published and unpublished,
/// in whatever order the steps are taken, every artifact that is listed,
/// coming in or going out keeps memory of its own. In particular the entries
/// of two keys lie apart, and each of them is backed by a published region.
pub proof fn law_artifacts_stay_apart(
    parse: spec_fn(Seq<char>) -> LocatorView,
    before: Activity,
    step: Move,
    after: Activity,
    one: Seq<char>,
    other: Seq<char>,
)
    requires
        before.apart(parse),
        before.goes_on(parse, step, after),
    ensures
        after.apart(parse),
        after.transport.catalog.entry(one) matches Some(entry) ==> {
            let locator = located(parse, entry);
            &&& after.transport.regions.contains_key(locator.base_va)
            &&& backs(after.transport, after.transport.regions[locator.base_va], locator)
        },
        one != other && after.transport.catalog.entry(one) is Some
            && after.transport.catalog.entry(other) is Some ==> located(
            parse,
            after.transport.catalog.entry(one)->0,
        ).base_va != located(parse, after.transport.catalog.entry(other)->0).base_va,
{
    match step {
        Move::Publish { at, event } => {
            lemma_publish_stays_apart(parse, before, at, event, after);
        },
        Move::Unpublish { at, event } => {
            lemma_unpublish_stays_apart(parse, before, at, event, after);
        },
        _ => {
            lemma_start_stays_apart(parse, before, step, after);
        },
    }
    let held = after.holds(parse, Holder::Listed(one));
    let held_other = after.holds(parse, Holder::Listed(other));
    assert(held matches Some(locator) ==> after.keeps(Holder::Listed(one), locator));
}

/// A move that does not concern a key leaves its entry, its region and its
/// memory as they are.
proof fn lemma_entry_stays(
    parse: spec_fn(Seq<char>) -> LocatorView,
    before: Activity,
    step: Move,
    after: Activity,
    key: Seq<char>,
)
    requires
        before.apart(parse),
        before.goes_on(parse, step, after),
        !before.concerns(step, key),
        before.transport.catalog.entry(key) is Some,
    ensures
        after.transport.catalog.entry(key) == before.transport.catalog.entry(key),
        ({
            let va = located(parse, before.transport.catalog.entry(key)->0).base_va;
            &&& after.transport.regions.contains_key(va)
            &&& after.transport.regions[va] == before.transport.regions[va]
        }),
{
    let listed = Holder::Listed(key);
    let locator = before.holds(parse, listed)->0;
    let (t, u) = (before.transport, after.transport);
    assert(before.keeps(listed, locator));
    if let Move::Publish { at, event } = step {
        let mine = Holder::Publishing(at);
        assert(before.describes(parse, at));
        if before.holds(parse, mine) is Some {
            assert(before.holds(parse, mine)->0.base_va != locator.base_va);
        }
    }
    if let Move::Unpublish { at, event } = step {
        let mine = Holder::Unpublishing(at);
        if before.holds(parse, mine) is Some {
            assert(before.holds(parse, mine)->0.base_va != locator.base_va);
        }
    }
}

/// A history of a transport: its states, and the moves between them.
pub open spec fn is_history(
    parse: spec_fn(Seq<char>) -> LocatorView,
    states: Seq<Activity>,
    moves: Seq<Move>,
) -> bool {
    &&& states.len() == moves.len() + 1
    &&& forall|i: int|
        #![trigger moves[i]]
        0 <= i < moves.len() ==> states[i].goes_on(parse, moves[i], states[i + 1])
}

/// Every state of a history is like the first in what no move changes.
proof fn lemma_history(
    parse: spec_fn(Seq<char>) -> LocatorView,
    states: Seq<Activity>,
    moves: Seq<Move>,
    n: int,
)
    requires
        is_history(parse, states, moves),
        states[0].apart(parse),
        0 <= n < states.len(),
    ensures
        states[n].apart(parse),
        states[n].transport.arena.map == states[0].transport.arena.map,
        states[0].transport.arena.cursor <= states[n].transport.arena.cursor,
        states[n].memory.len() == states[0].memory.len(),
        forall|i: int|
            0 <= i < states[0].transport.arena.cursor ==> #[trigger] states[n].memory[i]
                == states[0].memory[i],
    decreases n,
{
    if n > 0 {
        lemma_history(parse, states, moves, n - 1);
        let (before, after) = (states[n - 1], states[n]);
        assert(before.goes_on(parse, moves[n - 1], after));
        lemma_used_memory_stays(parse, before, moves[n - 1], after);
        law_artifacts_stay_apart(
            parse,
            before,
            moves[n - 1],
            after,
            Seq::empty(),
            Seq::empty(),
        );
    }
}

/// Memory that artifacts use is never written again: through all that is
/// published and unpublished later, it keeps its bytes.
pub proof fn law_used_memory_keeps_its_bytes(
    parse: spec_fn(Seq<char>) -> LocatorView,
    states: Seq<Activity>,
    moves: Seq<Move>,
    offset: int,
    len: int,
)
    requires
        is_history(parse, states, moves),
        states[0].apart(parse),
        0 <= offset,
        0 <= len,
        offset + len <= states[0].transport.arena.cursor,
    ensures
        states.last().memory.subrange(offset, offset + len) == states[0].memory.subrange(
            offset,
            offset + len,
        ),
{
    lemma_history(parse, states, moves, moves.len() as int);
    assert(states.last().memory.subrange(offset, offset + len) =~= states[0].memory.subrange(
        offset,
        offset + len,
    ));
}

/// The entry and the region of a key that nothing concerns last.
proof fn lemma_entry_lasts(
    parse: spec_fn(Seq<char>) -> LocatorView,
    states: Seq<Activity>,
    moves: Seq<Move>,
    key: Seq<char>,
    n: int,
)
    requires
        is_history(parse, states, moves),
        states[0].apart(parse),
        forall|i: int|
            #![trigger moves[i]]
            0 <= i < moves.len() ==> !states[i].concerns(moves[i], key),
        states[0].transport.catalog.entry(key) is Some,
        0 <= n < states.len(),
    ensures
        states[n].transport.catalog.entry(key) == states[0].transport.catalog.entry(key),
        ({
            let va = located(parse, states[0].transport.catalog.entry(key)->0).base_va;
            &&& states[n].transport.regions.contains_key(va)
            &&& states[n].transport.regions[va] == states[0].transport.regions[va]
        }),
    decreases n,
{
    if n > 0 {
        lemma_entry_lasts(parse, states, moves, key, n - 1);
        lemma_history(parse, states, moves, n - 1);
        assert(!states[n - 1].concerns(moves[n - 1], key));
        lemma_entry_stays(parse, states[n - 1], moves[n - 1], states[n], key);
    } else {
        let listed = Holder::Listed(key);
        assert(states[0].keeps(listed, states[0].holds(parse, listed)->0));
    }
}

/// The memory that an artifact is read from: the arena's, or that of the file
/// behind it.
pub open spec fn source_memory(state: Activity, va: u64, file: Seq<u8>) -> Seq<u8> {
    match state.transport.regions[va] {
        PublishedRegion::Arena { .. } => state.memory,
        PublishedRegion::File(_) => file,
    }
}

/// A published artifact stays: through any later publications and
/// unpublications of other keys, in whatever order their steps are taken,
/// looking its key up finds the same descriptor, and fetching it delivers any
/// range of the same bytes from local memory, whatever the chunk size. A peer
/// that reads the provider's arena at the artifact's place finds the same
/// bytes too.
///
/// `bytes` are the artifact's when the history begins; `file` is what a file
/// published by reference holds, and `parsed` the locator as it is read from
/// the descriptor.
pub proof fn law_published_artifacts_stay(
    parse: spec_fn(Seq<char>) -> LocatorView,
    states: Seq<Activity>,
    moves: Seq<Move>,
    key: Seq<char>,
    file: Seq<u8>,
    bytes: Seq<u8>,
    parsed: UbLocator,
    resolved: ResolvedFetch,
    offset: nat,
    len: nat,
    chunk: nat,
)
    requires
        is_history(parse, states, moves),
        states[0].apart(parse),
        forall|i: int|
            #![trigger moves[i]]
            0 <= i < moves.len() ==> !states[i].concerns(moves[i], key),
        states[0].transport.catalog.entry(key) is Some,
        ({
            let entry = states[0].transport.catalog.entry(key)->0;
            let va = parsed.base_va;
            let start = states[0].transport.local_start(va, 0);
            let memory = source_memory(states[0], va, file);
            &&& parsed@ == located(parse, entry)
            &&& crate::transport::locator::is_resolved(entry, parsed, resolved)
            &&& states[0].transport.regions[va] is File ==> file.len() == parsed.size
            &&& bytes == memory.subrange(start, start + parsed.size)
        }),
        offset + len <= bytes.len(),
        chunk > 0,
    ensures
        ({
            let last = states.last();
            let entry = states[0].transport.catalog.entry(key)->0;
            let va = parsed.base_va;
            &&& last.transport.lookup_begins(key) == crate::transport::lookup::LookupView::Done(
                Some(entry),
            )
            &&& crate::transport::locator::fetch_error(entry, Ok(parsed)) is None
            &&& resolved == (ResolvedFetch::Local { base_va: va, size: parsed.size })
            &&& bytes.len() == parsed.size
            &&& last.transport.regions.contains_key(va)
            &&& last.transport.local_len(va) == source_memory(last, va, file).len()
            &&& last.transport.delivered(
                source_memory(last, va, file),
                va,
                chunks(offset, len, chunk),
            ) == bytes.subrange(offset as int, (offset + len) as int)
            &&& last.transport.regions[va] is Arena ==> ({
                let at = va - last.transport.arena.map.base;
                last.memory.subrange(at, at + parsed.size) == bytes
            })
        }),
{
    let n = moves.len() as int;
    let (first, last) = (states[0], states[n]);
    let entry = first.transport.catalog.entry(key)->0;
    let va = parsed.base_va;
    let listed = Holder::Listed(key);
    lemma_history(parse, states, moves, n);
    lemma_entry_lasts(parse, states, moves, key, n);
    assert(first.keeps(listed, first.holds(parse, listed)->0));
    assert(last.keeps(listed, last.holds(parse, listed)->0));
    assert(first.transport.catalog.entries.contains_key(key));
    let start = last.transport.local_start(va, 0);
    let memory = source_memory(last, va, file);
    assert(memory.subrange(start, start + parsed.size) =~= bytes);
    crate::transport::fetch::law_local_fetch_delivers_range(
        last.transport,
        memory,
        va,
        offset,
        len,
        chunk,
    );
    assert(memory.subrange(start + offset, start + offset + len) =~= bytes.subrange(
        offset as int,
        (offset + len) as int,
    ));
}

/// Whatever is listed is what was stored: if bytes have been stored in the
/// arena at a locator, and at any later time the catalog lists that locator
/// under some key, fetching it delivers those bytes.
pub proof fn law_listed_artifacts_are_as_stored(
    parse: spec_fn(Seq<char>) -> LocatorView,
    states: Seq<Activity>,
    moves: Seq<Move>,
    at: int,
    key: Seq<char>,
    bytes: Seq<u8>,
    chunk: nat,
)
    requires
        is_history(parse, states, moves),
        states[0].apart(parse),
        0 <= at < states[0].publishing.len(),
        states[0].publishing[at].1 is SerializeLocator,
        states[0].publishing[at].1->region is Arena,
        ({
            let locator = states[0].publishing[at].1->locator;
            let offset = locator.base_va - states[0].transport.arena.map.base;
            &&& bytes == states[0].memory.subrange(offset, offset + locator.size)
            &&& states.last().transport.catalog.entry(key) matches Some(entry) && located(
                parse,
                entry,
            ) == locator@
        }),
        chunk > 0,
    ensures
        ({
            let va = states[0].publishing[at].1->locator.base_va;
            let last = states.last();
            &&& last.transport.regions.contains_key(va)
            &&& last.transport.local_len(va) == last.memory.len()
            &&& last.transport.delivered(last.memory, va, chunks(0, bytes.len(), chunk)) == bytes
        }),
{
    let n = moves.len() as int;
    let (first, last) = (states[0], states[n]);
    let locator = first.publishing[at].1->locator;
    let listed = Holder::Listed(key);
    let mine = Holder::Publishing(at);
    lemma_history(parse, states, moves, n);
    assert(first.keeps(mine, first.holds(parse, mine)->0));
    assert(last.keeps(listed, last.holds(parse, listed)->0));
    let start = last.transport.local_start(locator.base_va, 0);
    assert(last.memory.subrange(start, start + locator.size) =~= bytes);
    crate::transport::fetch::law_local_fetch_delivers_range(
        last.transport,
        last.memory,
        locator.base_va,
        0,
        bytes.len(),
        chunk,
    );
}

/// Two transports that back an address alike deliver the same from it.
proof fn lemma_delivers_alike(
    a: TransportView,
    b: TransportView,
    memory: Seq<u8>,
    base_va: u64,
    parts: Seq<(nat, nat)>,
)
    requires
        a.regions[base_va] == b.regions[base_va],
        a.arena.map == b.arena.map,
    ensures
        a.delivered(memory, base_va, parts) == b.delivered(memory, base_va, parts),
    decreases parts.len(),
{
    if parts.len() > 0 {
        lemma_delivers_alike(a, b, memory, base_va, parts.drop_first());
    }
}

/// Unpublishing a published artifact removes its catalog entry and its
/// region: neither this node nor a peer finds it any more. The region's
/// registration is given up if it was one of its own, then discovery is told
/// once, and the answer is that there was something to unpublish.
/// Unpublishing it again finds nothing and tells nobody.
///
/// Artifacts under other keys stay as they were: they are found as before,
/// and fetched to the same bytes from the same memory.
pub proof fn law_unpublished_artifact_is_gone(
    parse: spec_fn(Seq<char>) -> LocatorView,
    activity: Activity,
    key: Seq<char>,
    deleted: TransportView,
    parsing: UnpublishStep,
    locator: UbLocator,
    after: TransportView,
    next: UnpublishStep,
    again: TransportView,
    again_next: UnpublishStep,
    other: Seq<char>,
    memory: Seq<u8>,
    parts: Seq<(nat, nat)>,
)
    requires
        activity.apart(parse),
        activity.transport.catalog.entry(key) is Some,
        locator@ == located(parse, activity.transport.catalog.entry(key)->0),
        unpublish_goes_on(
            activity.transport,
            key,
            UnpublishStep::Delete,
            UnpublishEvent::Deleted(Ok(())),
            deleted,
            parsing,
        ),
        unpublish_goes_on(
            deleted,
            key,
            parsing,
            UnpublishEvent::Parsed(Ok(locator)),
            after,
            next,
        ),
        unpublish_goes_on(
            after,
            key,
            UnpublishStep::Delete,
            UnpublishEvent::Deleted(Ok(())),
            again,
            again_next,
        ),
        other != key,
    ensures
        after.catalog.entry(key) is None,
        after.catalog.served(key) is None,
        !after.regions.contains_key(locator.base_va),
        next is Unregister || next is Forget,
        next is Unregister <==> activity.transport.regions[locator.base_va] is File,
        forall|end: TransportView, last: UnpublishStep|
            next is Unregister && #[trigger] unpublish_goes_on(
                after,
                key,
                next,
                UnpublishEvent::Unregistered,
                end,
                last,
            ) ==> end == after && last == UnpublishStep::Forget,
        forall|end: TransportView, last: UnpublishStep|
            #[trigger] unpublish_goes_on(
                after,
                key,
                UnpublishStep::Forget,
                UnpublishEvent::Forgotten,
                end,
                last,
            ) ==> end == after && last == UnpublishStep::Done(true),
        again_next == UnpublishStep::Done(false),
        again.regions == after.regions,
        after.catalog.entry(other) == activity.transport.catalog.entry(other),
        after.catalog.served(other) == activity.transport.catalog.served(other),
        activity.transport.catalog.entry(other) matches Some(entry) ==> {
            let before = activity.transport;
            let kept = located(parse, entry).base_va;
            &&& after.regions.contains_key(kept)
            &&& after.regions[kept] == before.regions[kept]
            &&& after.local_len(kept) == before.local_len(kept)
            &&& after.delivered(memory, kept, parts) == before.delivered(memory, kept, parts)
        },
{
    let before = activity.transport;
    let (mine, others) = (Holder::Listed(key), Holder::Listed(other));
    assert(activity.keeps(mine, activity.holds(parse, mine)->0));
    assert(before.catalog.entries.contains_key(key));
    if let Some(entry) = before.catalog.entry(other) {
        let kept = located(parse, entry).base_va;
        assert(activity.keeps(others, activity.holds(parse, others)->0));
        assert(kept != locator.base_va);
        lemma_delivers_alike(after, before, memory, kept, parts);
    }
}

} // verus!
