//! Looking artifacts up: in the own catalog first, then at the peers.
use crate::error::{Error, ErrorView};
use crate::text::debug_quoted;
use crate::transport::{TransportView, UrmaP2pTransport, UB_BACKEND_ID};
use crate::types::{P2pArtifactDescriptor, P2pArtifactKey, P2pPeer};
use vstd::prelude::*;

verus! {

/// What a lookup does next.
#[derive(Debug)]
pub enum LookupStep {
    /// Ask peer discovery who holds the key.
    PeersForKey,
    /// Ask peer discovery for peers by the caller's hints.
    PeersWithHints,
    /// Ask the peer at index `at`.
    AskPeer { peers: Vec<P2pPeer>, at: usize },
    /// The lookup's result.
    Done(Option<P2pArtifactDescriptor>),
}

/// What a step of a lookup came to.
#[derive(Debug)]
pub enum LookupEvent {
    /// Peers that discovery named. A failure counts as none.
    Peers(Result<Vec<P2pPeer>, String>),
    /// The peer's answer. A failure is passed over.
    Answer(Result<Option<P2pArtifactDescriptor>, Error>),
}

/// A lookup, as the model sees it.
#[verifier::ext_equal]
pub ghost enum LookupView {
    PeersForKey,
    PeersWithHints,
    AskPeer { peers: Seq<crate::types::PeerView>, at: int },
    Done(Option<crate::types::DescriptorView>),
}

/// A list of peers, as the model sees it.
pub open spec fn peer_views(peers: Seq<P2pPeer>) -> Seq<crate::types::PeerView> {
    peers.map_values(|peer: P2pPeer| peer@)
}

impl View for LookupStep {
    type V = LookupView;

    open spec fn view(&self) -> LookupView {
        match self {
            LookupStep::PeersForKey => LookupView::PeersForKey,
            LookupStep::PeersWithHints => LookupView::PeersWithHints,
            LookupStep::AskPeer { peers, at } => LookupView::AskPeer {
                peers: peer_views(peers@),
                at: *at as int,
            },
            LookupStep::Done(found) => LookupView::Done(crate::catalog::descriptor_view(*found)),
        }
    }
}

/// Whether `event` can come of `now`.
pub open spec fn lookup_expects(now: LookupStep, event: LookupEvent) -> bool {
    match now {
        LookupStep::PeersForKey | LookupStep::PeersWithHints => event is Peers,
        LookupStep::AskPeer { peers, at } => event is Answer && at < peers@.len(),
        LookupStep::Done(_) => false,
    }
}

impl TransportView {
    /// Whether a peer is this node.
    pub open spec fn is_self(self, peer: crate::types::PeerView) -> bool {
        peer.node_id == self.node_id || peer.endpoint == self.endpoint
    }

    /// Where a lookup goes from the peer at index `at` on: this node is
    /// answered for from the catalog, and every other peer asked.
    pub open spec fn walk(
        self,
        key: Seq<char>,
        peers: Seq<crate::types::PeerView>,
        at: int,
    ) -> LookupView
        decreases peers.len() - at,
    {
        if at < 0 || at >= peers.len() {
            LookupView::Done(None)
        } else if !self.is_self(peers[at]) {
            LookupView::AskPeer { peers, at }
        } else if self.catalog.entry(key) is Some {
            LookupView::Done(self.catalog.entry(key))
        } else {
            self.walk(key, peers, at + 1)
        }
    }

    /// How a lookup starts: with the own catalog.
    pub open spec fn lookup_begins(self, key: Seq<char>) -> LookupView {
        if self.catalog.entry(key) is Some {
            LookupView::Done(self.catalog.entry(key))
        } else {
            LookupView::PeersForKey
        }
    }

    /// How a lookup goes on.
    pub open spec fn lookup_goes_on(
        self,
        key: Seq<char>,
        now: LookupView,
        event: LookupEvent,
    ) -> LookupView {
        match (now, event) {
            (LookupView::PeersForKey, LookupEvent::Peers(found)) => {
                if named_peers(found).len() == 0 {
                    LookupView::PeersWithHints
                } else {
                    self.walk(key, named_peers(found), 0)
                }
            },
            (LookupView::PeersWithHints, LookupEvent::Peers(found)) => self.walk(
                key,
                named_peers(found),
                0,
            ),
            (LookupView::AskPeer { peers, at }, LookupEvent::Answer(answer)) => match answer {
                Ok(Some(descriptor)) => LookupView::Done(Some(descriptor@)),
                _ => self.walk(key, peers, at + 1),
            },
            (_, _) => now,
        }
    }
}

/// The peers that discovery named; none if it failed.
pub open spec fn named_peers(found: Result<Vec<P2pPeer>, String>) -> Seq<crate::types::PeerView> {
    match found {
        Ok(peers) => peer_views(peers@),
        Err(_) => Seq::empty(),
    }
}

impl UrmaP2pTransport {
    /// Start looking an artifact up.
    pub fn lookup_with_hints(&self, key: &P2pArtifactKey) -> (next: LookupStep)
        ensures
            next@ == self@.lookup_begins(key@),
    {
        match self.catalog.descriptor_for(key) {
            Some(descriptor) => LookupStep::Done(Some(descriptor)),
            None => LookupStep::PeersForKey,
        }
    }

    fn walk_peers(&self, key: &P2pArtifactKey, peers: Vec<P2pPeer>, start: usize) -> (next:
        LookupStep)
        requires
            start <= peers@.len(),
        ensures
            next@ == self@.walk(key@, peer_views(peers@), start as int),
    {
        let mut at: usize = start;
        while at < peers.len()
            invariant
                start <= at <= peers@.len(),
                self@.walk(key@, peer_views(peers@), start as int) == self@.walk(
                    key@,
                    peer_views(peers@),
                    at as int,
                ),
            decreases peers@.len() - at,
        {
            let peer = &peers[at];
            assert(peer_views(peers@)[at as int] == peer@);
            if peer.node_id == self.node_id || peer.endpoint.same(&self.local_endpoint) {
                if let Some(descriptor) = self.catalog.descriptor_for(key) {
                    return LookupStep::Done(Some(descriptor));
                }
                at = at + 1;
            } else {
                return LookupStep::AskPeer { peers, at };
            }
        }
        LookupStep::Done(None)
    }

    /// Go on looking an artifact up with what the current step came to.
    pub fn advance_lookup(
        &self,
        key: &P2pArtifactKey,
        now: LookupStep,
        event: LookupEvent,
    ) -> (next: LookupStep)
        requires
            lookup_expects(now, event),
        ensures
            next@ == self@.lookup_goes_on(key@, now@, event),
    {
        match (now, event) {
            (LookupStep::PeersForKey, LookupEvent::Peers(Ok(peers))) => {
                if peers.len() == 0 {
                    LookupStep::PeersWithHints
                } else {
                    self.walk_peers(key, peers, 0)
                }
            },
            (LookupStep::PeersForKey, LookupEvent::Peers(Err(_))) => LookupStep::PeersWithHints,
            (LookupStep::PeersWithHints, LookupEvent::Peers(Ok(peers))) => self.walk_peers(
                key,
                peers,
                0,
            ),
            (LookupStep::PeersWithHints, LookupEvent::Peers(Err(_))) => LookupStep::Done(None),
            (
                LookupStep::AskPeer { .. },
                LookupEvent::Answer(Ok(Some(descriptor))),
            ) => LookupStep::Done(Some(descriptor)),
            (LookupStep::AskPeer { peers, at }, LookupEvent::Answer(_)) => {
                assert(at < peers.len());
                self.walk_peers(key, peers, at + 1)
            },
            (now, _) => now,
        }
    }
}

/// Why a peer cannot be asked, where `parsed` is what parsing its catalog
/// address came to.
pub open spec fn peer_error(peer: crate::types::PeerView, parsed: Result<(), String>) -> Option<
    Seq<char>,
> {
    if peer.endpoint.backend != UB_BACKEND_ID@ {
        Some(
            "peer "@ + peer.node_id + " endpoint backend "@ + peer.endpoint.backend + " is not "@
                + UB_BACKEND_ID@,
        )
    } else {
        match parsed {
            Ok(()) => None,
            Err(detail) => Some(
                "invalid ub peer address "@ + crate::text::debug_text(peer.endpoint.address)
                    + ": "@ + detail@,
            ),
        }
    }
}

/// Check that a peer can be asked over the catalog protocol; `parsed` is what
/// parsing its catalog address came to.
pub fn check_peer(peer: &P2pPeer, parsed: Result<(), String>) -> (checked: Result<(), Error>)
    ensures
        match checked {
            Ok(()) => peer_error(peer@, parsed) is None,
            Err(error) => peer_error(peer@, parsed) matches Some(reason) && error@ == (
            ErrorView::InvalidDescriptor { reason }),
        },
{
    if !(*peer.endpoint.backend.as_str() == *UB_BACKEND_ID) {
        let mut reason = "peer ".to_string();
        reason.append(peer.node_id.as_str());
        reason.append(" endpoint backend ");
        reason.append(peer.endpoint.backend.as_str());
        reason.append(" is not ");
        reason.append(UB_BACKEND_ID);
        return Err(Error::InvalidDescriptor { reason });
    }
    match parsed {
        Ok(()) => Ok(()),
        Err(detail) => {
            let mut reason = "invalid ub peer address ".to_string();
            reason.append(debug_quoted(peer.endpoint.address.as_str()).as_str());
            reason.append(": ");
            reason.append(detail.as_str());
            Err(Error::InvalidDescriptor { reason })
        },
    }
}

/// What asking a peer came to; `None` if it did not answer in time.
pub fn lookup_peer(answer: Option<Result<Option<P2pArtifactDescriptor>, Error>>) -> (result: Result<
    Option<P2pArtifactDescriptor>,
    Error,
>)
    ensures
        match answer {
            Some(answer) => result == answer,
            None => result matches Err(error) && error@ == (ErrorView::Timeout {
                operation: "lookup ub artifact from peer"@,
            }),
        },
{
    match answer {
        Some(answer) => answer,
        None => Err(Error::Timeout { operation: "lookup ub artifact from peer" }),
    }
}

/// What asking the peers in turn comes to, where `answers` gives the
/// descriptor that the peer at each index has, if it answers with one.
pub open spec fn asked_in_turn(
    transport: TransportView,
    key: Seq<char>,
    peers: Seq<crate::types::PeerView>,
    at: int,
    answers: spec_fn(int) -> Option<crate::types::DescriptorView>,
) -> Option<crate::types::DescriptorView>
    decreases peers.len() - at,
{
    if at < 0 || at >= peers.len() {
        None
    } else {
        match transport.walk(key, peers, at) {
            LookupView::AskPeer { at: asked, .. } => {
                if at <= asked < peers.len() {
                    match answers(asked) {
                        Some(descriptor) => Some(descriptor),
                        None => asked_in_turn(transport, key, peers, asked + 1, answers),
                    }
                } else {
                    None
                }
            },
            LookupView::Done(found) => found,
            _ => None,
        }
    }
}

/// This node is never asked over the network, and what the own catalog holds
/// is found there.
pub proof fn law_self_is_never_asked(
    transport: TransportView,
    key: Seq<char>,
    peers: Seq<crate::types::PeerView>,
    at: int,
)
    requires
        0 <= at,
    ensures
        match transport.walk(key, peers, at) {
            LookupView::AskPeer { peers: asked, at: index } => {
                &&& asked == peers
                &&& at <= index < peers.len()
                &&& !transport.is_self(peers[index])
                &&& forall|i: int| at <= i < index ==> transport.is_self(#[trigger] peers[i])
            },
            LookupView::Done(found) => {
                &&& found == transport.catalog.entry(key) || found is None
                &&& found is None ==> forall|i: int|
                    at <= i < peers.len() ==> transport.is_self(#[trigger] peers[i])
            },
            _ => false,
        },
        transport.catalog.entry(key) is Some ==> transport.lookup_begins(key) == LookupView::Done(
            transport.catalog.entry(key),
        ),
    decreases peers.len() - at,
{
    if at < peers.len() && transport.is_self(peers[at]) && transport.catalog.entry(key) is None {
        law_self_is_never_asked(transport, key, peers, at + 1);
    }
}

/// For an artifact that this node does not hold, the first peer in the order
/// of discovery that answers with a descriptor, other than this node itself,
/// decides the lookup; if none does, nothing is found.
pub proof fn law_first_answer_in_order_wins(
    transport: TransportView,
    key: Seq<char>,
    peers: Seq<crate::types::PeerView>,
    at: int,
    answers: spec_fn(int) -> Option<crate::types::DescriptorView>,
    first: int,
)
    requires
        0 <= at <= first <= peers.len(),
        transport.catalog.entry(key) is None,
        forall|i: int|
            at <= i < first ==> transport.is_self(#[trigger] peers[i]) || answers(i) is None,
        first < peers.len() ==> !transport.is_self(peers[first]) && answers(first) is Some,
    ensures
        asked_in_turn(transport, key, peers, at, answers) == (if first < peers.len() {
            answers(first)
        } else {
            None
        }),
    decreases peers.len() - at,
{
    if at < peers.len() {
        law_self_is_never_asked(transport, key, peers, at);
        if let LookupView::AskPeer { at: asked, .. } = transport.walk(key, peers, at) {
            if first < peers.len() && first < asked {
                assert(transport.is_self(peers[first]));
            }
            if answers(asked) is None {
                if first < asked + 1 {
                    assert(first == asked);
                }
                law_first_answer_in_order_wins(transport, key, peers, asked + 1, answers, first);
            } else {
                assert(asked == first) by {
                    if asked < first {
                        assert(transport.is_self(peers[asked]) || answers(asked) is None);
                    }
                }
            }
        } else {
            if first < peers.len() {
                assert(transport.is_self(peers[first]));
            }
        }
    }
}

/// Where a lookup that has `peers` to ask goes from index `from` on: to the
/// next peer that is not this node, or to its end.
pub open spec fn asks_next(
    transport: TransportView,
    peers: Seq<crate::types::PeerView>,
    from: int,
    next: LookupStep,
) -> bool {
    let other = |i: int|
        peers[i].node_id != transport.node_id && peers[i].endpoint != transport.endpoint;
    match next {
        LookupStep::AskPeer { peers: named, at } => {
            &&& named@.len() == peers.len()
            &&& forall|i: int| 0 <= i < peers.len() ==> (#[trigger] named@[i])@ == peers[i]
            &&& from <= at < peers.len()
            &&& other(at as int)
            &&& forall|i: int| #![trigger peers[i]] from <= i < at ==> !other(i)
        },
        LookupStep::Done(found) => {
            &&& found is None
            &&& forall|i: int| #![trigger peers[i]] from <= i < peers.len() ==> !other(i)
        },
        _ => false,
    }
}

proof fn lemma_asks_next(
    transport: TransportView,
    key: Seq<char>,
    peers: Seq<crate::types::PeerView>,
    from: int,
    next: LookupStep,
)
    requires
        0 <= from,
        transport.catalog.entry(key) is None,
        next@ == transport.walk(key, peers, from),
    ensures
        asks_next(transport, peers, from, next),
{
    law_self_is_never_asked(transport, key, peers, from);
    if let LookupStep::AskPeer { peers: named, .. } = next {
        assert(peer_views(named@) == peers);
        assert forall|i: int| 0 <= i < peers.len() implies (#[trigger] named@[i])@ == peers[i] by {
            assert(peer_views(named@)[i] == named@[i]@);
        }
    }
}

/// What the own catalog holds is found at once, without asking anybody; only
/// for a key that it does not hold discovery is asked.
pub proof fn law_own_catalog_comes_first(
    transport: UrmaP2pTransport,
    key: P2pArtifactKey,
    next: LookupStep,
)
    requires
        call_ensures(UrmaP2pTransport::lookup_with_hints, (&transport, &key), next),
    ensures
        ({
            let entries = transport@.catalog.entries;
            if entries.contains_key(key@) {
                next matches LookupStep::Done(Some(found)) && found@ == entries[key@]
            } else {
                next is PeersForKey
            }
        }),
{
}

/// Discovery is asked for the holders of the key first; only if it names
/// nobody, or fails, it is asked by the hints; and if that fails too, nothing
/// is found.
pub proof fn law_hints_are_the_fallback(
    transport: UrmaP2pTransport,
    key: P2pArtifactKey,
    found: Result<Vec<P2pPeer>, String>,
    next: LookupStep,
    hinted: LookupStep,
)
    requires
        transport@.catalog.entry(key@) is None,
        call_ensures(
            UrmaP2pTransport::advance_lookup,
            (&transport, &key, LookupStep::PeersForKey, LookupEvent::Peers(found)),
            next,
        ),
        call_ensures(
            UrmaP2pTransport::advance_lookup,
            (&transport, &key, LookupStep::PeersWithHints, LookupEvent::Peers(found)),
            hinted,
        ),
    ensures
        match found {
            Ok(peers) => {
                &&& peers@.len() == 0 ==> next is PeersWithHints
                &&& peers@.len() > 0 ==> asks_next(
                    transport@,
                    Seq::new(peers@.len(), |i: int| peers@[i]@),
                    0,
                    next,
                )
                &&& asks_next(
                    transport@,
                    Seq::new(peers@.len(), |i: int| peers@[i]@),
                    0,
                    hinted,
                )
            },
            Err(_) => next is PeersWithHints && (hinted matches LookupStep::Done(None)),
        },
{
    if let Ok(peers) = found {
        let views = Seq::new(peers@.len(), |i: int| peers@[i]@);
        assert(peer_views(peers@) =~= views);
        lemma_asks_next(transport@, key@, views, 0, hinted);
        if peers@.len() > 0 {
            lemma_asks_next(transport@, key@, views, 0, next);
        }
    }
}

/// A peer's descriptor ends the lookup; any other answer, a failure among
/// them, passes on to the next peer that is not this node.
pub proof fn law_failing_peers_are_passed_over(
    transport: UrmaP2pTransport,
    key: P2pArtifactKey,
    peers: Vec<P2pPeer>,
    at: usize,
    answer: Result<Option<P2pArtifactDescriptor>, Error>,
    next: LookupStep,
)
    requires
        transport@.catalog.entry(key@) is None,
        at < peers@.len(),
        call_ensures(
            UrmaP2pTransport::advance_lookup,
            (&transport, &key, LookupStep::AskPeer { peers, at }, LookupEvent::Answer(answer)),
            next,
        ),
    ensures
        match answer {
            Ok(Some(descriptor)) => next matches LookupStep::Done(Some(found)) && found@
                == descriptor@,
            _ => asks_next(
                transport@,
                Seq::new(peers@.len(), |i: int| peers@[i]@),
                at + 1,
                next,
            ),
        },
{
    let views = Seq::new(peers@.len(), |i: int| peers@[i]@);
    assert(peer_views(peers@) =~= views);
    if !(answer matches Ok(Some(_))) {
        lemma_asks_next(transport@, key@, views, at + 1, next);
    }
}

/// A course of a lookup: its steps, and what each of them came to.
pub open spec fn is_course(
    transport: UrmaP2pTransport,
    key: P2pArtifactKey,
    steps: Seq<LookupStep>,
    events: Seq<LookupEvent>,
) -> bool {
    &&& steps.len() == events.len() + 1
    &&& forall|i: int|
        #![trigger events[i]]
        0 <= i < events.len() ==> call_ensures(
            UrmaP2pTransport::advance_lookup,
            (&transport, &key, steps[i], events[i]),
            steps[i + 1],
        )
}

/// A lookup of an artifact that this node does not hold, once discovery has
/// named peers, ends with the descriptor of the first of them, in the order of
/// discovery and other than this node, that answers with one, whatever the
/// peers before it answer, failures among them; it ends empty only if none
/// does. No peer is asked twice.
pub proof fn law_lookup_finds_the_first_holder(
    transport: UrmaP2pTransport,
    key: P2pArtifactKey,
    steps: Seq<LookupStep>,
    events: Seq<LookupEvent>,
    peers: Vec<P2pPeer>,
    answers: spec_fn(int) -> Result<Option<P2pArtifactDescriptor>, Error>,
    first: int,
    n: int,
)
    requires
        transport@.catalog.entry(key@) is None,
        is_course(transport, key, steps, events),
        1 <= n < steps.len(),
        steps[0] is PeersForKey || steps[0] is PeersWithHints,
        events[0] == LookupEvent::Peers(Ok(peers)),
        peers@.len() > 0,
        forall|i: int|
            #![trigger events[i]]
            1 <= i < events.len() ==> (steps[i] matches LookupStep::AskPeer { at, .. } && events[i]
                == LookupEvent::Answer(answers(at as int))),
        0 <= first <= peers@.len(),
        forall|i: int|
            #![trigger peers@[i]]
            0 <= i < first ==> peers@[i].node_id@ == transport@.node_id || peers@[i].endpoint@
                == transport@.endpoint || !(answers(i) matches Ok(Some(_))),
        first < peers@.len() ==> {
            &&& peers@[first].node_id@ != transport@.node_id
            &&& peers@[first].endpoint@ != transport@.endpoint
            &&& answers(first) matches Ok(Some(_))
        },
    ensures
        match steps[n] {
            LookupStep::Done(found) => if first < peers@.len() {
                found matches Some(descriptor) && answers(first) matches Ok(Some(held))
                    && descriptor@ == held@
            } else {
                found is None
            },
            LookupStep::AskPeer { peers: named, at } => {
                &&& named@.len() == peers@.len()
                &&& forall|i: int|
                    0 <= i < peers@.len() ==> (#[trigger] named@[i])@ == peers@[i]@
                &&& n - 1 <= at < peers@.len()
                &&& at <= first
                &&& peers@[at as int].node_id@ != transport@.node_id
                &&& peers@[at as int].endpoint@ != transport@.endpoint
            },
            _ => false,
        },
    decreases n,
{
    let views = Seq::new(peers@.len(), |i: int| peers@[i]@);
    assert forall|i: int| 0 <= i < peers@.len() implies #[trigger] views[i] == peers@[i]@ by {}
    if n == 1 {
        let found = Ok::<Vec<P2pPeer>, String>(peers);
        assert(events[0] == LookupEvent::Peers(found));
        assert(peer_views(peers@) =~= views);
        lemma_asks_next(transport@, key@, views, 0, steps[1]);
    } else {
        law_lookup_finds_the_first_holder(
            transport,
            key,
            steps,
            events,
            peers,
            answers,
            first,
            n - 1,
        );
        assert(events[n - 1] is Answer);
        if let LookupStep::AskPeer { peers: named, at } = steps[n - 1] {
            let answer = answers(at as int);
            assert(events[n - 1] == LookupEvent::Answer(answer));
            law_failing_peers_are_passed_over(transport, key, named, at, answer, steps[n]);
            assert(Seq::new(named@.len(), |i: int| named@[i]@) =~= views);
            if at < first {
                assert(!(answer matches Ok(Some(_)))) by {
                    assert(peers@[at as int].node_id@ != transport@.node_id);
                }
            }
        }
    }
    if !(n > 1 && events[n - 1] matches LookupEvent::Answer(Ok(Some(_)))) {
        if let LookupStep::Done(_) = steps[n] {
            if first < peers@.len() {
                assert(views[first] == peers@[first]@);
            }
        }
        if let LookupStep::AskPeer { at, .. } = steps[n] {
            assert(views[at as int] == peers@[at as int]@);
            if first < at {
                assert(views[first] == peers@[first]@);
            }
        }
    }
}

/// An artifact that this node has come to hold while it was being looked up is
/// found as soon as it is this node's turn; every other peer is still asked
/// when it is its turn.
pub proof fn law_own_catalog_answers_for_this_node(
    transport: UrmaP2pTransport,
    key: P2pArtifactKey,
    peers: Vec<P2pPeer>,
    at: usize,
    answer: Result<Option<P2pArtifactDescriptor>, Error>,
    next: LookupStep,
    keyed: LookupStep,
    hinted: LookupStep,
)
    requires
        transport@.catalog.entries.contains_key(key@),
        at < peers@.len(),
        !(answer matches Ok(Some(_))),
        call_ensures(
            UrmaP2pTransport::advance_lookup,
            (&transport, &key, LookupStep::AskPeer { peers, at }, LookupEvent::Answer(answer)),
            next,
        ),
        call_ensures(
            UrmaP2pTransport::advance_lookup,
            (&transport, &key, LookupStep::PeersForKey, LookupEvent::Peers(Ok(peers))),
            keyed,
        ),
        call_ensures(
            UrmaP2pTransport::advance_lookup,
            (&transport, &key, LookupStep::PeersWithHints, LookupEvent::Peers(Ok(peers))),
            hinted,
        ),
    ensures
        at + 1 == peers@.len() ==> (next matches LookupStep::Done(None)),
        at + 1 < peers@.len() ==> {
            let peer = peers@[at + 1];
            let own = peer.node_id@ == transport@.node_id || peer.endpoint@ == transport@.endpoint;
            &&& own ==> (next matches LookupStep::Done(Some(found)) && found@
                == transport@.catalog.entries[key@])
            &&& !own ==> (next matches LookupStep::AskPeer { at: asked, .. } && asked == at + 1)
        },
        ({
            let peer = peers@[0];
            let own = peer.node_id@ == transport@.node_id || peer.endpoint@ == transport@.endpoint;
            &&& own ==> (hinted matches LookupStep::Done(Some(found)) && found@
                == transport@.catalog.entries[key@])
            &&& !own ==> (hinted matches LookupStep::AskPeer { at: asked, .. } && asked == 0)
            &&& own ==> (keyed matches LookupStep::Done(Some(found)) && found@
                == transport@.catalog.entries[key@])
            &&& !own ==> (keyed matches LookupStep::AskPeer { at: asked, .. } && asked == 0)
        }),
{
    let views = peer_views(peers@);
    assert(views.len() == peers@.len());
    assert(views[0] == peers@[0]@);
    if at + 1 < peers@.len() {
        assert(views[at + 1] == peers@[at + 1]@);
    }
}

/// A peer can be asked exactly if it is one of this backend and its address
/// parses; its answer is handed on as it is, and one that does not come in time
/// is a failure.
pub proof fn law_peers_that_can_be_asked(
    peer: P2pPeer,
    parsed: Result<(), String>,
    checked: Result<(), Error>,
    answer: Option<Result<Option<P2pArtifactDescriptor>, Error>>,
    result: Result<Option<P2pArtifactDescriptor>, Error>,
)
    requires
        call_ensures(check_peer, (&peer, parsed), checked),
        call_ensures(lookup_peer, (answer,), result),
    ensures
        checked is Ok <==> peer.endpoint.backend@ == "ub"@ && parsed is Ok,
        checked matches Err(error) ==> error is InvalidDescriptor,
        peer.endpoint.backend@ == "ub"@ ==> (parsed matches Err(detail) ==> (checked matches Err(
            Error::InvalidDescriptor { reason },
        ) && crate::text::ends_with(reason@, detail@))),
        answer matches Some(answer) ==> result == answer,
        answer is None ==> (result matches Err(error) && error is Timeout),
{
    if let Err(detail) = parsed {
        crate::text::lemma_ends_with(
            "invalid ub peer address "@ + crate::text::debug_text(peer.endpoint.address@) + ": "@,
            detail@,
        );
    }
}

} // verus!
