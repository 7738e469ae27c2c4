//! Artifacts, their providers and the records that describe them.
use vstd::prelude::*;

verus! {

/// Name under which an artifact is published.
pub type P2pArtifactKey = String;

/// Where a node answers catalog lookups.
#[derive(Debug, Clone)]
pub struct P2pEndpoint {
    /// Identifier of the transport backend.
    pub backend: String,
    /// Backend-specific address.
    pub address: String,
}

/// A node that may hold artifacts.
#[derive(Debug, Clone)]
pub struct P2pPeer {
    pub node_id: String,
    pub endpoint: P2pEndpoint,
}

/// Who serves an artifact.
#[derive(Debug, Clone)]
pub enum P2pArtifactProvider {
    /// This node.
    Local,
    /// Another node.
    Peer(P2pPeer),
}

/// What a fetcher needs to know about a published artifact.
#[derive(Debug, Clone)]
pub struct P2pArtifactDescriptor {
    pub key: P2pArtifactKey,
    pub providers: Vec<P2pArtifactProvider>,
    /// Backend-specific locator text.
    pub backend_locator: Option<String>,
    /// Publisher's metadata, as JSON text. Carried along and never looked at.
    pub metadata: String,
}

/// How the published bytes are kept.
#[derive(Debug, Clone, Copy, PartialEq, Eq, Structural)]
pub enum P2pPublishMode {
    /// Copy the bytes into transport-owned memory.
    Copy,
    /// Serve a file in place.
    Reference,
}

/// Where the published bytes come from.
#[derive(Debug, Clone)]
pub enum P2pPublishSource {
    /// A file, by its path as bytes.
    Path(Vec<u8>),
    /// The bytes themselves.
    Bytes(Vec<u8>),
}

/// A request to publish an artifact.
#[derive(Debug, Clone)]
pub struct P2pPublishRequest {
    pub key: P2pArtifactKey,
    pub source: P2pPublishSource,
    pub publish_mode: P2pPublishMode,
    /// Publisher's metadata, as JSON text.
    pub metadata: String,
}

/// An endpoint, as the model sees it.
pub ghost struct EndpointView {
    pub backend: Seq<char>,
    pub address: Seq<char>,
}

/// A peer, as the model sees it.
pub ghost struct PeerView {
    pub node_id: Seq<char>,
    pub endpoint: EndpointView,
}

/// A provider, as the model sees it.
pub ghost enum ProviderView {
    Local,
    Peer(PeerView),
}

/// A descriptor, as the model sees it.
#[verifier::ext_equal]
pub ghost struct DescriptorView {
    pub key: Seq<char>,
    pub providers: Seq<ProviderView>,
    pub backend_locator: Option<Seq<char>>,
    pub metadata: Seq<char>,
}

impl View for P2pEndpoint {
    type V = EndpointView;

    open spec fn view(&self) -> EndpointView {
        EndpointView { backend: self.backend@, address: self.address@ }
    }
}

impl View for P2pPeer {
    type V = PeerView;

    open spec fn view(&self) -> PeerView {
        PeerView { node_id: self.node_id@, endpoint: self.endpoint@ }
    }
}

impl View for P2pArtifactProvider {
    type V = ProviderView;

    open spec fn view(&self) -> ProviderView {
        match self {
            P2pArtifactProvider::Local => ProviderView::Local,
            P2pArtifactProvider::Peer(peer) => ProviderView::Peer(peer@),
        }
    }
}

/// The providers of a list, as the model sees them.
pub open spec fn provider_views(providers: Seq<P2pArtifactProvider>) -> Seq<ProviderView> {
    providers.map_values(|provider: P2pArtifactProvider| provider@)
}

impl View for P2pArtifactDescriptor {
    type V = DescriptorView;

    open spec fn view(&self) -> DescriptorView {
        DescriptorView {
            key: self.key@,
            providers: provider_views(self.providers@),
            backend_locator: match self.backend_locator {
                Some(locator) => Some(locator@),
                None => None,
            },
            metadata: self.metadata@,
        }
    }
}

impl P2pEndpoint {
    /// A copy of the endpoint.
    pub fn duplicate(&self) -> (copy: Self)
        ensures
            copy == *self,
    {
        P2pEndpoint { backend: self.backend.clone(), address: self.address.clone() }
    }

    /// Whether two endpoints have the same backend and address.
    pub fn same(&self, other: &Self) -> (same: bool)
        ensures
            same == (self@ == other@),
    {
        self.backend == other.backend && self.address == other.address
    }
}

impl P2pPeer {
    /// A copy of the peer.
    pub fn duplicate(&self) -> (copy: Self)
        ensures
            copy == *self,
    {
        P2pPeer { node_id: self.node_id.clone(), endpoint: self.endpoint.duplicate() }
    }
}

impl P2pArtifactProvider {
    /// A copy of the provider.
    pub fn duplicate(&self) -> (copy: Self)
        ensures
            copy == *self,
    {
        match self {
            P2pArtifactProvider::Local => P2pArtifactProvider::Local,
            P2pArtifactProvider::Peer(peer) => P2pArtifactProvider::Peer(peer.duplicate()),
        }
    }

    /// Whether this node is the provider.
    pub fn is_local(&self) -> (local: bool)
        ensures
            local == (self@ is Local),
    {
        match self {
            P2pArtifactProvider::Local => true,
            P2pArtifactProvider::Peer(_) => false,
        }
    }
}

/// A copy of an optional text.
pub fn duplicate_text(text: &Option<String>) -> (copy: Option<String>)
    ensures
        copy == *text,
{
    match text {
        Some(text) => Some(text.clone()),
        None => None,
    }
}

impl P2pArtifactDescriptor {
    /// A copy of the descriptor.
    pub fn duplicate(&self) -> (copy: Self)
        ensures
            copy@ == self@,
    {
        let mut providers: Vec<P2pArtifactProvider> = Vec::with_capacity(self.providers.len());
        let mut i: usize = 0;
        while i < self.providers.len()
            invariant
                i <= self.providers@.len(),
                providers@ == self.providers@.take(i as int),
            decreases self.providers@.len() - i,
        {
            providers.push(self.providers[i].duplicate());
            assert(providers@ =~= self.providers@.take(i + 1));
            i = i + 1;
        }
        assert(providers@ =~= self.providers@);
        P2pArtifactDescriptor {
            key: self.key.clone(),
            providers,
            backend_locator: duplicate_text(&self.backend_locator),
            metadata: self.metadata.clone(),
        }
    }
}

/// A copy of a descriptor describes the same artifact at the same place, with
/// the same providers in the same order.
pub proof fn law_copied_descriptors_agree(
    descriptor: P2pArtifactDescriptor,
    copy: P2pArtifactDescriptor,
    i: int,
)
    requires
        call_ensures(P2pArtifactDescriptor::duplicate, (&descriptor,), copy),
        0 <= i < descriptor.providers@.len(),
    ensures
        copy.key@ == descriptor.key@,
        copy.metadata@ == descriptor.metadata@,
        copy.backend_locator is Some == descriptor.backend_locator is Some,
        copy.backend_locator is Some ==> copy.backend_locator->0@
            == descriptor.backend_locator->0@,
        copy.providers@.len() == descriptor.providers@.len(),
        copy.providers@[i] is Local == descriptor.providers@[i] is Local,
        descriptor.providers@[i] matches P2pArtifactProvider::Peer(peer) ==> {
            let other = copy.providers@[i]->Peer_0;
            &&& other.node_id@ == peer.node_id@
            &&& other.endpoint.backend@ == peer.endpoint.backend@
            &&& other.endpoint.address@ == peer.endpoint.address@
        },
{
    assert(provider_views(copy.providers@).len() == copy.providers@.len());
    assert(provider_views(descriptor.providers@).len() == descriptor.providers@.len());
    assert(provider_views(copy.providers@)[i] == copy.providers@[i]@);
    assert(provider_views(descriptor.providers@)[i] == descriptor.providers@[i]@);
}

/// Two endpoints are the same exactly when both their backends and their
/// addresses are; copies of endpoints, peers, providers and texts are what they
/// were made of.
pub proof fn law_same_endpoints(
    a: P2pEndpoint,
    b: P2pEndpoint,
    same: bool,
    endpoint: P2pEndpoint,
    peer: P2pPeer,
    peer_copy: P2pPeer,
    provider: P2pArtifactProvider,
    local: bool,
)
    requires
        call_ensures(P2pEndpoint::same, (&a, &b), same),
        call_ensures(P2pEndpoint::duplicate, (&a,), endpoint),
        call_ensures(P2pPeer::duplicate, (&peer,), peer_copy),
        call_ensures(P2pArtifactProvider::is_local, (&provider,), local),
    ensures
        same <==> a.backend@ == b.backend@ && a.address@ == b.address@,
        endpoint.backend@ == a.backend@,
        endpoint.address@ == a.address@,
        peer_copy.node_id@ == peer.node_id@,
        peer_copy.endpoint.backend@ == peer.endpoint.backend@,
        peer_copy.endpoint.address@ == peer.endpoint.address@,
        local <==> provider is Local,
{
}

/// A copy of a text that may be absent is absent with it, and else the same; a
/// copied provider is the same node.
pub proof fn law_copies_are_alike(
    text: Option<String>,
    copy: Option<String>,
    provider: P2pArtifactProvider,
    provider_copy: P2pArtifactProvider,
)
    requires
        call_ensures(duplicate_text, (&text,), copy),
        call_ensures(P2pArtifactProvider::duplicate, (&provider,), provider_copy),
    ensures
        copy is Some == text is Some,
        copy is Some ==> copy->0@ == text->0@,
        provider_copy is Local == provider is Local,
        provider matches P2pArtifactProvider::Peer(peer) ==> provider_copy->Peer_0.node_id@
            == peer.node_id@,
{
}

} // verus!
