//! Catalog protocol of the `iroh` backend.
use crate::catalog::{CatalogRequest, CatalogResponse, PublishedArtifactCatalog};
use crate::types::{P2pArtifactDescriptor, P2pArtifactKey};
use vstd::prelude::*;

verus! {

/// Identifier of the `iroh` backend.
pub const IROH_BACKEND_ID: &'static str = "iroh";

/// How long to wait for the client to close the connection after the answer
/// has been sent, in seconds. Prevents a slow or misbehaving peer from
/// holding a handler open.
pub const CONNECTION_CLOSE_TIMEOUT_SECS: u64 = 5;

/// Handler of catalog requests.
#[derive(Debug)]
pub struct CatalogProtocol {
    pub published_catalog: PublishedArtifactCatalog,
}

impl CatalogProtocol {
    /// A handler that answers from a catalog.
    pub fn new(published_catalog: PublishedArtifactCatalog) -> (protocol: Self)
        ensures
            protocol.published_catalog == published_catalog,
    {
        CatalogProtocol { published_catalog }
    }

    /// The descriptor that a peer asking for `key` is told.
    pub fn descriptor_for_response(&self, key: &P2pArtifactKey) -> (descriptor: Option<
        P2pArtifactDescriptor,
    >)
        ensures
            crate::catalog::descriptor_view(descriptor) == self.published_catalog@.served(key@),
    {
        self.published_catalog.serving_descriptor(key)
    }

    /// The answer to a request.
    pub fn accept(&self, request: &CatalogRequest) -> (response: CatalogResponse)
        ensures
            crate::catalog::descriptor_view(response.descriptor) == self.published_catalog@.served(
                request.key@,
            ),
    {
        CatalogResponse { descriptor: self.descriptor_for_response(&request.key) }
    }
}

/// A peer is told exactly what the catalog holds under the key that it asks
/// for, under the name of this node.
pub proof fn law_answers_come_from_the_catalog(
    catalog: PublishedArtifactCatalog,
    protocol: CatalogProtocol,
    request: CatalogRequest,
    response: CatalogResponse,
    told: Option<P2pArtifactDescriptor>,
    held: Option<P2pArtifactDescriptor>,
)
    requires
        call_ensures(CatalogProtocol::new, (catalog,), protocol),
        call_ensures(CatalogProtocol::accept, (&protocol, &request), response),
        call_ensures(CatalogProtocol::descriptor_for_response, (&protocol, &request.key), told),
        call_ensures(
            PublishedArtifactCatalog::descriptor_for,
            (&catalog, &request.key),
            held,
        ),
    ensures
        response.descriptor is Some <==> held is Some,
        told is Some <==> held is Some,
        response.descriptor matches Some(descriptor) ==> {
            &&& descriptor@ == told->0@
            &&& descriptor@.key == held->0@.key
            &&& descriptor@.backend_locator == held->0@.backend_locator
            &&& descriptor@.metadata == held->0@.metadata
            &&& descriptor@.providers.len() == 1
            &&& descriptor@.providers[0] matches crate::types::ProviderView::Peer(peer) && peer
                == catalog@.local
        },
{
}

} // verus!
