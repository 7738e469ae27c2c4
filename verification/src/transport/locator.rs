//! Locators: where a published artifact lies in its provider's memory.
use crate::codec;
use crate::driver::{eid_from_hex32, UbLocalHandle};
use crate::error::{Error, ErrorView};
use crate::text::{debug_quoted, push_decimal};
use crate::transport::LOCATOR_VERSION;
use crate::types::P2pArtifactDescriptor;
use vstd::prelude::*;

verus! {

/// Descriptor locator of the `ub` backend. It travels inside the descriptor
/// in serialized form.
#[derive(Debug, Clone)]
pub struct UbLocator {
    pub v: u32,
    /// Base64 of the driver's opaque segment wire form.
    pub wire: String,
    /// Absolute base virtual address of the artifact in the provider.
    pub base_va: u64,
    pub size: u64,
    pub handle: UbLocalHandle,
}

/// A locator, as the model sees it.
#[verifier::ext_equal]
pub ghost struct LocatorView {
    pub v: u32,
    pub wire: Seq<char>,
    pub base_va: u64,
    pub size: u64,
    pub handle: crate::driver::HandleView,
}

impl View for UbLocator {
    type V = LocatorView;

    open spec fn view(&self) -> LocatorView {
        LocatorView {
            v: self.v,
            wire: self.wire@,
            base_va: self.base_va,
            size: self.size,
            handle: self.handle@,
        }
    }
}

/// Why a descriptor carries no usable locator, where `parsed` is what parsing
/// its locator text came to.
pub open spec fn locator_error(
    descriptor: crate::types::DescriptorView,
    parsed: Result<UbLocator, String>,
) -> Option<Seq<char>> {
    if descriptor.backend_locator is None {
        Some("ub descriptor is missing backend_locator"@)
    } else {
        match parsed {
            Err(detail) => Some("invalid ub locator: "@ + detail@),
            Ok(locator) => if locator.v != LOCATOR_VERSION {
                Some("unsupported ub locator version "@ + crate::text::decimal(locator.v as nat))
            } else {
                None
            },
        }
    }
}

/// The descriptor cannot be used for the given reason.
pub open spec fn is_invalid(error: Error, reason: Seq<char>) -> bool {
    error@ == (ErrorView::InvalidDescriptor { reason })
}

/// What decoding the base64 text of a segment handle means.
pub open spec fn is_wire_of(
    decoded: Result<Seq<u8>, Seq<char>>,
    wire: Result<Vec<u8>, Error>,
) -> bool {
    match (decoded, wire) {
        (Ok(bytes), Ok(wire)) => wire@ == bytes,
        (Err(detail), Err(error)) => is_invalid(
            error,
            "invalid ub locator wire encoding: "@ + detail,
        ),
        _ => false,
    }
}

/// The outcome of a decoding, as the model sees it.
pub open spec fn decoded_view(decoded: Result<Vec<u8>, String>) -> Result<Seq<u8>, Seq<char>> {
    match decoded {
        Ok(bytes) => Ok(bytes@),
        Err(detail) => Err(detail@),
    }
}

impl UbLocator {
    /// The text that goes into a descriptor, from what serializing the
    /// locator came to.
    pub fn encode(serialized: Result<String, String>) -> (text: Result<String, Error>)
        ensures
            match (serialized, text) {
                (Ok(serialized), Ok(text)) => text@ == serialized@,
                (Err(detail), Err(error)) => error@ == (ErrorView::Internal {
                    context: "serialize ub locator"@,
                    cause: detail@,
                }),
                _ => false,
            },
    {
        match serialized {
            Ok(text) => Ok(text),
            Err(detail) => Err(
                Error::Internal { context: "serialize ub locator".to_string(), cause: detail },
            ),
        }
    }

    /// The locator of a descriptor; `parsed` is what parsing its locator text
    /// came to.
    pub fn decode(
        descriptor: &P2pArtifactDescriptor,
        parsed: Result<UbLocator, String>,
    ) -> (locator: Result<UbLocator, Error>)
        ensures
            match locator {
                Ok(locator) => locator_error(descriptor@, parsed) is None && Ok::<
                    UbLocator,
                    String,
                >(locator) == parsed,
                Err(error) => locator_error(descriptor@, parsed) matches Some(reason)
                    && is_invalid(error, reason),
            },
    {
        if descriptor.backend_locator.is_none() {
            return Err(Error::invalid_descriptor("ub descriptor is missing backend_locator"));
        }
        match parsed {
            Err(detail) => {
                let mut reason = "invalid ub locator: ".to_string();
                reason.append(detail.as_str());
                Err(Error::InvalidDescriptor { reason })
            },
            Ok(locator) => {
                if locator.v != LOCATOR_VERSION {
                    let mut reason = "unsupported ub locator version ".to_string();
                    push_decimal(&mut reason, locator.v as u64);
                    return Err(Error::InvalidDescriptor { reason });
                }
                Ok(locator)
            },
        }
    }

    /// The size of the artifact that a descriptor describes.
    pub fn descriptor_size(
        descriptor: &P2pArtifactDescriptor,
        parsed: Result<UbLocator, String>,
    ) -> (size: Result<u64, Error>)
        ensures
            match size {
                Ok(size) => locator_error(descriptor@, parsed) is None && size
                    == parsed->Ok_0.size,
                Err(error) => locator_error(descriptor@, parsed) matches Some(reason)
                    && is_invalid(error, reason),
            },
    {
        match Self::decode(descriptor, parsed) {
            Ok(locator) => Ok(locator.size),
            Err(error) => Err(error),
        }
    }

    /// The segment handle that decoding the locator's base64 text came to.
    pub fn wire_of(decoded: Result<Vec<u8>, String>) -> (wire: Result<Vec<u8>, Error>)
        ensures
            is_wire_of(decoded_view(decoded), wire),
    {
        match decoded {
            Ok(bytes) => Ok(bytes),
            Err(detail) => {
                let mut reason = "invalid ub locator wire encoding: ".to_string();
                reason.append(detail.as_str());
                Err(Error::InvalidDescriptor { reason })
            },
        }
    }

    /// The segment handle that the locator carries.
    pub fn wire_bytes(&self) -> (wire: Result<Vec<u8>, Error>)
        ensures
            is_wire_of(codec::base64_decoded(self.wire@), wire),
    {
        Self::wire_of(codec::decode(self.wire.as_str()))
    }

    /// The locator of an artifact of `size` bytes at `base_va`, inside the
    /// segment with the given handle.
    pub fn new(wire: &[u8], base_va: u64, size: u64, handle: &UbLocalHandle) -> (locator: Self)
        requires
            wire@.len() / 3 * 4 + 4 <= isize::MAX,
        ensures
            locator@ == (LocatorView {
                v: LOCATOR_VERSION,
                wire: codec::base64_encoded(wire@),
                base_va,
                size,
                handle: handle@,
            }),
            codec::decodes_to(locator@.wire, wire@),
    {
        UbLocator {
            v: LOCATOR_VERSION,
            wire: codec::encode(wire),
            base_va,
            size,
            handle: handle.duplicate(),
        }
    }
}

/// Resolved fetch target: local memory or a remote one-sided read source.
#[derive(Debug)]
pub enum ResolvedFetch {
    Local { base_va: u64, size: u64 },
    Remote { locator: UbLocator, peer_eid: [u8; 16], peer_jetty_id: u32 },
}

/// One of the providers is this node.
pub open spec fn has_local(providers: Seq<crate::types::ProviderView>) -> bool {
    exists|i: int| 0 <= i < providers.len() && (#[trigger] providers[i]) is Local
}

/// Why an artifact cannot be fetched.
pub open spec fn fetch_error(
    descriptor: crate::types::DescriptorView,
    parsed: Result<UbLocator, String>,
) -> Option<Seq<char>> {
    if locator_error(descriptor, parsed) is Some {
        locator_error(descriptor, parsed)
    } else if descriptor.providers.len() == 0 {
        Some("ub descriptor has no providers"@)
    } else if has_local(descriptor.providers) {
        None
    } else {
        let handle = parsed->Ok_0.handle@;
        if crate::urma_sys::eid_of_hex(vstd::utf8::encode_utf8(handle.eid)) is None {
            Some("invalid ub provider EID "@ + crate::text::debug_text(handle.eid))
        } else if handle.jetty_ids.len() == 0 {
            Some("ub provider advertises no jetties"@)
        } else {
            None
        }
    }
}

/// Whether `resolved` is where the artifact is fetched from: local memory if
/// this node provides it, otherwise the provider's segment, through the first
/// jetty that the provider advertises.
pub open spec fn is_resolved(
    descriptor: crate::types::DescriptorView,
    found: UbLocator,
    resolved: ResolvedFetch,
) -> bool {
    if has_local(descriptor.providers) {
        resolved == (ResolvedFetch::Local { base_va: found.base_va, size: found.size })
    } else {
        resolved matches ResolvedFetch::Remote { locator, peer_eid, peer_jetty_id } && locator
            == found && crate::urma_sys::eid_of_hex(vstd::utf8::encode_utf8(found.handle.eid@))
            == Some(peer_eid@) && peer_jetty_id == found.handle.jetty_ids@[0]
    }
}

/// Find out where an artifact is fetched from; `parsed` is what parsing the
/// descriptor's locator text came to.
pub fn resolve_fetch(
    descriptor: &P2pArtifactDescriptor,
    parsed: Result<UbLocator, String>,
) -> (resolved: Result<ResolvedFetch, Error>)
    ensures
        match resolved {
            Ok(resolved) => {
                &&& fetch_error(descriptor@, parsed) is None
                &&& is_resolved(descriptor@, parsed->Ok_0, resolved)
            },
            Err(error) => fetch_error(descriptor@, parsed) matches Some(reason) && is_invalid(
                error,
                reason,
            ),
        },
{
    let locator = match UbLocator::decode(descriptor, parsed) {
        Ok(locator) => locator,
        Err(error) => {
            return Err(error);
        },
    };
    if descriptor.providers.len() == 0 {
        return Err(Error::invalid_descriptor("ub descriptor has no providers"));
    }
    let mut i: usize = 0;
    while i < descriptor.providers.len()
        invariant
            i <= descriptor.providers@.len(),
            descriptor@.providers.len() == descriptor.providers@.len(),
            forall|j: int| 0 <= j < i ==> !((#[trigger] descriptor@.providers[j]) is Local),
            locator_error(descriptor@, parsed) is None,
            parsed == Ok::<UbLocator, String>(locator),
            descriptor.providers@.len() > 0,
        decreases descriptor.providers@.len() - i,
    {
        if descriptor.providers[i].is_local() {
            assert(descriptor@.providers[i as int] is Local);
            return Ok(ResolvedFetch::Local { base_va: locator.base_va, size: locator.size });
        }
        i = i + 1;
    }
    let peer_eid: [u8; 16] = match eid_from_hex32(locator.handle.eid.as_str()) {
        Some(peer_eid) => peer_eid,
        None => {
            let mut reason = "invalid ub provider EID ".to_string();
            reason.append(debug_quoted(locator.handle.eid.as_str()).as_str());
            return Err(Error::InvalidDescriptor { reason });
        },
    };
    if locator.handle.jetty_ids.len() == 0 {
        return Err(Error::invalid_descriptor("ub provider advertises no jetties"));
    }
    let peer_jetty_id: u32 = locator.handle.jetty_ids[0];
    Ok(ResolvedFetch::Remote { locator, peer_eid, peer_jetty_id })
}

/// The segment handle that goes into a locator is the one that comes out of
/// it.
pub proof fn law_locator_carries_wire(
    wire: Seq<u8>,
    text: Seq<char>,
    read: Result<Vec<u8>, Error>,
)
    requires
        codec::decodes_to(text, wire),
        is_wire_of(codec::base64_decoded(text), read),
    ensures
        read matches Ok(bytes) && bytes@ == wire,
{
}

/// A descriptor that names this node among its providers is never fetched
/// over the network; one that names only others never from local memory.
pub proof fn law_local_provider_is_preferred(
    descriptor: crate::types::DescriptorView,
    found: UbLocator,
    resolved: ResolvedFetch,
)
    requires
        is_resolved(descriptor, found, resolved),
    ensures
        resolved is Local <==> has_local(descriptor.providers),
        resolved is Remote <==> !has_local(descriptor.providers),
{
}

/// A descriptor carries a usable locator exactly if it carries one that parses
/// and is of the version in use. It is then the one that was parsed, and its
/// size that of the artifact.
pub proof fn law_usable_locators(
    descriptor: P2pArtifactDescriptor,
    parsed: Result<UbLocator, String>,
    decoded: Result<UbLocator, Error>,
    size: Result<u64, Error>,
    serialized: Result<String, String>,
    text: Result<String, Error>,
)
    requires
        call_ensures(UbLocator::decode, (&descriptor, parsed), decoded),
        call_ensures(UbLocator::descriptor_size, (&descriptor, parsed), size),
        call_ensures(UbLocator::encode, (serialized,), text),
    ensures
        decoded is Ok <==> descriptor.backend_locator is Some && (parsed matches Ok(locator)
            && locator.v == 1),
        decoded matches Ok(locator) ==> locator == parsed->Ok_0,
        decoded matches Err(error) ==> error is InvalidDescriptor,
        descriptor.backend_locator is Some ==> (parsed matches Err(detail) ==> decoded matches Err(
            error,
        ) && crate::text::ends_with(error->reason@, detail@)),
        size is Ok <==> decoded is Ok,
        size matches Ok(size) ==> size == parsed->Ok_0.size,
        text is Ok <==> serialized is Ok,
        text matches Ok(text) ==> text@ == serialized->Ok_0@,
        serialized matches Err(detail) ==> (text matches Err(Error::Internal { cause, .. })
            && cause@ == detail@),
{
    if let Err(detail) = parsed {
        crate::text::lemma_ends_with("invalid ub locator: "@, detail@);
    }
}

/// A new locator says what it was made of, and the segment handle comes out of
/// it as it went in; a handle that cannot be decoded is an error that ends with
/// the reason.
pub proof fn law_locators_carry_their_parts(
    wire: &[u8],
    base_va: u64,
    size: u64,
    handle: UbLocalHandle,
    locator: UbLocator,
    read: Result<Vec<u8>, Error>,
    decoded: Result<Vec<u8>, String>,
    handed: Result<Vec<u8>, Error>,
)
    requires
        call_ensures(UbLocator::new, (wire, base_va, size, &handle), locator),
        call_ensures(UbLocator::wire_bytes, (&locator,), read),
        call_ensures(UbLocator::wire_of, (decoded,), handed),
    ensures
        locator.v == 1,
        locator.base_va == base_va,
        locator.size == size,
        locator.handle.device@ == handle.device@,
        locator.handle.eid@ == handle.eid@,
        locator.handle.jetty_ids@ == handle.jetty_ids@,
        read matches Ok(bytes) && bytes@ == wire@,
        handed is Ok <==> decoded is Ok,
        handed matches Ok(bytes) ==> bytes@ == decoded->Ok_0@,
        decoded matches Err(detail) ==> (handed matches Err(Error::InvalidDescriptor { reason })
            && crate::text::ends_with(reason@, detail@)),
{
    if let Err(detail) = decoded {
        crate::text::lemma_ends_with("invalid ub locator wire encoding: "@, detail@);
    }
}

/// An artifact with a usable locator is fetched from local memory exactly if
/// this node is one of its providers, wherever it stands among them, and
/// otherwise over the network if there is a provider at all, its EID parses and
/// it offers a jetty: through the first jetty that it offers. Local memory is
/// where the locator says, and as long.
pub proof fn law_fetches_resolve(
    descriptor: P2pArtifactDescriptor,
    locator: UbLocator,
    resolved: Result<ResolvedFetch, Error>,
    eid: &str,
    peer: Option<[u8; 16]>,
    i: int,
)
    requires
        descriptor.backend_locator is Some,
        locator.v == 1,
        call_ensures(resolve_fetch, (&descriptor, Ok(locator)), resolved),
        eid@ == locator.handle.eid@,
        call_ensures(eid_from_hex32, (eid,), peer),
    ensures
        0 <= i < descriptor.providers@.len() && descriptor.providers@[i] is Local ==> (
        resolved matches Ok(ResolvedFetch::Local { base_va, size }) && base_va == locator.base_va
            && size == locator.size),
        (forall|j: int|
            0 <= j < descriptor.providers@.len() ==> !((#[trigger] descriptor.providers@[j])
                is Local)) ==> {
            &&& resolved is Ok <==> descriptor.providers@.len() > 0 && peer is Some
                && locator.handle.jetty_ids@.len() > 0
            &&& resolved matches Ok(found) ==> (found matches ResolvedFetch::Remote {
                locator: source,
                peer_eid,
                peer_jetty_id,
            } && source == locator && peer_eid@ == peer->0@ && peer_jetty_id
                == locator.handle.jetty_ids@[0])
        },
        resolved matches Err(error) ==> error is InvalidDescriptor,
{
    let views = descriptor@.providers;
    assert(views.len() == descriptor.providers@.len());
    assert forall|j: int| 0 <= j < views.len() implies (#[trigger] views[j]) is Local
        == descriptor.providers@[j] is Local by {}
    if 0 <= i < views.len() && descriptor.providers@[i] is Local {
        assert(views[i] is Local);
    }
    if forall|j: int|
        0 <= j < descriptor.providers@.len() ==> !((#[trigger] descriptor.providers@[j])
            is Local) {
        assert forall|j: int| 0 <= j < views.len() implies !((#[trigger] views[j]) is Local) by {
            assert(!(descriptor.providers@[j] is Local));
        }
        assert(!has_local(views));
    }
}

/// An artifact without a usable locator cannot be fetched.
pub proof fn law_no_fetch_without_locator(
    descriptor: P2pArtifactDescriptor,
    parsed: Result<UbLocator, String>,
    resolved: Result<ResolvedFetch, Error>,
)
    requires
        call_ensures(resolve_fetch, (&descriptor, parsed), resolved),
        descriptor.backend_locator is None || parsed is Err || parsed->Ok_0.v != 1,
    ensures
        resolved matches Err(error) && error is InvalidDescriptor,
{
}

/// A locator of another version is refused with that version.
pub proof fn law_refused_locators_name_the_version(
    descriptor: P2pArtifactDescriptor,
    locator: UbLocator,
    decoded: Result<UbLocator, Error>,
)
    requires
        descriptor.backend_locator is Some,
        locator.v != 1,
        call_ensures(UbLocator::decode, (&descriptor, Ok(locator)), decoded),
    ensures
        decoded matches Err(Error::InvalidDescriptor { reason }) && reason@
            == "unsupported ub locator version "@ + crate::text::decimal(locator.v as nat),
{
}

} // verus!
