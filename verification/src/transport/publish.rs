//! Publishing and unpublishing artifacts.
use crate::bytes::copy_bytes;
use crate::catalog::StorePut;
use crate::driver::{LoopbackUrmaDriver, LoopbackWire, RegionAccess, RegionWire, UrmaReadOp};
use crate::error::Error;
use crate::paths::with_path;
use crate::store::{check_file_len, Mmap};
use crate::text::push_decimal;
use crate::transport::fetch::{
    chunks, concatenated, fetch_chunk, fetch_size, is_internal, remote_chunk, ReadOutcome,
    RemoteRead,
};
use crate::transport::locator::ResolvedFetch;
use crate::transport::locator::UbLocator;
use crate::transport::{PublishedRegion, TransportView, UrmaP2pTransport, LOCATOR_VERSION};
use crate::types::{
    P2pArtifactDescriptor, P2pArtifactKey, P2pArtifactProvider, P2pPublishMode, P2pPublishRequest,
    P2pPublishSource,
};
use vstd::prelude::*;

verus! {

broadcast use vstd::std_specs::hash::group_hash_axioms;

/// What publishing does next.
#[derive(Debug)]
pub enum PublishStep {
    /// Open the file and find out its length.
    OpenFile { path: Vec<u8> },
    /// Map the file just opened read-only, all of it.
    MapFile { path: Vec<u8>, len: u64 },
    /// Register the mapping for remote reads.
    RegisterFile { map: Mmap, len: u64 },
    /// Read the file.
    ReadFile { path: Vec<u8> },
    /// Copy the bytes into the arena.
    CopyBytes { bytes: Vec<u8> },
    /// Serialize the locator.
    SerializeLocator { locator: UbLocator, region: PublishedRegion },
    /// Persist the descriptor in the catalog's store.
    Persist { descriptor: P2pArtifactDescriptor, base_va: u64 },
    /// Tell peer discovery about the key. A failure is only worth a warning.
    Record,
    Published,
    Failed(Error),
}

impl PublishStep {
    /// The memory that the step registers, its length, and who may read it.
    pub open spec fn registers(self) -> Option<(Mmap, u64, RegionAccess)> {
        match self {
            PublishStep::RegisterFile { map, len } => Some((map, len, RegionAccess::RemoteRead)),
            _ => None,
        }
    }

    /// The memory that the step registers, its length, and who may read it:
    /// peers read a published file. `None` of a step that registers nothing.
    pub fn registration(&self) -> (registration: Option<(Mmap, u64, RegionAccess)>)
        ensures
            registration == self.registers(),
    {
        match self {
            PublishStep::RegisterFile { map, len } => Some((*map, *len, RegionAccess::RemoteRead)),
            _ => None,
        }
    }
}

/// What a step of publishing came to.
#[derive(Debug)]
pub enum PublishEvent {
    /// The length of the file.
    Opened(Result<u64, String>),
    /// Where the system placed the mapping of the file.
    Mapped(Result<u64, String>),
    Registered(Result<RegionWire, String>),
    Read(Result<Vec<u8>, String>),
    /// The arena's memory is at hand.
    Ready,
    Serialized(Result<String, String>),
    Persisted(StorePut),
    Recorded,
}

/// Whether `event` can come of `now`. The length of a file is one that memory
/// can have.
pub open spec fn publish_expects(now: PublishStep, event: PublishEvent) -> bool {
    match now {
        PublishStep::OpenFile { .. } => event matches PublishEvent::Opened(opened) && (
        opened matches Ok(len) ==> len <= usize::MAX),
        PublishStep::MapFile { .. } => event is Mapped,
        PublishStep::RegisterFile { .. } => event is Registered,
        PublishStep::ReadFile { .. } => event is Read,
        PublishStep::CopyBytes { .. } => event is Ready,
        PublishStep::SerializeLocator { .. } => event is Serialized,
        PublishStep::Persist { .. } => event is Persisted,
        PublishStep::Record => event is Recorded,
        PublishStep::Published | PublishStep::Failed(_) => false,
    }
}

/// The publication failed: the step `context` of it, for the given cause.
pub open spec fn publish_failed(step: PublishStep, context: Seq<char>, cause: Seq<char>) -> bool {
    step matches PublishStep::Failed(error) && is_internal(error, context, cause)
}

/// How publishing starts: a file by reference is opened to be mapped, a file
/// to copy is read, and bytes are copied as they are, whatever the mode.
pub open spec fn publish_begins(request: P2pPublishRequest, next: PublishStep) -> bool {
    match (request.source, request.publish_mode) {
        (P2pPublishSource::Path(source), P2pPublishMode::Reference) => next matches
            PublishStep::OpenFile { path } && path@ == source@,
        (P2pPublishSource::Path(source), P2pPublishMode::Copy) => next matches
            PublishStep::ReadFile { path } && path@ == source@,
        (P2pPublishSource::Bytes(source), _) => next matches PublishStep::CopyBytes { bytes }
            && bytes@ == source@,
    }
}

/// Memory with data copied in at an offset.
pub open spec fn written(memory: Seq<u8>, offset: int, data: Seq<u8>) -> Seq<u8> {
    memory.take(offset) + data + memory.skip(offset + data.len())
}

/// The step serializes the locator of the artifact at `base_va`, inside the
/// segment with the given handle.
pub open spec fn locates(
    driver: crate::driver::HandleView,
    wire: Seq<u8>,
    base_va: int,
    size: int,
    backing: PublishedRegion,
    next: PublishStep,
) -> bool {
    next matches PublishStep::SerializeLocator { locator, region } && {
        &&& locator.v == LOCATOR_VERSION
        &&& locator.wire@ == crate::codec::base64_encoded(wire)
        &&& crate::codec::decodes_to(locator.wire@, wire)
        &&& locator.base_va == base_va
        &&& locator.size == size
        &&& locator.handle@ == driver
        &&& region == backing
    }
}

/// How bytes are published: they are copied to the arena's next free place,
/// if they fit.
pub open spec fn bytes_stored(
    before: TransportView,
    memory: Seq<u8>,
    bytes: Seq<u8>,
    after: TransportView,
    memory_after: Seq<u8>,
    next: PublishStep,
) -> bool {
    if before.arena.fits(bytes.len() as u64) {
        let offset = before.arena.cursor;
        &&& after == (TransportView {
            arena: before.arena.allocated(bytes.len() as u64),
            ..before
        })
        &&& memory_after == written(memory, offset as int, bytes)
        &&& locates(
            before.handle,
            before.arena_wire,
            before.arena_va + offset,
            bytes.len() as int,
            PublishedRegion::Arena { offset: offset as u64 },
            next,
        )
    } else {
        &&& after == before
        &&& memory_after == memory
        &&& publish_failed(
            next,
            "publish ub artifact"@,
            "publish arena exhausted ("@ + crate::text::decimal(bytes.len())
                + " bytes requested)"@,
        )
    }
}

/// The descriptor of an artifact that this node publishes.
pub open spec fn published_descriptor(
    request: P2pPublishRequest,
    locator: Seq<char>,
) -> crate::types::DescriptorView {
    crate::types::DescriptorView {
        key: request.key@,
        providers: seq![crate::types::ProviderView::Local],
        backend_locator: Some(locator),
        metadata: request.metadata@,
    }
}

/// How publishing goes on.
pub open spec fn publish_goes_on(
    before: TransportView,
    memory: Seq<u8>,
    request: P2pPublishRequest,
    now: PublishStep,
    event: PublishEvent,
    after: TransportView,
    memory_after: Seq<u8>,
    next: PublishStep,
) -> bool {
    let unchanged = after == before && memory_after == memory;
    match (now, event) {
        (PublishStep::OpenFile { path: file }, PublishEvent::Opened(opened)) => {
            let context = "map published artifact "@ + crate::text::utf8_lossy(file@);
            &&& unchanged
            &&& match opened {
                Ok(found) => match crate::store::map_refusal(file@, found) {
                    None => next matches PublishStep::MapFile { path, len } && path@ == file@
                        && len == found,
                    Some(reason) => publish_failed(next, context, reason),
                },
                Err(detail) => publish_failed(next, context, detail@),
            }
        },
        (PublishStep::MapFile { path, len }, PublishEvent::Mapped(mapped)) => {
            &&& unchanged
            &&& match mapped {
                Ok(base) => next == (PublishStep::RegisterFile {
                    map: Mmap { base, len: len as usize },
                    len,
                }),
                Err(detail) => publish_failed(
                    next,
                    "map published artifact "@ + crate::text::utf8_lossy(path@),
                    detail@,
                ),
            }
        },
        (PublishStep::RegisterFile { map, len }, PublishEvent::Registered(registered)) => {
            &&& unchanged
            &&& match registered {
                Ok(region) => locates(
                    before.handle,
                    region.wire@,
                    region.base_va as int,
                    len as int,
                    PublishedRegion::File(map),
                    next,
                ),
                Err(detail) => publish_failed(
                    next,
                    "register published artifact region"@,
                    detail@,
                ),
            }
        },
        (PublishStep::ReadFile { path }, PublishEvent::Read(read)) => match read {
            Ok(bytes) => bytes_stored(before, memory, bytes@, after, memory_after, next),
            Err(detail) => unchanged && publish_failed(
                next,
                "read published artifact "@ + crate::text::utf8_lossy(path@),
                detail@,
            ),
        },
        (PublishStep::CopyBytes { bytes }, PublishEvent::Ready) => bytes_stored(
            before,
            memory,
            bytes@,
            after,
            memory_after,
            next,
        ),
        (
            PublishStep::SerializeLocator { locator, region },
            PublishEvent::Serialized(serialized),
        ) => match serialized {
            Ok(text) => {
                &&& after == (TransportView {
                    regions: before.regions.insert(locator.base_va, region),
                    ..before
                })
                &&& memory_after == memory
                &&& next matches PublishStep::Persist { descriptor, base_va } && descriptor@
                    == published_descriptor(request, text@) && base_va == locator.base_va
            },
            Err(detail) => unchanged && publish_failed(next, "serialize ub locator"@, detail@),
        },
        (PublishStep::Persist { descriptor, base_va }, PublishEvent::Persisted(put)) => {
            let rolled_back = after == (TransportView {
                regions: before.regions.remove(base_va),
                ..before
            });
            &&& memory_after == memory
            &&& match put {
                StorePut::Stored => {
                    &&& after == (TransportView {
                        catalog: before.catalog.with(descriptor@),
                        ..before
                    })
                    &&& next == PublishStep::Record
                },
                StorePut::SerializeFailed(detail) => rolled_back && publish_failed(
                    next,
                    "serialize P2P catalog entry"@,
                    detail@,
                ),
                StorePut::PutFailed(detail) => rolled_back && publish_failed(
                    next,
                    "persist P2P catalog entry "@ + descriptor.key@,
                    detail@,
                ),
            }
        },
        (PublishStep::Record, PublishEvent::Recorded) => unchanged && next
            == PublishStep::Published,
        (_, _) => false,
    }
}

/// What holds of a publication under way: a file that is mapped is not empty
/// and its mapping has its length, and an arena region is located at its
/// address.
pub open spec fn publish_sound(transport: TransportView, now: PublishStep) -> bool {
    match now {
        PublishStep::MapFile { len, .. } => 0 < len <= usize::MAX,
        PublishStep::RegisterFile { map, len } => 0 < len && map.len == len,
        PublishStep::SerializeLocator { locator, region } => match region {
            PublishedRegion::Arena { offset } => locator.base_va == transport.arena.map.base
                + offset,
            PublishedRegion::File(map) => 0 < locator.size && map.len == locator.size,
        },
        _ => true,
    }
}

impl UrmaP2pTransport {
    /// Start publishing an artifact.
    pub fn publish(request: &P2pPublishRequest) -> (next: PublishStep)
        ensures
            publish_begins(*request, next),
    {
        match (&request.source, request.publish_mode) {
            (P2pPublishSource::Path(path), P2pPublishMode::Reference) => PublishStep::OpenFile {
                path: copy_bytes(path.as_slice()),
            },
            (P2pPublishSource::Path(path), P2pPublishMode::Copy) => PublishStep::ReadFile {
                path: copy_bytes(path.as_slice()),
            },
            (P2pPublishSource::Bytes(bytes), _) => PublishStep::CopyBytes {
                bytes: copy_bytes(bytes.as_slice()),
            },
        }
    }

    fn store_bytes(&mut self, bytes: &[u8], memory: &mut [u8]) -> (next: PublishStep)
        requires
            old(self)@.inv(),
            old(memory)@.len() == old(self)@.arena.map.len,
        ensures
            bytes_stored(old(self)@, old(memory)@, bytes@, final(self)@, final(memory)@, next),
            final(self)@.inv(),
            publish_sound(final(self)@, next),
    {
        let len: u64 = bytes.len() as u64;
        match self.arena.allocate(len) {
            Some(offset) => {
                self.arena.write(offset, bytes, memory);
                let base_va: u64 = self.arena_wire.base_va + offset;
                PublishStep::SerializeLocator {
                    locator: UbLocator::new(
                        self.arena_wire.wire.as_slice(),
                        base_va,
                        len,
                        &self.handle,
                    ),
                    region: PublishedRegion::Arena { offset },
                }
            },
            None => {
                let mut cause = "publish arena exhausted (".to_string();
                push_decimal(&mut cause, len);
                cause.append(" bytes requested)");
                PublishStep::Failed(
                    Error::Internal { context: "publish ub artifact".to_string(), cause },
                )
            },
        }
    }

    /// Go on publishing with what the current step came to. `memory` is the
    /// arena's memory.
    pub fn advance_publish(
        &mut self,
        request: &P2pPublishRequest,
        now: PublishStep,
        event: PublishEvent,
        memory: &mut [u8],
    ) -> (next: PublishStep)
        requires
            old(self)@.inv(),
            publish_expects(now, event),
            publish_sound(old(self)@, now),
            old(memory)@.len() == old(self)@.arena.map.len,
            event matches PublishEvent::Registered(Ok(region)) ==> region.wire@.len() / 3 * 4 + 4
                <= isize::MAX,
        ensures
            publish_goes_on(
                old(self)@,
                old(memory)@,
                *request,
                now,
                event,
                final(self)@,
                final(memory)@,
                next,
            ),
            final(self)@.inv(),
            publish_sound(final(self)@, next),
    {
        match (now, event) {
            (PublishStep::OpenFile { path }, PublishEvent::Opened(opened)) => {
                let checked = match opened {
                    Ok(len) => match check_file_len(path.as_slice(), len) {
                        Ok(()) => Ok(len),
                        Err(reason) => Err(reason),
                    },
                    Err(detail) => Err(detail),
                };
                match checked {
                    Ok(len) => PublishStep::MapFile { path, len },
                    Err(cause) => PublishStep::Failed(
                        Error::Internal {
                            context: with_path("map published artifact ", path.as_slice()),
                            cause,
                        },
                    ),
                }
            },
            (PublishStep::MapFile { path, len }, PublishEvent::Mapped(mapped)) => match mapped {
                Ok(base) => {
                    let (map, len) = Mmap::file_read_only(base, len);
                    PublishStep::RegisterFile { map, len }
                },
                Err(detail) => PublishStep::Failed(
                    Error::Internal {
                        context: with_path("map published artifact ", path.as_slice()),
                        cause: detail,
                    },
                ),
            },
            (
                PublishStep::RegisterFile { map, len },
                PublishEvent::Registered(registered),
            ) => match registered {
                Ok(region) => PublishStep::SerializeLocator {
                    locator: UbLocator::new(
                        region.wire.as_slice(),
                        region.base_va,
                        len,
                        &self.handle,
                    ),
                    region: PublishedRegion::File(map),
                },
                Err(detail) => PublishStep::Failed(
                    Error::Internal {
                        context: "register published artifact region".to_string(),
                        cause: detail,
                    },
                ),
            },
            (PublishStep::ReadFile { path }, PublishEvent::Read(read)) => match read {
                Ok(bytes) => self.store_bytes(bytes.as_slice(), memory),
                Err(detail) => PublishStep::Failed(
                    Error::Internal {
                        context: with_path("read published artifact ", path.as_slice()),
                        cause: detail,
                    },
                ),
            },
            (PublishStep::CopyBytes { bytes }, PublishEvent::Ready) => self.store_bytes(
                bytes.as_slice(),
                memory,
            ),
            (
                PublishStep::SerializeLocator { locator, region },
                PublishEvent::Serialized(serialized),
            ) => match UbLocator::encode(serialized) {
                Ok(text) => {
                    let base_va: u64 = locator.base_va;
                    let mut providers: Vec<P2pArtifactProvider> = Vec::new();
                    providers.push(P2pArtifactProvider::Local);
                    let descriptor = P2pArtifactDescriptor {
                        key: request.key.clone(),
                        providers,
                        backend_locator: Some(text),
                        metadata: request.metadata.clone(),
                    };
                    assert(descriptor@.providers =~= seq![crate::types::ProviderView::Local]);
                    self.regions.insert(base_va, region);
                    PublishStep::Persist { descriptor, base_va }
                },
                Err(error) => PublishStep::Failed(error),
            },
            (
                PublishStep::Persist { descriptor, base_va },
                PublishEvent::Persisted(put),
            ) => match self.catalog.upsert(descriptor, put) {
                Ok(()) => PublishStep::Record,
                Err(error) => {
                    self.regions.remove(&base_va);
                    PublishStep::Failed(error)
                },
            },
            (PublishStep::Record, PublishEvent::Recorded) => PublishStep::Published,
            (now, _) => now,
        }
    }
}

// Unpublishing.

/// What unpublishing does next.
#[derive(Debug)]
pub enum UnpublishStep {
    /// Delete the key from the catalog's store.
    Delete,
    /// Parse the locator text of the descriptor that was removed.
    ParseLocator { descriptor: P2pArtifactDescriptor },
    /// Unregister the region at the address. A failure is only worth a
    /// warning.
    Unregister { addr: u64 },
    /// Tell peer discovery to forget the key. A failure is only worth a
    /// warning.
    Forget,
    /// Whether there was something to unpublish.
    Done(bool),
    Failed(Error),
}

/// What a step of unpublishing came to.
#[derive(Debug)]
pub enum UnpublishEvent {
    Deleted(Result<(), String>),
    Parsed(Result<UbLocator, String>),
    Unregistered,
    Forgotten,
}

/// Whether `event` can come of `now`.
pub open spec fn unpublish_expects(now: UnpublishStep, event: UnpublishEvent) -> bool {
    match now {
        UnpublishStep::Delete => event is Deleted,
        UnpublishStep::ParseLocator { .. } => event is Parsed,
        UnpublishStep::Unregister { .. } => event is Unregistered,
        UnpublishStep::Forget => event is Forgotten,
        UnpublishStep::Done(_) | UnpublishStep::Failed(_) => false,
    }
}

/// How unpublishing goes on.
pub open spec fn unpublish_goes_on(
    before: TransportView,
    key: Seq<char>,
    now: UnpublishStep,
    event: UnpublishEvent,
    after: TransportView,
    next: UnpublishStep,
) -> bool {
    match (now, event) {
        (UnpublishStep::Delete, UnpublishEvent::Deleted(deleted)) => match deleted {
            Ok(()) => {
                &&& after == (TransportView { catalog: before.catalog.without(key), ..before })
                &&& match before.catalog.entry(key) {
                    Some(entry) => next matches UnpublishStep::ParseLocator { descriptor }
                        && descriptor@ == entry,
                    None => next == UnpublishStep::Done(false),
                }
            },
            Err(detail) => {
                &&& after == before
                &&& next matches UnpublishStep::Failed(error) && is_internal(
                    error,
                    "delete P2P catalog entry "@ + key,
                    detail@,
                )
            },
        },
        (UnpublishStep::ParseLocator { descriptor }, UnpublishEvent::Parsed(parsed)) => {
            if crate::transport::locator::locator_error(descriptor@, parsed) is None
                && before.regions.contains_key(parsed->Ok_0.base_va) {
                let base_va = parsed->Ok_0.base_va;
                let dropped = TransportView { regions: before.regions.remove(base_va), ..before };
                match before.regions[base_va] {
                    PublishedRegion::Arena { offset } => {
                        &&& after == (TransportView {
                            arena: crate::store::ArenaView {
                                live: before.arena.live.remove(offset),
                                ..before.arena
                            },
                            ..dropped
                        })
                        &&& next == UnpublishStep::Forget
                    },
                    PublishedRegion::File(map) => {
                        &&& after == dropped
                        &&& next == (UnpublishStep::Unregister { addr: map.base })
                    },
                }
            } else {
                after == before && next == UnpublishStep::Forget
            }
        },
        (UnpublishStep::Unregister { .. }, UnpublishEvent::Unregistered) => after == before && next
            == UnpublishStep::Forget,
        (UnpublishStep::Forget, UnpublishEvent::Forgotten) => after == before && next
            == UnpublishStep::Done(true),
        (_, _) => false,
    }
}

impl UrmaP2pTransport {
    /// Unpublish `key`: go on from `now`, at first [`UnpublishStep::Delete`],
    /// with what it came to.
    pub fn unpublish(
        &mut self,
        key: &P2pArtifactKey,
        now: UnpublishStep,
        event: UnpublishEvent,
    ) -> (next: UnpublishStep)
        requires
            old(self)@.inv(),
            unpublish_expects(now, event),
        ensures
            unpublish_goes_on(old(self)@, key@, now, event, final(self)@, next),
            final(self)@.inv(),
    {
        match (now, event) {
            (UnpublishStep::Delete, UnpublishEvent::Deleted(deleted)) => {
                match self.catalog.remove(key, deleted) {
                    Ok(Some(descriptor)) => UnpublishStep::ParseLocator { descriptor },
                    Ok(None) => UnpublishStep::Done(false),
                    Err(error) => UnpublishStep::Failed(error),
                }
            },
            (UnpublishStep::ParseLocator { descriptor }, UnpublishEvent::Parsed(parsed)) => {
                let locator = match UbLocator::decode(&descriptor, parsed) {
                    Ok(locator) => locator,
                    Err(_) => {
                        return UnpublishStep::Forget;
                    },
                };
                let ghost before = self@;
                match self.regions.remove(&locator.base_va) {
                    Some(PublishedRegion::Arena { offset }) => {
                        self.arena.free(offset);
                        UnpublishStep::Forget
                    },
                    Some(PublishedRegion::File(map)) => UnpublishStep::Unregister {
                        addr: map.base_addr(),
                    },
                    None => {
                        assert(self@.regions =~= before.regions);
                        UnpublishStep::Forget
                    },
                }
            },
            (UnpublishStep::Unregister { .. }, UnpublishEvent::Unregistered) =>
                UnpublishStep::Forget,
            (UnpublishStep::Forget, UnpublishEvent::Forgotten) => UnpublishStep::Done(true),
            (now, _) => now,
        }
    }
}

/// Bytes that have been published can be read back from local memory, any
/// range of them, as they were given.
pub proof fn law_published_bytes_are_read_back(
    before: TransportView,
    memory: Seq<u8>,
    bytes: Seq<u8>,
    stored: TransportView,
    memory_stored: Seq<u8>,
    located: PublishStep,
    request: P2pPublishRequest,
    text: String,
    published: TransportView,
    memory_published: Seq<u8>,
    next: PublishStep,
    offset: u64,
    len: int,
)
    requires
        before.inv(),
        memory.len() == before.arena.map.len,
        before.arena.fits(bytes.len() as u64),
        bytes.len() <= usize::MAX,
        bytes_stored(before, memory, bytes, stored, memory_stored, located),
        publish_goes_on(
            stored,
            memory_stored,
            request,
            located,
            PublishEvent::Serialized(Ok(text)),
            published,
            memory_published,
            next,
        ),
        0 <= len,
        offset + len <= bytes.len(),
    ensures
        ({
            let base_va = located->locator.base_va;
            let start = published.local_start(base_va, offset);
            &&& published.regions.contains_key(base_va)
            &&& 0 <= start
            &&& start + len <= memory_published.len() == published.local_len(base_va)
            &&& memory_published.subrange(start, start + len) == bytes.subrange(
                offset as int,
                offset + len,
            )
        }),
{
    crate::store::lemma_aligned(bytes.len() as int, crate::store::ALLOC_ALIGN as int);
    let at = before.arena.cursor as int;
    assert(memory_published.subrange(at + offset, at + offset + len) =~= bytes.subrange(
        offset as int,
        offset + len,
    ));
}

/// What a peer's reads through the locator deliver, chunk by chunk, adds up
/// to the published bytes: each read stays inside the provider's registered
/// arena and copies exactly its part.
pub proof fn law_published_bytes_are_fetched(
    before: TransportView,
    memory: Seq<u8>,
    bytes: Seq<u8>,
    stored: TransportView,
    memory_stored: Seq<u8>,
    located: PublishStep,
    slice_size: u64,
    op: crate::driver::UrmaReadOp,
    i: int,
)
    requires
        before.inv(),
        memory.len() == before.arena.map.len,
        before.arena.fits(bytes.len() as u64),
        bytes.len() <= usize::MAX,
        bytes_stored(before, memory, bytes, stored, memory_stored, located),
        slice_size > 0,
        ({
            let parts = chunks(
                0,
                located->locator.size as nat,
                remote_chunk(slice_size) as nat,
            );
            &&& 0 <= i < parts.len()
            &&& op.remote_addr == located->locator.base_va + parts[i].0
            &&& op.len == parts[i].1
        }),
    ensures
        ({
            let segment = crate::driver::LoopbackWire {
                base_va: before.arena.map.base,
                len: before.arena.map.len as u64,
            };
            let parts = chunks(
                0,
                located->locator.size as nat,
                remote_chunk(slice_size) as nat,
            );
            let at = op.remote_addr - segment.base_va;
            &&& crate::driver::read_refusal(op, Ok(segment)) is None
            &&& memory_stored.subrange(at, at + op.len) == bytes.subrange(
                parts[i].0 as int,
                (parts[i].0 + parts[i].1) as int,
            )
            &&& concatenated(bytes, parts) == bytes
        }),
{
    let size = bytes.len();
    let chunk = remote_chunk(slice_size);
    let parts = chunks(0, size, chunk as nat);
    crate::store::lemma_aligned(bytes.len() as int, crate::store::ALLOC_ALIGN as int);
    crate::transport::fetch::lemma_chunks_within(0, size, chunk as nat, i);
    crate::transport::fetch::law_chunks_are_contiguous(0, size, chunk as nat, i);
    crate::transport::fetch::law_chunks_add_up_to_range(bytes, 0, size, chunk as nat);
    assert(bytes.subrange(0, size as int) =~= bytes);
    let at = op.remote_addr - before.arena.map.base;
    assert(memory_stored.subrange(at, at + op.len) =~= bytes.subrange(
        parts[i].0 as int,
        (parts[i].0 + parts[i].1) as int,
    ));
}

/// A file published by reference is mapped whole and opened to peers; an empty
/// one is refused, and nothing changes.
pub proof fn law_files_are_mapped_whole(
    before: TransportView,
    memory: Seq<u8>,
    request: P2pPublishRequest,
    path: Vec<u8>,
    len: u64,
    opened: TransportView,
    memory_opened: Seq<u8>,
    mapping: PublishStep,
    base: u64,
    mapped: TransportView,
    memory_mapped: Seq<u8>,
    registering: PublishStep,
)
    requires
        len <= usize::MAX,
        publish_goes_on(
            before,
            memory,
            request,
            PublishStep::OpenFile { path },
            PublishEvent::Opened(Ok(len)),
            opened,
            memory_opened,
            mapping,
        ),
        mapping is MapFile ==> publish_goes_on(
            opened,
            memory_opened,
            request,
            mapping,
            PublishEvent::Mapped(Ok(base)),
            mapped,
            memory_mapped,
            registering,
        ),
    ensures
        mapping is Failed <==> len == 0,
        opened == before,
        memory_opened == memory,
        len > 0 ==> {
            &&& mapping is MapFile
            &&& registering.registers() matches Some((map, mapped_len, access)) && map.base == base
                && map.len == len && mapped_len == len && access == RegionAccess::RemoteRead
        },
{
}

/// A file published by reference is served from its mapping: any range of it
/// is read locally at its own offset, and every chunk of a peer's fetch lies
/// inside the registered region. Nothing is copied into the arena.
pub proof fn law_published_file_is_served(
    before: TransportView,
    memory: Seq<u8>,
    request: P2pPublishRequest,
    map: Mmap,
    region: RegionWire,
    registered: TransportView,
    memory_registered: Seq<u8>,
    located: PublishStep,
    text: String,
    published: TransportView,
    memory_published: Seq<u8>,
    next: PublishStep,
    contents: Seq<u8>,
    offset: u64,
    slice_size: u64,
    op: crate::driver::UrmaReadOp,
    i: int,
)
    requires
        contents.len() == map.len,
        region.base_va + map.len <= u64::MAX,
        publish_goes_on(
            before,
            memory,
            request,
            PublishStep::RegisterFile { map, len: map.len as u64 },
            PublishEvent::Registered(Ok(region)),
            registered,
            memory_registered,
            located,
        ),
        publish_goes_on(
            registered,
            memory_registered,
            request,
            located,
            PublishEvent::Serialized(Ok(text)),
            published,
            memory_published,
            next,
        ),
        offset <= contents.len(),
        slice_size > 0,
        ({
            let parts = chunks(
                0,
                located->locator.size as nat,
                remote_chunk(slice_size) as nat,
            );
            &&& 0 <= i < parts.len()
            &&& op.remote_addr == located->locator.base_va + parts[i].0
            &&& op.len == parts[i].1
        }),
    ensures
        ({
            let locator = located->locator;
            let segment = crate::driver::LoopbackWire {
                base_va: region.base_va,
                len: map.len as u64,
            };
            let parts = chunks(0, locator.size as nat, remote_chunk(slice_size) as nat);
            let at = op.remote_addr - segment.base_va;
            &&& crate::codec::decodes_to(locator.wire@, region.wire@)
            &&& published.regions.contains_key(locator.base_va)
            &&& published.local_start(locator.base_va, offset) == offset
            &&& published.local_len(locator.base_va) == contents.len()
            &&& crate::driver::read_refusal(op, Ok(segment)) is None
            &&& contents.subrange(at, at + op.len) == contents.subrange(
                parts[i].0 as int,
                (parts[i].0 + parts[i].1) as int,
            )
            &&& concatenated(contents, parts) == contents
            &&& published.arena == before.arena
            &&& memory_published == memory
        }),
{
    let size = contents.len();
    let chunk = remote_chunk(slice_size);
    crate::transport::fetch::lemma_chunks_within(0, size, chunk as nat, i);
    crate::transport::fetch::law_chunks_are_contiguous(0, size, chunk as nat, i);
    crate::transport::fetch::law_chunks_add_up_to_range(contents, 0, size, chunk as nat);
    assert(contents.subrange(0, size as int) =~= contents);
}

/// Later publications leave the bytes of earlier ones in place.
pub proof fn law_later_publications_keep_bytes(
    before: TransportView,
    memory: Seq<u8>,
    bytes: Seq<u8>,
    stored: TransportView,
    memory_stored: Seq<u8>,
    located: PublishStep,
    more: Seq<u8>,
    after: TransportView,
    memory_after: Seq<u8>,
    next: PublishStep,
)
    requires
        before.inv(),
        memory.len() == before.arena.map.len,
        before.arena.fits(bytes.len() as u64),
        bytes.len() <= usize::MAX,
        more.len() <= usize::MAX,
        bytes_stored(before, memory, bytes, stored, memory_stored, located),
        bytes_stored(stored, memory_stored, more, after, memory_after, next),
    ensures
        ({
            let at = before.arena.cursor as int;
            &&& memory_after.subrange(at, at + bytes.len()) == bytes
            &&& memory_after.take(at) == memory.take(at)
        }),
{
    crate::store::lemma_aligned(bytes.len() as int, crate::store::ALLOC_ALIGN as int);
    crate::store::lemma_aligned(more.len() as int, crate::store::ALLOC_ALIGN as int);
    let at = before.arena.cursor as int;
    assert(memory_after.subrange(at, at + bytes.len()) =~= bytes);
    assert(memory_after.take(at) =~= memory.take(at));
}

/// A publication whose descriptor cannot be persisted leaves neither a region
/// nor a catalog entry behind.
pub proof fn law_failed_publication_is_rolled_back(
    before: TransportView,
    memory: Seq<u8>,
    request: P2pPublishRequest,
    located: PublishStep,
    text: String,
    middle: TransportView,
    memory_middle: Seq<u8>,
    persisting: PublishStep,
    put: StorePut,
    after: TransportView,
    memory_after: Seq<u8>,
    next: PublishStep,
)
    requires
        located is SerializeLocator,
        !before.regions.contains_key(located->locator.base_va),
        publish_goes_on(
            before,
            memory,
            request,
            located,
            PublishEvent::Serialized(Ok(text)),
            middle,
            memory_middle,
            persisting,
        ),
        publish_goes_on(
            middle,
            memory_middle,
            request,
            persisting,
            PublishEvent::Persisted(put),
            after,
            memory_after,
            next,
        ),
        put !is Stored,
    ensures
        next is Failed,
        after.regions == before.regions,
        after.catalog == before.catalog,
{
    let base_va = located->locator.base_va;
    assert(before.regions.insert(base_va, located->region).remove(base_va) =~= before.regions);
}

/// Published bytes make the whole round on the node that publishes them: the
/// publication ends well however recording the key goes, looking the key up
/// finds the descriptor, and fetching what it describes delivers the bytes.
/// `parsed` is the locator, as it is read back from its serialized form.
pub proof fn law_published_bytes_are_found_and_fetched(
    before: TransportView,
    memory: Seq<u8>,
    request: P2pPublishRequest,
    source: Vec<u8>,
    copying: PublishStep,
    stored: TransportView,
    memory_stored: Seq<u8>,
    located: PublishStep,
    text: String,
    listed: TransportView,
    memory_listed: Seq<u8>,
    persisting: PublishStep,
    held: TransportView,
    memory_held: Seq<u8>,
    recording: PublishStep,
    published: TransportView,
    memory_published: Seq<u8>,
    done: PublishStep,
    parsed: UbLocator,
    resolved: ResolvedFetch,
)
    requires
        before.inv(),
        memory.len() == before.arena.map.len,
        request.source == P2pPublishSource::Bytes(source),
        source@.len() <= usize::MAX,
        before.arena.fits(source@.len() as u64),
        publish_begins(request, copying),
        publish_goes_on(
            before,
            memory,
            request,
            copying,
            PublishEvent::Ready,
            stored,
            memory_stored,
            located,
        ),
        publish_goes_on(
            stored,
            memory_stored,
            request,
            located,
            PublishEvent::Serialized(Ok(text)),
            listed,
            memory_listed,
            persisting,
        ),
        publish_goes_on(
            listed,
            memory_listed,
            request,
            persisting,
            PublishEvent::Persisted(StorePut::Stored),
            held,
            memory_held,
            recording,
        ),
        publish_goes_on(
            held,
            memory_held,
            request,
            recording,
            PublishEvent::Recorded,
            published,
            memory_published,
            done,
        ),
        parsed@ == located->locator@,
        crate::transport::locator::is_resolved(
            published_descriptor(request, text@),
            parsed,
            resolved,
        ),
    ensures
        recording == PublishStep::Record,
        done == PublishStep::Published,
        published.lookup_begins(request.key@) == crate::transport::lookup::LookupView::Done(
            Some(published_descriptor(request, text@)),
        ),
        crate::transport::locator::fetch_error(
            published_descriptor(request, text@),
            Ok(parsed),
        ) is None,
        resolved is Local,
        fetch_size(resolved) == source@.len(),
        ({
            let base_va = resolved->base_va;
            let plan = chunks(
                0,
                fetch_size(resolved) as nat,
                fetch_chunk(resolved, published.slice_size) as nat,
            );
            &&& published.regions.contains_key(base_va)
            &&& published.local_len(base_va) == memory_published.len()
            &&& published.delivered(memory_published, base_va, plan) == source@
        }),
{
    let bytes = source@;
    let descriptor = published_descriptor(request, text@);
    assert(descriptor.providers[0] is Local);
    assert(crate::transport::locator::has_local(descriptor.providers));
    crate::store::lemma_aligned(bytes.len() as int, crate::store::ALLOC_ALIGN as int);
    let base_va = parsed.base_va;
    let start = published.local_start(base_va, 0);
    crate::transport::fetch::law_local_fetch_delivers_range(
        published,
        memory_published,
        base_va,
        0,
        bytes.len(),
        fetch_chunk(resolved, published.slice_size) as nat,
    );
    assert(memory_published.subrange(start, start + bytes.len()) =~= bytes);
}

/// Publishing never takes arena space back: the next allocation lies no lower
/// than before, in the same arena.
pub proof fn law_publishing_only_grows_the_arena(
    before: TransportView,
    memory: Seq<u8>,
    request: P2pPublishRequest,
    now: PublishStep,
    event: PublishEvent,
    after: TransportView,
    memory_after: Seq<u8>,
    next: PublishStep,
)
    requires
        publish_goes_on(before, memory, request, now, event, after, memory_after, next),
    ensures
        before.arena.cursor <= after.arena.cursor,
        after.arena.map == before.arena.map,
        after.arena_va == before.arena_va,
{
    if let PublishEvent::Read(Ok(bytes)) = event {
        crate::store::lemma_aligned(
            (bytes@.len() as u64) as int,
            crate::store::ALLOC_ALIGN as int,
        );
    }
    if let PublishStep::CopyBytes { bytes } = now {
        crate::store::lemma_aligned(
            (bytes@.len() as u64) as int,
            crate::store::ALLOC_ALIGN as int,
        );
    }
}

/// Unpublishing gives no arena space back: the next allocation lies where it
/// lay before.
pub proof fn law_unpublishing_keeps_the_arena(
    before: TransportView,
    key: Seq<char>,
    now: UnpublishStep,
    event: UnpublishEvent,
    after: TransportView,
    next: UnpublishStep,
)
    requires
        unpublish_goes_on(before, key, now, event, after, next),
    ensures
        after.arena.cursor == before.arena.cursor,
        after.arena.map == before.arena.map,
        after.arena_va == before.arena_va,
{
}

/// What is published by value makes the whole round, bytes and copied files
/// alike: once the artifact's contents are at hand, and the rest goes well,
/// the key is listed with its metadata under this node, looking it up finds
/// it, and fetching it moves exactly as many bytes as the contents have, any
/// range of them as they are. `contents` are the bytes of the request, or what
/// reading the file gave; `parsed` is the locator, as it is read back from its
/// serialized form.
pub proof fn law_published_contents_are_fetched_back(
    request: P2pPublishRequest,
    begun: PublishStep,
    event: PublishEvent,
    contents: Seq<u8>,
    first: &mut UrmaP2pTransport,
    memory_first: &mut [u8],
    located: PublishStep,
    text: String,
    second: &mut UrmaP2pTransport,
    memory_second: &mut [u8],
    persisting: PublishStep,
    third: &mut UrmaP2pTransport,
    memory_third: &mut [u8],
    recording: PublishStep,
    fourth: &mut UrmaP2pTransport,
    memory_fourth: &mut [u8],
    done: PublishStep,
    found: crate::transport::lookup::LookupStep,
    descriptor: P2pArtifactDescriptor,
    parsed: UbLocator,
    resolved: Result<ResolvedFetch, Error>,
    cursor: crate::transport::fetch::FetchCursor,
    offset: u64,
    len: usize,
    memory: &[u8],
    data: Result<Vec<u8>, Error>,
)
    requires
        old(first)@.inv(),
        old(memory_first)@.len() == old(first)@.arena.map.len,
        contents.len() <= usize::MAX,
        old(first)@.arena.fits(contents.len() as u64),
        call_ensures(UrmaP2pTransport::publish, (&request,), begun),
        match (request.source, request.publish_mode) {
            (P2pPublishSource::Bytes(bytes), _) => event is Ready && contents == bytes@,
            (P2pPublishSource::Path(_), P2pPublishMode::Copy) => event matches PublishEvent::Read(
                Ok(bytes),
            ) && contents == bytes@,
            (P2pPublishSource::Path(_), P2pPublishMode::Reference) => false,
        },
        call_ensures(
            UrmaP2pTransport::advance_publish,
            (first, &request, begun, event, memory_first),
            located,
        ),
        old(second)@ == final(first)@,
        old(memory_second)@ == final(memory_first)@,
        call_ensures(
            UrmaP2pTransport::advance_publish,
            (second, &request, located, PublishEvent::Serialized(Ok(text)), memory_second),
            persisting,
        ),
        old(third)@ == final(second)@,
        old(memory_third)@ == final(memory_second)@,
        call_ensures(
            UrmaP2pTransport::advance_publish,
            (
                third,
                &request,
                persisting,
                PublishEvent::Persisted(StorePut::Stored),
                memory_third,
            ),
            recording,
        ),
        old(fourth)@ == final(third)@,
        old(memory_fourth)@ == final(memory_third)@,
        call_ensures(
            UrmaP2pTransport::advance_publish,
            (fourth, &request, recording, PublishEvent::Recorded, memory_fourth),
            done,
        ),
        call_ensures(
            UrmaP2pTransport::lookup_with_hints,
            (&*final(fourth), &request.key),
            found,
        ),
        found matches crate::transport::lookup::LookupStep::Done(Some(held)) ==> descriptor@
            == held@,
        parsed@ == located->locator@,
        call_ensures(
            crate::transport::locator::resolve_fetch,
            (&descriptor, Ok(parsed)),
            resolved,
        ),
        resolved matches Ok(resolved) ==> call_ensures(
            UrmaP2pTransport::fetch_to_writer,
            (&*final(fourth), &resolved),
            cursor,
        ),
        memory@ == final(memory_fourth)@,
        offset + len <= contents.len(),
        call_ensures(
            UrmaP2pTransport::read_local,
            (&*final(fourth), parsed.base_va, offset, len, memory),
            data,
        ),
    ensures
        request.source matches P2pPublishSource::Path(path) ==> (begun matches
            PublishStep::ReadFile { path: named } && named@ == path@),
        located is SerializeLocator,
        done is Published,
        found matches crate::transport::lookup::LookupStep::Done(Some(_)),
        descriptor@.key == request.key@,
        descriptor@.metadata == request.metadata@,
        descriptor@.backend_locator == Some(text@),
        descriptor@.providers.len() == 1,
        descriptor@.providers[0] is Local,
        parsed.size == contents.len(),
        resolved matches Ok(ResolvedFetch::Local { base_va, size }) && base_va == parsed.base_va
            && size == contents.len(),
        cursor.offset == 0,
        cursor.remaining == contents.len(),
        data matches Ok(data) && data@ == contents.subrange(offset as int, offset + len),
        final(fourth)@.delivered(memory@, parsed.base_va, cursor.plan()) == contents,
{
    crate::store::lemma_aligned(contents.len() as int, crate::store::ALLOC_ALIGN as int);
    assert(descriptor@.providers[0] is Local);
    assert(crate::transport::locator::has_local(descriptor@.providers));
    let at = old(first)@.arena.cursor as int;
    assert(memory@.subrange(at + offset, at + offset + len) =~= contents.subrange(
        offset as int,
        offset + len,
    ));
    crate::transport::fetch::law_local_fetch_delivers_range(
        final(fourth)@,
        memory@,
        parsed.base_va,
        0,
        contents.len(),
        cursor.chunk as nat,
    );
    assert(memory@.subrange(at, at + contents.len()) =~= contents);
}

/// A peer that fetches a published artifact gets its bytes: the operation that
/// its read starts with names the provider's segment and addresses the
/// artifact's memory in it, so posting it is not refused, and what the ended
/// read delivers is the range of the contents that was asked for. The bounce
/// block that the read took is free again.
///
/// `contents` are the bytes of the publication, or what reading the file gave;
/// `parsed` is the locator as the peer reads it; `segment` is the provider's
/// arena, `destination` the peer's bounce memory from the read's block on, and
/// `bounce` that memory once the read has landed.
pub proof fn law_peers_fetch_published_contents<S>(
    provider: &mut UrmaP2pTransport,
    request: P2pPublishRequest,
    now: PublishStep,
    event: PublishEvent,
    contents: Seq<u8>,
    memory: &mut [u8],
    located: PublishStep,
    parsed: UbLocator,
    reader: &mut UrmaP2pTransport,
    io: &mut crate::worker::UrmaIo<S>,
    peer_eid: [u8; 16],
    peer_jetty_id: u32,
    offset: u64,
    len: u32,
    slot: S,
    started: Result<(RemoteRead, UrmaReadOp), Error>,
    driver: &mut LoopbackUrmaDriver,
    segment: &[u8],
    destination: &mut [u8],
    posted: Result<(), String>,
    ending: &mut UrmaP2pTransport,
    bounce: &[u8],
    ended: Result<Vec<u8>, Error>,
)
    requires
        old(provider)@.inv(),
        old(memory)@.len() == old(provider)@.arena.map.len,
        contents.len() <= usize::MAX,
        match (now, event) {
            (PublishStep::CopyBytes { bytes }, PublishEvent::Ready) => contents == bytes@,
            (PublishStep::ReadFile { .. }, PublishEvent::Read(Ok(bytes))) => contents == bytes@,
            (_, _) => false,
        },
        call_ensures(
            UrmaP2pTransport::advance_publish,
            (provider, &request, now, event, memory),
            located,
        ),
        located is SerializeLocator,
        parsed@ == located->locator@,
        old(reader)@.inv(),
        offset + len <= contents.len(),
        call_ensures(
            UrmaP2pTransport::read_remote_chunk::<S>,
            (reader, io, &parsed, peer_eid, peer_jetty_id, offset, len, slot),
            started,
        ),
        started is Ok,
        segment@ == final(memory)@,
        call_ensures(
            LoopbackUrmaDriver::post_read,
            (
                driver,
                &started->Ok_0.1,
                &Ok::<LoopbackWire, String>(
                    LoopbackWire {
                        base_va: old(provider)@.arena.map.base,
                        len: old(provider)@.arena.map.len as u64,
                    },
                ),
                segment,
                destination,
            ),
            posted,
        ),
        old(ending)@ == final(reader)@,
        bounce@.subrange(
            started->Ok_0.0.block as int,
            started->Ok_0.0.block + len,
        ) == final(destination)@.take(len as int),
        call_ensures(
            UrmaP2pTransport::finish_read,
            (ending, started->Ok_0.0, ReadOutcome::Completed(Ok(())), bounce),
            ended,
        ),
    ensures
        started->Ok_0.1.remote_addr == located->locator.base_va + offset,
        started->Ok_0.1.remote_wire@ == old(provider)@.arena_wire,
        started->Ok_0.1.len == len,
        posted is Ok,
        final(driver)@.completions.len() > 0,
        final(driver)@.completions.last().user_ctx == started->Ok_0.1.user_ctx,
        final(driver)@.completions.last().status == 0,
        ended matches Ok(data) && data@ == contents.subrange(offset as int, offset + len),
        final(ending)@.bounce == old(reader)@.bounce,
{
    crate::store::lemma_aligned(contents.len() as int, crate::store::ALLOC_ALIGN as int);
    let base = old(provider)@.arena.map.base;
    let at = old(provider)@.arena.cursor + offset;
    let op = started->Ok_0.1;
    assert(op.remote_addr == base + at);
    assert(segment@.subrange(at, at + len) =~= contents.subrange(offset as int, offset + len));
    assert(final(destination)@.take(len as int) =~= segment@.subrange(at, at + len));
    let free = old(reader)@.bounce.free;
    assert(free.drop_last().push(free.last()) =~= free);
}

/// Contents are taken into the arena exactly if they fit there, rounded up to
/// whole pages, behind all that was taken in before: right there, byte for
/// byte, and nothing beside them changes. Contents that do not fit change
/// nothing.
pub proof fn law_contents_are_taken_in(
    transport: &mut UrmaP2pTransport,
    request: P2pPublishRequest,
    now: PublishStep,
    event: PublishEvent,
    contents: Seq<u8>,
    memory: &mut [u8],
    next: PublishStep,
    size: int,
    at: int,
)
    requires
        old(transport)@.inv(),
        old(memory)@.len() == old(transport)@.arena.map.len,
        contents.len() <= usize::MAX,
        match (now, event) {
            (PublishStep::CopyBytes { bytes }, PublishEvent::Ready) => contents == bytes@,
            (PublishStep::ReadFile { .. }, PublishEvent::Read(Ok(bytes))) => contents == bytes@,
            (_, _) => false,
        },
        call_ensures(
            UrmaP2pTransport::advance_publish,
            (transport, &request, now, event, memory),
            next,
        ),
        size % 4096 == 0,
        contents.len() <= size < contents.len() + 4096,
        0 <= at < old(memory)@.len(),
    ensures
        ({
            let cursor = old(transport)@.arena.cursor;
            let map = old(transport)@.arena.map;
            &&& next is SerializeLocator <==> cursor + size <= map.len
            &&& next is SerializeLocator || next is Failed
            &&& final(memory)@.len() == old(memory)@.len()
            &&& final(memory)@[at] == (if next is SerializeLocator && cursor <= at < cursor
                + contents.len() {
                contents[at - cursor]
            } else {
                old(memory)@[at]
            })
            &&& next matches PublishStep::SerializeLocator { locator, region } ==> {
                &&& locator.v == 1
                &&& locator.base_va == map.base + cursor
                &&& locator.size == contents.len()
                &&& crate::codec::base64_decoded(locator.wire@) == Ok::<Seq<u8>, Seq<char>>(
                    old(transport)@.arena_wire,
                )
                &&& locator.handle@ == old(transport)@.handle
                &&& region matches PublishedRegion::Arena { offset } && offset == cursor
                &&& final(transport)@.arena.cursor == cursor + size
            }
            &&& next is Failed ==> final(transport)@ == old(transport)@
            &&& final(transport)@.catalog == old(transport)@.catalog
            &&& final(transport)@.regions == old(transport)@.regions
            &&& final(transport)@.bounce == old(transport)@.bounce
        }),
{
    crate::store::lemma_aligned(contents.len() as int, crate::store::ALLOC_ALIGN as int);
    let rounded = crate::store::aligned(contents.len() as int, 4096);
    assert(rounded % 4096 == 0);
    assert(size == rounded);
}

/// How a publication begins: a file that is to be served in place is opened,
/// one that is to be copied is read, and bytes are taken as they are.
pub proof fn law_publications_begin(request: P2pPublishRequest, begun: PublishStep)
    requires
        call_ensures(UrmaP2pTransport::publish, (&request,), begun),
    ensures
        match request.source {
            P2pPublishSource::Path(source) => match request.publish_mode {
                P2pPublishMode::Reference => begun matches PublishStep::OpenFile { path } && path@
                    == source@,
                P2pPublishMode::Copy => begun matches PublishStep::ReadFile { path } && path@
                    == source@,
            },
            P2pPublishSource::Bytes(source) => begun matches PublishStep::CopyBytes { bytes }
                && bytes@ == source@,
        },
{
}

/// A file that is served in place is mapped whole and opened to peers to read,
/// unless it is empty; it is located where its registration says, with its
/// length, in the segment of that registration, and nothing is copied.
pub proof fn law_files_are_served_in_place(
    transport: &mut UrmaP2pTransport,
    request: P2pPublishRequest,
    now: PublishStep,
    event: PublishEvent,
    memory: &mut [u8],
    next: PublishStep,
    registration: Option<(Mmap, u64, RegionAccess)>,
)
    requires
        now is OpenFile || now is MapFile || now is RegisterFile,
        publish_expects(now, event),
        publish_sound(old(transport)@, now),
        call_ensures(
            UrmaP2pTransport::advance_publish,
            (transport, &request, now, event, memory),
            next,
        ),
        call_ensures(PublishStep::registration, (&next,), registration),
    ensures
        final(transport)@ == old(transport)@,
        final(memory)@ == old(memory)@,
        now matches PublishStep::OpenFile { path } ==> (event matches PublishEvent::Opened(Ok(
            found,
        )) ==> {
            &&& found == 0 ==> next is Failed
            &&& found > 0 ==> (next matches PublishStep::MapFile { path: named, len } && named@
                == path@ && len == found)
        }),
        now matches PublishStep::MapFile { len, .. } ==> (event matches PublishEvent::Mapped(Ok(
            base,
        )) ==> (registration matches Some((map, whole, access)) && map.base == base && map.len
            == len && whole == len && access == RegionAccess::RemoteRead)),
        now matches PublishStep::RegisterFile { map, len } ==> (event matches
            PublishEvent::Registered(Ok(region)) ==> (next matches PublishStep::SerializeLocator {
            locator,
            region: backing,
        } && locator.v == 1 && locator.base_va == region.base_va && locator.size == len
            && crate::codec::base64_decoded(locator.wire@) == Ok::<Seq<u8>, Seq<char>>(region.wire@)
            && locator.handle@ == old(transport)@.handle && (backing matches
            PublishedRegion::File(held) && held == map))),
{
}

/// A located artifact is described under its key, with its metadata and its
/// locator, as one of this node, and its memory is known by its address. It is
/// listed exactly once its description is stored; if that fails, its memory is
/// forgotten again. Recording it elsewhere ends the publication.
pub proof fn law_located_artifacts_are_listed(
    transport: &mut UrmaP2pTransport,
    request: P2pPublishRequest,
    now: PublishStep,
    event: PublishEvent,
    memory: &mut [u8],
    next: PublishStep,
    key: Seq<char>,
    va: u64,
)
    requires
        now is SerializeLocator || now is Persist || now is Record,
        publish_expects(now, event),
        call_ensures(
            UrmaP2pTransport::advance_publish,
            (transport, &request, now, event, memory),
            next,
        ),
    ensures
        final(memory)@ == old(memory)@,
        final(transport)@.arena == old(transport)@.arena,
        final(transport)@.bounce == old(transport)@.bounce,
        now matches PublishStep::SerializeLocator { locator, region } ==> (event matches
            PublishEvent::Serialized(Ok(text)) ==> {
            &&& next matches PublishStep::Persist { descriptor, base_va } && base_va
                == locator.base_va && descriptor.key@ == request.key@ && descriptor.metadata@
                == request.metadata@ && descriptor@.backend_locator == Some(text@)
                && descriptor@.providers.len() == 1 && descriptor@.providers[0] is Local
            &&& final(transport)@.regions.contains_key(locator.base_va)
            &&& final(transport)@.regions[locator.base_va] == region
            &&& va != locator.base_va ==> final(transport)@.regions.contains_key(va)
                == old(transport)@.regions.contains_key(va)
            &&& final(transport)@.catalog == old(transport)@.catalog
        }),
        now matches PublishStep::Persist { descriptor, base_va } ==> (event matches
            PublishEvent::Persisted(put) ==> {
            &&& put is Stored <==> next is Record
            &&& put is Stored ==> {
                &&& final(transport)@.catalog.entries.contains_key(descriptor.key@)
                &&& final(transport)@.catalog.entries[descriptor.key@] == descriptor@
                &&& key != descriptor.key@ ==> final(transport)@.catalog.entries.contains_key(key)
                    == old(transport)@.catalog.entries.contains_key(key)
                &&& final(transport)@.regions == old(transport)@.regions
            }
            &&& !(put is Stored) ==> {
                &&& next is Failed
                &&& !final(transport)@.regions.contains_key(base_va)
                &&& va != base_va ==> final(transport)@.regions.contains_key(va)
                    == old(transport)@.regions.contains_key(va)
                &&& final(transport)@.catalog == old(transport)@.catalog
            }
        }),
        now is Record ==> next is Published && final(transport)@ == old(transport)@,
{
}

/// Whatever step of a publication fails, the publication fails with what the
/// step failed with, and leaves the catalog and the arena as they were.
pub proof fn law_failed_steps_fail_the_publication(
    transport: &mut UrmaP2pTransport,
    request: P2pPublishRequest,
    now: PublishStep,
    event: PublishEvent,
    memory: &mut [u8],
    next: PublishStep,
    detail: String,
)
    requires
        publish_expects(now, event),
        call_ensures(
            UrmaP2pTransport::advance_publish,
            (transport, &request, now, event, memory),
            next,
        ),
        match event {
            PublishEvent::Opened(Err(found)) => found@ == detail@,
            PublishEvent::Mapped(Err(found)) => found@ == detail@,
            PublishEvent::Registered(Err(found)) => found@ == detail@,
            PublishEvent::Read(Err(found)) => found@ == detail@,
            PublishEvent::Serialized(Err(found)) => found@ == detail@,
            PublishEvent::Persisted(StorePut::SerializeFailed(found)) => found@ == detail@,
            PublishEvent::Persisted(StorePut::PutFailed(found)) => found@ == detail@,
            _ => false,
        },
    ensures
        next matches PublishStep::Failed(Error::Internal { cause, .. }) && cause@ == detail@,
        final(transport)@.catalog == old(transport)@.catalog,
        final(transport)@.arena == old(transport)@.arena,
        final(memory)@ == old(memory)@,
{
}

/// Unpublishing takes the key out of the catalog once the store has deleted it,
/// and no other; a key that was not listed is done with at once. What the entry
/// described is then forgotten: its memory is given up, a file's registration
/// along with it, if it is still known; other memory is not touched. Telling
/// discovery ends it. A store that fails changes nothing.
pub proof fn law_unpublishing_takes_back(
    transport: &mut UrmaP2pTransport,
    key: P2pArtifactKey,
    now: UnpublishStep,
    event: UnpublishEvent,
    next: UnpublishStep,
    other: Seq<char>,
    va: u64,
)
    requires
        unpublish_expects(now, event),
        call_ensures(UrmaP2pTransport::unpublish, (transport, &key, now, event), next),
    ensures
        final(transport)@.arena.cursor == old(transport)@.arena.cursor,
        final(transport)@.bounce == old(transport)@.bounce,
        event matches UnpublishEvent::Deleted(Ok(_)) ==> {
            let before = old(transport)@.catalog.entries;
            let after = final(transport)@.catalog.entries;
            &&& !after.contains_key(key@)
            &&& other != key@ ==> after.contains_key(other) == before.contains_key(other)
            &&& other != key@ && after.contains_key(other) ==> after[other] == before[other]
            &&& before.contains_key(key@) ==> (next matches UnpublishStep::ParseLocator {
                descriptor,
            } && descriptor@ == before[key@])
            &&& !before.contains_key(key@) ==> (next matches UnpublishStep::Done(found) && !found)
            &&& final(transport)@.regions == old(transport)@.regions
        },
        event matches UnpublishEvent::Deleted(Err(detail)) ==> (next matches UnpublishStep::Failed(
            Error::Internal { cause, .. },
        ) && cause@ == detail@) && final(transport)@ == old(transport)@,
        now matches UnpublishStep::ParseLocator { descriptor } ==> (event matches
            UnpublishEvent::Parsed(parsed) ==> {
            let known = descriptor.backend_locator is Some && (parsed matches Ok(locator)
                && locator.v == 1 && old(transport)@.regions.contains_key(locator.base_va));
            &&& final(transport)@.catalog == old(transport)@.catalog
            &&& !known ==> next is Forget && final(transport)@ == old(transport)@
            &&& known ==> {
                let base_va = parsed->Ok_0.base_va;
                &&& !final(transport)@.regions.contains_key(base_va)
                &&& va != base_va ==> final(transport)@.regions.contains_key(va)
                    == old(transport)@.regions.contains_key(va)
                &&& va != base_va && final(transport)@.regions.contains_key(va) ==> final(transport)@.regions[va] == old(transport)@.regions[va]
                &&& match old(transport)@.regions[base_va] {
                    PublishedRegion::Arena { offset } => next is Forget
                        && !final(transport)@.arena.live.contains_key(offset),
                    PublishedRegion::File(map) => next matches UnpublishStep::Unregister { addr }
                        && addr == map.base,
                }
            }
        }),
        event is Unregistered ==> next is Forget && final(transport)@ == old(transport)@,
        event is Forgotten ==> (next matches UnpublishStep::Done(found) && found)
            && final(transport)@ == old(transport)@,
{
}

/// Contents for which there is no room are named with their length.
pub proof fn law_exhaustion_names_the_length(
    transport: &mut UrmaP2pTransport,
    request: P2pPublishRequest,
    bytes: Vec<u8>,
    memory: &mut [u8],
    next: PublishStep,
)
    requires
        call_ensures(
            UrmaP2pTransport::advance_publish,
            (transport, &request, PublishStep::CopyBytes { bytes }, PublishEvent::Ready, memory),
            next,
        ),
    ensures
        next matches PublishStep::Failed(error) ==> (error matches Error::Internal {
            context,
            cause,
        } && context@ == "publish ub artifact"@ && cause@ == "publish arena exhausted ("@
            + crate::text::decimal(bytes@.len()) + " bytes requested)"@),
{
}

/// A peer that fetches a file served in place gets what the file holds: its
/// read names the segment that the file was registered as and addresses the
/// file's mapping in it, so that posting it is not refused and the ended read
/// delivers that range of the file. On the node itself the same range is read
/// from the mapping.
///
/// `contents` are what the file holds, and so its mapping.
pub proof fn law_peers_fetch_files_served_in_place<S>(
    provider: &mut UrmaP2pTransport,
    request: P2pPublishRequest,
    map: Mmap,
    region: RegionWire,
    arena: &mut [u8],
    located: PublishStep,
    listing: &mut UrmaP2pTransport,
    arena_listing: &mut [u8],
    text: String,
    listed: PublishStep,
    contents: &[u8],
    parsed: UbLocator,
    reader: &mut UrmaP2pTransport,
    io: &mut crate::worker::UrmaIo<S>,
    peer_eid: [u8; 16],
    peer_jetty_id: u32,
    offset: u64,
    len: u32,
    slot: S,
    started: Result<(RemoteRead, UrmaReadOp), Error>,
    driver: &mut LoopbackUrmaDriver,
    destination: &mut [u8],
    posted: Result<(), String>,
    ending: &mut UrmaP2pTransport,
    bounce: &[u8],
    ended: Result<Vec<u8>, Error>,
    count: usize,
    local: Result<Vec<u8>, Error>,
)
    requires
        contents@.len() == map.len,
        region.base_va + map.len <= u64::MAX,
        call_ensures(
            UrmaP2pTransport::advance_publish,
            (
                provider,
                &request,
                PublishStep::RegisterFile { map, len: map.len as u64 },
                PublishEvent::Registered(Ok(region)),
                arena,
            ),
            located,
        ),
        old(listing)@ == final(provider)@,
        call_ensures(
            UrmaP2pTransport::advance_publish,
            (listing, &request, located, PublishEvent::Serialized(Ok(text)), arena_listing),
            listed,
        ),
        parsed@ == located->locator@,
        old(reader)@.inv(),
        offset + len <= contents@.len(),
        call_ensures(
            UrmaP2pTransport::read_remote_chunk::<S>,
            (reader, io, &parsed, peer_eid, peer_jetty_id, offset, len, slot),
            started,
        ),
        started is Ok,
        call_ensures(
            LoopbackUrmaDriver::post_read,
            (
                driver,
                &started->Ok_0.1,
                &Ok::<LoopbackWire, String>(
                    LoopbackWire { base_va: region.base_va, len: map.len as u64 },
                ),
                contents,
                destination,
            ),
            posted,
        ),
        old(ending)@ == final(reader)@,
        bounce@.subrange(
            started->Ok_0.0.block as int,
            started->Ok_0.0.block + len,
        ) == final(destination)@.take(len as int),
        call_ensures(
            UrmaP2pTransport::finish_read,
            (ending, started->Ok_0.0, ReadOutcome::Completed(Ok(())), bounce),
            ended,
        ),
        count == len,
        call_ensures(
            UrmaP2pTransport::read_local,
            (&*final(listing), parsed.base_va, offset, count, contents),
            local,
        ),
    ensures
        located is SerializeLocator,
        parsed.size == contents@.len(),
        started->Ok_0.1.remote_addr == region.base_va + offset,
        started->Ok_0.1.remote_wire@ == region.wire@,
        posted is Ok,
        ended matches Ok(data) && data@ == contents@.subrange(offset as int, offset + len),
        local matches Ok(data) && data@ == contents@.subrange(offset as int, offset + len),
        final(ending)@.bounce == old(reader)@.bounce,
{
    let at = offset as int;
    assert(final(destination)@.take(len as int) =~= contents@.subrange(at, at + len));
    let free = old(reader)@.bounce.free;
    assert(free.drop_last().push(free.last()) =~= free);
}

} // verus!
