//! Catalog of the artifacts that this node has published.
//!
//! The catalog maps artifact keys to descriptors and is persisted through the
//! node-local key/value store, so publications survive restarts. This module
//! decides what the catalog holds; the embedding program performs the store
//! operations and hands in what they came to.
use crate::error::{Error, ErrorView};
use crate::paths::with_path;
use crate::table::Table;
use crate::text::text_lossy;
use crate::types::{
    P2pArtifactDescriptor, P2pArtifactKey, P2pArtifactProvider, P2pEndpoint, P2pPeer,
};
use vstd::prelude::*;

verus! {

/// Upper bound for serialized catalog responses, shared by every backend's
/// catalog protocol encoding.
pub const MAX_CATALOG_RESPONSE_BYTES: usize = 8 * 1024 * 1024;

/// Upper bound for serialized catalog requests.
pub const MAX_CATALOG_REQUEST_BYTES: usize = 1024 * 1024;

/// Question of a peer: who serves this artifact?
#[derive(Debug, Clone)]
pub struct CatalogRequest {
    pub key: P2pArtifactKey,
}

/// Answer to a peer.
#[derive(Debug, Clone)]
pub struct CatalogResponse {
    pub descriptor: Option<P2pArtifactDescriptor>,
}

/// An optional descriptor, as the model sees it.
pub open spec fn descriptor_view(descriptor: Option<P2pArtifactDescriptor>) -> Option<
    crate::types::DescriptorView,
> {
    match descriptor {
        Some(descriptor) => Some(descriptor@),
        None => None,
    }
}

/// A record of the persisted catalog: its key in the store, and the parsed
/// descriptor or why it could not be parsed.
#[derive(Debug)]
pub struct CatalogRecord {
    pub key: Vec<u8>,
    pub descriptor: Result<P2pArtifactDescriptor, String>,
}

/// What reading the persisted catalog came to.
#[derive(Debug)]
pub enum StoreScan {
    /// The store could not be opened.
    OpenFailed(String),
    /// The store could not be read through.
    ScanFailed(String),
    /// The records, in store order.
    Records(Vec<CatalogRecord>),
}

/// What persisting a descriptor came to.
#[derive(Debug)]
pub enum StorePut {
    /// The descriptor could not be serialized.
    SerializeFailed(String),
    /// The store did not take it.
    PutFailed(String),
    Stored,
}

/// Descriptors this node has published and can advertise to peers.
#[derive(Debug)]
pub struct PublishedArtifactCatalog {
    inner: Table<P2pArtifactKey, P2pArtifactDescriptor>,
    local_provider: P2pPeer,
}

/// The catalog, as the model sees it.
#[verifier::ext_equal]
pub ghost struct CatalogView {
    pub entries: Map<Seq<char>, crate::types::DescriptorView>,
    /// This node, as it is advertised to peers.
    pub local: crate::types::PeerView,
}

impl View for PublishedArtifactCatalog {
    type V = CatalogView;

    closed spec fn view(&self) -> CatalogView {
        CatalogView {
            entries: self.inner@.map_values(|descriptor: P2pArtifactDescriptor| descriptor@),
            local: self.local_provider@,
        }
    }
}

impl CatalogView {
    /// The entry for a key.
    pub open spec fn entry(self, key: Seq<char>) -> Option<crate::types::DescriptorView> {
        if self.entries.contains_key(key) {
            Some(self.entries[key])
        } else {
            None
        }
    }

    /// The entry for a key as it is served to peers: this node is its one
    /// provider.
    pub open spec fn served(self, key: Seq<char>) -> Option<crate::types::DescriptorView> {
        if self.entries.contains_key(key) {
            Some(
                crate::types::DescriptorView {
                    providers: seq![crate::types::ProviderView::Peer(self.local)],
                    ..self.entries[key]
                },
            )
        } else {
            None
        }
    }

    /// The catalog with a descriptor under its key.
    pub open spec fn with(self, descriptor: crate::types::DescriptorView) -> CatalogView {
        CatalogView { entries: self.entries.insert(descriptor.key, descriptor), ..self }
    }

    /// The catalog without a key.
    pub open spec fn without(self, key: Seq<char>) -> CatalogView {
        CatalogView { entries: self.entries.remove(key), ..self }
    }
}

/// What a list of parsed records adds up to: each descriptor under the key
/// that it names itself, a later one in place of an earlier one.
pub open spec fn loaded(records: Seq<CatalogRecord>) -> Map<
    Seq<char>,
    crate::types::DescriptorView,
>
    decreases records.len(),
{
    if records.len() == 0 {
        Map::empty()
    } else {
        match records.last().descriptor {
            Ok(descriptor) => loaded(records.drop_last()).insert(descriptor@.key, descriptor@),
            Err(_) => loaded(records.drop_last()),
        }
    }
}

/// Index `at` is that of the first record that could not be parsed.
pub open spec fn first_unparsed(records: Seq<CatalogRecord>, at: int) -> bool {
    &&& 0 <= at < records.len()
    &&& records[at].descriptor is Err
    &&& forall|i: int| 0 <= i < at ==> (#[trigger] records[i]).descriptor is Ok
}

/// The error for a record that could not be parsed.
pub open spec fn unparsed_error(db_path: Seq<u8>, record: CatalogRecord) -> ErrorView {
    ErrorView::Internal {
        context: "scan P2P catalog "@ + crate::text::utf8_lossy(db_path),
        cause: "parse P2P catalog entry "@ + crate::text::utf8_lossy(record.key@) + ": "@
            + record.descriptor->Err_0@,
    }
}

fn with_detail(prefix: &str, detail: &str) -> (text: String)
    ensures
        text@ == prefix@ + detail@,
{
    let mut text = prefix.to_string();
    text.append(detail);
    text
}

impl PublishedArtifactCatalog {
    /// The catalog of a node, from what reading its persisted form came to.
    pub fn load(
        scan: StoreScan,
        db_path: &[u8],
        node_id: &str,
        local_endpoint: &P2pEndpoint,
    ) -> (catalog: Result<Self, Error>)
        ensures
            match scan {
                StoreScan::OpenFailed(detail) => catalog matches Err(error) && error@ == (
                ErrorView::Internal {
                    context: "open P2P catalog "@ + crate::text::utf8_lossy(db_path@),
                    cause: detail@,
                }),
                StoreScan::ScanFailed(detail) => catalog matches Err(error) && error@ == (
                ErrorView::Internal {
                    context: "scan P2P catalog "@ + crate::text::utf8_lossy(db_path@),
                    cause: detail@,
                }),
                StoreScan::Records(records) => match catalog {
                    Ok(catalog) => {
                        &&& forall|i: int|
                            0 <= i < records@.len() ==> (#[trigger] records@[i]).descriptor is Ok
                        &&& catalog@ == (CatalogView {
                            entries: loaded(records@),
                            local: crate::types::PeerView {
                                node_id: node_id@,
                                endpoint: local_endpoint@,
                            },
                        })
                    },
                    Err(error) => exists|at: int| #[trigger]
                        first_unparsed(records@, at) && error@ == unparsed_error(
                            db_path@,
                            records@[at],
                        ),
                },
            },
    {
        let records = match scan {
            StoreScan::OpenFailed(detail) => {
                return Err(
                    Error::Internal {
                        context: with_path("open P2P catalog ", db_path),
                        cause: detail,
                    },
                );
            },
            StoreScan::ScanFailed(detail) => {
                return Err(
                    Error::Internal {
                        context: with_path("scan P2P catalog ", db_path),
                        cause: detail,
                    },
                );
            },
            StoreScan::Records(records) => records,
        };
        let mut catalog = PublishedArtifactCatalog {
            inner: Table::new(),
            local_provider: P2pPeer {
                node_id: node_id.to_string(),
                endpoint: local_endpoint.duplicate(),
            },
        };
        let mut i: usize = 0;
        assert(catalog@.entries =~= loaded(records@.take(0)));
        while i < records.len()
            invariant
                i <= records@.len(),
                forall|j: int| 0 <= j < i ==> (#[trigger] records@[j]).descriptor is Ok,
                catalog@.entries == loaded(records@.take(i as int)),
                catalog@.local == (crate::types::PeerView {
                    node_id: node_id@,
                    endpoint: local_endpoint@,
                }),
                scan == StoreScan::Records(records),
            decreases records@.len() - i,
        {
            match &records[i].descriptor {
                Ok(descriptor) => {
                    assert(records@.take(i + 1).drop_last() =~= records@.take(i as int));
                    catalog.hold(descriptor.duplicate());
                },
                Err(detail) => {
                    assert(first_unparsed(records@, i as int));
                    let mut cause = with_detail(
                        "parse P2P catalog entry ",
                        text_lossy(records[i].key.as_slice()).as_str(),
                    );
                    cause.append(": ");
                    cause.append(detail.as_str());
                    return Err(
                        Error::Internal { context: with_path("scan P2P catalog ", db_path), cause },
                    );
                },
            }
            i = i + 1;
        }
        assert(records@.take(records@.len() as int) =~= records@);
        Ok(catalog)
    }

    fn hold(&mut self, descriptor: P2pArtifactDescriptor)
        ensures
            final(self)@ == old(self)@.with(descriptor@),
    {
        let ghost before = self@;
        self.inner.insert(descriptor.key.clone(), descriptor);
        assert(self@.entries =~= before.entries.insert(descriptor@.key, descriptor@));
    }

    /// The descriptor published under `key`.
    pub fn descriptor_for(&self, key: &P2pArtifactKey) -> (descriptor: Option<
        P2pArtifactDescriptor,
    >)
        ensures
            descriptor_view(descriptor) == self@.entry(key@),
    {
        match self.inner.get(key) {
            Some(descriptor) => Some(descriptor.duplicate()),
            None => None,
        }
    }

    /// Descriptor for serving to a remote peer: the provider list always
    /// reflects the current node identity instead of whatever the entry
    /// happened to store.
    pub fn serving_descriptor(&self, key: &P2pArtifactKey) -> (descriptor: Option<
        P2pArtifactDescriptor,
    >)
        ensures
            descriptor_view(descriptor) == self@.served(key@),
    {
        match self.descriptor_for(key) {
            Some(stored) => {
                let mut providers: Vec<P2pArtifactProvider> = Vec::new();
                providers.push(P2pArtifactProvider::Peer(self.local_provider.duplicate()));
                let descriptor = P2pArtifactDescriptor {
                    key: stored.key,
                    providers,
                    backend_locator: stored.backend_locator,
                    metadata: stored.metadata,
                };
                assert(descriptor@.providers =~= seq![
                    crate::types::ProviderView::Peer(self@.local),
                ]);
                Some(descriptor)
            },
            None => None,
        }
    }

    /// Hold a descriptor under its key, once persisting it came to `put`.
    pub fn upsert(&mut self, descriptor: P2pArtifactDescriptor, put: StorePut) -> (held: Result<
        (),
        Error,
    >)
        ensures
            match (put, held) {
                (StorePut::Stored, Ok(())) => final(self)@ == old(self)@.with(descriptor@),
                (StorePut::SerializeFailed(detail), Err(error)) => {
                    &&& final(self)@ == old(self)@
                    &&& error@ == (ErrorView::Internal {
                        context: "serialize P2P catalog entry"@,
                        cause: detail@,
                    })
                },
                (StorePut::PutFailed(detail), Err(error)) => {
                    &&& final(self)@ == old(self)@
                    &&& error@ == (ErrorView::Internal {
                        context: "persist P2P catalog entry "@ + descriptor.key@,
                        cause: detail@,
                    })
                },
                _ => false,
            },
    {
        match put {
            StorePut::Stored => {
                self.hold(descriptor);
                Ok(())
            },
            StorePut::SerializeFailed(detail) => Err(
                Error::Internal {
                    context: "serialize P2P catalog entry".to_string(),
                    cause: detail,
                },
            ),
            StorePut::PutFailed(detail) => Err(
                Error::Internal {
                    context: with_detail("persist P2P catalog entry ", descriptor.key.as_str()),
                    cause: detail,
                },
            ),
        }
    }

    /// Drop the entry for `key`, once deleting it from the store came to
    /// `deleted`.
    pub fn remove(&mut self, key: &P2pArtifactKey, deleted: Result<(), String>) -> (removed: Result<
        Option<P2pArtifactDescriptor>,
        Error,
    >)
        ensures
            match (deleted, removed) {
                (Ok(()), Ok(removed)) => {
                    &&& descriptor_view(removed) == old(self)@.entry(key@)
                    &&& final(self)@ == old(self)@.without(key@)
                },
                (Err(detail), Err(error)) => {
                    &&& final(self)@ == old(self)@
                    &&& error@ == (ErrorView::Internal {
                        context: "delete P2P catalog entry "@ + key@,
                        cause: detail@,
                    })
                },
                _ => false,
            },
    {
        match deleted {
            Ok(()) => {
                let ghost before = self@;
                let removed = self.inner.remove(key);
                assert(self@.entries =~= before.entries.remove(key@));
                Ok(removed)
            },
            Err(detail) => Err(
                Error::Internal {
                    context: with_detail("delete P2P catalog entry ", key.as_str()),
                    cause: detail,
                },
            ),
        }
    }

    /// Start dropping every entry. Used by backends whose registrations are
    /// process-local and therefore cannot serve entries persisted by an
    /// earlier run.
    pub fn reset(&self) -> (reset: CatalogReset)
        ensures
            reset@.no_duplicates(),
            reset@.to_set() == self@.entries.dom(),
    {
        let entries = self.inner.entries();
        let mut keys: Vec<P2pArtifactKey> = Vec::new();
        let mut i: usize = 0;
        while i < entries.len()
            invariant
                i <= entries@.len(),
                keys@.len() == i,
                forall|j: int| 0 <= j < i ==> (#[trigger] keys@[j])@ == entries@[j].0@,
            decreases entries@.len() - i,
        {
            keys.push(entries[i].0.clone());
            i = i + 1;
        }
        let reset = CatalogReset { keys, at: 0 };
        proof {
            assert forall|a: int, b: int| 0 <= a < b < reset@.len() implies reset@[a]
                != reset@[b] by {
                assert(crate::table::Key::id(&entries@[a].0) != crate::table::Key::id(
                    &entries@[b].0,
                ));
            }
            assert forall|key: Seq<char>| reset@.to_set().contains(key)
                == self@.entries.dom().contains(key) by {
                if self@.entries.dom().contains(key) {
                    let j = choose|j: int|
                        0 <= j < entries@.len() && #[trigger] crate::table::Key::id(
                            &entries@[j].0,
                        ) == key;
                    assert(reset@[j] == key);
                }
                if reset@.contains(key) {
                    let j = choose|j: int| 0 <= j < reset@.len() && reset@[j] == key;
                    assert(crate::table::Key::id(&entries@[j].0) == key);
                }
            }
            assert(reset@.to_set() =~= self@.entries.dom());
        }
        reset
    }
}

/// Dropping of every entry, one store deletion at a time.
#[derive(Debug)]
pub struct CatalogReset {
    keys: Vec<P2pArtifactKey>,
    at: usize,
}

impl View for CatalogReset {
    type V = Seq<Seq<char>>;

    /// The keys that are still to be dropped, the next one first.
    closed spec fn view(&self) -> Seq<Seq<char>> {
        Seq::new(
            (self.keys@.len() - self.at) as nat,
            |i: int| self.keys@[self.at + i]@,
        )
    }
}

impl CatalogReset {
    #[verifier::type_invariant]
    spec fn within(self) -> bool {
        self.at <= self.keys@.len()
    }

    /// The next key to delete from the store; `None` when all are dropped.
    pub fn next_key(&self) -> (key: Option<P2pArtifactKey>)
        ensures
            match key {
                Some(key) => self@.len() > 0 && key@ == self@[0],
                None => self@.len() == 0,
            },
    {
        proof {
            use_type_invariant(self);
        }
        if self.at < self.keys.len() {
            Some(self.keys[self.at].clone())
        } else {
            None
        }
    }

    /// Drop the next entry, once deleting it from the store came to
    /// `deleted`. A failure ends the reset.
    pub fn advance(
        self,
        catalog: &mut PublishedArtifactCatalog,
        deleted: Result<(), String>,
    ) -> (next: Result<Self, Error>)
        requires
            self@.len() > 0,
        ensures
            match (deleted, next) {
                (Ok(()), Ok(next)) => {
                    &&& next@ == self@.drop_first()
                    &&& final(catalog)@ == old(catalog)@.without(self@[0])
                },
                (Err(detail), Err(error)) => {
                    &&& final(catalog)@ == old(catalog)@
                    &&& error@ == (ErrorView::Internal {
                        context: "delete P2P catalog entry "@ + self@[0],
                        cause: detail@,
                    })
                },
                _ => false,
            },
    {
        proof {
            use_type_invariant(&self);
            assert(self.at < self.keys.len());
        }
        match catalog.remove(&self.keys[self.at], deleted) {
            Ok(_) => {
                let ghost before = self@;
                let next = CatalogReset { at: self.at + 1, keys: self.keys };
                assert(next@ =~= before.drop_first());
                Ok(next)
            },
            Err(error) => Err(error),
        }
    }
}

/// The catalog after the given keys have been dropped.
pub open spec fn without_all(catalog: CatalogView, keys: Seq<Seq<char>>) -> CatalogView
    decreases keys.len(),
{
    if keys.len() == 0 {
        catalog
    } else {
        without_all(catalog.without(keys[0]), keys.drop_first())
    }
}

/// A reset that runs to its end, with nothing published meanwhile, leaves the
/// catalog empty.
pub proof fn law_reset_empties_catalog(catalog: CatalogView, keys: Seq<Seq<char>>)
    requires
        catalog.entries.dom().subset_of(keys.to_set()),
    ensures
        without_all(catalog, keys).entries == Map::<Seq<char>, crate::types::DescriptorView>::empty(),
        without_all(catalog, keys).local == catalog.local,
    decreases keys.len(),
{
    if keys.len() == 0 {
        assert(catalog.entries =~= Map::empty());
    } else {
        let rest = keys.drop_first();
        assert forall|key: Seq<char>| catalog.without(keys[0]).entries.dom().contains(
            key,
        ) implies rest.to_set().contains(key) by {
            assert(keys.to_set().contains(key));
            let i = choose|i: int| 0 <= i < keys.len() && keys[i] == key;
            assert(rest[i - 1] == key);
        }
        law_reset_empties_catalog(catalog.without(keys[0]), rest);
    }
}

/// What has been held under a key is found there, until it is dropped; other
/// keys are not touched.
pub proof fn law_held_until_dropped(
    catalog: CatalogView,
    descriptor: crate::types::DescriptorView,
    other: Seq<char>,
)
    requires
        other != descriptor.key,
    ensures
        catalog.with(descriptor).entry(descriptor.key) == Some(descriptor),
        catalog.with(descriptor).without(descriptor.key).entry(descriptor.key) is None,
        catalog.with(descriptor).entry(other) == catalog.entry(other),
        catalog.without(descriptor.key).entry(other) == catalog.entry(other),
{
}

/// Serving says nothing about who the stored entry names as provider: peers
/// are told this node, and everything else as stored.
pub proof fn law_serving_names_current_node(
    catalog: CatalogView,
    descriptor: crate::types::DescriptorView,
)
    ensures
        catalog.with(descriptor).served(descriptor.key) == Some(
            crate::types::DescriptorView {
                providers: seq![crate::types::ProviderView::Peer(catalog.local)],
                ..descriptor
            },
        ),
{
}

/// The record holds the descriptor of this artifact.
pub open spec fn names(record: CatalogRecord, key: Seq<char>) -> bool {
    record.descriptor matches Ok(descriptor) && descriptor@.key == key
}

/// The records are the persisted form of the catalog: each holds an entry of
/// it, and every entry is held.
pub open spec fn mirrors(records: Seq<CatalogRecord>, catalog: CatalogView) -> bool {
    &&& forall|record: CatalogRecord| #[trigger]
        records.contains(record) ==> (record.descriptor matches Ok(descriptor) && catalog.entry(
            descriptor@.key,
        ) == Some(descriptor@))
    &&& forall|key: Seq<char>| #[trigger]
        catalog.entries.contains_key(key) ==> exists|record: CatalogRecord|
            records.contains(record) && #[trigger] names(record, key)
}

/// The records after the store took a record for a key, in place of those
/// that it held for that key. Their order is left open.
pub open spec fn is_put(
    before: Seq<CatalogRecord>,
    key: Seq<char>,
    record: CatalogRecord,
    after: Seq<CatalogRecord>,
) -> bool {
    forall|other: CatalogRecord| #[trigger]
        after.contains(other) <==> other == record || before.contains(other) && !names(other, key)
}

/// The records after the store dropped those for a key.
pub open spec fn is_deleted(
    before: Seq<CatalogRecord>,
    key: Seq<char>,
    after: Seq<CatalogRecord>,
) -> bool {
    forall|other: CatalogRecord| #[trigger]
        after.contains(other) <==> before.contains(other) && !names(other, key)
}

proof fn lemma_loaded(records: Seq<CatalogRecord>, key: Seq<char>)
    ensures
        loaded(records).contains_key(key) ==> exists|record: CatalogRecord|
            records.contains(record) && #[trigger] names(record, key) && record.descriptor->Ok_0@
                == loaded(records)[key],
        forall|record: CatalogRecord|
            records.contains(record) && #[trigger] names(record, key) ==> loaded(
                records,
            ).contains_key(key),
    decreases records.len(),
{
    if records.len() > 0 {
        let init = records.drop_last();
        let last = records.last();
        lemma_loaded(init, key);
        assert(records[records.len() - 1] == last);
        assert forall|record: CatalogRecord| records.contains(record) implies record == last
            || init.contains(record) by {
            let i = choose|i: int| 0 <= i < records.len() && records[i] == record;
            if i < init.len() {
                assert(init[i] == record);
            }
        }
        if names(last, key) {
            assert(records.contains(last));
        } else if loaded(init).contains_key(key) {
            let held = choose|record: CatalogRecord|
                init.contains(record) && #[trigger] names(record, key) && record.descriptor->Ok_0@
                    == loaded(init)[key];
            let i = choose|i: int| 0 <= i < init.len() && init[i] == held;
            assert(records[i] == held);
        }
    }
}

/// The persisted form of a catalog loads back as the catalog was, in
/// whatever order the store hands the records out.
pub proof fn law_persisted_catalog_loads_back(records: Seq<CatalogRecord>, catalog: CatalogView)
    requires
        mirrors(records, catalog),
    ensures
        loaded(records) == catalog.entries,
{
    assert forall|key: Seq<char>| #[trigger]
        loaded(records).contains_key(key) == catalog.entries.contains_key(key) && (loaded(
            records,
        ).contains_key(key) ==> loaded(records)[key] == catalog.entries[key]) by {
        lemma_loaded(records, key);
    }
    assert(loaded(records) =~= catalog.entries);
}

/// A publication survives a restart: once the store has taken the descriptor,
/// what loads back is the catalog that holds it.
pub proof fn law_publication_survives_restart(
    before: Seq<CatalogRecord>,
    catalog: CatalogView,
    record: CatalogRecord,
    descriptor: P2pArtifactDescriptor,
    after: Seq<CatalogRecord>,
)
    requires
        mirrors(before, catalog),
        record.descriptor == Ok::<P2pArtifactDescriptor, String>(descriptor),
        is_put(before, descriptor@.key, record, after),
    ensures
        mirrors(after, catalog.with(descriptor@)),
        loaded(after) == catalog.with(descriptor@).entries,
{
    let held = catalog.with(descriptor@);
    assert forall|key: Seq<char>| #[trigger] held.entries.contains_key(key) implies exists|
        other: CatalogRecord,
    |
        after.contains(other) && #[trigger] names(other, key) by {
        if key == descriptor@.key {
            assert(after.contains(record));
            assert(names(record, key));
        } else {
            assert(catalog.entries.contains_key(key));
            let other = choose|other: CatalogRecord|
                before.contains(other) && #[trigger] names(other, key);
            assert(after.contains(other));
        }
    }
    law_persisted_catalog_loads_back(after, held);
}

/// A removal survives a restart: once the store has dropped the entry, what
/// loads back is the catalog without it.
pub proof fn law_removal_survives_restart(
    before: Seq<CatalogRecord>,
    catalog: CatalogView,
    key: Seq<char>,
    after: Seq<CatalogRecord>,
)
    requires
        mirrors(before, catalog),
        is_deleted(before, key, after),
    ensures
        mirrors(after, catalog.without(key)),
        loaded(after) == catalog.without(key).entries,
{
    let left = catalog.without(key);
    assert forall|other: Seq<char>| #[trigger] left.entries.contains_key(other) implies exists|
        record: CatalogRecord,
    |
        after.contains(record) && #[trigger] names(record, other) by {
        assert(catalog.entries.contains_key(other));
        let record = choose|record: CatalogRecord|
            before.contains(record) && #[trigger] names(record, other);
        assert(after.contains(record));
    }
    law_persisted_catalog_loads_back(after, left);
}

/// A descriptor is held exactly once the store has taken it. It is then found
/// under the key that it names, in place of what was there; every other key
/// finds what it found before, and so does every key if the store did not take
/// it. Peers are told what is held, under the name of this node.
pub proof fn law_catalog_holds_what_was_stored(
    catalog: &mut PublishedArtifactCatalog,
    descriptor: P2pArtifactDescriptor,
    put: StorePut,
    held: Result<(), Error>,
    key: P2pArtifactKey,
    earlier: Option<P2pArtifactDescriptor>,
    found: Option<P2pArtifactDescriptor>,
    served: Option<P2pArtifactDescriptor>,
)
    requires
        call_ensures(
            PublishedArtifactCatalog::descriptor_for,
            (&*old(catalog), &key),
            earlier,
        ),
        call_ensures(PublishedArtifactCatalog::upsert, (catalog, descriptor, put), held),
        call_ensures(
            PublishedArtifactCatalog::descriptor_for,
            (&*final(catalog), &key),
            found,
        ),
        call_ensures(
            PublishedArtifactCatalog::serving_descriptor,
            (&*final(catalog), &key),
            served,
        ),
    ensures
        held is Ok <==> put is Stored,
        match put {
            StorePut::SerializeFailed(detail) | StorePut::PutFailed(detail) => held matches Err(
                Error::Internal { cause, .. },
            ) && cause@ == detail@,
            StorePut::Stored => true,
        },
        put is Stored && key@ == descriptor.key@ ==> (found matches Some(found) && found@
            == descriptor@),
        !(put is Stored && key@ == descriptor.key@) ==> {
            &&& found is Some == earlier is Some
            &&& found is Some ==> found->0@ == earlier->0@
        },
        final(catalog)@.local == old(catalog)@.local,
        served is Some <==> found is Some,
        served matches Some(served) ==> {
            &&& served@.key == found->0@.key
            &&& served@.backend_locator == found->0@.backend_locator
            &&& served@.metadata == found->0@.metadata
            &&& served@.providers.len() == 1
            &&& served@.providers[0] matches crate::types::ProviderView::Peer(peer) && peer
                == old(catalog)@.local
        },
{
}

/// An entry is dropped exactly once the store has dropped it, and is handed
/// back; every other key finds what it found before.
pub proof fn law_catalog_forgets_what_was_deleted(
    catalog: &mut PublishedArtifactCatalog,
    dropped: P2pArtifactKey,
    deleted: Result<(), String>,
    removed: Result<Option<P2pArtifactDescriptor>, Error>,
    key: P2pArtifactKey,
    earlier: Option<P2pArtifactDescriptor>,
    found: Option<P2pArtifactDescriptor>,
)
    requires
        call_ensures(
            PublishedArtifactCatalog::descriptor_for,
            (&*old(catalog), &key),
            earlier,
        ),
        call_ensures(PublishedArtifactCatalog::remove, (catalog, &dropped, deleted), removed),
        call_ensures(
            PublishedArtifactCatalog::descriptor_for,
            (&*final(catalog), &key),
            found,
        ),
    ensures
        removed is Ok <==> deleted is Ok,
        deleted matches Err(detail) ==> (removed matches Err(Error::Internal { cause, .. })
            && cause@ == detail@),
        deleted is Ok && key@ == dropped@ ==> {
            &&& found is None
            &&& removed->Ok_0 is Some == earlier is Some
            &&& earlier is Some ==> removed->Ok_0->0@ == earlier->0@
        },
        !(deleted is Ok && key@ == dropped@) ==> {
            &&& found is Some == earlier is Some
            &&& found is Some ==> found->0@ == earlier->0@
        },
        final(catalog)@.local == old(catalog)@.local,
{
}

proof fn lemma_loaded_at(records: Seq<CatalogRecord>, key: Seq<char>, at: int)
    requires
        0 <= at < records.len(),
        names(records[at], key),
        forall|j: int| at < j < records.len() ==> !names(#[trigger] records[j], key),
    ensures
        loaded(records).contains_key(key),
        loaded(records)[key] == records[at].descriptor->Ok_0@,
    decreases records.len(),
{
    let init = records.drop_last();
    if at < records.len() - 1 {
        assert(init[at] == records[at]);
        assert forall|j: int| at < j < init.len() implies !names(#[trigger] init[j], key) by {
            assert(init[j] == records[j]);
        }
        lemma_loaded_at(init, key, at);
        assert(!names(records[records.len() - 1], key));
    }
}

/// A catalog loads exactly if the store can be read and every record parsed.
/// It then belongs to the given node, and each key finds what the last record
/// that names it holds; a key that no record names finds nothing. Otherwise the
/// error carries the detail.
pub proof fn law_catalog_loads_what_was_persisted(
    scan: StoreScan,
    db_path: &[u8],
    node_id: &str,
    local_endpoint: P2pEndpoint,
    catalog: Result<PublishedArtifactCatalog, Error>,
    key: P2pArtifactKey,
    found: Option<P2pArtifactDescriptor>,
    at: int,
)
    requires
        call_ensures(
            PublishedArtifactCatalog::load,
            (scan, db_path, node_id, &local_endpoint),
            catalog,
        ),
        catalog matches Ok(catalog) ==> call_ensures(
            PublishedArtifactCatalog::descriptor_for,
            (&catalog, &key),
            found,
        ),
    ensures
        catalog is Ok <==> (scan matches StoreScan::Records(records) && forall|i: int|
            0 <= i < records@.len() ==> (#[trigger] records@[i]).descriptor is Ok),
        catalog matches Ok(catalog) ==> {
            let records = scan->Records_0@;
            &&& catalog@.local.node_id == node_id@
            &&& catalog@.local.endpoint == local_endpoint@
            &&& 0 <= at < records.len() && records[at].descriptor->Ok_0@.key == key@ && (forall|
                j: int,
            |
                at < j < records.len() ==> (#[trigger] records[j]).descriptor->Ok_0@.key != key@)
                ==> (found matches Some(found) && found@ == records[at].descriptor->Ok_0@)
            &&& (forall|j: int|
                0 <= j < records.len() ==> (#[trigger] records[j]).descriptor->Ok_0@.key != key@)
                ==> found is None
        },
        catalog matches Err(error) ==> error is Internal && match scan {
            StoreScan::OpenFailed(detail) | StoreScan::ScanFailed(detail) => error->cause@
                == detail@,
            StoreScan::Records(records) => 0 <= at < records@.len()
                && records@[at].descriptor is Err && (forall|i: int|
                0 <= i < at ==> (#[trigger] records@[i]).descriptor is Ok)
                ==> crate::text::ends_with(error->cause@, records@[at].descriptor->Err_0@),
        },
{
    match (scan, catalog) {
        (StoreScan::Records(records), Ok(catalog)) => {
            let list = records@;
            if 0 <= at < list.len() && list[at].descriptor->Ok_0@.key == key@ && (forall|j: int|
                at < j < list.len() ==> (#[trigger] list[j]).descriptor->Ok_0@.key != key@) {
                assert(names(list[at], key@));
                assert forall|j: int| at < j < list.len() implies !names(
                    #[trigger] list[j],
                    key@,
                ) by {
                    assert(list[j].descriptor->Ok_0@.key != key@);
                }
                lemma_loaded_at(list, key@, at);
            }
            if forall|j: int|
                0 <= j < list.len() ==> (#[trigger] list[j]).descriptor->Ok_0@.key != key@ {
                lemma_loaded(list, key@);
                if loaded(list).contains_key(key@) {
                    let record = choose|record: CatalogRecord|
                        list.contains(record) && #[trigger] names(record, key@)
                            && record.descriptor->Ok_0@ == loaded(list)[key@];
                    let j = choose|j: int| 0 <= j < list.len() && list[j] == record;
                    assert(list[j].descriptor->Ok_0@.key != key@);
                }
            }
        },
        (StoreScan::Records(records), Err(error)) => {
            let first = choose|first: int| #[trigger]
                first_unparsed(records@, first) && error@ == unparsed_error(
                    db_path@,
                    records@[first],
                );
            assert(first_unparsed(records@, first));
            assert(records@[first].descriptor is Err);
            if 0 <= at < records@.len() && records@[at].descriptor is Err && (forall|i: int|
                0 <= i < at ==> (#[trigger] records@[i]).descriptor is Ok) {
                assert(at == first);
                crate::text::lemma_ends_with(
                    "parse P2P catalog entry "@ + crate::text::utf8_lossy(records@[at].key@)
                        + ": "@,
                    records@[at].descriptor->Err_0@,
                );
            }
        },
        _ => {},
    }
}

/// A reset names every key of the catalog once; each key that the store
/// dropped is gone from the catalog, the others are as they were, and the keys
/// behind it come next. A failure leaves the catalog as it is.
pub proof fn law_resets_drop_key_by_key(
    catalog: &mut PublishedArtifactCatalog,
    begun: CatalogReset,
    reset: CatalogReset,
    now: Option<P2pArtifactKey>,
    deleted: Result<(), String>,
    next: Result<CatalogReset, Error>,
    key: P2pArtifactKey,
    earlier: Option<P2pArtifactDescriptor>,
    found: Option<P2pArtifactDescriptor>,
)
    requires
        call_ensures(PublishedArtifactCatalog::reset, (&*old(catalog),), begun),
        call_ensures(
            PublishedArtifactCatalog::descriptor_for,
            (&*old(catalog), &key),
            earlier,
        ),
        call_ensures(CatalogReset::next_key, (&reset,), now),
        reset@.len() > 0,
        call_ensures(CatalogReset::advance, (reset, catalog, deleted), next),
        call_ensures(
            PublishedArtifactCatalog::descriptor_for,
            (&*final(catalog), &key),
            found,
        ),
    ensures
        begun@.contains(key@) <==> earlier is Some,
        begun@.no_duplicates(),
        now matches Some(dropped) && dropped@ == reset@[0] && (if deleted is Ok && key@
            == dropped@ {
            found is None
        } else {
            found is Some == earlier is Some && (found is Some ==> found->0@ == earlier->0@)
        }),
        next is Ok <==> deleted is Ok,
        next matches Ok(rest) ==> rest@ == reset@.skip(1),
        deleted matches Err(detail) ==> (next matches Err(Error::Internal { cause, .. }) && cause@
            == detail@),
{
    assert(begun@.to_set().contains(key@) == begun@.contains(key@));
    assert(reset@.drop_first() =~= reset@.skip(1));
}

/// A failure of the store names the key that it failed for.
pub proof fn law_store_failures_name_the_key(
    putting: &mut PublishedArtifactCatalog,
    descriptor: P2pArtifactDescriptor,
    detail: String,
    put: Result<(), Error>,
    dropping: &mut PublishedArtifactCatalog,
    key: P2pArtifactKey,
    dropped: Result<Option<P2pArtifactDescriptor>, Error>,
)
    requires
        call_ensures(
            PublishedArtifactCatalog::upsert,
            (putting, descriptor, StorePut::PutFailed(detail)),
            put,
        ),
        call_ensures(
            PublishedArtifactCatalog::remove,
            (dropping, &key, Err(detail)),
            dropped,
        ),
    ensures
        put matches Err(Error::Internal { context, .. }) && crate::text::ends_with(
            context@,
            descriptor.key@,
        ),
        dropped matches Err(Error::Internal { context, .. }) && crate::text::ends_with(
            context@,
            key@,
        ),
{
    crate::text::lemma_ends_with("persist P2P catalog entry "@, descriptor.key@);
    crate::text::lemma_ends_with("delete P2P catalog entry "@, key@);
}

} // verus!
