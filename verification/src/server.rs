//! Catalog protocol of the `ub` transport.
//!
//! The catalog is the metadata channel of the transport: peers ask who serves
//! an artifact and what its segment handle is over a plain byte stream, then
//! transfer bytes out-of-band via one-sided reads. Framing is a 4-byte
//! little-endian length prefix followed by the serialized request or
//! response. Both sides are step machines: each step names what to do with
//! the stream, and is left with what came of it.
use crate::catalog::{
    CatalogRequest, CatalogResponse, PublishedArtifactCatalog, MAX_CATALOG_REQUEST_BYTES,
    MAX_CATALOG_RESPONSE_BYTES,
};
use crate::endian::push_u32_le;
use crate::error::{Error, ErrorView};
use crate::text::push_decimal;
use crate::types::{P2pArtifactDescriptor, P2pArtifactKey};
use vstd::prelude::*;

verus! {

/// How long the accept loop pauses after a failed accept, in milliseconds.
pub const ACCEPT_RETRY_MILLIS: u64 = 50;

/// The length prefix of a message of `len` bytes. A length that does not fit
/// four bytes is cut to its low 32 bits.
pub open spec fn length_prefix(len: nat) -> Seq<u8> {
    crate::endian::u32_le((len % 0x1_0000_0000) as u32)
}

fn encode_length(len: usize) -> (prefix: Vec<u8>)
    ensures
        prefix@ == length_prefix(len as nat),
{
    let wide: u64 = len as u64;
    let short: u32 = (wide % 0x1_0000_0000) as u32;
    let mut prefix: Vec<u8> = Vec::with_capacity(4);
    push_u32_le(&mut prefix, short);
    assert(prefix@ =~= length_prefix(len as nat));
    prefix
}

fn bytes_text(prefix: &str, count: u64) -> (text: String)
    ensures
        text@ == prefix@ + crate::text::decimal(count as nat) + " bytes"@,
{
    let mut text = prefix.to_string();
    push_decimal(&mut text, count);
    text.append(" bytes");
    text
}

fn detailed(context: &str, detail: &str) -> (text: String)
    ensures
        text@ == context@ + ": "@ + detail@,
{
    let mut text = context.to_string();
    text.append(": ");
    text.append(detail);
    text
}

// The serving side.

/// What serving a connection does next.
#[derive(Debug)]
pub enum ServeStep {
    /// Read the length prefix of the request.
    ReadLength,
    /// Read that many bytes and parse them as a request.
    ReadRequest { len: usize },
    /// Serialize the response.
    Serialize { response: CatalogResponse },
    /// Write the length prefix, then the response.
    Write { prefix: Vec<u8>, body: Vec<u8> },
    Served,
    Failed(String),
}

/// What a step of serving came to.
#[derive(Debug)]
pub enum ServeEvent {
    /// The length prefix has been read.
    Length(u32),
    /// The request has been read, and parsed or not.
    Request(Result<CatalogRequest, String>),
    /// The response has been serialized or not.
    Serialized(Result<Vec<u8>, String>),
    /// The response has been written.
    Written,
    /// The stream failed.
    StreamFailed(String),
}

/// Whether `event` can come of `now`.
pub open spec fn serve_expects(now: ServeStep, event: ServeEvent) -> bool {
    match now {
        ServeStep::ReadLength => event is Length || event is StreamFailed,
        ServeStep::ReadRequest { .. } => event is Request || event is StreamFailed,
        ServeStep::Serialize { .. } => event is Serialized,
        ServeStep::Write { .. } => event is Written || event is StreamFailed,
        ServeStep::Served | ServeStep::Failed(_) => false,
    }
}

/// The connection has failed with the given text.
pub open spec fn serve_failed(step: ServeStep, text: Seq<char>) -> bool {
    step matches ServeStep::Failed(found) && found@ == text
}

/// How serving goes on.
pub open spec fn serve_goes_on(
    catalog: crate::catalog::CatalogView,
    event: ServeEvent,
    next: ServeStep,
) -> bool {
    match event {
        ServeEvent::Length(announced) => {
            if announced <= MAX_CATALOG_REQUEST_BYTES {
                next matches ServeStep::ReadRequest { len } && len == announced
            } else {
                serve_failed(
                    next,
                    "catalog request too large: "@ + crate::text::decimal(announced as nat)
                        + " bytes"@,
                )
            }
        },
        ServeEvent::Request(Ok(request)) => {
            next matches ServeStep::Serialize { response } && crate::catalog::descriptor_view(
                response.descriptor,
            ) == catalog.served(request.key@)
        },
        ServeEvent::Request(Err(detail)) => serve_failed(
            next,
            "parse ub P2P catalog request"@ + ": "@ + detail@,
        ),
        ServeEvent::Serialized(Ok(bytes)) => {
            if bytes@.len() <= MAX_CATALOG_RESPONSE_BYTES {
                next matches ServeStep::Write { prefix, body } && prefix@ == length_prefix(
                    bytes@.len(),
                ) && body@ == bytes@
            } else {
                serve_failed(
                    next,
                    "catalog response too large: "@ + crate::text::decimal(bytes@.len())
                        + " bytes"@,
                )
            }
        },
        ServeEvent::Serialized(Err(detail)) => serve_failed(
            next,
            "serialize catalog response"@ + ": "@ + detail@,
        ),
        ServeEvent::Written => next is Served,
        ServeEvent::StreamFailed(detail) => serve_failed(next, detail@),
    }
}

/// Serve one connection: go on from `now` with what came of it.
pub fn serve_connection(
    now: ServeStep,
    catalog: &PublishedArtifactCatalog,
    event: ServeEvent,
) -> (next: ServeStep)
    requires
        serve_expects(now, event),
    ensures
        serve_goes_on(catalog@, event, next),
{
    match event {
        ServeEvent::Length(announced) => {
            let len: usize = announced as usize;
            if len > MAX_CATALOG_REQUEST_BYTES {
                return ServeStep::Failed(
                    bytes_text("catalog request too large: ", announced as u64),
                );
            }
            ServeStep::ReadRequest { len }
        },
        ServeEvent::Request(Ok(request)) => ServeStep::Serialize {
            response: CatalogResponse { descriptor: catalog.serving_descriptor(&request.key) },
        },
        ServeEvent::Request(Err(detail)) => ServeStep::Failed(
            detailed("parse ub P2P catalog request", detail.as_str()),
        ),
        ServeEvent::Serialized(Ok(bytes)) => {
            if bytes.len() > MAX_CATALOG_RESPONSE_BYTES {
                return ServeStep::Failed(
                    bytes_text("catalog response too large: ", bytes.len() as u64),
                );
            }
            ServeStep::Write { prefix: encode_length(bytes.len()), body: bytes }
        },
        ServeEvent::Serialized(Err(detail)) => ServeStep::Failed(
            detailed("serialize catalog response", detail.as_str()),
        ),
        ServeEvent::Written => ServeStep::Served,
        ServeEvent::StreamFailed(detail) => ServeStep::Failed(detail),
    }
}

// The asking side.

/// What asking a peer does next: one request per connection.
#[derive(Debug)]
pub enum AskStep {
    /// Connect to the peer's catalog address.
    Connect,
    /// Serialize the request.
    Serialize { request: CatalogRequest },
    /// Write the length prefix; the body follows.
    WriteLength { prefix: Vec<u8>, body: Vec<u8> },
    /// Write the request.
    WriteBody { body: Vec<u8> },
    /// Read the length prefix of the response.
    ReadLength,
    /// Read that many bytes.
    ReadBody { len: usize },
    /// Parse the response that has just been read.
    Parse,
    /// The peer's answer.
    Answered(Option<P2pArtifactDescriptor>),
    Failed(Error),
}

/// What a step of asking came to.
#[derive(Debug)]
pub enum AskEvent {
    /// The step is done.
    Done,
    /// The step failed.
    Failed(String),
    /// The request has been serialized.
    Serialized(Vec<u8>),
    /// The length prefix has been read.
    Length(u32),
    /// The response has been parsed.
    Parsed(CatalogResponse),
}

/// Whether `event` can come of `now`.
pub open spec fn ask_expects(now: AskStep, event: AskEvent) -> bool {
    match now {
        AskStep::Connect | AskStep::WriteLength { .. } | AskStep::WriteBody { .. }
        | AskStep::ReadBody { .. } => event is Done || event is Failed,
        AskStep::Serialize { .. } => event is Serialized || event is Failed,
        AskStep::ReadLength => event is Length || event is Failed,
        AskStep::Parse => event is Parsed || event is Failed,
        AskStep::Answered(_) | AskStep::Failed(_) => false,
    }
}

/// What a failure of a step is reported under.
pub open spec fn ask_context(now: AskStep, catalog_addr: Seq<char>) -> Seq<char> {
    match now {
        AskStep::Connect => "connect to ub P2P catalog peer "@ + catalog_addr,
        AskStep::Serialize { .. } => "serialize catalog request"@,
        AskStep::WriteLength { .. } => "write catalog request length"@,
        AskStep::WriteBody { .. } => "write catalog request"@,
        AskStep::ReadLength => "read catalog response length"@,
        AskStep::ReadBody { .. } => "read catalog response"@,
        _ => "parse catalog response"@,
    }
}

/// How asking goes on.
pub open spec fn ask_goes_on(
    catalog_addr: Seq<char>,
    key: Seq<char>,
    now: AskStep,
    event: AskEvent,
    next: AskStep,
) -> bool {
    match (now, event) {
        (_, AskEvent::Failed(detail)) => next matches AskStep::Failed(error) && error@ == (
        ErrorView::Internal { context: ask_context(now, catalog_addr), cause: detail@ }),
        (AskStep::Connect, AskEvent::Done) => next matches AskStep::Serialize { request }
            && request.key@ == key,
        (AskStep::Serialize { .. }, AskEvent::Serialized(bytes)) => next matches
            AskStep::WriteLength { prefix, body } && prefix@ == length_prefix(bytes@.len()) && body@
            == bytes@,
        (AskStep::WriteLength { body: request, .. }, AskEvent::Done) => next matches
            AskStep::WriteBody { body } && body@ == request@,
        (AskStep::WriteBody { .. }, AskEvent::Done) => next is ReadLength,
        (AskStep::ReadLength, AskEvent::Length(announced)) => {
            if announced <= MAX_CATALOG_RESPONSE_BYTES {
                next matches AskStep::ReadBody { len } && len == announced
            } else {
                next matches AskStep::Failed(error) && error@ == (ErrorView::InvalidDescriptor {
                    reason: "catalog response too large: "@ + crate::text::decimal(
                        announced as nat,
                    ) + " bytes"@,
                })
            }
        },
        (AskStep::ReadBody { .. }, AskEvent::Done) => next is Parse,
        (AskStep::Parse, AskEvent::Parsed(response)) => next == AskStep::Answered(
            response.descriptor,
        ),
        (_, _) => false,
    }
}

fn context_of(now: &AskStep, catalog_addr: &str) -> (context: String)
    ensures
        context@ == ask_context(*now, catalog_addr@),
{
    match now {
        AskStep::Connect => {
            let mut text = "connect to ub P2P catalog peer ".to_string();
            text.append(catalog_addr);
            text
        },
        AskStep::Serialize { .. } => "serialize catalog request".to_string(),
        AskStep::WriteLength { .. } => "write catalog request length".to_string(),
        AskStep::WriteBody { .. } => "write catalog request".to_string(),
        AskStep::ReadLength => "read catalog response length".to_string(),
        AskStep::ReadBody { .. } => "read catalog response".to_string(),
        _ => "parse catalog response".to_string(),
    }
}

/// Ask the peer at `catalog_addr` for the descriptor of `key`: go on from
/// `now` with what came of it.
pub fn request_descriptor(
    now: AskStep,
    catalog_addr: &str,
    key: &P2pArtifactKey,
    event: AskEvent,
) -> (next: AskStep)
    requires
        ask_expects(now, event),
    ensures
        ask_goes_on(catalog_addr@, key@, now, event, next),
{
    match (now, event) {
        (now, AskEvent::Failed(detail)) => AskStep::Failed(
            Error::Internal { context: context_of(&now, catalog_addr), cause: detail },
        ),
        (AskStep::Connect, AskEvent::Done) => AskStep::Serialize {
            request: CatalogRequest { key: key.clone() },
        },
        (AskStep::Serialize { .. }, AskEvent::Serialized(bytes)) => AskStep::WriteLength {
            prefix: encode_length(bytes.len()),
            body: bytes,
        },
        (AskStep::WriteLength { body, .. }, AskEvent::Done) => AskStep::WriteBody { body },
        (AskStep::WriteBody { .. }, AskEvent::Done) => AskStep::ReadLength,
        (AskStep::ReadLength, AskEvent::Length(announced)) => {
            let len: usize = announced as usize;
            if len > MAX_CATALOG_RESPONSE_BYTES {
                return AskStep::Failed(
                    Error::InvalidDescriptor {
                        reason: bytes_text("catalog response too large: ", announced as u64),
                    },
                );
            }
            AskStep::ReadBody { len }
        },
        (AskStep::ReadBody { .. }, AskEvent::Done) => AskStep::Parse,
        (AskStep::Parse, AskEvent::Parsed(response)) => AskStep::Answered(response.descriptor),
        (now, _) => now,
    }
}

/// The length that a message announces is its length, as far as four bytes
/// reach: the reader takes exactly the bytes that the writer sent.
pub proof fn law_announced_length_is_sent_length(len: nat)
    requires
        len <= u32::MAX,
    ensures
        length_prefix(len).len() == 4,
        crate::endian::u32_of_le(length_prefix(len)) == len,
{
    crate::endian::law_u32_round_trip(len as u32);
}

/// A request within the limit is read whole, with the length that it was sent
/// with; a longer one, as far as its length can be announced, is refused
/// before any of it is read.
pub proof fn law_requests_within_limit_are_read(
    catalog: crate::catalog::CatalogView,
    body: Seq<u8>,
    next: ServeStep,
)
    requires
        body.len() <= u32::MAX,
        serve_goes_on(
            catalog,
            ServeEvent::Length(crate::endian::u32_of_le(length_prefix(body.len()))),
            next,
        ),
    ensures
        body.len() <= MAX_CATALOG_REQUEST_BYTES ==> (next matches ServeStep::ReadRequest { len }
            && len == body.len()),
        body.len() > MAX_CATALOG_REQUEST_BYTES ==> next is Failed,
{
    law_announced_length_is_sent_length(body.len());
}

/// Whatever response the serving side sends, the asking side accepts its
/// length and reads it whole.
pub proof fn law_sent_responses_are_accepted(
    catalog: crate::catalog::CatalogView,
    bytes: Vec<u8>,
    sent: ServeStep,
    catalog_addr: Seq<char>,
    key: Seq<char>,
    next: AskStep,
)
    requires
        serve_goes_on(catalog, ServeEvent::Serialized(Ok(bytes)), sent),
        sent is Write,
        ask_goes_on(
            catalog_addr,
            key,
            AskStep::ReadLength,
            AskEvent::Length(crate::endian::u32_of_le(sent->Write_prefix@)),
            next,
        ),
    ensures
        sent->Write_body@ == bytes@,
        next matches AskStep::ReadBody { len } && len == bytes@.len(),
{
    law_announced_length_is_sent_length(bytes@.len());
}

/// Asking for a published artifact is answered with the entry, naming the
/// serving node as its one provider; asking for another key finds nothing.
pub proof fn law_served_entry_names_serving_node(
    catalog: crate::catalog::CatalogView,
    request: CatalogRequest,
    next: ServeStep,
)
    requires
        serve_goes_on(catalog, ServeEvent::Request(Ok(request)), next),
    ensures
        next matches ServeStep::Serialize { response} && match response.descriptor {
            Some(descriptor) => {
                &&& catalog.entries.contains_key(request.key@)
                &&& descriptor@.providers == seq![crate::types::ProviderView::Peer(catalog.local)]
                &&& descriptor@.backend_locator == catalog.entries[request.key@].backend_locator
                &&& descriptor@.metadata == catalog.entries[request.key@].metadata
            },
            None => !catalog.entries.contains_key(request.key@),
        },
{
}

/// A request is read whole if it is at most a mebibyte long and refused
/// otherwise; it is answered with what the catalog holds, under the name of
/// the serving node; a response of at most eight mebibytes is sent as it is,
/// behind its length in four bytes, least significant first, and a longer one
/// is not sent. A connection is served exactly when the response is written,
/// and every failure ends it, with its detail at the end.
pub proof fn law_serving_connections(
    now: ServeStep,
    catalog: PublishedArtifactCatalog,
    event: ServeEvent,
    next: ServeStep,
    held: Option<P2pArtifactDescriptor>,
)
    requires
        serve_expects(now, event),
        call_ensures(serve_connection, (now, &catalog, event), next),
        event matches ServeEvent::Request(Ok(request)) ==> call_ensures(
            PublishedArtifactCatalog::descriptor_for,
            (&catalog, &request.key),
            held,
        ),
    ensures
        event matches ServeEvent::Length(announced) ==> {
            &&& announced <= 1024 * 1024 ==> (next matches ServeStep::ReadRequest { len } && len
                == announced)
            &&& announced > 1024 * 1024 ==> next is Failed
        },
        event matches ServeEvent::Request(Ok(request)) ==> (next matches ServeStep::Serialize {
            response,
        } && (response.descriptor is Some == held is Some) && (response.descriptor matches Some(
            told,
        ) ==> {
            &&& told@.key == held->0@.key
            &&& told@.backend_locator == held->0@.backend_locator
            &&& told@.metadata == held->0@.metadata
            &&& told@.providers.len() == 1
            &&& told@.providers[0] matches crate::types::ProviderView::Peer(peer) && peer
                == catalog@.local
        })),
        event matches ServeEvent::Serialized(Ok(bytes)) ==> {
            &&& bytes@.len() <= 8 * 1024 * 1024 ==> (next matches ServeStep::Write {
                prefix,
                body,
            } && body@ == bytes@ && prefix@.len() == 4 && crate::endian::number_of_four(prefix@)
                == bytes@.len())
            &&& bytes@.len() > 8 * 1024 * 1024 ==> next is Failed
        },
        next is Served <==> event is Written,
        event matches ServeEvent::Request(Err(detail)) ==> (next matches ServeStep::Failed(text)
            && crate::text::ends_with(text@, detail@)),
        event matches ServeEvent::Serialized(Err(detail)) ==> (next matches ServeStep::Failed(text)
            && crate::text::ends_with(text@, detail@)),
        event matches ServeEvent::StreamFailed(detail) ==> (next matches ServeStep::Failed(text)
            && text@ == detail@),
{
    match event {
        ServeEvent::Serialized(Ok(bytes)) => {
            if bytes@.len() <= 8 * 1024 * 1024 {
                law_announced_length_is_sent_length(bytes@.len());
                crate::endian::lemma_number_of_four(length_prefix(bytes@.len()));
            }
        },
        ServeEvent::Request(Err(detail)) => crate::text::lemma_ends_with(
            "parse ub P2P catalog request"@ + ": "@,
            detail@,
        ),
        ServeEvent::Serialized(Err(detail)) => crate::text::lemma_ends_with(
            "serialize catalog response"@ + ": "@,
            detail@,
        ),
        _ => {},
    }
}

/// Asking for a key connects, sends a request for that key as it was
/// serialized, behind its length in four bytes, least significant first, and
/// reads a response of at most eight mebibytes whole; its descriptor is the
/// answer. A failure of any step ends it with that failure as the cause, and
/// there is no answer before the response was parsed.
pub proof fn law_asking_peers(
    now: AskStep,
    catalog_addr: &str,
    key: P2pArtifactKey,
    event: AskEvent,
    next: AskStep,
)
    requires
        ask_expects(now, event),
        call_ensures(request_descriptor, (now, catalog_addr, &key, event), next),
    ensures
        now is Connect && event is Done ==> (next matches AskStep::Serialize { request }
            && request.key@ == key@),
        event matches AskEvent::Serialized(bytes) ==> (next matches AskStep::WriteLength {
            prefix,
            body,
        } && body@ == bytes@ && prefix@.len() == 4 && (bytes@.len() <= u32::MAX
            ==> crate::endian::number_of_four(prefix@) == bytes@.len())),
        now matches AskStep::WriteLength { body: request, .. } ==> (event is Done ==> (next matches
            AskStep::WriteBody { body } && body@ == request@)),
        now is WriteBody && event is Done ==> next is ReadLength,
        event matches AskEvent::Length(announced) ==> {
            &&& announced <= 8 * 1024 * 1024 ==> (next matches AskStep::ReadBody { len } && len
                == announced)
            &&& announced > 8 * 1024 * 1024 ==> (next matches AskStep::Failed(
                Error::InvalidDescriptor { .. },
            ))
        },
        now is ReadBody && event is Done ==> next is Parse,
        next is Answered <==> event is Parsed,
        event matches AskEvent::Parsed(response) ==> next->Answered_0 == response.descriptor,
        event matches AskEvent::Failed(detail) ==> (next matches AskStep::Failed(
            Error::Internal { context, cause },
        ) && cause@ == detail@ && (now is Connect ==> crate::text::ends_with(
            context@,
            catalog_addr@,
        ))),
{
    if let AskEvent::Serialized(bytes) = event {
        crate::endian::law_u32_round_trip((bytes@.len() % 0x1_0000_0000) as u32);
        crate::endian::lemma_number_of_four(length_prefix(bytes@.len()));
    }
    crate::text::lemma_ends_with("connect to ub P2P catalog peer "@, catalog_addr@);
}

/// A message that is too long is refused with its length.
pub proof fn law_refusals_name_the_length(
    now: ServeStep,
    catalog: PublishedArtifactCatalog,
    announced: u32,
    next: ServeStep,
    bytes: Vec<u8>,
    sending: ServeStep,
    asking: AskStep,
    catalog_addr: &str,
    key: P2pArtifactKey,
    asked: AskStep,
)
    requires
        call_ensures(
            serve_connection,
            (now, &catalog, ServeEvent::Length(announced)),
            next,
        ),
        call_ensures(
            serve_connection,
            (now, &catalog, ServeEvent::Serialized(Ok(bytes))),
            sending,
        ),
        call_ensures(
            request_descriptor,
            (AskStep::ReadLength, catalog_addr, &key, AskEvent::Length(announced)),
            asked,
        ),
    ensures
        next matches ServeStep::Failed(text) ==> text@ == "catalog request too large: "@
            + crate::text::decimal(announced as nat) + " bytes"@,
        sending matches ServeStep::Failed(text) ==> text@ == "catalog response too large: "@
            + crate::text::decimal(bytes@.len()) + " bytes"@,
        asked matches AskStep::Failed(error) ==> (error matches Error::InvalidDescriptor { reason }
            && reason@ == "catalog response too large: "@ + crate::text::decimal(announced as nat)
            + " bytes"@),
{
}

} // verus!
