//! Errors of the artifact transport.
use vstd::prelude::*;

verus! {

/// An error, as the model sees it.
pub ghost enum ErrorView {
    Internal { context: Seq<char>, cause: Seq<char> },
    InvalidDescriptor { reason: Seq<char> },
    Timeout { operation: Seq<char> },
}

/// What can go wrong in the artifact transport.
#[derive(Debug, Clone)]
pub enum Error {
    /// A step of the transport failed; `context` names the step.
    Internal { context: String, cause: String },
    /// A descriptor or a peer's answer cannot be used.
    InvalidDescriptor { reason: String },
    /// An operation did not finish in time.
    Timeout { operation: &'static str },
}

impl View for Error {
    type V = ErrorView;

    open spec fn view(&self) -> ErrorView {
        match self {
            Error::Internal { context, cause } => ErrorView::Internal {
                context: context@,
                cause: cause@,
            },
            Error::InvalidDescriptor { reason } => ErrorView::InvalidDescriptor {
                reason: reason@,
            },
            Error::Timeout { operation } => ErrorView::Timeout { operation: operation@ },
        }
    }
}

/// The text of an error: the failed step with its cause, the reason, or the
/// operation with the remark that it timed out.
pub open spec fn error_text(error: ErrorView) -> Seq<char> {
    match error {
        ErrorView::Internal { context, cause } => context + ": "@ + cause,
        ErrorView::InvalidDescriptor { reason } => reason,
        ErrorView::Timeout { operation } => operation + " timed out"@,
    }
}

impl Error {
    /// Error of the step `context`, caused by `cause`.
    pub fn internal_message(context: &str, cause: &str) -> (error: Self)
        ensures
            error@ == (ErrorView::Internal { context: context@, cause: cause@ }),
    {
        Error::Internal { context: context.to_string(), cause: cause.to_string() }
    }

    /// A descriptor that cannot be used, for the given reason.
    pub fn invalid_descriptor(reason: &str) -> (error: Self)
        ensures
            error@ == (ErrorView::InvalidDescriptor { reason: reason@ }),
    {
        Error::InvalidDescriptor { reason: reason.to_string() }
    }

    /// The text of the error.
    pub fn message(&self) -> (text: String)
        ensures
            text@ == error_text(self@),
    {
        match self {
            Error::Internal { context, cause } => {
                let mut text = context.clone();
                text.append(": ");
                text.append(cause.as_str());
                text
            },
            Error::InvalidDescriptor { reason } => reason.clone(),
            Error::Timeout { operation } => {
                let mut text = (*operation).to_string();
                text.append(" timed out");
                text
            },
        }
    }
}

/// The text of an error names the failed step before its cause, is the reason
/// itself, or begins with the operation that timed out. Errors are made of
/// what they are given.
pub proof fn law_errors_tell_what_happened(
    error: Error,
    text: String,
    context: &str,
    cause: &str,
    internal: Error,
    invalid: Error,
)
    requires
        call_ensures(Error::message, (&error,), text),
        call_ensures(Error::internal_message, (context, cause), internal),
        call_ensures(Error::invalid_descriptor, (cause,), invalid),
    ensures
        match error {
            Error::Internal { context, cause } => {
                &&& text@.len() == context@.len() + 2 + cause@.len()
                &&& crate::text::begins_with(text@, context@)
                &&& crate::text::ends_with(text@, cause@)
                &&& text@[context@.len() as int] == ':'
                &&& text@[context@.len() + 1int] == ' '
            },
            Error::InvalidDescriptor { reason } => text@ == reason@,
            Error::Timeout { operation } => {
                &&& crate::text::begins_with(text@, operation@)
                &&& crate::text::ends_with(text@, " timed out"@)
                &&& text@.len() == operation@.len() + 10
            },
        },
        internal matches Error::Internal { context: found, cause: why } && found@ == context@
            && why@ == cause@,
        invalid matches Error::InvalidDescriptor { reason } && reason@ == cause@,
{
    reveal_strlit(": ");
    reveal_strlit(" timed out");
    match error {
        Error::Internal { context, cause } => {
            crate::text::lemma_ends_with(context@ + ": "@, cause@);
            assert(text@.take(context@.len() as int) =~= context@);
        },
        Error::InvalidDescriptor { .. } => {},
        Error::Timeout { operation } => {
            crate::text::lemma_ends_with(operation@, " timed out"@);
        },
    }
}

} // verus!
