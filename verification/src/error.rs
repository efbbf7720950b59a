//! The error value every operation of the library reports.

use vstd::prelude::*;
use crate::text::str_eq;

verus! {

/// The class of a failure.
#[derive(Debug, Clone, Copy, PartialEq, Eq, Structural)]
pub enum ErrorKind {
    InvalidArgument,
    PermissionDenied,
    NotFound,
    Conflict,
    Timeout,
    Unsupported,
    Unavailable,
    Internal,
}

impl ErrorKind {
    /// The stable name of the class.
    pub open spec fn name(self) -> Seq<char> {
        match self {
            ErrorKind::InvalidArgument => "invalid_argument"@,
            ErrorKind::PermissionDenied => "permission_denied"@,
            ErrorKind::NotFound => "not_found"@,
            ErrorKind::Conflict => "conflict"@,
            ErrorKind::Timeout => "timeout"@,
            ErrorKind::Unsupported => "unsupported"@,
            ErrorKind::Unavailable => "unavailable"@,
            ErrorKind::Internal => "internal"@,
        }
    }

    /// The stable name of the class, as text.
    pub fn as_str(self) -> (name: &'static str)
        ensures
            name@ == self.name(),
    {
        match self {
            ErrorKind::InvalidArgument => "invalid_argument",
            ErrorKind::PermissionDenied => "permission_denied",
            ErrorKind::NotFound => "not_found",
            ErrorKind::Conflict => "conflict",
            ErrorKind::Timeout => "timeout",
            ErrorKind::Unsupported => "unsupported",
            ErrorKind::Unavailable => "unavailable",
            ErrorKind::Internal => "internal",
        }
    }
}

/// What an error says: its class, its message, the provider code where it has
/// one, the context entries in the order they were added, and the retry hint
/// where one was given.
#[verifier::ext_equal]
pub struct ErrorModel {
    pub kind: ErrorKind,
    pub message: Seq<char>,
    pub provider_code: Option<Seq<char>>,
    pub context: Seq<(Seq<char>, Seq<char>)>,
    pub retryable: Option<bool>,
}

impl ErrorModel {
    /// An error with nothing but a class and a message.
    pub open spec fn new(kind: ErrorKind, message: Seq<char>) -> ErrorModel {
        ErrorModel { kind, message, provider_code: None, context: Seq::empty(), retryable: None }
    }

    /// The same error under a provider code, which replaces an earlier one.
    pub open spec fn code(self, code: Seq<char>) -> ErrorModel {
        ErrorModel { provider_code: Some(code), ..self }
    }

    /// The same error with one more context entry.
    pub open spec fn ctx(self, key: Seq<char>, value: Seq<char>) -> ErrorModel {
        ErrorModel { context: self.context.push((key, value)), ..self }
    }

    /// The same error with the retry hint set.
    pub open spec fn retry(self, retryable: bool) -> ErrorModel {
        ErrorModel { retryable: Some(retryable), ..self }
    }
}

/// A failure with a class, a message, an optional provider code and context.
#[derive(Debug, Clone, PartialEq, Eq)]
pub struct EvaError {
    kind: ErrorKind,
    message: String,
    provider_code: Option<String>,
    context: Vec<(String, String)>,
    retryable: Option<bool>,
}

/// The characters of an optional string.
pub open spec fn option_text(s: Option<String>) -> Option<Seq<char>> {
    match s {
        Some(text) => Some(text@),
        None => None,
    }
}

/// The characters of a list of string pairs.
pub open spec fn pair_texts(pairs: Seq<(String, String)>) -> Seq<(Seq<char>, Seq<char>)> {
    Seq::new(pairs.len(), |i: int| (pairs[i].0@, pairs[i].1@))
}

impl View for EvaError {
    type V = ErrorModel;

    closed spec fn view(&self) -> ErrorModel {
        ErrorModel {
            kind: self.kind,
            message: self.message@,
            provider_code: option_text(self.provider_code),
            context: pair_texts(self.context@),
            retryable: self.retryable,
        }
    }
}

impl EvaError {
    /// An error of the given class, with no code and no context.
    pub fn new(kind: ErrorKind, message: &str) -> (error: EvaError)
        ensures
            error@ == ErrorModel::new(kind, message@),
    {
        EvaError {
            kind,
            message: message.to_owned(),
            provider_code: None,
            context: Vec::new(),
            retryable: None,
        }
    }

    pub fn invalid_argument(message: &str) -> (error: EvaError)
        ensures
            error@ == ErrorModel::new(ErrorKind::InvalidArgument, message@),
    {
        EvaError::new(ErrorKind::InvalidArgument, message)
    }

    pub fn permission_denied(message: &str) -> (error: EvaError)
        ensures
            error@ == ErrorModel::new(ErrorKind::PermissionDenied, message@),
    {
        EvaError::new(ErrorKind::PermissionDenied, message)
    }

    pub fn not_found(message: &str) -> (error: EvaError)
        ensures
            error@ == ErrorModel::new(ErrorKind::NotFound, message@),
    {
        EvaError::new(ErrorKind::NotFound, message)
    }

    pub fn conflict(message: &str) -> (error: EvaError)
        ensures
            error@ == ErrorModel::new(ErrorKind::Conflict, message@),
    {
        EvaError::new(ErrorKind::Conflict, message)
    }

    pub fn timeout(message: &str) -> (error: EvaError)
        ensures
            error@ == ErrorModel::new(ErrorKind::Timeout, message@),
    {
        EvaError::new(ErrorKind::Timeout, message)
    }

    pub fn unsupported(message: &str) -> (error: EvaError)
        ensures
            error@ == ErrorModel::new(ErrorKind::Unsupported, message@),
    {
        EvaError::new(ErrorKind::Unsupported, message)
    }

    pub fn unavailable(message: &str) -> (error: EvaError)
        ensures
            error@ == ErrorModel::new(ErrorKind::Unavailable, message@),
    {
        EvaError::new(ErrorKind::Unavailable, message)
    }

    pub fn internal(message: &str) -> (error: EvaError)
        ensures
            error@ == ErrorModel::new(ErrorKind::Internal, message@),
    {
        EvaError::new(ErrorKind::Internal, message)
    }

    /// Set the provider code, in place of an earlier one.
    pub fn with_provider_code(self, code: &str) -> (error: EvaError)
        ensures
            error@ == self@.code(code@),
    {
        let mut error = self;
        error.provider_code = Some(code.to_owned());
        error
    }

    /// Add one context entry after those already there.
    pub fn with_context(self, key: &str, value: &str) -> (error: EvaError)
        ensures
            error@ == self@.ctx(key@, value@),
    {
        let mut error = self;
        error.context.push((key.to_owned(), value.to_owned()));
        assert(error@.context =~= self@.context.push((key@, value@)));
        error
    }

    /// Set the retry hint.
    pub fn with_retryable(self, retryable: bool) -> (error: EvaError)
        ensures
            error@ == self@.retry(retryable),
    {
        let mut error = self;
        error.retryable = Some(retryable);
        error
    }

    pub fn kind(&self) -> (kind: ErrorKind)
        ensures
            kind == self@.kind,
    {
        self.kind
    }

    pub fn message(&self) -> (message: &str)
        ensures
            message@ == self@.message,
    {
        self.message.as_str()
    }

    pub fn provider_code(&self) -> (code: Option<&str>)
        ensures
            code matches Some(c) ==> self@.provider_code == Some(c@),
            code is None <==> self@.provider_code is None,
    {
        match &self.provider_code {
            Some(code) => Some(code.as_str()),
            None => None,
        }
    }

    /// Whether the error was marked as worth retrying.
    pub fn is_retryable(&self) -> (retryable: bool)
        ensures
            retryable == (self@.retryable == Some(true)),
    {
        match self.retryable {
            Some(retryable) => retryable,
            None => false,
        }
    }

    /// The number of context entries.
    pub fn context_len(&self) -> (len: usize)
        ensures
            len == self@.context.len(),
    {
        self.context.len()
    }

    /// The context entry at the given position.
    pub fn context_at(&self, index: usize) -> (entry: (&str, &str))
        requires
            index < self@.context.len(),
        ensures
            (entry.0@, entry.1@) == self@.context[index as int],
    {
        let entry = &self.context[index];
        (entry.0.as_str(), entry.1.as_str())
    }

    /// The value of the first context entry under the given key.
    pub fn context_value(&self, key: &str) -> (value: Option<&str>)
        ensures
            match value {
                Some(v) => exists|i: int|
                    0 <= i < self@.context.len() && self@.context[i] == (key@, v@) && forall|j: int|
                        0 <= j < i ==> (#[trigger] self@.context[j]).0 != key@,
                None => forall|j: int|
                    0 <= j < self@.context.len() ==> (#[trigger] self@.context[j]).0 != key@,
            },
    {
        let mut i: usize = 0;
        while i < self.context.len()
            invariant
                i <= self.context@.len(),
                forall|j: int| 0 <= j < i ==> (#[trigger] self@.context[j]).0 != key@,
            decreases self.context@.len() - i,
        {
            if str_eq(self.context[i].0.as_str(), key) {
                assert(self@.context[i as int] == (key@, self.context@[i as int].1@));
                return Some(self.context[i].1.as_str());
            }
            i += 1;
        }
        None
    }
}

} // verus!
