//! The errors of the library.
use crate::text::own_opt;
use vstd::prelude::*;

verus! {

/// What kind of thing went wrong.
#[derive(Clone, Copy, Debug, PartialEq, Eq, Structural)]
pub enum AtomicErrorType {
    NotFoundError,
    ParseError,
    MethodNotAllowed,
    OtherError,
}

/// An error: what went wrong, and with which resource and property.
#[derive(Clone, Debug)]
pub struct AtomicError {
    pub message: String,
    pub error_type: AtomicErrorType,
    pub subject: Option<String>,
    pub property: Option<String>,
}

/// The result of an operation that can fail.
pub type AtomicResult<T> = Result<T, AtomicError>;

/// What an [AtomicError] says.
pub struct ErrorView {
    pub message: Seq<char>,
    pub error_type: AtomicErrorType,
    pub subject: Option<Seq<char>>,
    pub property: Option<Seq<char>>,
}

impl View for AtomicError {
    type V = ErrorView;

    open spec fn view(&self) -> ErrorView {
        ErrorView {
            message: self.message@,
            error_type: self.error_type,
            subject: crate::text::opt(self.subject),
            property: crate::text::opt(self.property),
        }
    }
}

/// An error of no particular kind.
pub open spec fn other(message: Seq<char>) -> ErrorView {
    ErrorView { message, error_type: AtomicErrorType::OtherError, subject: None, property: None }
}

/// An error about something that is not there.
pub open spec fn missing(message: Seq<char>) -> ErrorView {
    ErrorView { message, error_type: AtomicErrorType::NotFoundError, subject: None, property: None }
}

/// An error in what is being parsed.
pub open spec fn unparsable(
    message: Seq<char>,
    subject: Option<Seq<char>>,
    property: Option<Seq<char>>,
) -> ErrorView {
    ErrorView { message, error_type: AtomicErrorType::ParseError, subject, property }
}

/// An error about a request that a resource does not take.
pub open spec fn not_allowed(message: Seq<char>, subject: Seq<char>) -> ErrorView {
    ErrorView {
        message,
        error_type: AtomicErrorType::MethodNotAllowed,
        subject: Some(subject),
        property: None,
    }
}

impl AtomicError {
    /// An error of no particular kind.
    pub fn other_error(message: String) -> (r: AtomicError)
        ensures
            r@ == other(message@),
    {
        AtomicError {
            message,
            error_type: AtomicErrorType::OtherError,
            subject: None,
            property: None,
        }
    }

    /// An error about something that is not there.
    pub fn not_found(message: String) -> (r: AtomicError)
        ensures
            r@ == missing(message@),
    {
        AtomicError {
            message,
            error_type: AtomicErrorType::NotFoundError,
            subject: None,
            property: None,
        }
    }

    /// An error in what is being parsed, with the resource and the property it was found in.
    pub fn parse_error(message: &str, subject: Option<&str>, property: Option<&str>) -> (r:
        AtomicError)
        ensures
            r@ == unparsable(
                message@,
                crate::text::opt_str(subject),
                crate::text::opt_str(property),
            ),
    {
        AtomicError {
            message: message.to_owned(),
            error_type: AtomicErrorType::ParseError,
            subject: own_opt(subject),
            property: own_opt(property),
        }
    }

    /// An error about a request that the resource `subject` does not take.
    pub fn method_not_allowed(message: &str, subject: &str) -> (r: AtomicError)
        ensures
            r@ == not_allowed(message@, subject@),
    {
        AtomicError {
            message: message.to_owned(),
            error_type: AtomicErrorType::MethodNotAllowed,
            subject: Some(subject.to_owned()),
            property: None,
        }
    }

    /// An error of no particular kind, about another one: `context` and then what that one says.
    pub fn in_context(context: &str, cause: &AtomicError) -> (r: AtomicError)
        ensures
            r@ == other(context@ + cause@.message),
    {
        AtomicError::other_error(crate::text::cat2(context, cause.message.as_str()))
    }

    /// A copy that says the same.
    pub fn copy(&self) -> (r: AtomicError)
        ensures
            r@ == self@,
    {
        AtomicError {
            message: self.message.clone(),
            error_type: self.error_type,
            subject: crate::text::copy_opt(&self.subject),
            property: crate::text::copy_opt(&self.property),
        }
    }
}

/// An error says what went wrong, what kind of thing that is, and what it was about, where anything
/// was named.
pub proof fn errors_say_what_went_wrong(
    message: Seq<char>,
    subject: Seq<char>,
    about: Option<Seq<char>>,
    property: Option<Seq<char>>,
)
    ensures
        other(message).message == message && other(message).error_type is OtherError,
        missing(message).message == message && missing(message).error_type is NotFoundError,
        other(message).subject is None && other(message).property is None,
        missing(message).subject is None && missing(message).property is None,
        ({
            let e = unparsable(message, about, property);
            e.message == message && e.error_type is ParseError && e.subject == about && e.property
                == property
        }),
        ({
            let e = not_allowed(message, subject);
            e.message == message && e.error_type is MethodNotAllowed && e.subject == Some(subject)
                && e.property is None
        }),
{
}

} // verus!
