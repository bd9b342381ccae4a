//! Services behind the proxy: the control commands, and the errors they surface.

use vstd::prelude::*;
use vstd::string::StringExecFns;

pub mod address;
pub mod dns_resolver;
pub mod domain;
pub mod health_check;
pub mod pool;
pub mod registry;

pub use dns_resolver::DNSResolver;
pub use health_check::UpstreamsHealthCheck;

verus! {

/// Failure of a control operation.
#[derive(Debug, PartialEq, Eq)]
pub enum Error {
    /// The resolver could not be set up, or a lookup failed. The text says which.
    Resolver(String),
}

/// Mathematical form of [`Error`].
pub enum ErrorView {
    Resolver(Seq<char>),
}

impl View for Error {
    type V = ErrorView;

    open spec fn view(&self) -> ErrorView {
        match self {
            Error::Resolver(text) => ErrorView::Resolver(text@),
        }
    }
}

impl DeepView for Error {
    type V = ErrorView;

    open spec fn deep_view(&self) -> ErrorView {
        self@
    }
}

impl ErrorView {
    /// The text shown for the error.
    pub open spec fn text(self) -> Seq<char> {
        match self {
            ErrorView::Resolver(detail) => "DNS resolution error: "@ + detail,
        }
    }
}

impl Error {
    /// The text shown for the error: a fixed prefix, then the detail.
    pub fn to_string(&self) -> (text: String)
        ensures
            text@ == self@.text(),
    {
        match self {
            Error::Resolver(detail) => String::from_str("DNS resolution error: ").concat(
                detail.as_str(),
            ),
        }
    }
}

/// A control command: register a domain, or withdraw it.
#[derive(Clone, PartialEq, Eq)]
pub enum Op {
    Add(String),
    Del(String),
}

/// Mathematical form of [`Op`].
pub enum OpView {
    Add(Seq<char>),
    Del(Seq<char>),
}

impl View for Op {
    type V = OpView;

    open spec fn view(&self) -> OpView {
        match self {
            Op::Add(domain) => OpView::Add(domain@),
            Op::Del(domain) => OpView::Del(domain@),
        }
    }
}

impl DeepView for Op {
    type V = OpView;

    open spec fn deep_view(&self) -> OpView {
        self@
    }
}

impl OpView {
    /// The domain the command is about.
    pub open spec fn domain(self) -> Seq<char> {
        match self {
            OpView::Add(domain) => domain,
            OpView::Del(domain) => domain,
        }
    }

    /// The line that describes the command.
    pub open spec fn text(self) -> Seq<char> {
        match self {
            OpView::Add(domain) => "Add domain: "@ + domain,
            OpView::Del(domain) => "Remove domain: "@ + domain,
        }
    }
}

impl Op {
    /// The line that describes the command, for logs.
    pub fn describe(&self) -> (text: String)
        ensures
            text@ == self@.text(),
    {
        match self {
            Op::Add(domain) => String::from_str("Add domain: ").concat(domain.as_str()),
            Op::Del(domain) => String::from_str("Remove domain: ").concat(domain.as_str()),
        }
    }
}

} // verus!
