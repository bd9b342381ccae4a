//! The router: from the `Host` of a request to the backend that serves it.

use vstd::prelude::*;
use vstd::string::StringExecFns;
use crate::svcs::address::BackendAddress;
use crate::svcs::health_check::ProbeEvent;
use crate::svcs::registry::{
    Registry,
    RegistryView,
    Selection,
    law_selection_follows_liveness,
    lemma_operations_keep_the_invariant,
};

verus! {

/// Where a request goes: the backend, whether to speak TLS to it, and the server
/// name to present.
#[derive(Debug, PartialEq, Eq)]
pub struct UpstreamDecision {
    pub address: BackendAddress,
    pub tls: bool,
    pub sni: String,
}

/// Mathematical form of an [`UpstreamDecision`].
pub struct DecisionView {
    pub address: BackendAddress,
    pub tls: bool,
    pub sni: Seq<char>,
}

impl DeepView for UpstreamDecision {
    type V = DecisionView;

    open spec fn deep_view(&self) -> DecisionView {
        DecisionView { address: self.address, tls: self.tls, sni: self.sni@ }
    }
}

/// Why a request cannot be routed.
#[derive(Debug, PartialEq, Eq)]
pub enum RouteError {
    /// The request has no `Host`, or an empty one.
    HostHeaderMissing,
    /// No domain of this name is registered.
    DomainNotFound(String),
    /// The domain is registered and none of its backends is live.
    NoHealthyBackend(String),
}

/// Mathematical form of a [`RouteError`].
pub enum RouteErrorView {
    HostHeaderMissing,
    DomainNotFound(Seq<char>),
    NoHealthyBackend(Seq<char>),
}

impl DeepView for RouteError {
    type V = RouteErrorView;

    open spec fn deep_view(&self) -> RouteErrorView {
        match self {
            RouteError::HostHeaderMissing => RouteErrorView::HostHeaderMissing,
            RouteError::DomainNotFound(domain) => RouteErrorView::DomainNotFound(domain@),
            RouteError::NoHealthyBackend(domain) => RouteErrorView::NoHealthyBackend(domain@),
        }
    }
}

/// Who is held to have caused a failure.
#[derive(Clone, Copy, Debug, PartialEq, Eq, Structural)]
pub enum ErrorSource {
    /// The backend.
    Upstream,
    /// The client.
    Downstream,
    /// The proxy itself.
    Internal,
    /// Not known.
    Unset,
}

/// What kind of failure it is, as far as the answer to the client depends on it.
#[derive(Clone, Copy, Debug, PartialEq, Eq, Structural)]
pub enum ErrorKind {
    /// The failure names the status to answer with.
    HttpStatus(u16),
    /// Writing to an established connection failed.
    WriteError,
    /// Reading from an established connection failed.
    ReadError,
    /// The connection was closed.
    ConnectionClosed,
    /// A header of the request is missing or malformed.
    InvalidHttpHeader,
    /// Anything else.
    Other,
}

/// The answer to a failed request.
#[derive(Clone, Copy, Debug, PartialEq, Eq, Structural)]
pub struct FailureResponse {
    /// The status, or 0 where there is nobody left to answer.
    pub code: u16,
    /// Whether an answer is sent.
    pub respond: bool,
}

impl RouteErrorView {
    /// The text of the failure.
    pub open spec fn text(self) -> Seq<char> {
        match self {
            RouteErrorView::HostHeaderMissing => "Host not found "@,
            RouteErrorView::DomainNotFound(domain) => "Domain "@ + domain
                + " not found in backgrounds, Did you add it?"@,
            RouteErrorView::NoHealthyBackend(domain) => "Select upstream failed when request "@
                + domain,
        }
    }

    /// Who is held to have caused the failure: the client for a missing `Host`,
    /// the proxy for a pool without a live backend, nobody in particular for an
    /// unknown domain.
    pub open spec fn source(self) -> ErrorSource {
        match self {
            RouteErrorView::HostHeaderMissing => ErrorSource::Downstream,
            RouteErrorView::DomainNotFound(_) => ErrorSource::Unset,
            RouteErrorView::NoHealthyBackend(_) => ErrorSource::Internal,
        }
    }

    /// The kind of the failure.
    pub open spec fn kind(self) -> ErrorKind {
        match self {
            RouteErrorView::HostHeaderMissing => ErrorKind::InvalidHttpHeader,
            RouteErrorView::DomainNotFound(_) => ErrorKind::Other,
            RouteErrorView::NoHealthyBackend(_) => ErrorKind::Other,
        }
    }
}

impl RouteError {
    /// The text of the failure.
    pub fn to_string(&self) -> (text: String)
        ensures
            text@ == self.deep_view().text(),
    {
        match self {
            RouteError::HostHeaderMissing => String::from_str("Host not found "),
            RouteError::DomainNotFound(domain) => String::from_str("Domain ").concat(
                domain.as_str(),
            ).concat(" not found in backgrounds, Did you add it?"),
            RouteError::NoHealthyBackend(domain) => String::from_str(
                "Select upstream failed when request ",
            ).concat(domain.as_str()),
        }
    }

    /// Who is held to have caused the failure.
    pub fn source(&self) -> (source: ErrorSource)
        ensures
            source == self.deep_view().source(),
    {
        match self {
            RouteError::HostHeaderMissing => ErrorSource::Downstream,
            RouteError::DomainNotFound(_) => ErrorSource::Unset,
            RouteError::NoHealthyBackend(_) => ErrorSource::Internal,
        }
    }

    /// The kind of the failure.
    pub fn kind(&self) -> (kind: ErrorKind)
        ensures
            kind == self.deep_view().kind(),
    {
        match self {
            RouteError::HostHeaderMissing => ErrorKind::InvalidHttpHeader,
            RouteError::DomainNotFound(_) => ErrorKind::Other,
            RouteError::NoHealthyBackend(_) => ErrorKind::Other,
        }
    }
}

/// The routing of one request: the decision or the failure, and the registry
/// afterwards.
///
/// A request without a `Host`, or with an empty one, is refused. Otherwise the
/// domain is looked up in its canonical form and its pool asked for the next live
/// backend. The decision carries that backend, always asks for TLS, and names the
/// host as the request gave it. Only a decision moves anything: the cursor of the
/// pool it was taken from.
pub open spec fn route(registry: RegistryView, host: Option<Seq<char>>) -> (
    Result<DecisionView, RouteErrorView>,
    RegistryView,
) {
    match host {
        None => (Err(RouteErrorView::HostHeaderMissing), registry),
        Some(name) => if name.len() == 0 {
            (Err(RouteErrorView::HostHeaderMissing), registry)
        } else {
            match registry.select(name).0 {
                Selection::NotFound => (Err(RouteErrorView::DomainNotFound(name)), registry),
                Selection::Unavailable => (Err(RouteErrorView::NoHealthyBackend(name)), registry),
                Selection::Backend(address) => (
                    Ok(DecisionView { address, tls: true, sni: name }),
                    registry.select(name).1,
                ),
            }
        }
    }
}

/// What each outcome of routing means. A decision names a configured, live
/// backend of the domain that the host names, asks for TLS and presents the host
/// as given. The host is missing exactly when none or an empty one is given; the
/// domain is not found exactly when it is not registered; and no backend is live
/// exactly when the domain is registered and every backend of it is down. No
/// failure changes the registry.
pub proof fn law_route_outcomes(registry: RegistryView, host: Option<Seq<char>>)
    requires
        registry.wf(),
    ensures
        route(registry, host).1.wf(),
        match route(registry, host).0 {
            Ok(decision) => {
                &&& host matches Some(name)
                &&& name.len() > 0
                &&& decision.tls
                &&& decision.sni == name
                &&& registry.get(name) matches Some(supervisor)
                &&& supervisor.pool.is_healthy(decision.address)
            },
            Err(RouteErrorView::HostHeaderMissing) => {
                &&& host is None || host == Some(Seq::<char>::empty())
                &&& route(registry, host).1 == registry
            },
            Err(RouteErrorView::DomainNotFound(name)) => {
                &&& host == Some(name)
                &&& name.len() > 0
                &&& !registry.contains(name)
                &&& route(registry, host).1 == registry
            },
            Err(RouteErrorView::NoHealthyBackend(name)) => {
                &&& host == Some(name)
                &&& name.len() > 0
                &&& registry.get(name) matches Some(supervisor)
                &&& !supervisor.pool.any_healthy()
                &&& route(registry, host).1 == registry
            },
        },
{
    match host {
        Some(name) => {
            law_selection_follows_liveness(registry, name);
            lemma_operations_keep_the_invariant(registry, name, 0, ProbeEvent::Tick);
            if name.len() == 0 {
                assert(name =~= Seq::<char>::empty());
            }
        },
        None => {},
    }
}

/// The view of an optional host.
pub open spec fn host_view(host: Option<&str>) -> Option<Seq<char>> {
    match host {
        Some(name) => Some(name@),
        None => None,
    }
}

/// Routes one request by its `Host`.
pub fn upstream_peer(backgrounds: &mut Registry, host: Option<&str>) -> (routed: Result<
    UpstreamDecision,
    RouteError,
>)
    requires
        old(backgrounds).wf(),
    ensures
        final(backgrounds).wf(),
        (
            match routed {
                Ok(decision) => Ok(decision.deep_view()),
                Err(error) => Err(error.deep_view()),
            },
            final(backgrounds)@,
        ) == route(old(backgrounds)@, host_view(host)),
{
    match host {
        None => Err(RouteError::HostHeaderMissing),
        Some(name) => {
            if name.is_empty() {
                return Err(RouteError::HostHeaderMissing);
            }
            match backgrounds.select(name) {
                Selection::NotFound => Err(RouteError::DomainNotFound(String::from_str(name))),
                Selection::Unavailable => Err(RouteError::NoHealthyBackend(String::from_str(name))),
                Selection::Backend(address) => Ok(
                    UpstreamDecision { address, tls: true, sni: String::from_str(name) },
                ),
            }
        },
    }
}

/// The status to answer a failure with.
///
/// A failure that names a status gets it. Otherwise one caused by the backend
/// gets 502; one caused by the client gets 400, unless the connection to the
/// client is gone (a read or write failed, or it was closed), which gets 0; any
/// other gets 500.
pub open spec fn status_of(kind: ErrorKind, source: ErrorSource) -> u16 {
    match kind {
        ErrorKind::HttpStatus(code) => code,
        _ => match source {
            ErrorSource::Upstream => 502,
            ErrorSource::Downstream => match kind {
                ErrorKind::WriteError | ErrorKind::ReadError | ErrorKind::ConnectionClosed => 0,
                _ => 400,
            },
            ErrorSource::Internal | ErrorSource::Unset => 500,
        },
    }
}

/// Decides the answer to a failed request: its status, and whether to send it.
/// Nothing is sent where the status is 0.
pub fn fail_to_proxy(kind: ErrorKind, source: ErrorSource) -> (response: FailureResponse)
    ensures
        response.code == status_of(kind, source),
        response.respond == (response.code > 0),
{
    let code = match kind {
        ErrorKind::HttpStatus(code) => code,
        _ => match source {
            ErrorSource::Upstream => 502,
            ErrorSource::Downstream => match kind {
                ErrorKind::WriteError | ErrorKind::ReadError | ErrorKind::ConnectionClosed => 0,
                _ => 400,
            },
            ErrorSource::Internal | ErrorSource::Unset => 500,
        },
    };
    FailureResponse { code, respond: code > 0 }
}

/// How routing failures are answered: a missing `Host` with 400, an unknown
/// domain and a pool without a live backend with 500; each is sent.
pub proof fn law_route_failures_are_answered(error: RouteErrorView)
    ensures
        status_of(error.kind(), error.source()) == match error {
            RouteErrorView::HostHeaderMissing => 400u16,
            RouteErrorView::DomainNotFound(_) => 500u16,
            RouteErrorView::NoHealthyBackend(_) => 500u16,
        },
{
}

} // verus!
