//! The control interface: the three operations open to the operator.
//!
//! Registering and withdrawing a domain only make a command; the worker takes it
//! up in its own time, so being accepted says nothing of being resolved. Listing
//! reads the registry as it stands.

use vstd::prelude::*;
use crate::svcs::registry::{DomainAddress, Registry};
use crate::svcs::{Op, OpView};

verus! {

/// The command that registers `domain`.
pub fn add_domain(domain: String) -> (op: Op)
    ensures
        op@ == OpView::Add(domain@),
{
    Op::Add(domain)
}

/// The command that withdraws `domain`.
pub fn del_domain(domain: String) -> (op: Op)
    ensures
        op@ == OpView::Del(domain@),
{
    Op::Del(domain)
}

/// Every registered domain with all its configured backends, live or not.
pub fn get_domains(backgrounds: &Registry) -> (domains: Vec<DomainAddress>)
    requires
        backgrounds.wf(),
    ensures
        backgrounds@.listed_as(domains.deep_view()),
{
    backgrounds.list()
}

} // verus!
