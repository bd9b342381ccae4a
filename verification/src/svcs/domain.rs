//! Domain names as registry keys.
//!
//! Host names do not depend on the case of their letters, so a domain is kept,
//! looked up and resolved in one form: with its ASCII capitals made small.

use vstd::prelude::*;

verus! {

/// `c` with an ASCII capital made small; any other character is itself.
pub open spec fn lower(c: char) -> char {
    if 0x41 <= c as u32 <= 0x5a {
        ((c as u32) + 32) as char
    } else {
        c
    }
}

/// The form in which a domain is kept: every character through [`lower`].
pub open spec fn canonical(domain: Seq<char>) -> Seq<char> {
    Seq::new(domain.len(), |i: int| lower(domain[i]))
}

/// The canonical form of a canonical form is itself.
pub proof fn lemma_canonical_is_idempotent(domain: Seq<char>)
    ensures
        canonical(canonical(domain)) == canonical(domain),
        canonical(domain).len() == domain.len(),
{
    assert forall|i: int| 0 <= i < domain.len() implies lower(lower(domain[i])) == lower(
        domain[i],
    ) by {
        let c = domain[i];
        if 0x41 <= c as u32 <= 0x5a {
            assert((((c as u32) + 32) as char) as u32 == (c as u32) + 32);
        }
    }
    assert(canonical(canonical(domain)) =~= canonical(domain));
}

/// `str::to_ascii_lowercase` of the standard library. It returns a copy of the
/// text in which the ASCII letters 'A' to 'Z' are 'a' to 'z' and every other
/// character is unchanged. Verus takes this on trust.
#[verifier::external_body]
pub(crate) fn ascii_lowercase(text: &str) -> (lowered: String)
    ensures
        lowered@ == canonical(text@),
{
    text.to_ascii_lowercase()
}

} // verus!
