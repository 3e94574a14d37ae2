//! The ASCII form of a host, which the `idna` crate computes.

use vstd::prelude::*;

verus! {

/// The ASCII form that `idna::domain_to_ascii` gives for a domain, or `None`
/// where it rejects the domain.
pub uninterp spec fn idna_to_ascii(domain: Seq<char>) -> Option<Seq<char>>;

/// `idna::Errors`: the error of the IDNA processing. It holds nothing.
#[verifier::external_type_specification]
#[verifier::external_body]
pub struct ExErrors(idna::Errors);

/// `idna::domain_to_ascii` maps a domain to its ASCII form by the rules of
/// UTS #46, with no list of denied ASCII code points, no check of hyphens and
/// no check of lengths. Its result depends on the domain alone; `idna_to_ascii`
/// is the name of that result. Nothing more is claimed of it.
pub assume_specification[ idna::domain_to_ascii ](domain: &str) -> (r: Result<String, idna::Errors>)
    ensures
        match r {
            Ok(ascii) => idna_to_ascii(domain@) == Some(ascii@),
            Err(_) => idna_to_ascii(domain@) is None,
        },
;

/// The text that `idna::Errors` displays. Its `Display` hands over to its
/// derived `Debug`, and the type is a struct without fields, so the text is
/// the name of the type.
#[verifier::external_body]
fn errors_text(e: &idna::Errors) -> (text: String)
    ensures
        text@ == "Errors"@,
{
    e.to_string()
}

/// The view of an outcome: an ASCII form or a diagnostic, as code points.
pub open spec fn outcome_view(r: Result<String, String>) -> Result<Seq<char>, Seq<char>> {
    match r {
        Ok(s) => Ok(s@),
        Err(d) => Err(d@),
    }
}

/// What converting `host` gives: its ASCII form, or the diagnostic of the
/// IDNA processing where that rejects the host.
pub open spec fn host_outcome(host: Seq<char>) -> Result<Seq<char>, Seq<char>> {
    match idna_to_ascii(host) {
        Some(ascii) => Ok(ascii),
        None => Err("Errors"@),
    }
}

/// Converts a host to its ASCII form.
pub fn host_to_ascii(host: &str) -> (r: Result<String, String>)
    ensures
        outcome_view(r) == host_outcome(host@),
{
    match idna::domain_to_ascii(host) {
        Ok(ascii) => Ok(ascii),
        Err(e) => Err(errors_text(&e)),
    }
}

} // verus!
