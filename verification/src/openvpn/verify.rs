//! The authority that an OpenVPN server's certificate is checked against.
//!
//! OpenVPN does not authenticate a server by hostname. A configuration carries
//! the certificate authority that signed the server, so the authority has to be
//! usable before anything is dialled.

use vstd::prelude::*;

use crate::openvpn::config;
use crate::text;

verus! {

pub const UNUSABLE_AUTHORITY: &'static str =
    "the `<ca>` block is not a usable certificate authority: ";

pub const NO_AUTHORITY: &'static str = "the `<ca>` block did not yield a certificate authority";

/// What `rustls::RootCertStore::add` says is wrong with a certificate as a trust
/// anchor, if it says anything.
pub uninterp spec fn anchor_fault(der: Seq<u8>) -> Option<Seq<char>>;

/// Calls `rustls::RootCertStore::add` on an empty store. Whether the certificate
/// is taken, with the text of the error, is a function of its bytes.
#[verifier::external_body]
fn try_anchor(der: &[u8]) -> (r: Result<(), String>)
    ensures
        r is Ok <==> anchor_fault(der@) is None,
        r matches Err(message) ==> anchor_fault(der@) == Some(message@),
{
    rustls::RootCertStore::empty()
        .add(rustls::pki_types::CertificateDer::from(der))
        .map_err(|error| error.to_string())
}

/// What is wrong with a list of authorities, given what is wrong with each.
pub open spec fn authorities_fault(faults: Seq<Option<Seq<char>>>) -> Option<Seq<char>> {
    if faults.len() == 0 {
        Some(NO_AUTHORITY@)
    } else {
        first_fault(faults)
    }
}

/// The first complaint of a list, with what it is about.
pub open spec fn first_fault(faults: Seq<Option<Seq<char>>>) -> Option<Seq<char>>
    decreases faults.len(),
{
    if faults.len() == 0 {
        None
    } else {
        match faults[0] {
            Some(why) => Some(UNUSABLE_AUTHORITY@ + why),
            None => first_fault(faults.skip(1)),
        }
    }
}

/// What was said of each certificate, by its contents.
pub open spec fn complaints(found: Seq<Result<(), String>>) -> Seq<Option<Seq<char>>> {
    Seq::new(
        found.len(),
        |i: int|
            match found[i] {
                Ok(_) => None,
                Err(message) => Some(message@),
            },
    )
}

/// Judges a list of authorities by what was found of each. One that cannot be
/// used, or an empty list, leaves nothing to check a server against.
pub fn check_authorities(found: &Vec<Result<(), String>>) -> (r: Result<(), String>)
    ensures
        r is Ok <==> authorities_fault(complaints(found@)) is None,
        r matches Err(message) ==> authorities_fault(complaints(found@)) == Some(message@),
{
    if found.len() == 0 {
        return Err(NO_AUTHORITY.to_owned());
    }
    let ghost faults = complaints(found@);
    let mut at: usize = 0;
    assert(faults.skip(0) =~= faults);
    while at < found.len()
        invariant
            at <= found@.len(),
            faults == complaints(found@),
            first_fault(faults) == first_fault(faults.skip(at as int)),
        decreases found@.len() - at,
    {
        assert(faults.skip(at as int)[0] == faults[at as int]);
        assert(faults.skip(at as int).skip(1) =~= faults.skip(at + 1));
        if let Err(message) = &found[at] {
            return Err(text::concat2(UNUSABLE_AUTHORITY, message.as_str()));
        }
        at = at + 1;
    }
    assert(faults.skip(at as int).len() == 0);
    Ok(())
}

/// The authorities that a server's certificate has to lead to, each of which can
/// be used as one.
pub struct EmbeddedCaVerifier {
    pub ca: Vec<Vec<u8>>,
}

/// What is wrong with each certificate as an authority.
pub open spec fn anchor_faults(ca: Seq<Seq<u8>>) -> Seq<Option<Seq<char>>> {
    Seq::new(ca.len(), |i: int| anchor_fault(ca[i]))
}

impl EmbeddedCaVerifier {
    /// Takes the certificates of a `<ca>` block, in DER form, if all of them can
    /// be used.
    pub fn new(ca: Vec<Vec<u8>>) -> (r: Result<Self, String>)
        ensures
            match authorities_fault(anchor_faults(config::byte_views(ca@))) {
                None => r matches Ok(verifier) && verifier.ca == ca,
                Some(why) => r matches Err(message) && message@ == why,
            },
    {
        let mut found: Vec<Result<(), String>> = Vec::new();
        let mut at: usize = 0;
        let ghost faults = anchor_faults(config::byte_views(ca@));
        while at < ca.len()
            invariant
                at <= ca@.len(),
                found@.len() == at,
                faults == anchor_faults(config::byte_views(ca@)),
                forall|i: int| 0 <= i < at ==> complaints(found@)[i] == #[trigger] faults[i],
            decreases ca@.len() - at,
        {
            let ghost before = found@;
            let one = try_anchor(ca[at].as_slice());
            found.push(one);
            assert forall|i: int| 0 <= i <= at implies complaints(found@)[i]
                == #[trigger] faults[i] by {
                if i < at {
                    assert(complaints(before)[i] == faults[i]);
                    assert(found@[i] == before[i]);
                }
            }
            at = at + 1;
        }
        assert(complaints(found@) =~= faults);
        match check_authorities(&found) {
            Ok(()) => Ok(EmbeddedCaVerifier { ca }),
            Err(why) => Err(why),
        }
    }
}

/// A server is never checked against less than the whole block: one authority
/// that cannot be used refuses the block, and so does a block without any.
pub proof fn every_authority_has_to_be_usable(ca: Seq<Seq<u8>>)
    ensures
        authorities_fault(anchor_faults(ca)) is None <==> ca.len() > 0 && forall|i: int|
            0 <= i < ca.len() ==> anchor_fault(#[trigger] ca[i]) is None,
{
    let faults = anchor_faults(ca);
    lemma_first_fault(faults);
    if ca.len() > 0 {
        if forall|i: int| 0 <= i < faults.len() ==> (#[trigger] faults[i]) is None {
            assert forall|i: int| 0 <= i < ca.len() implies anchor_fault(#[trigger] ca[i]) is None by {
                assert(faults[i] is None);
            }
        } else {
            let i = choose|i: int| 0 <= i < faults.len() && !((#[trigger] faults[i]) is None);
            assert(!(anchor_fault(ca[i]) is None));
        }
    }
}

proof fn lemma_first_fault(faults: Seq<Option<Seq<char>>>)
    ensures
        first_fault(faults) is None <==> forall|i: int|
            0 <= i < faults.len() ==> (#[trigger] faults[i]) is None,
    decreases faults.len(),
{
    if faults.len() > 0 {
        let rest = faults.skip(1);
        lemma_first_fault(rest);
        if faults[0] is None {
            if forall|i: int| 0 <= i < rest.len() ==> (#[trigger] rest[i]) is None {
                assert forall|i: int| 0 <= i < faults.len() implies (
                #[trigger] faults[i]) is None by {
                    if i > 0 {
                        assert(rest[i - 1] is None);
                    }
                }
            } else {
                let i = choose|i: int| 0 <= i < rest.len() && !((#[trigger] rest[i]) is None);
                assert(!(faults[i + 1] is None));
            }
        }
    }
}

/// What is said of an unusable authority is said of the first one.
pub proof fn the_first_unusable_authority_is_named(faults: Seq<Option<Seq<char>>>, i: int)
    requires
        0 <= i < faults.len(),
        faults[i] is Some,
        forall|j: int| 0 <= j < i ==> (#[trigger] faults[j]) is None,
    ensures
        authorities_fault(faults) == Some(
            "the `<ca>` block is not a usable certificate authority: "@ + faults[i]->0,
        ),
{
    lemma_first_fault_at(faults, i);
}

proof fn lemma_first_fault_at(faults: Seq<Option<Seq<char>>>, i: int)
    requires
        0 <= i < faults.len(),
        faults[i] is Some,
        forall|j: int| 0 <= j < i ==> (#[trigger] faults[j]) is None,
    ensures
        first_fault(faults) == Some(UNUSABLE_AUTHORITY@ + faults[i]->0),
    decreases i,
{
    if i > 0 {
        assert(faults[0] is None);
        let rest = faults.skip(1);
        assert(rest[i - 1] == faults[i]);
        assert forall|j: int| 0 <= j < i - 1 implies (#[trigger] rest[j]) is None by {
            assert(rest[j] == faults[j + 1]);
        }
        lemma_first_fault_at(rest, i - 1);
    }
}

} // verus!
