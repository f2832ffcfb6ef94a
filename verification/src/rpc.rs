use vstd::prelude::*;

use crate::error::ProgramRecoverError;
use crate::keys::{signature_from_str, spec_signature_from_str, Signature};

verus! {

/// How many signatures one page of history holds at most.
pub const SIGNATURE_PAGE_LIMIT: usize = 1000;

/// One entry of an address's history as the node lists it: the signature of a
/// transaction, and whether that transaction failed.
#[derive(Clone, Debug, PartialEq, Eq)]
pub struct SignatureStatus {
    pub signature: String,
    pub failed: bool,
}

/// What parsing a signature text gives: the signature, or the error that
/// names the text.
pub open spec fn signature_parse_matches(
    text: Seq<char>,
    res: Result<Signature, ProgramRecoverError>,
) -> bool {
    match spec_signature_from_str(text) {
        Some(bytes) => res == Ok::<Signature, ProgramRecoverError>(Signature { bytes }),
        None => res matches Err(ProgramRecoverError::InvalidSignature { value, .. }) && value@ == text,
    }
}

/// Parses the base58 text of a transaction signature.
pub fn parse_signature(signature: &str) -> (res: Result<Signature, ProgramRecoverError>)
    ensures
        signature_parse_matches(signature@, res),
{
    match signature_from_str(signature) {
        Ok(parsed) => Ok(parsed),
        Err(source) => Err(ProgramRecoverError::invalid_signature(signature.to_owned(), source)),
    }
}

/// Collects the history of an address page by page, newest first, as the
/// node serves it; each page after the first starts before the last
/// signature of the previous one.
pub struct SignaturePager {
    pub collected: Vec<SignatureStatus>,
    pub before: Option<Signature>,
    pub done: bool,
}

impl SignaturePager {
    /// A pager that has seen no page yet.
    pub fn new() -> (pager: SignaturePager)
        ensures
            pager.collected@.len() == 0,
            pager.before is None,
            !pager.done,
    {
        SignaturePager { collected: Vec::new(), before: None, done: false }
    }

    /// Takes the next page. An empty page ends the history; otherwise the
    /// page is kept, the next page starts before its last signature, and a
    /// page shorter than the limit is the last one.
    pub fn accept_page(&mut self, page: Vec<SignatureStatus>) -> (res: Result<(), ProgramRecoverError>)
        requires
            !old(self).done,
        ensures
            page@.len() == 0 ==> res is Ok && final(self).done && final(self).collected@ == old(self).collected@ && final(self).before == old(self).before,
            page@.len() > 0 ==> match spec_signature_from_str(page@.last().signature@) {
                Some(bytes) => {
                    &&& res is Ok
                    &&& final(self).collected@ == old(self).collected@ + page@
                    &&& final(self).before == Some(Signature { bytes })
                    &&& final(self).done == (page@.len() < SIGNATURE_PAGE_LIMIT)
                },
                None => {
                    &&& res matches Err(ProgramRecoverError::InvalidSignature { value, .. })
                        && value@ == page@.last().signature@
                    &&& final(self).collected@ == old(self).collected@
                    &&& final(self).before == old(self).before
                    &&& final(self).done == old(self).done
                },
            },
    {
        let page_len = page.len();
        if page_len == 0 {
            self.done = true;
            return Ok(());
        }
        let before = parse_signature(page[page_len - 1].signature.as_str())?;
        self.before = Some(before);
        let mut page = page;
        self.collected.append(&mut page);
        if page_len < SIGNATURE_PAGE_LIMIT {
            self.done = true;
        }
        Ok(())
    }

    /// The collected history, oldest first.
    pub fn into_signatures(self) -> (signatures: Vec<SignatureStatus>)
        ensures
            signatures@ == self.collected@.reverse(),
    {
        let mut rest = self.collected;
        let ghost all = rest@;
        let mut signatures: Vec<SignatureStatus> = Vec::new();
        while rest.len() > 0
            invariant
                rest@ == all.take(rest@.len() as int),
                rest@.len() <= all.len(),
                signatures@ == all.reverse().take(all.len() - rest@.len()),
            decreases rest@.len(),
        {
            let status = rest.pop().unwrap();
            signatures.push(status);
            assert(signatures@ =~= all.reverse().take(all.len() - rest@.len()));
        }
        assert(signatures@ =~= all.reverse());
        signatures
    }
}

} // verus!
