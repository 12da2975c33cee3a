//! The model that a run loads.
use vstd::prelude::*;

verus! {

/// What is said of a model without an RN-T head.
pub open spec fn head_complaint(repo: Seq<char>, revision: Seq<char>) -> Seq<char> {
    repo + "@"@ + revision
        + " has a CTC head, not RN-T. Set svod_RNNT_REVISION to an RN-T revision."@
}

/// A model is usable if its revision has an RN-T head.
pub fn check_head(repo: &str, revision: &str, has_rnnt: bool) -> (r: Result<(), String>)
    ensures
        r is Ok <==> has_rnnt,
        r is Err ==> r->Err_0@ == head_complaint(repo@, revision@),
        r is Err ==> r->Err_0@ == repo@ + "@"@ + revision@
            + " has a CTC head, not RN-T. Set svod_RNNT_REVISION to an RN-T revision."@,
{
    if has_rnnt {
        Ok(())
    } else {
        Err(
            repo.to_owned().concat("@").concat(revision).concat(
                " has a CTC head, not RN-T. Set svod_RNNT_REVISION to an RN-T revision.",
            ),
        )
    }
}

} // verus!
