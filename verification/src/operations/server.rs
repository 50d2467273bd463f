//! The store-wide command: FLUSHALL.

use vstd::prelude::*;
use crate::operations::OperationResult;
use crate::operations::spec_flushall;
use crate::repository::Repository;
use crate::request::Request;

verus! {

/// FLUSHALL: clears the whole store and expiration table.
pub fn flush_all(repo: &mut Repository, _req: &Request) -> (r: OperationResult)
    requires
        old(repo).wf(),
    ensures
        final(repo).wf(),
        final(repo)@ == spec_flushall().0,
        r@ == spec_flushall().1,
{
    repo.clear();
    OperationResult::Okay
}

} // verus!
