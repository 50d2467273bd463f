//! The scalar commands: GET and SET.

use vstd::prelude::*;
use vstd::slice::slice_index_get;
use crate::operations::OperationResult;
use crate::operations::spec_get;
use crate::operations::spec_set;
use crate::record::Record;
use crate::repository::Repository;
use crate::request::Request;

verus! {

/// GET key: the key's scalar text, Nil when absent or expired,
/// "wrongtype" when the record is a hash.
pub fn get(repo: &mut Repository, req: &Request, now: u64) -> (r: OperationResult)
    requires
        old(repo).wf(),
        req@.len() >= 2,
    ensures
        final(repo).wf(),
        final(repo)@ == spec_get(old(repo)@, req@[1], now).0,
        r@ == spec_get(old(repo)@, req@[1], now).1,
{
    let args = req.arguments();
    let key = slice_index_get(args, 0);
    if let Some(record) = repo.get(key.clone(), now) {
        match record {
            Record::String(s) => OperationResult::StringRes(s),
            _ => OperationResult::Error(String::from_str("wrongtype")),
        }
    } else {
        OperationResult::Nil
    }
}

/// SET key value: unconditional scalar overwrite; any further arguments
/// are ignored; a pre-existing expiration is left in place.
pub fn set(repo: &mut Repository, req: &Request) -> (r: OperationResult)
    requires
        old(repo).wf(),
        req@.len() >= 3,
    ensures
        final(repo).wf(),
        final(repo)@ == spec_set(old(repo)@, req@[1], req@[2]).0,
        r@ == spec_set(old(repo)@, req@[1], req@[2]).1,
{
    let args = req.arguments();
    let key = slice_index_get(args, 0).clone();
    let val = slice_index_get(args, 1).clone();
    repo.set(key, Record::String(val));
    OperationResult::Okay
}

} // verus!
