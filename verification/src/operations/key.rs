//! The expiration command: EXPIRE.

use vstd::prelude::*;
use vstd::slice::slice_index_get;
use crate::numbers::parse_i64;
use crate::operations::OperationResult;
use crate::operations::instant_plus;
use crate::operations::spec_expire;
use crate::repository::Repository;
use crate::request::Request;

verus! {

/// EXPIRE key seconds: Integer 0 when the key is absent or expired;
/// otherwise a non-positive seconds value deletes the key at once and a
/// positive one schedules its expiration, both answering Integer 1; an
/// unparseable seconds value is a failure.
pub fn expire(repo: &mut Repository, req: &Request, now: u64) -> (r: OperationResult)
    requires
        old(repo).wf(),
        req@.len() >= 3,
    ensures
        final(repo).wf(),
        final(repo)@ == spec_expire(old(repo)@, req@[1], req@[2], now).0,
        r@ == spec_expire(old(repo)@, req@[1], req@[2], now).1,
{
    let args = req.arguments();
    let key = slice_index_get(args, 0);
    if repo.get(key.clone(), now).is_none() {
        return OperationResult::Int(0);
    }
    let secs_str = slice_index_get(args, 1);
    match parse_i64(secs_str.as_str()) {
        None => OperationResult::Error(
            String::from_str("value is not an integer or out of range"),
        ),
        Some(secs) => {
            if secs <= 0 {
                repo.delete(key.clone());
                OperationResult::Int(1)
            } else {
                let expires_at: u64 = if now <= u64::MAX - (secs as u64) {
                    now + (secs as u64)
                } else {
                    u64::MAX
                };
                proof {
                    assert(expires_at == instant_plus(now, secs as int));
                }
                repo.set_expiration(key.clone(), expires_at, now);
                OperationResult::Int(1)
            }
        },
    }
}

} // verus!
