//! The hash commands: HGET and HSET.

use vstd::prelude::*;
use vstd::slice::slice_index_get;
use crate::operations::OperationResult;
use crate::operations::pairs_fold;
use crate::operations::spec_hget;
use crate::operations::spec_hset;
use crate::record::Record;
use crate::record::hash_get;
use crate::record::hash_set;
use crate::record::hash_map_of;
use crate::repository::Repository;
use crate::request::Request;

verus! {

/// HGET key field: the field's text from the key's hash; Nil when the
/// key is absent or expired or the field missing; "wrongtype" when the
/// record is a scalar.
pub fn hget(repo: &mut Repository, req: &Request, now: u64) -> (r: OperationResult)
    requires
        old(repo).wf(),
        req@.len() >= 3,
    ensures
        final(repo).wf(),
        final(repo)@ == spec_hget(old(repo)@, req@[1], req@[2], now).0,
        r@ == spec_hget(old(repo)@, req@[1], req@[2], now).1,
{
    let args = req.arguments();
    let key = slice_index_get(args, 0);
    let field = slice_index_get(args, 1);
    if let Some(record) = repo.get(key.clone(), now) {
        match &record {
            Record::HashMap(entries) => match hash_get(entries, field) {
                Some(s) => OperationResult::StringRes(s.clone()),
                None => OperationResult::Nil,
            },
            _ => OperationResult::Error(String::from_str("wrongtype")),
        }
    } else {
        OperationResult::Nil
    }
}

/// HSET key field value [field value ...]: an odd element count is a
/// failure; otherwise the pairs merge field by field into the key's
/// hash, or into a brand-new hash when the key is absent, expired, or
/// holds a scalar; answers Nil on success.
#[verifier::loop_isolation(false)]
pub fn hset(repo: &mut Repository, req: &Request, now: u64) -> (r: OperationResult)
    requires
        old(repo).wf(),
        4 <= req@.len() <= i64::MAX,
    ensures
        final(repo).wf(),
        final(repo)@ == spec_hset(old(repo)@, req@, now).0,
        r@ == spec_hset(old(repo)@, req@, now).1,
{
    if req.arity() % 2 != 0 {
        return OperationResult::Error(String::from_str("wrong number of arguments"));
    }
    let args = req.arguments();
    let key = slice_index_get(args, 0).clone();
    let prior = repo.get(key.clone(), now);
    let ghost base = match &prior {
        Some(rec) => match rec@ {
            crate::record::RecordModel::HashMap(h) => h,
            _ => Map::<Seq<char>, Seq<char>>::empty(),
        },
        None => Map::<Seq<char>, Seq<char>>::empty(),
    };
    let mut entries: Vec<(String, String)> = match prior {
        Some(Record::HashMap(v)) => v,
        _ => Vec::new(),
    };
    proof {
        assert(hash_map_of(entries@) == base) by {
            if !(prior matches Some(rec) && rec matches Record::HashMap(v)) {
                assert(entries@ =~= Seq::<(String, String)>::empty());
                assert(hash_map_of(entries@) =~= Map::<Seq<char>, Seq<char>>::empty());
            }
        }
        assert(pairs_fold(base, req@.subrange(2, 2)) == base);
        assert(req@.subrange(2, 2) =~= req@.subrange(2, req@.len() as int).take(0));
    }
    let n = args.len();
    let ghost pairs = req@.subrange(2, req@.len() as int);
    let mut i: usize = 1;
    while i < n - 1
        invariant
            1 <= i <= n,
            i % 2 == 1,
            crate::record::hash_keys_unique(entries@),
            hash_map_of(entries@) == pairs_fold(base, pairs.take(i - 1)),
        decreases n - i,
    {
        let field = slice_index_get(args, i).clone();
        let value = slice_index_get(args, i + 1).clone();
        proof {
            assert(pairs.take(i + 1) =~= pairs.take(i - 1).push(field@).push(value@));
            assert(pairs.take(i + 1).take(pairs.take(i + 1).len() - 2) =~= pairs.take(i - 1));
            assert(pairs_fold(base, pairs.take(i + 1)) == pairs_fold(base, pairs.take(i - 1)).insert(
                field@,
                value@,
            ));
        }
        hash_set(&mut entries, field, value);
        i = i + 2;
    }
    proof {
        assert(i == n) by {
            assert(i >= n - 1);
            assert(n % 2 == 1);
        }
        assert(pairs.take(i - 1) =~= pairs);
    }
    repo.set(key, Record::HashMap(entries));
    OperationResult::Nil
}

} // verus!
