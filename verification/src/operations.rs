//! The operation registry and dispatcher: a case-insensitive
//! name-to-operation table with an arity contract per command, and the
//! mathematical semantics of every command.

use vstd::prelude::*;
use vstd::string::StrSliceExecFns;
use crate::record::RecordModel;
use crate::repository::RepoModel;
use crate::repository::Repository;
use crate::repository::after_read;
use crate::repository::expired_at;
use crate::repository::live_at;
use crate::repository::read_value;
use crate::request::Request;
use crate::numbers::parse_i64_spec;

pub mod hash;
pub mod string;
pub mod key;
pub mod server;

use crate::operations::hash::hget;
use crate::operations::hash::hset;
use crate::operations::string as string_ops;
use crate::operations::key::expire;
use crate::operations::server::flush_all;

verus! {

/// What a command hands back to the dispatcher.
#[derive(Debug, PartialEq, Clone)]
pub enum OperationResult {
    Okay,
    StringRes(String),
    Error(String),
    Int(i64),
    Nil,
}

/// The mathematical shape of an operation result.
pub enum OpResultModel {
    Okay,
    StringRes(Seq<char>),
    Error(Seq<char>),
    Int(i64),
    Nil,
}

impl View for OperationResult {
    type V = OpResultModel;

    open spec fn view(&self) -> OpResultModel {
        match self {
            OperationResult::Okay => OpResultModel::Okay,
            OperationResult::StringRes(s) => OpResultModel::StringRes(s@),
            OperationResult::Error(s) => OpResultModel::Error(s@),
            OperationResult::Int(i) => OpResultModel::Int(*i),
            OperationResult::Nil => OpResultModel::Nil,
        }
    }
}

/// Which command an operation runs.
#[derive(Debug, Clone, Copy, PartialEq, Eq, Structural)]
pub enum OpKind {
    Get,
    SetCmd,
    HGet,
    HSet,
    Command,
    Expire,
    FlushAll,
}

/// A registry entry: the command's name, what it runs, and its declared
/// arity (negative means "at least that many").
pub struct Operation {
    pub name: &'static str,
    pub kind: OpKind,
    pub arity: i32,
}

/// The arity compatibility rule: an exact match for non-negative
/// declarations, "at least the magnitude" for negative ones.
pub open spec fn arity_ok(declared: int, observed: int) -> bool {
    declared == observed || (declared < 0 && observed >= -declared)
}

pub fn is_valid_arity(op_arity: i64, req_arity: i64) -> (r: bool)
    requires
        op_arity > i64::MIN,
    ensures
        r == arity_ok(op_arity as int, req_arity as int),
{
    op_arity == req_arity || (op_arity < 0 && req_arity >= -op_arity)
}

/// Case-insensitive equality of two characters, folding only the ASCII
/// range.
pub open spec fn eq_ignore_case_char(a: char, b: char) -> bool {
    a == b || ('A' <= a && a <= 'Z' && b as int == a as int + 32) || ('A' <= b && b <= 'Z'
        && a as int == b as int + 32)
}

/// Case-insensitive equality of two texts.
pub open spec fn eq_ignore_case(a: Seq<char>, b: Seq<char>) -> bool {
    a.len() == b.len() && forall|i: int| 0 <= i < a.len() ==> eq_ignore_case_char(a[i], b[i])
}

pub fn str_eq_ignore_case(a: &str, b: &str) -> (r: bool)
    ensures
        r == eq_ignore_case(a@, b@),
{
    let n = a.unicode_len();
    if n != b.unicode_len() {
        return false;
    }
    let mut i: usize = 0;
    while i < n
        invariant
            i <= n == a@.len() == b@.len(),
            forall|j: int| 0 <= j < i ==> eq_ignore_case_char(a@[j], b@[j]),
        decreases n - i,
    {
        let ca = a.get_char(i);
        let cb = b.get_char(i);
        let fine = ca == cb || ('A' <= ca && ca <= 'Z' && cb as u32 == ca as u32 + 32) || ('A'
            <= cb && cb <= 'Z' && ca as u32 == cb as u32 + 32);
        if !fine {
            proof {
                assert(!eq_ignore_case_char(a@[i as int], b@[i as int]));
            }
            return false;
        }
        i = i + 1;
    }
    true
}

/// The name each registered command answers to.
pub open spec fn kind_name(k: OpKind) -> Seq<char> {
    match k {
        OpKind::Get => "get"@,
        OpKind::SetCmd => "set"@,
        OpKind::HGet => "hget"@,
        OpKind::HSet => "hset"@,
        OpKind::Command => "command"@,
        OpKind::Expire => "expire"@,
        OpKind::FlushAll => "flushall"@,
    }
}

/// The declared arity of each registered command.
pub open spec fn kind_arity(k: OpKind) -> int {
    match k {
        OpKind::Get => 2,
        OpKind::SetCmd => -3,
        OpKind::HGet => 3,
        OpKind::HSet => -4,
        OpKind::Command => -1,
        OpKind::Expire => 3,
        OpKind::FlushAll => 1,
    }
}

impl Operation {
    /// The entry is one of the registry's: name and arity belong to its
    /// kind.
    pub open spec fn wf(&self) -> bool {
        self.name@ == kind_name(self.kind) && self.arity as int == kind_arity(self.kind)
    }
}

/// Which registry entry, if any, a command name selects.
pub open spec fn lookup_spec(name: Seq<char>) -> Option<OpKind> {
    if eq_ignore_case(name, "get"@) {
        Some(OpKind::Get)
    } else if eq_ignore_case(name, "set"@) {
        Some(OpKind::SetCmd)
    } else if eq_ignore_case(name, "hget"@) {
        Some(OpKind::HGet)
    } else if eq_ignore_case(name, "hset"@) {
        Some(OpKind::HSet)
    } else if eq_ignore_case(name, "command"@) {
        Some(OpKind::Command)
    } else if eq_ignore_case(name, "expire"@) {
        Some(OpKind::Expire)
    } else if eq_ignore_case(name, "flushall"@) {
        Some(OpKind::FlushAll)
    } else {
        None
    }
}

/// Finds the operation registered under `name`, matched
/// case-insensitively.
pub fn lookup(name: &str) -> (r: Option<Operation>)
    ensures
        match r {
            Some(op) => lookup_spec(name@) == Some(op.kind) && op.wf(),
            None => lookup_spec(name@) is None,
        },
{
    if str_eq_ignore_case(name, "get") {
        Some(Operation { name: "get", kind: OpKind::Get, arity: 2 })
    } else if str_eq_ignore_case(name, "set") {
        Some(Operation { name: "set", kind: OpKind::SetCmd, arity: -3 })
    } else if str_eq_ignore_case(name, "hget") {
        Some(Operation { name: "hget", kind: OpKind::HGet, arity: 3 })
    } else if str_eq_ignore_case(name, "hset") {
        Some(Operation { name: "hset", kind: OpKind::HSet, arity: -4 })
    } else if str_eq_ignore_case(name, "command") {
        Some(Operation { name: "command", kind: OpKind::Command, arity: -1 })
    } else if str_eq_ignore_case(name, "expire") {
        Some(Operation { name: "expire", kind: OpKind::Expire, arity: 3 })
    } else if str_eq_ignore_case(name, "flushall") {
        Some(Operation { name: "flushall", kind: OpKind::FlushAll, arity: 1 })
    } else {
        None
    }
}

/// GET: the key's scalar text; Nil when absent or expired; "wrongtype"
/// when the record is a hash.
pub open spec fn spec_get(m: RepoModel, key: Seq<char>, now: u64) -> (RepoModel, OpResultModel) {
    (
        after_read(m, key, now),
        match read_value(m, key, now) {
            None => OpResultModel::Nil,
            Some(RecordModel::String(s)) => OpResultModel::StringRes(s),
            Some(RecordModel::HashMap(_)) => OpResultModel::Error("wrongtype"@),
        },
    )
}

/// SET: unconditional overwrite with a scalar record; expirations are
/// untouched.
pub open spec fn spec_set(m: RepoModel, key: Seq<char>, value: Seq<char>) -> (
    RepoModel,
    OpResultModel,
) {
    (
        RepoModel { store: m.store.insert(key, RecordModel::String(value)), expires: m.expires },
        OpResultModel::Okay,
    )
}

/// HGET: the field's text from the key's hash; Nil when the key is
/// absent or expired or the field missing; "wrongtype" when the record
/// is a scalar.
pub open spec fn spec_hget(m: RepoModel, key: Seq<char>, field: Seq<char>, now: u64) -> (
    RepoModel,
    OpResultModel,
) {
    (
        after_read(m, key, now),
        match read_value(m, key, now) {
            None => OpResultModel::Nil,
            Some(RecordModel::String(_)) => OpResultModel::Error("wrongtype"@),
            Some(RecordModel::HashMap(h)) => if h.contains_key(field) {
                OpResultModel::StringRes(h[field])
            } else {
                OpResultModel::Nil
            },
        },
    )
}

/// Field/value pairs folded into a base map, in order, later pairs
/// winning.
pub open spec fn pairs_fold(
    base: Map<Seq<char>, Seq<char>>,
    pairs: Seq<Seq<char>>,
) -> Map<Seq<char>, Seq<char>>
    decreases pairs.len(),
{
    if pairs.len() < 2 {
        base
    } else {
        pairs_fold(base, pairs.take(pairs.len() - 2)).insert(
            pairs[pairs.len() - 2],
            pairs[pairs.len() - 1],
        )
    }
}

/// HSET over the whole request `r` (`r[1]` the key, `r[2..]` the
/// pairs): an odd element count is rejected; otherwise the pairs merge
/// into the key's hash, or into a brand-new hash when the key is
/// absent, expired, or holds a scalar; returns Nil.
pub open spec fn spec_hset(m: RepoModel, r: Seq<Seq<char>>, now: u64) -> (
    RepoModel,
    OpResultModel,
) {
    if r.len() % 2 != 0 {
        (m, OpResultModel::Error("wrong number of arguments"@))
    } else {
        let key = r[1];
        let pairs = r.subrange(2, r.len() as int);
        let base = match read_value(m, key, now) {
            Some(RecordModel::HashMap(h)) => h,
            _ => Map::<Seq<char>, Seq<char>>::empty(),
        };
        let a = after_read(m, key, now);
        (
            RepoModel {
                store: a.store.insert(key, RecordModel::HashMap(pairs_fold(base, pairs))),
                expires: a.expires,
            },
            OpResultModel::Nil,
        )
    }
}

/// `now + secs`, saturating at the largest instant.
pub open spec fn instant_plus(now: u64, secs: int) -> u64 {
    if now + secs <= u64::MAX {
        (now + secs) as u64
    } else {
        u64::MAX
    }
}

/// EXPIRE: Integer 0 when the key is absent or expired; otherwise the
/// seconds argument is parsed, a non-positive value deletes the key at
/// once, a positive one schedules expiration at `now + secs`; both
/// return Integer 1.
pub open spec fn spec_expire(m: RepoModel, key: Seq<char>, secstr: Seq<char>, now: u64) -> (
    RepoModel,
    OpResultModel,
) {
    if !live_at(m, key, now) {
        (after_read(m, key, now), OpResultModel::Int(0))
    } else {
        match parse_i64_spec(secstr) {
            None => (m, OpResultModel::Error("value is not an integer or out of range"@)),
            Some(secs) => if secs <= 0 {
                (
                    RepoModel { store: m.store.remove(key), expires: m.expires.remove(key) },
                    OpResultModel::Int(1),
                )
            } else {
                (
                    RepoModel {
                        store: m.store,
                        expires: m.expires.insert(key, instant_plus(now, secs as int)),
                    },
                    OpResultModel::Int(1),
                )
            },
        }
    }
}

/// FLUSHALL: both mappings emptied.
pub open spec fn spec_flushall() -> (RepoModel, OpResultModel) {
    (
        RepoModel {
            store: Map::<Seq<char>, RecordModel>::empty(),
            expires: Map::<Seq<char>, u64>::empty(),
        },
        OpResultModel::Okay,
    )
}

/// What each command does to the store and returns, given the request
/// view.
pub open spec fn dispatch_spec(k: OpKind, m: RepoModel, r: Seq<Seq<char>>, now: u64) -> (
    RepoModel,
    OpResultModel,
) {
    match k {
        OpKind::Command => (m, OpResultModel::Okay),
        OpKind::Get => spec_get(m, r[1], now),
        OpKind::SetCmd => spec_set(m, r[1], r[2]),
        OpKind::HGet => spec_hget(m, r[1], r[2], now),
        OpKind::HSet => spec_hset(m, r, now),
        OpKind::Expire => spec_expire(m, r[1], r[2], now),
        OpKind::FlushAll => spec_flushall(),
    }
}

/// COMMAND: no side effect.
pub fn commands_handler(repo: &mut Repository, _request: &Request) -> (r: OperationResult)
    requires
        old(repo).wf(),
    ensures
        final(repo).wf(),
        final(repo)@ == old(repo)@,
        r@ is Okay,
{
    OperationResult::Okay
}

impl Operation {
    /// Runs the operation against the store, but only when the request's
    /// arity satisfies the declared contract; otherwise reports the
    /// arity failure and leaves the store untouched.
    pub fn execute(&self, repo: &mut Repository, request: &Request, now: u64) -> (r:
        OperationResult)
        requires
            self.wf(),
            old(repo).wf(),
            1 <= request@.len() <= i64::MAX,
        ensures
            final(repo).wf(),
            !arity_ok(self.arity as int, request@.len() as int) ==> final(repo)@ == old(repo)@
                && r@ == OpResultModel::Error("wrong number of arguments"@),
            arity_ok(self.arity as int, request@.len() as int) ==> final(repo)@ == dispatch_spec(
                self.kind,
                old(repo)@,
                request@,
                now,
            ).0 && r@ == dispatch_spec(self.kind, old(repo)@, request@, now).1,
    {
        if !is_valid_arity(self.arity as i64, request.arity()) {
            return OperationResult::Error(String::from_str("wrong number of arguments"));
        }
        match self.kind {
            OpKind::Command => commands_handler(repo, request),
            OpKind::Get => string_ops::get(repo, request, now),
            OpKind::SetCmd => string_ops::set(repo, request),
            OpKind::HGet => hget(repo, request, now),
            OpKind::HSet => hset(repo, request, now),
            OpKind::Expire => expire(repo, request, now),
            OpKind::FlushAll => flush_all(repo, request),
        }
    }
}

} // verus!

verus! {

/// The arity gate: a call with one argument fewer than the declared
/// arity demands (one below the exact count, or one below the
/// variadic minimum) never satisfies the compatibility rule, so
/// `Operation::execute` reports "wrong number of arguments" and, by its
/// contract, leaves the store untouched.
pub proof fn lemma_arity_gate(k: OpKind, observed: int)
    requires
        observed == if kind_arity(k) >= 0 {
            kind_arity(k) - 1
        } else {
            -kind_arity(k) - 1
        },
    ensures
        !arity_ok(kind_arity(k), observed),
{
}

/// Expiration: EXPIRE with a non-positive seconds value on a live key
/// deletes it from both mappings and answers Integer 1, after which a
/// read finds nothing; EXPIRE on an absent or expired key answers
/// Integer 0 and stores nothing under the key.
pub proof fn lemma_expire(m: RepoModel, key: Seq<char>, secstr: Seq<char>, now: u64)
    ensures
        live_at(m, key, now) && (parse_i64_spec(secstr) matches Some(s) && s <= 0) ==> {
            let (m2, res) = spec_expire(m, key, secstr, now);
            &&& res == OpResultModel::Int(1)
            &&& !m2.store.contains_key(key)
            &&& !m2.expires.contains_key(key)
            &&& read_value(m2, key, now) is None
        },
        !live_at(m, key, now) ==> {
            let (m2, res) = spec_expire(m, key, secstr, now);
            &&& res == OpResultModel::Int(0)
            &&& !m2.store.contains_key(key)
            &&& read_value(m2, key, now) is None
        },
{
    if !live_at(m, key, now) {
        let m2 = spec_expire(m, key, secstr, now).0;
        if expired_at(m, key, now) {
            assert(!m2.store.contains_key(key));
        } else {
            assert(m2 == m);
            assert(!m.store.contains_key(key));
        }
    }
}

/// Lazy eviction: set a key, give it a positive expiration, and read it
/// after that instant has passed: the read answers Nil and the key is
/// gone from both mappings.
pub proof fn lemma_lazy_eviction(
    m: RepoModel,
    key: Seq<char>,
    value: Seq<char>,
    secstr: Seq<char>,
    now: u64,
    later: u64,
)
    requires
        parse_i64_spec(secstr) matches Some(s) && s > 0,
        !expired_at(m, key, now),
        later > instant_plus(now, parse_i64_spec(secstr)->0 as int),
    ensures
        ({
            let m1 = spec_set(m, key, value).0;
            let m2 = spec_expire(m1, key, secstr, now).0;
            let (m3, res) = spec_get(m2, key, later);
            &&& res == OpResultModel::Nil
            &&& !m3.store.contains_key(key)
            &&& !m3.expires.contains_key(key)
        }),
{
}

/// Type confusion: after SET the key holds a scalar, so HGET on it is a
/// "wrongtype" failure; HSET on it silently replaces the scalar with a
/// brand-new hash holding only the supplied pair, after which GET is a
/// "wrongtype" failure against that hash.
pub proof fn lemma_type_confusion(
    m: RepoModel,
    key: Seq<char>,
    value: Seq<char>,
    field: Seq<char>,
    now: u64,
)
    requires
        !expired_at(m, key, now),
    ensures
        ({
            let m1 = spec_set(m, key, value).0;
            spec_hget(m1, key, field, now).1 == OpResultModel::Error("wrongtype"@)
        }),
        ({
            let m1 = spec_set(m, key, value).0;
            let r = seq!["hset"@, key, field, value];
            let (m2, res) = spec_hset(m1, r, now);
            &&& res == OpResultModel::Nil
            &&& m2.store[key] == RecordModel::HashMap(
                Map::<Seq<char>, Seq<char>>::empty().insert(field, value),
            )
            &&& spec_get(m2, key, now).1 == OpResultModel::Error("wrongtype"@)
        }),
{
    let m1 = spec_set(m, key, value).0;
    let r = seq!["hset"@, key, field, value];
    assert(r.len() == 4);
    assert(r[1] == key);
    let pairs = r.subrange(2, 4);
    assert(pairs.len() == 2 && pairs[0] == field && pairs[1] == value);
    assert(pairs.take(0) =~= Seq::<Seq<char>>::empty());
    assert(pairs_fold(Map::<Seq<char>, Seq<char>>::empty(), pairs.take(0)) == Map::<
        Seq<char>,
        Seq<char>,
    >::empty());
    assert(pairs.take(pairs.len() - 2) =~= pairs.take(0));
    assert(pairs_fold(Map::<Seq<char>, Seq<char>>::empty(), pairs)
        == Map::<Seq<char>, Seq<char>>::empty().insert(field, value));
    assert(read_value(m1, key, now) == Some(RecordModel::String(value)));
}

} // verus!
