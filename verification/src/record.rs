//! The stored record: a text scalar or a field-to-text hash. The hash is
//! a vector of field/value pairs with pairwise-distinct fields, viewed
//! as a mathematical map.

use vstd::prelude::*;

verus! {

broadcast use {vstd::std_specs::vec::group_vec_axioms, vstd::seq::group_seq_axioms};

/// A value stored under a key.
#[derive(Debug, Clone, PartialEq, Eq)]
pub enum Record {
    String(String),
    HashMap(Vec<(String, String)>),
}

/// The mathematical shape of a record.
pub enum RecordModel {
    String(Seq<char>),
    HashMap(Map<Seq<char>, Seq<char>>),
}

/// No two entries share a field name.
pub open spec fn hash_keys_unique(entries: Seq<(String, String)>) -> bool {
    forall|i: int, j: int|
        0 <= i < j < entries.len() ==> (#[trigger] entries[i]).0@ != (#[trigger] entries[j]).0@
}

/// The map an entry list denotes; later entries win, though with unique
/// keys the order never matters.
pub open spec fn hash_map_of(entries: Seq<(String, String)>) -> Map<Seq<char>, Seq<char>>
    decreases entries.len(),
{
    if entries.len() == 0 {
        Map::empty()
    } else {
        hash_map_of(entries.drop_last()).insert(entries.last().0@, entries.last().1@)
    }
}

impl View for Record {
    type V = RecordModel;

    open spec fn view(&self) -> RecordModel {
        match self {
            Record::String(s) => RecordModel::String(s@),
            Record::HashMap(entries) => RecordModel::HashMap(hash_map_of(entries@)),
        }
    }
}

impl Record {
    /// The one internal invariant: a hash record's fields are distinct.
    pub open spec fn wf(&self) -> bool {
        match self {
            Record::String(_) => true,
            Record::HashMap(entries) => hash_keys_unique(entries@),
        }
    }
}

pub proof fn lemma_hash_map_of_props(entries: Seq<(String, String)>)
    ensures
        forall|k: Seq<char>|
            hash_map_of(entries).contains_key(k) ==> exists|i: int|
                0 <= i < entries.len() && (#[trigger] entries[i]).0@ == k,
        hash_keys_unique(entries) ==> forall|i: int|
            0 <= i < entries.len() ==> hash_map_of(entries).contains_key(
                (#[trigger] entries[i]).0@,
            ) && hash_map_of(entries)[entries[i].0@] == entries[i].1@,
    decreases entries.len(),
{
    if entries.len() > 0 {
        let head = entries.drop_last();
        lemma_hash_map_of_props(head);
        assert forall|k: Seq<char>| hash_map_of(entries).contains_key(k) implies exists|i: int|
            0 <= i < entries.len() && (#[trigger] entries[i]).0@ == k by {
            if k != entries.last().0@ {
                assert(hash_map_of(head).contains_key(k));
                let i = choose|i: int| 0 <= i < head.len() && (#[trigger] head[i]).0@ == k;
                assert(entries[i].0@ == k);
            } else {
                assert(entries[entries.len() - 1].0@ == k);
            }
        }
        if hash_keys_unique(entries) {
            assert(hash_keys_unique(head)) by {
                assert(forall|i: int|
                    0 <= i < head.len() ==> #[trigger] head[i] == entries[i]);
            }
            assert forall|i: int| 0 <= i < entries.len() implies hash_map_of(
                entries,
            ).contains_key((#[trigger] entries[i]).0@) && hash_map_of(entries)[entries[i].0@]
                == entries[i].1@ by {
                if i < entries.len() - 1 {
                    assert(head[i] == entries[i]);
                    assert(hash_map_of(head)[entries[i].0@] == entries[i].1@);
                    assert(entries[i].0@ != entries.last().0@);
                }
            }
        }
    }
}

/// Looks a field up in an entry list.
#[verifier::loop_isolation(false)]
pub fn hash_get<'a>(entries: &'a Vec<(String, String)>, field: &String) -> (r: Option<&'a String>)
    requires
        hash_keys_unique(entries@),
    ensures
        match r {
            Some(v) => hash_map_of(entries@).contains_key(field@) && v@ == hash_map_of(entries@)[field@],
            None => !hash_map_of(entries@).contains_key(field@),
        },
{
    proof {
        lemma_hash_map_of_props(entries@);
    }
    let n = entries.len();
    let mut i: usize = 0;
    while i < n
        invariant
            i <= n == entries@.len(),
            hash_keys_unique(entries@),
            forall|j: int| 0 <= j < i ==> (#[trigger] entries@[j]).0@ != field@,
        decreases n - i,
    {
        if entries[i].0.eq(field) {
            return Some(&entries[i].1);
        }
        i = i + 1;
    }
    proof {
        if hash_map_of(entries@).contains_key(field@) {
            let j = choose|j: int|
                0 <= j < entries@.len() && (#[trigger] entries@[j]).0@ == field@;
            assert(false);
        }
    }
    None
}

pub proof fn lemma_hash_map_of_update(entries: Seq<(String, String)>, i: int, field: String, value: String)
    requires
        hash_keys_unique(entries),
        0 <= i < entries.len(),
        entries[i].0@ == field@,
    ensures
        hash_map_of(entries.update(i, (field, value))) == hash_map_of(entries).insert(
            field@,
            value@,
        ),
        hash_keys_unique(entries.update(i, (field, value))),
    decreases entries.len(),
{
    let upd = entries.update(i, (field, value));
    assert(hash_keys_unique(upd)) by {
        assert(forall|a: int|
            0 <= a < entries.len() && a != i ==> #[trigger] upd[a] == entries[a]);
        assert(upd[i].0@ == entries[i].0@);
    }
    if i == entries.len() - 1 {
        assert(upd.drop_last() =~= entries.drop_last());
        assert(upd.last() == (field, value));
        assert(hash_map_of(upd) == hash_map_of(entries.drop_last()).insert(field@, value@));
        assert(hash_map_of(entries.drop_last()).insert(field@, value@) =~= hash_map_of(
            entries,
        ).insert(field@, value@));
    } else {
        let head = entries.drop_last();
        assert(hash_keys_unique(head)) by {
            assert(forall|a: int|
                0 <= a < head.len() ==> #[trigger] head[a] == entries[a]);
        }
        lemma_hash_map_of_update(head, i, field, value);
        assert(upd.drop_last() =~= head.update(i, (field, value)));
        assert(upd.last() == entries.last());
        assert(entries.last().0@ != field@) by {
            assert(entries[i].0@ != entries[entries.len() - 1].0@);
        }
        assert(hash_map_of(upd) == hash_map_of(head).insert(field@, value@).insert(
            entries.last().0@,
            entries.last().1@,
        ));
        assert(hash_map_of(head).insert(field@, value@).insert(
            entries.last().0@,
            entries.last().1@,
        ) =~= hash_map_of(entries).insert(field@, value@));
    }
}

/// Inserts or replaces a field in an entry list.
#[verifier::loop_isolation(false)]
pub fn hash_set(entries: &mut Vec<(String, String)>, field: String, value: String)
    requires
        hash_keys_unique(old(entries)@),
    ensures
        hash_keys_unique(final(entries)@),
        hash_map_of(final(entries)@) == hash_map_of(old(entries)@).insert(field@, value@),
{
    let n = entries.len();
    let mut i: usize = 0;
    while i < n
        invariant
            i <= n == entries@.len(),
            entries@ == old(entries)@,
            forall|j: int| 0 <= j < i ==> (#[trigger] entries@[j]).0@ != field@,
        decreases n - i,
    {
        if entries[i].0.eq(&field) {
            proof {
                lemma_hash_map_of_update(entries@, i as int, field, value);
            }
            entries.set(i, (field, value));
            return ;
        }
        i = i + 1;
    }
    proof {
        lemma_hash_map_of_props(entries@);
        let ghost pushed = entries@.push((field, value));
        assert(pushed.drop_last() =~= entries@);
        assert(hash_keys_unique(pushed)) by {
            assert(forall|a: int|
                0 <= a < entries@.len() ==> #[trigger] pushed[a] == entries@[a]);
            if hash_map_of(entries@).contains_key(field@) {
                assert(false);
            }
            assert forall|a: int, b: int| 0 <= a < b < pushed.len() implies (
            #[trigger] pushed[a]).0@ != (#[trigger] pushed[b]).0@ by {
                if b == pushed.len() - 1 {
                    if pushed[a].0@ == field@ {
                        assert(entries@[a].0@ == field@);
                        assert(hash_map_of(entries@).contains_key(field@));
                    }
                }
            }
        }
    }
    entries.push((field, value));
}

/// A deep copy whose mathematical value is the same.
#[verifier::loop_isolation(false)]
pub fn record_clone(r: &Record) -> (c: Record)
    ensures
        c@ == r@,
        r.wf() ==> c.wf(),
{
    match r {
        Record::String(s) => Record::String(s.clone()),
        Record::HashMap(entries) => {
            let n = entries.len();
            let mut out: Vec<(String, String)> = Vec::new();
            let mut i: usize = 0;
            while i < n
                invariant
                    i <= n == entries@.len(),
                    out@.len() == i,
                    forall|j: int| 0 <= j < i ==> out@[j] == entries@[j],
                decreases n - i,
            {
                out.push((entries[i].0.clone(), entries[i].1.clone()));
                i = i + 1;
            }
            proof {
                assert(out@ =~= entries@);
            }
            Record::HashMap(out)
        },
    }
}

} // verus!
