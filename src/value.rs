use vstd::prelude::*;

verus! {

/// A self-describing configuration value: the document shape that
/// configurations are read from and written back to.
#[derive(Debug, PartialEq, Eq)]
pub enum Value {
    Unit,
    Bool(bool),
    U64(u64),
    Str(String),
    List(Vec<Value>),
    Table(Vec<(String, Value)>),
}

/// The value stored under the first occurrence of `key` among `es`.
pub open spec fn lookup(es: Seq<(String, Value)>, key: Seq<char>) -> Option<Value>
    decreases es.len(),
{
    if es.len() == 0 {
        None
    } else {
        match lookup(es.drop_last(), key) {
            Some(v) => Some(v),
            None => if es.last().0@ == key {
                Some(es.last().1)
            } else {
                None
            },
        }
    }
}

/// `es` without its first entry under `key`.
pub open spec fn without_key(es: Seq<(String, Value)>, key: Seq<char>) -> Seq<(String, Value)>
    decreases es.len(),
{
    if es.len() == 0 {
        es
    } else if lookup(es.drop_last(), key) is None && es.last().0@ == key {
        without_key(es.drop_last(), key)
    } else {
        without_key(es.drop_last(), key).push(es.last())
    }
}

/// The keys of a table's entries.
pub open spec fn keys_of(es: Seq<(String, Value)>) -> Seq<Seq<char>> {
    es.map_values(|e: (String, Value)| e.0@)
}

/// Splits the entries of a table into the value under `key` (its first
/// occurrence) and the remaining entries, in their order.
pub fn take_key(es: Vec<(String, Value)>, key: &String) -> (r: (Option<Value>, Vec<(String, Value)>))
    ensures
        r.0 == lookup(es@, key@),
        r.1@ == without_key(es@, key@),
{
    let n: usize = es.len();
    let ghost orig = es@;
    let mut es = es;
    let mut found: Option<Value> = None;
    let mut rest: Vec<(String, Value)> = Vec::new();
    let mut i: usize = 0;
    while es.len() > 0
        invariant
            i + es@.len() == orig.len(),
            orig.len() == n,
            es@ == orig.subrange(i as int, orig.len() as int),
            found == lookup(orig.subrange(0, i as int), key@),
            rest@ == without_key(orig.subrange(0, i as int), key@),
        decreases es@.len(),
    {
        let ghost pre = orig.subrange(0, i as int);
        let ghost next = orig.subrange(0, i + 1);
        let (k, v) = es.remove(0);
        proof {
            assert(next.drop_last() =~= pre);
            assert(orig[i as int] == (k, v));
            assert(next.last() == (k, v));
        }
        if found.is_none() && k == *key {
            found = Some(v);
        } else {
            rest.push((k, v));
        }
        proof {
            assert(found == lookup(next, key@));
            assert(rest@ == without_key(next, key@));
        }
        i = i + 1;
        proof {
            assert(es@ =~= orig.subrange(i as int, orig.len() as int));
        }
    }
    proof {
        assert(orig.subrange(0, i as int) =~= orig);
    }
    (found, rest)
}

proof fn lemma_lookup_prefix(es: Seq<(String, Value)>, key: Seq<char>, k: int)
    requires
        0 <= k <= es.len(),
        lookup(es.subrange(0, k), key) is Some,
    ensures
        lookup(es, key) == lookup(es.subrange(0, k), key),
    decreases es.len() - k,
{
    if k < es.len() {
        assert(es.subrange(0, k + 1).drop_last() =~= es.subrange(0, k));
        lemma_lookup_prefix(es, key, k + 1);
    } else {
        assert(es.subrange(0, k) =~= es);
    }
}

proof fn lemma_without_key_prefix(es: Seq<(String, Value)>, key: Seq<char>, k: int)
    requires
        0 <= k <= es.len(),
        without_key(es.subrange(0, k), key).len() > 0,
    ensures
        without_key(es, key).len() > 0,
        without_key(es, key)[0] == without_key(es.subrange(0, k), key)[0],
    decreases es.len() - k,
{
    if k < es.len() {
        let p = es.subrange(0, k + 1);
        assert(p.drop_last() =~= es.subrange(0, k));
        assert(without_key(p, key).len() > 0);
        assert(without_key(p, key)[0] == without_key(es.subrange(0, k), key)[0]);
        lemma_without_key_prefix(es, key, k + 1);
    } else {
        assert(es.subrange(0, k) =~= es);
    }
}

/// The value under the first occurrence of `key`, borrowed.
pub fn find_key<'a>(es: &'a Vec<(String, Value)>, key: &String) -> (r: Option<&'a Value>)
    ensures
        match r {
            Some(v) => lookup(es@, key@) == Some(*v),
            None => lookup(es@, key@) is None,
        },
{
    let mut i: usize = 0;
    while i < es.len()
        invariant
            0 <= i <= es@.len(),
            lookup(es@.subrange(0, i as int), key@) is None,
        decreases es@.len() - i,
    {
        proof {
            assert(es@.subrange(0, i + 1).drop_last() =~= es@.subrange(0, i as int));
        }
        if es[i].0 == *key {
            proof {
                lemma_lookup_prefix(es@, key@, i + 1);
            }
            return Some(&es[i].1);
        }
        i = i + 1;
    }
    proof {
        assert(es@.subrange(0, i as int) =~= es@);
    }
    None
}

/// The key of the first entry that is not the first occurrence of `key`.
pub fn first_other<'a>(es: &'a Vec<(String, Value)>, key: &String) -> (r: Option<&'a String>)
    ensures
        match r {
            Some(k) => without_key(es@, key@).len() > 0 && without_key(es@, key@)[0].0@ == k@,
            None => without_key(es@, key@).len() == 0,
        },
{
    let mut seen = false;
    let mut i: usize = 0;
    while i < es.len()
        invariant
            0 <= i <= es@.len(),
            seen == (lookup(es@.subrange(0, i as int), key@) is Some),
            without_key(es@.subrange(0, i as int), key@).len() == 0,
        decreases es@.len() - i,
    {
        proof {
            assert(es@.subrange(0, i + 1).drop_last() =~= es@.subrange(0, i as int));
            assert(es@.subrange(0, i + 1).last() == es@[i as int]);
        }
        if !seen && es[i].0 == *key {
            seen = true;
        } else {
            proof {
                assert(without_key(es@.subrange(0, i + 1), key@) =~= seq![es@[i as int]]);
                lemma_without_key_prefix(es@, key@, i + 1);
            }
            return Some(&es[i].0);
        }
        i = i + 1;
    }
    proof {
        assert(es@.subrange(0, i as int) =~= es@);
    }
    None
}

} // verus!
