//! Small tables keyed by text, kept in the order in which the keys came.

use crate::text::str_eq;
use vstd::prelude::*;
use vstd::string::StringExecFns;

verus! {

/// The position of the first element of `s` that `f` holds of.
pub open spec fn first_where<T>(s: Seq<T>, f: spec_fn(T) -> bool) -> Option<int>
    decreases s.len(),
{
    if s.len() == 0 {
        None
    } else {
        match first_where(s.drop_last(), f) {
            Some(i) => Some(i),
            None => if f(s.last()) {
                Some(s.len() - 1)
            } else {
                None
            },
        }
    }
}

/// `f` holds of the first element that it holds of, and of none before it.
pub proof fn lemma_first_where<T>(s: Seq<T>, f: spec_fn(T) -> bool)
    ensures
        match first_where(s, f) {
            Some(i) => 0 <= i < s.len() && f(s[i]) && forall|j: int| 0 <= j < i ==> !f(#[trigger] s[j]),
            None => forall|j: int| 0 <= j < s.len() ==> !f(#[trigger] s[j]),
        },
    decreases s.len(),
{
    if s.len() > 0 {
        lemma_first_where(s.drop_last(), f);
        match first_where(s.drop_last(), f) {
            Some(i) => {
                assert(s[i] == s.drop_last()[i]);
                assert forall|j: int| 0 <= j < i implies !f(#[trigger] s[j]) by {
                    assert(s[j] == s.drop_last()[j]);
                }
            },
            None => {
                assert forall|j: int| 0 <= j < s.len() - 1 implies !f(#[trigger] s[j]) by {
                    assert(s[j] == s.drop_last()[j]);
                }
            },
        }
    }
}

/// An element of which `f` holds, with none such before it, is the first.
pub proof fn lemma_first_where_is<T>(s: Seq<T>, f: spec_fn(T) -> bool, i: int)
    requires
        0 <= i < s.len(),
        f(s[i]),
        forall|j: int| 0 <= j < i ==> !f(#[trigger] s[j]),
    ensures
        first_where(s, f) == Some(i),
{
    lemma_first_where(s, f);
}

/// `s` without the first element that `f` holds of.
pub open spec fn without_first<T>(s: Seq<T>, f: spec_fn(T) -> bool) -> Seq<T> {
    match first_where(s, f) {
        Some(i) => s.remove(i),
        None => s,
    }
}

/// A table as plain values: each key's text with its value.
pub open spec fn keyed<V>(list: Seq<(String, V)>) -> Seq<(Seq<char>, V)> {
    Seq::new(list.len(), |i: int| (list[i].0@, list[i].1))
}

/// Whether an entry stands under `key`.
pub open spec fn under_key<V>(key: Seq<char>) -> spec_fn((Seq<char>, V)) -> bool {
    |e: (Seq<char>, V)| e.0 == key
}

/// The position of the first entry of `list` under `key`.
pub open spec fn key_index<V>(list: Seq<(Seq<char>, V)>, key: Seq<char>) -> Option<int> {
    first_where(list, under_key(key))
}

/// The first entry under a key is under that key, and no entry before it is.
pub proof fn lemma_key_index<V>(list: Seq<(Seq<char>, V)>, key: Seq<char>)
    ensures
        match key_index(list, key) {
            Some(i) => 0 <= i < list.len() && list[i].0 == key && forall|j: int|
                0 <= j < i ==> (#[trigger] list[j]).0 != key,
            None => forall|j: int| 0 <= j < list.len() ==> (#[trigger] list[j]).0 != key,
        },
{
    lemma_first_where(list, under_key::<V>(key));
    assert forall|j: int| 0 <= j < list.len() implies (under_key::<V>(key)(#[trigger] list[j])
        <==> list[j].0 == key) by {}
}

/// An entry under a key, with none under that key before it, is the first.
pub proof fn lemma_key_index_is<V>(list: Seq<(Seq<char>, V)>, key: Seq<char>, i: int)
    requires
        0 <= i < list.len(),
        list[i].0 == key,
        forall|j: int| 0 <= j < i ==> (#[trigger] list[j]).0 != key,
    ensures
        key_index(list, key) == Some(i),
{
    lemma_key_index(list, key);
}

/// The position of the first entry of `list` under `key`.
pub fn find_key<V>(list: &Vec<(String, V)>, key: &str) -> (r: Option<usize>)
    ensures
        match r {
            Some(i) => key_index(keyed(list@), key@) == Some(i as int) && i < list@.len(),
            None => key_index(keyed(list@), key@) is None,
        },
{
    proof {
        lemma_key_index(keyed(list@), key@);
    }
    let mut i: usize = 0;
    while i < list.len()
        invariant
            i <= list.len(),
            forall|j: int| 0 <= j < i ==> (#[trigger] keyed(list@)[j]).0 != key@,
        decreases list.len() - i,
    {
        if str_eq(list[i].0.as_str(), key) {
            proof {
                assert(keyed(list@)[i as int].0 == key@);
                lemma_key_index_is(keyed(list@), key@, i as int);
            }
            return Some(i);
        }
        proof {
            assert(keyed(list@)[i as int].0 != key@);
        }
        i += 1;
    }
    None
}

/// `a + b`, or the largest `u64` where the sum does not fit.
pub open spec fn capped_sum(a: u64, b: u64) -> u64 {
    if a + b <= u64::MAX {
        (a + b) as u64
    } else {
        u64::MAX
    }
}

/// The count under `key` raised by `by`, or `by` under a new key at the end.
/// A count stops at the largest `u64`.
pub open spec fn counted(list: Seq<(Seq<char>, u64)>, key: Seq<char>, by: u64) -> Seq<
    (Seq<char>, u64),
> {
    match key_index(list, key) {
        Some(i) => list.update(i, (key, capped_sum(list[i].1, by))),
        None => list.push((key, by)),
    }
}

/// Raises the count under `key` by `by`.
pub fn count_under(list: &mut Vec<(String, u64)>, key: &str, by: u64)
    ensures
        keyed(final(list)@) == counted(keyed(old(list)@), key@, by),
{
    match find_key(list, key) {
        Some(i) => {
            proof {
                lemma_key_index(keyed(list@), key@);
            }
            let sum: u64 = list[i].1.saturating_add(by);
            list[i].1 = sum;
            proof {
                assert(keyed(list@) =~= counted(keyed(old(list)@), key@, by));
            }
        },
        None => {
            list.push((String::from_str(key), by));
            proof {
                assert(keyed(list@) =~= counted(keyed(old(list)@), key@, by));
            }
        },
    }
}

} // verus!
