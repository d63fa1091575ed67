//! Small maps from names to values, kept as vectors of pairs: a lookup
//! finds the first entry with the name, a write replaces that entry or
//! appends one, and a removal drops every entry with the name.

use vstd::prelude::*;
use crate::text::str_eq;

verus! {

/// Whether entry `i` is the first one named `k`.
pub open spec fn is_first_key<T>(s: Seq<(String, T)>, k: Seq<char>, i: int) -> bool {
    &&& 0 <= i < s.len()
    &&& s[i].0@ == k
    &&& forall|j: int| 0 <= j < i ==> s[j].0@ != k
}

/// Whether some entry is named `k`.
pub open spec fn has_key<T>(s: Seq<(String, T)>, k: Seq<char>) -> bool {
    exists|i: int| 0 <= i < s.len() && s[i].0@ == k
}

/// The position of the first entry named `k`, if any.
pub open spec fn key_pos<T>(s: Seq<(String, T)>, k: Seq<char>) -> Option<int> {
    if exists|i: int| is_first_key(s, k, i) {
        Some(choose|i: int| is_first_key(s, k, i))
    } else {
        None
    }
}

/// The value stored under `k`, if any.
pub open spec fn key_value<T>(s: Seq<(String, T)>, k: Seq<char>) -> Option<T> {
    match key_pos(s, k) {
        Some(i) => Some(s[i].1),
        None => None,
    }
}

/// The test that an entry is not named `k`.
pub open spec fn named_other_than<T>(k: Seq<char>) -> spec_fn((String, T)) -> bool {
    |e: (String, T)| e.0@ != k
}

/// The entries whose name is not `k`, in order.
pub open spec fn without_key<T>(s: Seq<(String, T)>, k: Seq<char>) -> Seq<(String, T)> {
    s.filter(named_other_than(k))
}

/// A name is found exactly when some entry carries it, and then at its
/// first occurrence.
pub proof fn lemma_key_pos<T>(s: Seq<(String, T)>, k: Seq<char>)
    ensures
        key_pos(s, k) is Some <==> has_key(s, k),
        key_pos(s, k) matches Some(i) ==> is_first_key(s, k, i),
{
    if has_key(s, k) {
        let w = choose|i: int| 0 <= i < s.len() && s[i].0@ == k;
        lemma_first_exists(s, k, w);
    }
}

proof fn lemma_first_exists<T>(s: Seq<(String, T)>, k: Seq<char>, w: int)
    requires
        0 <= w < s.len(),
        s[w].0@ == k,
    ensures
        exists|i: int| is_first_key(s, k, i),
    decreases w,
{
    if exists|j: int| 0 <= j < w && s[j].0@ == k {
        let j = choose|j: int| 0 <= j < w && s[j].0@ == k;
        lemma_first_exists(s, k, j);
    } else {
        assert(is_first_key(s, k, w));
    }
}

pub proof fn lemma_first_unique<T>(s: Seq<(String, T)>, k: Seq<char>, i: int)
    requires
        is_first_key(s, k, i),
    ensures
        key_pos(s, k) == Some(i),
{
    let c = choose|j: int| is_first_key(s, k, j);
    assert(is_first_key(s, k, c));
    if c < i {
        assert(s[c].0@ != k);
    } else if c > i {
        assert(s[i].0@ != k);
    }
}

/// The position of the first entry named `k`.
pub fn find_key<T>(v: &Vec<(String, T)>, k: &str) -> (r: Option<usize>)
    ensures
        match r {
            Some(i) => key_pos(v@, k@) == Some(i as int),
            None => key_pos(v@, k@) is None,
        },
{
    let mut i: usize = 0;
    while i < v.len()
        invariant
            i <= v@.len(),
            forall|j: int| 0 <= j < i ==> v@[j].0@ != k@,
        decreases v.len() - i,
    {
        if str_eq(v[i].0.as_str(), k) {
            proof {
                lemma_first_unique(v@, k@, i as int);
            }
            return Some(i);
        }
        i = i + 1;
    }
    proof {
        lemma_key_pos(v@, k@);
    }
    None
}

/// Stores `val` under `k`: the first entry named `k` gets the value, or a
/// new entry is appended when there is none.
pub fn set_key<T>(v: &mut Vec<(String, T)>, k: &str, val: T)
    ensures
        match key_pos(old(v)@, k@) {
            Some(i) => final(v)@ == old(v)@.update(i, (old(v)@[i].0, val)),
            None => {
                &&& final(v)@.len() == old(v)@.len() + 1
                &&& final(v)@.drop_last() == old(v)@
                &&& final(v)@.last().0@ == k@
                &&& final(v)@.last().1 == val
            },
        },
        key_value(final(v)@, k@) == Some(val),
        forall|m: Seq<char>| m != k@ ==> #[trigger] key_value(final(v)@, m) == key_value(old(v)@, m),
{
    match find_key(v, k) {
        Some(i) => {
            let ghost old_v = v@;
            let name = v[i].0.clone();
            proof {
                lemma_key_pos(old_v, k@);
            }
            v.set(i, (name, val));
            proof {
                assert(v@[i as int].0@ == k@);
                lemma_first_unique(v@, k@, i as int);
                lemma_other_keys_kept(old_v, v@, k@);
            }
        },
        None => {
            let ghost old_v = v@;
            v.push((k.to_string(), val));
            proof {
                lemma_key_pos(old_v, k@);
                assert forall|j: int| 0 <= j < old_v.len() implies v@[j].0@ != k@ by {
                    assert(v@[j] == old_v[j]);
                    if old_v[j].0@ == k@ {
                        assert(has_key(old_v, k@));
                    }
                }
                lemma_first_unique(v@, k@, old_v.len() as int);
                lemma_other_keys_kept(old_v, v@, k@);
            }
        },
    }
}

/// Drops every entry named `k`, keeping the others in order.
pub fn remove_key<T>(v: &mut Vec<(String, T)>, k: &str)
    ensures
        final(v)@ == without_key(old(v)@, k@),
        key_value(final(v)@, k@) is None,
{
    let ghost s = v@;
    let ghost p = named_other_than::<T>(k@);
    let mut i: usize = v.len();
    assert(s.skip(s.len() as int) =~= Seq::<(String, T)>::empty());
    assert(s.take(s.len() as int) =~= s);
    assert(Seq::<(String, T)>::empty().filter(p) =~= Seq::<(String, T)>::empty()) by {
        reveal(Seq::filter);
    }
    while i > 0
        invariant
            i <= s.len(),
            p == named_other_than::<T>(k@),
            v@ == s.take(i as int) + s.skip(i as int).filter(p),
        decreases i,
    {
        i = i - 1;
        proof {
            assert(s.skip(i as int) =~= seq![s[i as int]] + s.skip(i + 1));
            s.skip(i + 1).lemma_filter_prepend(s[i as int], p);
            assert(s.take(i + 1) =~= s.take(i as int).push(s[i as int]));
            assert(v@[i as int] == s[i as int]);
        }
        if str_eq(v[i].0.as_str(), k) {
            v.remove(i);
            assert(v@ =~= s.take(i as int) + s.skip(i as int).filter(p));
        } else {
            assert(v@ =~= s.take(i as int) + s.skip(i as int).filter(p));
        }
    }
    proof {
        assert(s.take(0) =~= Seq::<(String, T)>::empty());
        assert(s.skip(0) =~= s);
        assert(v@ =~= without_key(s, k@));
        lemma_without_key_absent(s, k@);
    }
}

/// Changing entries named `k` only (in place or by appending one) leaves
/// the value of every other name as it was.
pub proof fn lemma_other_keys_kept<T>(s: Seq<(String, T)>, t: Seq<(String, T)>, k: Seq<char>)
    requires
        s.len() <= t.len(),
        forall|j: int| 0 <= j < s.len() && s[j].0@ != k ==> #[trigger] t[j] == s[j],
        forall|j: int| 0 <= j < s.len() && s[j].0@ == k ==> #[trigger] t[j].0@ == k,
        forall|j: int| s.len() <= j < t.len() ==> #[trigger] t[j].0@ == k,
    ensures
        forall|m: Seq<char>| m != k ==> #[trigger] key_value(t, m) == key_value(s, m),
{
    assert forall|m: Seq<char>| m != k implies #[trigger] key_value(t, m) == key_value(s, m) by {
        lemma_key_pos(s, m);
        lemma_key_pos(t, m);
        match key_pos(s, m) {
            Some(i) => {
                assert forall|j: int| 0 <= j < i implies t[j].0@ != m by {
                    if s[j].0@ == k {
                    } else {
                        assert(t[j] == s[j]);
                    }
                }
                assert(t[i] == s[i]);
                lemma_first_unique(t, m, i);
            },
            None => {
                if has_key(t, m) {
                    let w = choose|j: int| 0 <= j < t.len() && t[j].0@ == m;
                    if w < s.len() && s[w].0@ != k {
                        assert(t[w] == s[w]);
                        assert(has_key(s, m));
                    }
                }
            },
        }
    }
}

proof fn lemma_without_key_absent<T>(s: Seq<(String, T)>, k: Seq<char>)
    ensures
        key_value(without_key(s, k), k) is None,
{
    let w = without_key(s, k);
    assert forall|i: int| 0 <= i < w.len() implies w[i].0@ != k by {
        s.lemma_filter_pred(named_other_than(k), i);
    }
    lemma_key_pos(w, k);
}

} // verus!
