//! Values by key.
use vstd::prelude::*;

use crate::text::same_text;

verus! {

/// The values that a list of entries holds, by key. Of several entries with one key the last one
/// counts, and their order does not matter otherwise.
pub open spec fn by_key<V: View>(entries: Seq<(String, V)>) -> Map<Seq<char>, V::V>
    decreases entries.len(),
{
    if entries.len() == 0 {
        Map::empty()
    } else {
        by_key(entries.drop_last()).insert(entries.last().0@, entries.last().1@)
    }
}

/// The value under `key`, where there is one.
pub open spec fn lookup<V>(values: Map<Seq<char>, V>, key: Seq<char>) -> Option<V> {
    if values.contains_key(key) {
        Some(values[key])
    } else {
        None
    }
}

proof fn lemma_by_key_take<V: View>(entries: Seq<(String, V)>, i: int)
    requires
        0 < i <= entries.len(),
    ensures
        by_key(entries.take(i)) == by_key(entries.take(i - 1)).insert(
            entries[i - 1].0@,
            entries[i - 1].1@,
        ),
{
    assert(entries.take(i).drop_last() =~= entries.take(i - 1));
}

/// Every key stands in an entry.
proof fn lemma_keys<V: View>(entries: Seq<(String, V)>, key: Seq<char>)
    ensures
        by_key(entries).contains_key(key) <==> exists|i: int|
            0 <= i < entries.len() && (#[trigger] entries[i]).0@ == key,
    decreases entries.len(),
{
    if entries.len() > 0 {
        let init = entries.drop_last();
        lemma_keys(init, key);
        if by_key(init).contains_key(key) {
            let i = choose|i: int| 0 <= i < init.len() && (#[trigger] init[i]).0@ == key;
            assert(entries[i].0@ == key);
        }
        if entries.last().0@ == key {
            assert(entries[entries.len() - 1].0@ == key);
        }
        if exists|i: int| 0 <= i < entries.len() && (#[trigger] entries[i]).0@ == key {
            let i = choose|i: int| 0 <= i < entries.len() && (#[trigger] entries[i]).0@ == key;
            if i < init.len() {
                assert(init[i].0@ == key);
            }
        }
    }
}

/// The value that entries hold under `key`.
pub fn find_entry<'a, V: View>(entries: &'a Vec<(String, V)>, key: &str) -> (r: Option<&'a V>)
    ensures
        match r {
            Some(value) => lookup(by_key(entries@), key@) == Some(value@),
            None => lookup(by_key(entries@), key@) is None,
        },
{
    let mut i: usize = entries.len();
    assert(entries@.take(i as int) =~= entries@);
    while i > 0
        invariant
            i <= entries.len(),
            lookup(by_key(entries@), key@) == lookup(by_key(entries@.take(i as int)), key@),
        decreases i,
    {
        proof {
            lemma_by_key_take(entries@, i as int);
        }
        if same_text(entries[i - 1].0.as_str(), key) {
            return Some(&entries[i - 1].1);
        }
        i = i - 1;
    }
    None
}

/// Whether values are compared by their content.
pub open spec fn compares_content<V: View + PartialEq>() -> bool {
    forall|a: &V, b: &V, r: bool| #[trigger] call_ensures(V::eq, (a, b), r) ==> r == (a@ == b@)
}

/// Whether `b` holds what `a` holds.
fn holds_all<V: View + PartialEq>(a: &Vec<(String, V)>, b: &Vec<(String, V)>) -> (r: bool)
    requires
        compares_content::<V>(),
    ensures
        r == (forall|key: Seq<char>| #[trigger]
            by_key(a@).contains_key(key) ==> lookup(by_key(b@), key) == Some(by_key(a@)[key])),
{
    let mut i: usize = 0;
    while i < a.len()
        invariant
            i <= a.len(),
            compares_content::<V>(),
            forall|j: int|
                0 <= j < i ==> lookup(by_key(b@), (#[trigger] a@[j]).0@) == lookup(
                    by_key(a@),
                    a@[j].0@,
                ),
        decreases a.len() - i,
    {
        let key = a[i].0.as_str();
        proof {
            lemma_keys(a@, key@);
        }
        let same: bool = match (find_entry(a, key), find_entry(b, key)) {
            (Some(x), Some(y)) => x.eq(y),
            _ => false,
        };
        if !same {
            return false;
        }
        i = i + 1;
    }
    assert forall|key: Seq<char>| #[trigger] by_key(a@).contains_key(key) implies lookup(
        by_key(b@),
        key,
    ) == Some(by_key(a@)[key]) by {
        lemma_keys(a@, key);
    }
    true
}

/// Whether two lists of entries hold the same values by key.
pub fn same_entries<V: View + PartialEq>(a: &Vec<(String, V)>, b: &Vec<(String, V)>) -> (r: bool)
    requires
        compares_content::<V>(),
    ensures
        r == (by_key(a@) == by_key(b@)),
{
    let r: bool = holds_all(a, b) && holds_all(b, a);
    proof {
        if r {
            assert(by_key(a@) =~= by_key(b@));
        }
    }
    r
}

/// A copy of entries.
pub fn clone_entries<V: View + Clone>(entries: &Vec<(String, V)>) -> (r: Vec<(String, V)>)
    requires
        forall|a: &V, b: V| #[trigger] call_ensures(V::clone, (a,), b) ==> b@ == a@,
    ensures
        by_key(r@) == by_key(entries@),
{
    let mut r: Vec<(String, V)> = Vec::new();
    let mut i: usize = 0;
    while i < entries.len()
        invariant
            i <= entries.len(),
            forall|a: &V, b: V| #[trigger] call_ensures(V::clone, (a,), b) ==> b@ == a@,
            by_key(r@) == by_key(entries@.take(i as int)),
        decreases entries.len() - i,
    {
        let ghost before = r@;
        r.push((entries[i].0.clone(), entries[i].1.clone()));
        i = i + 1;
        proof {
            lemma_by_key_take(entries@, i as int);
            assert(r@.drop_last() =~= before);
        }
    }
    assert(entries@.take(i as int) =~= entries@);
    r
}

/// Whether every key stands in one entry only.
pub open spec fn keys_occur_once<V>(entries: Seq<(String, V)>) -> bool {
    forall|i: int, j: int|
        0 <= i < j < entries.len() ==> (#[trigger] entries[i]).0@ != (#[trigger] entries[j]).0@
}

/// Whether every entry of `a` stands in `b`, at whatever position.
pub open spec fn stands_in<V: View>(a: Seq<(String, V)>, b: Seq<(String, V)>) -> bool {
    forall|i: int|
        0 <= i < a.len() ==> exists|j: int|
            0 <= j < b.len() && (#[trigger] b[j]).0@ == (#[trigger] a[i]).0@ && b[j].1@ == a[i].1@
}

proof fn lemma_only_entry_counts<V: View>(entries: Seq<(String, V)>, i: int)
    requires
        keys_occur_once(entries),
        0 <= i < entries.len(),
    ensures
        lookup(by_key(entries), entries[i].0@) == Some(entries[i].1@),
    decreases entries.len(),
{
    let init = entries.drop_last();
    if i < init.len() {
        assert forall|j: int, k: int| 0 <= j < k < init.len() implies (#[trigger] init[j]).0@ != (
        #[trigger] init[k]).0@ by {
            assert(entries[j].0@ != entries[k].0@);
        }
        lemma_only_entry_counts(init, i);
        assert(entries[i].0@ != entries[entries.len() - 1].0@);
    }
}

/// The order of entries does not matter: two lists with the same entries, in which every key occurs
/// once, hold the same values by key.
pub proof fn law_entry_order_does_not_matter<V: View>(a: Seq<(String, V)>, b: Seq<(String, V)>)
    requires
        keys_occur_once(a),
        keys_occur_once(b),
        stands_in(a, b),
        stands_in(b, a),
    ensures
        by_key(a) == by_key(b),
{
    assert forall|key: Seq<char>| lookup(by_key(a), key) == #[trigger] lookup(by_key(b), key) by {
        lemma_keys(a, key);
        lemma_keys(b, key);
        if by_key(a).contains_key(key) {
            let i = choose|i: int| 0 <= i < a.len() && (#[trigger] a[i]).0@ == key;
            let j = choose|j: int|
                0 <= j < b.len() && (#[trigger] b[j]).0@ == a[i].0@ && b[j].1@ == a[i].1@;
            lemma_only_entry_counts(a, i);
            lemma_only_entry_counts(b, j);
        } else if by_key(b).contains_key(key) {
            let i = choose|i: int| 0 <= i < b.len() && (#[trigger] b[i]).0@ == key;
            let j = choose|j: int|
                0 <= j < a.len() && (#[trigger] a[j]).0@ == b[i].0@ && a[j].1@ == b[i].1@;
            assert(a[j].0@ == key);
        }
    }
    assert forall|key: Seq<char>| by_key(a).contains_key(key) <==> by_key(b).contains_key(key) by {
        assert(lookup(by_key(a), key) == lookup(by_key(b), key));
    }
    assert forall|key: Seq<char>| by_key(a).contains_key(key) implies by_key(a)[key] == by_key(
        b,
    )[key] by {
        assert(lookup(by_key(a), key) == lookup(by_key(b), key));
    }
    assert(by_key(a) =~= by_key(b));
}

/// Of several entries with one key the last one counts, and an entry changes nothing about other keys.
pub proof fn law_last_entry_counts<V: View>(
    entries: Seq<(String, V)>,
    entry: (String, V),
    key: Seq<char>,
)
    ensures
        lookup(by_key(entries.push(entry)), entry.0@) == Some(entry.1@),
        key != entry.0@ ==> lookup(by_key(entries.push(entry)), key) == lookup(by_key(entries), key),
        lookup(by_key(Seq::<(String, V)>::empty()), key) is None,
{
    assert(entries.push(entry).drop_last() =~= entries);
}

} // verus!
