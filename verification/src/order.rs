//! The order of names and of rows in a report.
//!
//! Strings are ordered as the standard library orders them: character by
//! character, by code point, a prefix before what it is a prefix of.

use crate::text::{chars_of, strings_view};
use vstd::prelude::*;

verus! {

/// Whether `a` comes before `b` or is `b`, character by character.
pub open spec fn lex_le(a: Seq<char>, b: Seq<char>) -> bool
    decreases a.len(),
{
    if a.len() == 0 {
        true
    } else if b.len() == 0 {
        false
    } else if a[0] != b[0] {
        (a[0] as u32) < (b[0] as u32)
    } else {
        lex_le(a.drop_first(), b.drop_first())
    }
}

/// Every string is at most itself.
pub proof fn lemma_lex_reflexive(a: Seq<char>)
    ensures
        lex_le(a, a),
    decreases a.len(),
{
    if a.len() > 0 {
        lemma_lex_reflexive(a.drop_first());
    }
}

/// Of two strings one is at most the other.
pub proof fn lemma_lex_total(a: Seq<char>, b: Seq<char>)
    ensures
        lex_le(a, b) || lex_le(b, a),
    decreases a.len(),
{
    if a.len() > 0 && b.len() > 0 {
        if a[0] == b[0] {
            lemma_lex_total(a.drop_first(), b.drop_first());
        } else {
            vstd::utf8::char_u32_cast(a[0], a[0] as u32);
            vstd::utf8::char_u32_cast(b[0], b[0] as u32);
        }
    }
}

/// Two strings that are at most each other are the same.
pub proof fn lemma_lex_antisymmetric(a: Seq<char>, b: Seq<char>)
    requires
        lex_le(a, b),
        lex_le(b, a),
    ensures
        a == b,
    decreases a.len(),
{
    if a.len() > 0 && b.len() > 0 {
        lemma_lex_antisymmetric(a.drop_first(), b.drop_first());
        assert(a == seq![a[0]] + a.drop_first());
        assert(b == seq![b[0]] + b.drop_first());
    } else {
        assert(a == b);
    }
}

/// The order passes on.
pub proof fn lemma_lex_transitive(a: Seq<char>, b: Seq<char>, c: Seq<char>)
    requires
        lex_le(a, b),
        lex_le(b, c),
    ensures
        lex_le(a, c),
    decreases a.len(),
{
    if a.len() > 0 && b.len() > 0 && c.len() > 0 && a[0] == b[0] && b[0] == c[0] {
        lemma_lex_transitive(a.drop_first(), b.drop_first(), c.drop_first());
    }
}

/// Whether `a` comes before `b` or is `b`.
pub fn str_le(a: &str, b: &str) -> (r: bool)
    ensures
        r == lex_le(a@, b@),
{
    let x = chars_of(a);
    let y = chars_of(b);
    let mut i: usize = 0;
    assert(x@.skip(0) == x@);
    assert(y@.skip(0) == y@);
    while i < x.len() && i < y.len()
        invariant
            i <= x.len(),
            i <= y.len(),
            x@ == a@,
            y@ == b@,
            lex_le(a@, b@) == lex_le(x@.skip(i as int), y@.skip(i as int)),
        decreases x.len() - i,
    {
        proof {
            assert(x@.skip(i as int)[0] == x@[i as int]);
            assert(y@.skip(i as int)[0] == y@[i as int]);
            assert(x@.skip(i as int).drop_first() == x@.skip(i + 1));
            assert(y@.skip(i as int).drop_first() == y@.skip(i + 1));
        }
        if x[i] != y[i] {
            return (x[i] as u32) < (y[i] as u32);
        }
        i += 1;
    }
    i >= x.len()
}

/// The key of a row: the title of its project without regard to case, and
/// the name of its application.
pub type Key = (Seq<char>, Seq<char>);

/// Whether a key comes before another or is the other: by the first
/// component, and between equal first components by the second.
pub open spec fn key_le(a: Key, b: Key) -> bool {
    if a.0 == b.0 {
        lex_le(a.1, b.1)
    } else {
        lex_le(a.0, b.0)
    }
}

/// Of two keys one is at most the other.
pub proof fn lemma_key_total(a: Key, b: Key)
    ensures
        key_le(a, b) || key_le(b, a),
{
    lemma_lex_total(a.0, b.0);
    lemma_lex_total(a.1, b.1);
}

/// The order of keys passes on.
pub proof fn lemma_key_transitive(a: Key, b: Key, c: Key)
    requires
        key_le(a, b),
        key_le(b, c),
    ensures
        key_le(a, c),
{
    if a.0 == b.0 && b.0 == c.0 {
        lemma_lex_transitive(a.1, b.1, c.1);
    } else if a.0 != b.0 && b.0 != c.0 {
        lemma_lex_transitive(a.0, b.0, c.0);
        if a.0 == c.0 {
            lemma_lex_antisymmetric(a.0, b.0);
        }
    }
}

/// Whether keys stand in order.
pub open spec fn sorted(keys: Seq<Key>) -> bool {
    forall|i: int, j: int| 0 <= i <= j < keys.len() ==> key_le(#[trigger] keys[i], #[trigger] keys[j])
}

/// The keys of a list of pairs of strings.
pub open spec fn keys_view(keys: Seq<(String, String)>) -> Seq<Key> {
    keys.map_values(|k: (String, String)| (k.0@, k.1@))
}

/// Whether a key comes before another or is the other.
pub fn key_at_most(a: &(String, String), b: &(String, String)) -> (r: bool)
    ensures
        r == key_le((a.0@, a.1@), (b.0@, b.1@)),
{
    if a.0 == b.0 {
        str_le(a.1.as_str(), b.1.as_str())
    } else {
        str_le(a.0.as_str(), b.0.as_str())
    }
}

/// Where a key goes among keys that stand in order: behind every key that is
/// at most it, and so behind its equals.
pub(crate) fn insertion_point(keys: &Vec<(String, String)>, key: &(String, String)) -> (r: usize)
    requires
        sorted(keys_view(keys@)),
    ensures
        r <= keys@.len(),
        sorted(keys_view(keys@).insert(r as int, (key.0@, key.1@))),
{
    let ghost all = keys_view(keys@);
    let ghost new = (key.0@, key.1@);
    let mut j: usize = 0;
    while j < keys.len() && key_at_most(&keys[j], key)
        invariant
            j <= keys.len(),
            all == keys_view(keys@),
            new == (key.0@, key.1@),
            forall|i: int| 0 <= i < j ==> key_le(#[trigger] all[i], new),
        decreases keys.len() - j,
    {
        j += 1;
    }
    proof {
        let after = all.insert(j as int, new);
        assert forall|p: int, q: int| 0 <= p <= q < after.len() implies key_le(
            #[trigger] after[p],
            #[trigger] after[q],
        ) by {
            if p == q {
                lemma_key_total(after[p], after[p]);
            } else if q == j {
                assert(after[p] == all[p]);
            } else if p == j {
                assert(after[q] == all[q - 1]);
                assert(!key_le(all[j as int], new));
                lemma_key_total(all[j as int], new);
                assert(key_le(all[j as int], all[q - 1]));
                lemma_key_transitive(new, all[j as int], all[q - 1]);
            } else {
                let left = if p < j { p } else { p - 1 };
                let right = if q < j { q } else { q - 1 };
                assert(after[p] == all[left]);
                assert(after[q] == all[right]);
                assert(key_le(all[left], all[right]));
            }
        }
    }
    j
}

/// Whether names stand in order.
pub open spec fn names_sorted(names: Seq<Seq<char>>) -> bool {
    forall|i: int, j: int| 0 <= i <= j < names.len() ==> lex_le(#[trigger] names[i], #[trigger] names[j])
}

/// A name as a key.
pub open spec fn name_key(name: Seq<char>) -> Key {
    (name, Seq::empty())
}

/// The names in order: the same names, as often as before, each at most the
/// ones after it.
pub fn sort_names(names: &Vec<String>) -> (r: Vec<String>)
    ensures
        strings_view(r@).to_multiset() == strings_view(names@).to_multiset(),
        names_sorted(strings_view(r@)),
{
    let mut out: Vec<String> = Vec::new();
    let mut keys: Vec<(String, String)> = Vec::new();
    let ghost all = strings_view(names@);
    let mut i: usize = 0;
    assert(all.take(0) == Seq::<Seq<char>>::empty());
    assert(strings_view(out@) == Seq::<Seq<char>>::empty());
    assert(keys_view(keys@) == strings_view(out@).map_values(|n: Seq<char>| name_key(n)));
    while i < names.len()
        invariant
            i <= names.len(),
            all == strings_view(names@),
            keys_view(keys@) == strings_view(out@).map_values(|n: Seq<char>| name_key(n)),
            sorted(keys_view(keys@)),
            strings_view(out@).to_multiset() == all.take(i as int).to_multiset(),
        decreases names.len() - i,
    {
        let key = (names[i].clone(), String::new());
        let j = insertion_point(&keys, &key);
        let ghost before = strings_view(out@);
        let ghost keys_before = keys_view(keys@);
        proof {
            assert(keys_before.len() == before.len());
            vstd::seq_lib::to_multiset_insert(before, j as int, all[i as int]);
            vstd::seq_lib::to_multiset_build(all.take(i as int), all[i as int]);
            assert(all.take(i + 1) == all.take(i as int).push(all[i as int]));
        }
        keys.insert(j, key);
        out.insert(j, names[i].clone());
        proof {
            assert(strings_view(out@) == before.insert(j as int, all[i as int]));
            assert(keys_view(keys@) == keys_before.insert(j as int, name_key(all[i as int])));
            assert(keys_view(keys@) == strings_view(out@).map_values(|n: Seq<char>| name_key(n)));
        }
        i += 1;
    }
    proof {
        assert(all.take(names.len() as int) == all);
        let sorted_names = strings_view(out@);
        let sorted_keys = keys_view(keys@);
        assert forall|p: int, q: int| 0 <= p <= q < sorted_names.len() implies lex_le(
            #[trigger] sorted_names[p],
            #[trigger] sorted_names[q],
        ) by {
            assert(sorted_keys[p] == name_key(sorted_names[p]));
            assert(sorted_keys[q] == name_key(sorted_names[q]));
            assert(key_le(sorted_keys[p], sorted_keys[q]));
            lemma_lex_reflexive(sorted_names[p]);
        }
    }
    out
}

} // verus!
