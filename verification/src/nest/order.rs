//! Stable sorting by integer keys.
use vstd::prelude::*;
use vstd::relations::{sorted_by, total_ordering};
use vstd::seq_lib::lemma_sorted_unique;

verus! {

/// What an item is sorted by. The position of the item among the items
/// breaks the last ties, which makes the sort stable.
#[derive(Debug, Clone, Copy, PartialEq, Eq, Structural)]
pub struct SortKey {
    /// Decides first; the smaller comes first.
    pub major: i128,
    /// Decides among equal `major`; the smaller comes first.
    pub minor: u64,
    /// The position of the item among the unsorted items.
    pub index: usize,
}

/// Whether `a` comes before `b` or is `b`.
pub open spec fn key_leq(a: SortKey, b: SortKey) -> bool {
    a.major < b.major || (a.major == b.major && (a.minor < b.minor || (a.minor == b.minor
        && a.index <= b.index)))
}

/// The order of keys as a relation.
pub open spec fn key_order() -> spec_fn(SortKey, SortKey) -> bool {
    |a: SortKey, b: SortKey| key_leq(a, b)
}

/// The order of keys is total.
pub proof fn lemma_key_order_total()
    ensures
        total_ordering(key_order()),
{
    let r = key_order();
    assert(vstd::relations::reflexive(r));
    assert(vstd::relations::antisymmetric(r)) by {
        assert forall|a: SortKey, b: SortKey| #[trigger] r(a, b) && #[trigger] r(b, a) implies a
            == b by {}
    }
    assert(vstd::relations::transitive(r));
    assert(vstd::relations::strongly_connected(r));
}

/// The keys in their order.
pub open spec fn sorted_keys(keys: Seq<SortKey>) -> Seq<SortKey> {
    keys.sort_by(key_order())
}

/// Sorted keys are the given keys in another arrangement.
pub proof fn lemma_sorted_keys(keys: Seq<SortKey>)
    ensures
        sorted_keys(keys).len() == keys.len(),
        sorted_keys(keys).to_multiset() == keys.to_multiset(),
        sorted_by(sorted_keys(keys), key_order()),
        forall|i: int|
            0 <= i < keys.len() ==> keys.contains(#[trigger] sorted_keys(keys)[i]),
{
    lemma_key_order_total();
    keys.lemma_sort_by_ensures(key_order());
    broadcast use vstd::seq_lib::group_to_multiset_ensures;

    let s = sorted_keys(keys);
    vstd::seq_lib::to_multiset_len(s);
    vstd::seq_lib::to_multiset_len(keys);
    assert(s.len() == keys.len());
    assert forall|i: int| 0 <= i < keys.len() implies keys.contains(#[trigger] s[i]) by {
        assert(s.contains(s[i]));
    }
}

fn comes_before(a: &SortKey, b: &SortKey) -> (r: bool)
    ensures
        r == key_leq(*a, *b),
{
    a.major < b.major || (a.major == b.major && (a.minor < b.minor || (a.minor == b.minor
        && a.index <= b.index)))
}

/// Sorts the keys by insertion.
pub fn sort_keys(keys: &Vec<SortKey>) -> (r: Vec<SortKey>)
    ensures
        r@ == sorted_keys(keys@),
        r.len() == keys.len(),
        forall|i: int| 0 <= i < r.len() ==> keys@.contains(#[trigger] r@[i]),
{
    let mut out: Vec<SortKey> = Vec::new();
    let mut i: usize = 0;
    broadcast use vstd::seq_lib::group_to_multiset_ensures;

    assert(keys@.subrange(0, 0) =~= Seq::<SortKey>::empty());
    while i < keys.len()
        invariant
            i <= keys.len(),
            out.len() == i,
            sorted_by(out@, key_order()),
            out@.to_multiset() == keys@.subrange(0, i as int).to_multiset(),
        decreases keys.len() - i,
    {
        let key = keys[i];
        let mut pos: usize = 0;
        while pos < out.len() && comes_before(&out[pos], &key)
            invariant
                pos <= out.len(),
                forall|k: int| 0 <= k < pos ==> key_leq(#[trigger] out@[k], key),
            decreases out.len() - pos,
        {
            pos = pos + 1;
        }
        let ghost before = out@;
        out.insert(pos, key);
        proof {
            let after = out@;
            assert(after == before.insert(pos as int, key));
            assert forall|a: int, b: int| 0 <= a < b < after.len() implies #[trigger] key_order()(
                after[a],
                after[b],
            ) by {
                if b < pos {
                    assert(after[a] == before[a] && after[b] == before[b]);
                    assert(key_order()(before[a], before[b]));
                } else if b == pos {
                    assert(after[a] == before[a]);
                    assert(key_leq(before[a], key));
                } else if a < pos {
                    assert(after[a] == before[a] && after[b] == before[b - 1]);
                    if a < b - 1 {
                        assert(key_order()(before[a], before[b - 1]));
                    }
                } else if a == pos {
                    assert(after[b] == before[b - 1]);
                    assert(!key_leq(before[pos as int], key));
                    if pos < b - 1 {
                        assert(key_order()(before[pos as int], before[b - 1]));
                    }
                } else {
                    assert(after[a] == before[a - 1] && after[b] == before[b - 1]);
                    assert(key_order()(before[a - 1], before[b - 1]));
                }
            }
            assert(keys@.subrange(0, i + 1) =~= keys@.subrange(0, i as int).push(key));
            vstd::seq_lib::to_multiset_insert(before, pos as int, key);
            vstd::seq_lib::to_multiset_build(keys@.subrange(0, i as int), key);
            assert(after.to_multiset() =~= keys@.subrange(0, i + 1).to_multiset());
        }
        i = i + 1;
    }
    proof {
        assert(keys@.subrange(0, keys.len() as int) =~= keys@);
        lemma_key_order_total();
        lemma_sorted_keys(keys@);
        lemma_sorted_unique(out@, sorted_keys(keys@), key_order());
    }
    out
}

/// Two arrangements of the same items are arrangements of the same values
/// under any function.
pub proof fn lemma_map_keeps_multiset<A, B>(s: Seq<A>, t: Seq<A>, f: spec_fn(A) -> B)
    requires
        s.to_multiset() == t.to_multiset(),
    ensures
        s.map_values(f).to_multiset() == t.map_values(f).to_multiset(),
    decreases s.len(),
{
    broadcast use vstd::seq_lib::group_to_multiset_ensures;

    vstd::seq_lib::to_multiset_len(s);
    vstd::seq_lib::to_multiset_len(t);
    if s.len() == 0 {
        assert(s.map_values(f) =~= t.map_values(f));
    } else {
        let x = s.last();
        let s0 = s.drop_last();
        assert(s =~= s0.push(x));
        vstd::seq_lib::to_multiset_build(s0, x);
        assert(s.to_multiset().count(x) > 0);
        vstd::seq_lib::to_multiset_contains(t, x);
        let j = choose|j: int| 0 <= j < t.len() && t[j] == x;
        let t0 = t.remove(j);
        vstd::seq_lib::to_multiset_remove(t, j);
        assert(s0.to_multiset() =~= s.to_multiset().remove(x));
        assert(s0.to_multiset() == t0.to_multiset());
        lemma_map_keeps_multiset(s0, t0, f);
        assert(s.map_values(f) =~= s0.map_values(f).push(f(x)));
        assert(t.map_values(f) =~= t0.map_values(f).insert(j, f(x)));
        vstd::seq_lib::to_multiset_build(s0.map_values(f), f(x));
        vstd::seq_lib::to_multiset_insert(t0.map_values(f), j, f(x));
    }
}

/// What decides first.
pub open spec fn major_of() -> spec_fn(SortKey) -> i128 {
    |k: SortKey| k.major
}

/// The order of the values that decide first.
pub open spec fn major_order() -> spec_fn(i128, i128) -> bool {
    |a: i128, b: i128| a <= b
}

/// What decides last never changes what comes of what decides first: keys
/// that agree, position by position, in what decides first do so after
/// sorting too.
pub proof fn lemma_majors_fixed(x: Seq<SortKey>, y: Seq<SortKey>)
    requires
        x.len() == y.len(),
        forall|i: int| 0 <= i < x.len() ==> (#[trigger] x[i]).major == y[i].major,
    ensures
        sorted_keys(x).len() == sorted_keys(y).len(),
        forall|i: int|
            0 <= i < x.len() ==> (#[trigger] sorted_keys(x)[i]).major == sorted_keys(y)[i].major,
{
    lemma_sorted_keys(x);
    lemma_sorted_keys(y);
    let sx = sorted_keys(x);
    let sy = sorted_keys(y);
    let mx = sx.map_values(major_of());
    let my = sy.map_values(major_of());
    lemma_map_keeps_multiset(sx, x, major_of());
    lemma_map_keeps_multiset(sy, y, major_of());
    assert(x.map_values(major_of()) =~= y.map_values(major_of()));
    let leq = major_order();
    assert(total_ordering(leq)) by {
        assert(vstd::relations::reflexive(leq));
        assert(vstd::relations::antisymmetric(leq));
        assert(vstd::relations::transitive(leq));
        assert(vstd::relations::strongly_connected(leq));
    }
    assert(sorted_by(mx, leq)) by {
        assert forall|i: int, j: int| 0 <= i < j < mx.len() implies #[trigger] leq(mx[i], mx[j]) by {
            assert(key_order()(sx[i], sx[j]));
        }
    }
    assert(sorted_by(my, leq)) by {
        assert forall|i: int, j: int| 0 <= i < j < my.len() implies #[trigger] leq(my[i], my[j]) by {
            assert(key_order()(sy[i], sy[j]));
        }
    }
    lemma_sorted_unique(mx, my, leq);
    assert forall|i: int| 0 <= i < x.len() implies (#[trigger] sx[i]).major == sy[i].major by {
        assert(mx[i] == sx[i].major);
        assert(my[i] == sy[i].major);
    }
}

/// Whether the text `a` comes before the text `b` from index `i` on, given
/// that they agree before `i`: at the first index where they differ `a` has
/// the earlier character, or `a` ends first.
pub open spec fn text_before_from(a: Seq<char>, b: Seq<char>, i: int) -> bool
    decreases a.len() - i,
{
    if i < 0 || i >= b.len() {
        false
    } else if i >= a.len() {
        true
    } else if a[i] != b[i] {
        (a[i] as u32) < (b[i] as u32)
    } else {
        text_before_from(a, b, i + 1)
    }
}

/// Whether the text `a` comes before the text `b` in the order of
/// dictionaries, character by character.
pub open spec fn text_before(a: Seq<char>, b: Seq<char>) -> bool {
    text_before_from(a, b, 0)
}

/// How many of the first `n` names come before `name`.
pub open spec fn rank_among(names: Seq<Seq<char>>, name: Seq<char>, n: int) -> int
    decreases n,
{
    if n <= 0 {
        0
    } else {
        rank_among(names, name, n - 1) + if text_before(names[n - 1], name) {
            1int
        } else {
            0int
        }
    }
}

/// Whether the text `a` comes before the text `b`.
fn comes_first(a: &Vec<char>, b: &Vec<char>) -> (r: bool)
    ensures
        r == text_before(a@, b@),
{
    let mut i: usize = 0;
    while i < a.len() && i < b.len()
        invariant
            i <= a.len(),
            i <= b.len(),
            text_before(a@, b@) == text_before_from(a@, b@, i as int),
        decreases a.len() - i,
    {
        if a[i] != b[i] {
            return (a[i] as u32) < (b[i] as u32);
        }
        i = i + 1;
    }
    i < b.len()
}

/// The names as sequences of characters.
pub open spec fn names_view(names: Seq<Vec<char>>) -> Seq<Seq<char>> {
    names.map_values(|n: Vec<char>| n@)
}

/// The rank of each name: how many of the names come before it.
pub fn name_ranks(names: &Vec<Vec<char>>) -> (ranks: Vec<i128>)
    ensures
        ranks.len() == names.len(),
        forall|s: int|
            0 <= s < names.len() ==> #[trigger] ranks@[s] == rank_among(
                names_view(names@),
                names@[s]@,
                names.len() as int,
            ),
        forall|s: int| 0 <= s < names.len() ==> 0 <= #[trigger] ranks@[s] <= names.len(),
{
    let ghost all = names_view(names@);
    let mut ranks: Vec<i128> = Vec::new();
    let mut s: usize = 0;
    while s < names.len()
        invariant
            s <= names.len(),
            ranks.len() == s,
            all == names_view(names@),
            forall|k: int|
                0 <= k < s ==> #[trigger] ranks@[k] == rank_among(
                    all,
                    names@[k]@,
                    names.len() as int,
                ),
            forall|k: int| 0 <= k < s ==> 0 <= #[trigger] ranks@[k] <= names.len(),
        decreases names.len() - s,
    {
        let mut count: i128 = 0;
        let mut t: usize = 0;
        while t < names.len()
            invariant
                t <= names.len(),
                s < names.len(),
                all == names_view(names@),
                count == rank_among(all, names@[s as int]@, t as int),
                0 <= count <= t,
            decreases names.len() - t,
        {
            assert(all[t as int] == names@[t as int]@);
            if comes_first(&names[t], &names[s]) {
                count = count + 1;
            }
            t = t + 1;
        }
        ranks.push(count);
        s = s + 1;
    }
    ranks
}

} // verus!
