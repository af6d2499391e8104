//! The order of `str` (lexicographic by character, which is the byte order of UTF-8) and
//! lists of strings kept sorted with each string once.
use vstd::prelude::*;

use crate::text::chars_of;

verus! {

/// `a` sorts strictly before `b`: at the first difference its character is smaller, or it is a
/// proper prefix of `b`.
pub open spec fn chars_lt(a: Seq<char>, b: Seq<char>) -> bool
    decreases a.len(),
{
    if a.len() == 0 {
        b.len() > 0
    } else if b.len() == 0 {
        false
    } else if a[0] != b[0] {
        a[0] < b[0]
    } else {
        chars_lt(a.drop_first(), b.drop_first())
    }
}

/// Strictly increasing, so that no string occurs twice.
pub open spec fn sorted_strict(s: Seq<Seq<char>>) -> bool {
    forall|i: int, j: int| 0 <= i < j < s.len() ==> chars_lt(#[trigger] s[i], #[trigger] s[j])
}

pub open spec fn strs(v: Seq<String>) -> Seq<Seq<char>> {
    v.map_values(|s: String| s@)
}

pub proof fn lemma_lt_irreflexive(a: Seq<char>)
    ensures
        !chars_lt(a, a),
    decreases a.len(),
{
    if a.len() > 0 {
        lemma_lt_irreflexive(a.drop_first());
    }
}

pub proof fn lemma_lt_transitive(a: Seq<char>, b: Seq<char>, c: Seq<char>)
    requires
        chars_lt(a, b),
        chars_lt(b, c),
    ensures
        chars_lt(a, c),
    decreases a.len(),
{
    if a.len() > 0 && b.len() > 0 && c.len() > 0 && a[0] == b[0] && b[0] == c[0] {
        lemma_lt_transitive(a.drop_first(), b.drop_first(), c.drop_first());
    }
}

/// Two different strings are ordered one way or the other.
pub proof fn lemma_lt_total(a: Seq<char>, b: Seq<char>)
    requires
        a != b,
    ensures
        chars_lt(a, b) || chars_lt(b, a),
    decreases a.len(),
{
    if a.len() == 0 && b.len() == 0 {
        assert(a =~= b);
    } else if a.len() > 0 && b.len() > 0 && a[0] == b[0] {
        if a.drop_first() == b.drop_first() {
            assert(a =~= b) by {
                assert(a.drop_first().len() == b.drop_first().len());
                assert(a.len() == b.len());
                assert forall|k: int| 0 <= k < a.len() implies a[k] == b[k] by {
                    if k > 0 {
                        assert(a[k] == a.drop_first()[k - 1]);
                        assert(b[k] == b.drop_first()[k - 1]);
                    }
                }
            }
        } else {
            lemma_lt_total(a.drop_first(), b.drop_first());
        }
    }
}

pub proof fn lemma_lt_asymmetric(a: Seq<char>, b: Seq<char>)
    requires
        chars_lt(a, b),
    ensures
        !chars_lt(b, a),
{
    if chars_lt(b, a) {
        lemma_lt_transitive(a, b, a);
        lemma_lt_irreflexive(a);
    }
}

/// Whether `a` sorts strictly before `b`.
pub fn str_lt(a: &str, b: &str) -> (r: bool)
    ensures
        r == chars_lt(a@, b@),
{
    let x = chars_of(a);
    let y = chars_of(b);
    let mut i: usize = 0;
    assert(x@.subrange(0, x@.len() as int) =~= x@);
    assert(y@.subrange(0, y@.len() as int) =~= y@);
    while i < x.len() && i < y.len() && x[i] == y[i]
        invariant
            i <= x@.len(),
            i <= y@.len(),
            x@.subrange(0, i as int) == y@.subrange(0, i as int),
            chars_lt(x@, y@) == chars_lt(
                x@.subrange(i as int, x@.len() as int),
                y@.subrange(i as int, y@.len() as int),
            ),
        decreases x.len() - i,
    {
        let ghost xs = x@.subrange(i as int, x@.len() as int);
        let ghost ys = y@.subrange(i as int, y@.len() as int);
        assert(xs.drop_first() =~= x@.subrange(i + 1, x@.len() as int));
        assert(ys.drop_first() =~= y@.subrange(i + 1, y@.len() as int));
        assert(x@.subrange(0, i + 1) =~= x@.subrange(0, i as int).push(x@[i as int]));
        assert(y@.subrange(0, i + 1) =~= y@.subrange(0, i as int).push(y@[i as int]));
        i = i + 1;
    }
    if i == x.len() {
        i < y.len()
    } else if i == y.len() {
        false
    } else {
        x[i] < y[i]
    }
}

/// Puts `s` into a strictly sorted list unless it is already there.
pub fn insert_sorted(list: &mut Vec<String>, s: String)
    requires
        sorted_strict(strs(old(list)@)),
    ensures
        sorted_strict(strs(final(list)@)),
        strs(final(list)@).to_set() == strs(old(list)@).to_set().insert(s@),
{
    let ghost before = strs(list@);
    let mut p: usize = 0;
    while p < list.len() && str_lt(list[p].as_str(), s.as_str())
        invariant
            p <= list@.len(),
            before == strs(list@),
            forall|k: int| 0 <= k < p ==> chars_lt(#[trigger] before[k], s@),
        decreases list.len() - p,
    {
        p = p + 1;
    }
    if p < list.len() && list[p] == s {
        assert(before.to_set() =~= before.to_set().insert(s@)) by {
            assert(before[p as int] == s@);
        }
        return;
    }
    if p < list.len() {
        proof {
            lemma_lt_total(s@, before[p as int]);
        }
    }
    list.insert(p, s);
    let ghost after = strs(list@);
    assert(after =~= before.insert(p as int, s@));
    assert forall|i: int, j: int| 0 <= i < j < after.len() implies chars_lt(
        #[trigger] after[i],
        #[trigger] after[j],
    ) by {
        if j < p {
        } else if j == p {
        } else if i < p {
            lemma_lt_transitive(after[i], s@, after[p + 1]);
            if j > p + 1 {
                lemma_lt_transitive(after[i], after[p + 1], after[j]);
            }
        } else if i == p {
            if j > p + 1 {
                lemma_lt_transitive(s@, after[p + 1], after[j]);
            }
        } else {
        }
    }
    assert(after.to_set() =~= before.to_set().insert(s@)) by {
        assert forall|x: Seq<char>| after.to_set().contains(x) implies before.to_set().insert(
            s@,
        ).contains(x) by {
            let k = choose|k: int| 0 <= k < after.len() && after[k] == x;
            if k < p {
                assert(before[k] == x);
            } else if k > p {
                assert(before[k - 1] == x);
            }
        }
        assert forall|x: Seq<char>| before.to_set().insert(s@).contains(x) implies after.to_set().contains(
            x,
        ) by {
            if x == s@ {
                assert(after[p as int] == x);
            } else {
                let k = choose|k: int| 0 <= k < before.len() && before[k] == x;
                if k < p {
                    assert(after[k] == x);
                } else {
                    assert(after[k + 1] == x);
                }
            }
        }
    }
}

/// The distinct strings of `items` in increasing order: `sort` followed by `dedup`.
pub fn sorted_unique(items: &[String]) -> (out: Vec<String>)
    ensures
        sorted_strict(strs(out@)),
        strs(out@).to_set() == strs(items@).to_set(),
{
    let mut out: Vec<String> = Vec::new();
    let mut i: usize = 0;
    assert(strs(out@).to_set() =~= strs(items@).subrange(0, 0).to_set());
    while i < items.len()
        invariant
            i <= items@.len(),
            sorted_strict(strs(out@)),
            strs(out@).to_set() == strs(items@).subrange(0, i as int).to_set(),
        decreases items.len() - i,
    {
        insert_sorted(&mut out, items[i].clone());
        assert(strs(items@).subrange(0, i + 1) =~= strs(items@).subrange(0, i as int).push(
            items@[i as int]@,
        ));
        proof {
            strs(items@).subrange(0, i as int).lemma_push_to_set_commute(items@[i as int]@);
        }
        i = i + 1;
    }
    assert(strs(items@).subrange(0, items@.len() as int) =~= strs(items@));
    out
}

/// Two strictly sorted lists with the same strings are the same list.
pub proof fn lemma_sorted_strict_unique(a: Seq<Seq<char>>, b: Seq<Seq<char>>)
    requires
        sorted_strict(a),
        sorted_strict(b),
        a.to_set() == b.to_set(),
    ensures
        a == b,
    decreases a.len(),
{
    if a.len() == 0 {
        if b.len() > 0 {
            assert(b.to_set().contains(b[0]));
        }
    } else if b.len() == 0 {
        assert(a.to_set().contains(a[0]));
    } else {
        assert(b.to_set().contains(a[0]));
        assert(a.to_set().contains(b[0]));
        let i = choose|i: int| 0 <= i < b.len() && b[i] == a[0];
        let j = choose|j: int| 0 <= j < a.len() && a[j] == b[0];
        if i > 0 {
            assert(chars_lt(b[0], b[i]));
            if j > 0 {
                assert(chars_lt(a[0], a[j]));
                lemma_lt_asymmetric(b[0], a[0]);
            } else {
                lemma_lt_irreflexive(b[0]);
            }
        }
        assert(a[0] == b[0]);
        let a2 = a.drop_first();
        let b2 = b.drop_first();
        assert forall|x: Seq<char>| a2.to_set().contains(x) implies b2.to_set().contains(x) by {
            let k = choose|k: int| 0 <= k < a2.len() && a2[k] == x;
            assert(chars_lt(a[0], a[k + 1]));
            assert(b.to_set().contains(x));
            let m = choose|m: int| 0 <= m < b.len() && b[m] == x;
            if m == 0 {
                lemma_lt_irreflexive(x);
            }
            assert(b2[m - 1] == x);
        }
        assert forall|x: Seq<char>| b2.to_set().contains(x) implies a2.to_set().contains(x) by {
            let k = choose|k: int| 0 <= k < b2.len() && b2[k] == x;
            assert(chars_lt(b[0], b[k + 1]));
            assert(a.to_set().contains(x));
            let m = choose|m: int| 0 <= m < a.len() && a[m] == x;
            if m == 0 {
                lemma_lt_irreflexive(x);
            }
            assert(a2[m - 1] == x);
        }
        assert(a2.to_set() =~= b2.to_set());
        lemma_sorted_strict_unique(a2, b2);
        assert(a =~= seq![a[0]] + a2);
        assert(b =~= seq![b[0]] + b2);
    }
}

/// The strings of a set in increasing order, each once.
pub open spec fn sorted_of(set: Set<Seq<char>>) -> Seq<Seq<char>> {
    choose|order: Seq<Seq<char>>| sorted_strict(order) && order.to_set() == set
}

/// A strictly sorted list is the sorted form of its own strings.
pub proof fn lemma_sorted_of(order: Seq<Seq<char>>)
    requires
        sorted_strict(order),
    ensures
        sorted_of(order.to_set()) == order,
{
    let set = order.to_set();
    assert(sorted_strict(order) && order.to_set() == set);
    let chosen = sorted_of(set);
    lemma_sorted_strict_unique(chosen, order);
}

/// Whether `s` is one of the strings of `list`.
pub fn contains_string(list: &[String], s: &String) -> (found: bool)
    ensures
        found == strs(list@).contains(s@),
{
    let mut i: usize = 0;
    while i < list.len()
        invariant
            i <= list@.len(),
            forall|k: int| 0 <= k < i ==> list@[k]@ != s@,
        decreases list.len() - i,
    {
        if list[i] == *s {
            assert(strs(list@)[i as int] == s@);
            return true;
        }
        i = i + 1;
    }
    assert(!strs(list@).contains(s@)) by {
        if strs(list@).contains(s@) {
            let k = choose|k: int| 0 <= k < strs(list@).len() && strs(list@)[k] == s@;
            assert(list@[k]@ == s@);
        }
    }
    false
}

/// `order` lists positions of `keys`, each once, so that the keys do not decrease and equal
/// keys keep their positions' order: what a stable sort by key gives.
pub open spec fn ordered_by(keys: Seq<Seq<char>>, order: Seq<usize>) -> bool {
    &&& forall|i: int| 0 <= i < order.len() ==> #[trigger] order[i] < keys.len()
    &&& forall|i: int, j: int| 0 <= i < j < order.len() ==> #[trigger] order[i] != #[trigger] order[j]
    &&& forall|i: int, j: int|
        #![trigger order[i], order[j]]
        0 <= i < j < order.len() ==> !chars_lt(keys[order[j] as int], keys[order[i] as int])
    &&& forall|i: int, j: int|
        #![trigger order[i], order[j]]
        0 <= i < j < order.len() && keys[order[i] as int] == keys[order[j] as int] ==> order[i]
            < order[j]
}

/// The positions of `keys` in a stable sort by key.
pub fn stable_order(keys: &Vec<String>) -> (order: Vec<usize>)
    ensures
        order@.len() == keys@.len(),
        ordered_by(strs(keys@), order@),
{
    let ghost ks = strs(keys@);
    let mut out: Vec<usize> = Vec::new();
    let mut s: usize = 0;
    while s < keys.len()
        invariant
            s <= keys@.len(),
            ks == strs(keys@),
            out@.len() == s,
            forall|k: int| 0 <= k < out@.len() ==> #[trigger] out@[k] < s,
            ordered_by(ks, out@),
        decreases keys.len() - s,
    {
        let mut p: usize = 0;
        while p < out.len() && !str_lt(keys[s].as_str(), keys[out[p]].as_str())
            invariant
                s < keys@.len(),
                ks == strs(keys@),
                p <= out@.len(),
                forall|k: int| 0 <= k < out@.len() ==> #[trigger] out@[k] < s,
                forall|k: int| 0 <= k < p ==> !chars_lt(ks[s as int], ks[#[trigger] out@[k] as int]),
            decreases out.len() - p,
        {
            p = p + 1;
        }
        let ghost old_out = out@;
        proof {
            if p < old_out.len() {
                assert(chars_lt(ks[s as int], ks[old_out[p as int] as int]));
            }
            // Every entry from `p` on sorts after the new key.
            assert forall|k: int| p <= k < old_out.len() implies chars_lt(
                ks[s as int],
                ks[#[trigger] old_out[k] as int],
            ) by {
                if k > p {
                    assert(!chars_lt(ks[old_out[k] as int], ks[old_out[p as int] as int]));
                    if ks[old_out[k] as int] != ks[old_out[p as int] as int] {
                        lemma_lt_total(ks[old_out[k] as int], ks[old_out[p as int] as int]);
                        lemma_lt_transitive(
                            ks[s as int],
                            ks[old_out[p as int] as int],
                            ks[old_out[k] as int],
                        );
                    }
                }
            }
        }
        out.insert(p, s);
        proof {
            let new_out = out@;
            assert(new_out == old_out.insert(p as int, s));
            assert forall|k: int| 0 <= k < new_out.len() implies #[trigger] new_out[k] < s + 1 by {
                if k > p {
                    assert(new_out[k] == old_out[k - 1]);
                }
            }
            assert forall|i: int| 0 <= i < new_out.len() implies #[trigger] new_out[i] < ks.len() by {
                if i > p {
                    assert(new_out[i] == old_out[i - 1]);
                }
            }
            assert forall|i: int, j: int| 0 <= i < j < new_out.len() implies #[trigger] new_out[i]
                != #[trigger] new_out[j] by {
                if i < p && j > p {
                    assert(new_out[j] == old_out[j - 1]);
                } else if i > p {
                    assert(new_out[i] == old_out[i - 1]);
                    assert(new_out[j] == old_out[j - 1]);
                } else if i == p {
                    assert(new_out[j] == old_out[j - 1]);
                }
            }
            assert forall|i: int, j: int| 0 <= i < j < new_out.len() implies !chars_lt(
                ks[#[trigger] new_out[j] as int],
                ks[#[trigger] new_out[i] as int],
            ) && (ks[new_out[i] as int] == ks[new_out[j] as int] ==> new_out[i] < new_out[j]) by {
                if j < p {
                } else if j == p {
                    assert(!chars_lt(ks[s as int], ks[old_out[i] as int]));
                } else if i < p {
                    assert(new_out[j] == old_out[j - 1]);
                    assert(!chars_lt(ks[old_out[j - 1] as int], ks[old_out[i] as int]));
                } else if i == p {
                    assert(new_out[j] == old_out[j - 1]);
                    assert(chars_lt(ks[s as int], ks[old_out[j - 1] as int]));
                    lemma_lt_asymmetric(ks[s as int], ks[old_out[j - 1] as int]);
                    lemma_lt_irreflexive(ks[s as int]);
                } else {
                    assert(new_out[i] == old_out[i - 1]);
                    assert(new_out[j] == old_out[j - 1]);
                    assert(!chars_lt(ks[old_out[j - 1] as int], ks[old_out[i - 1] as int]));
                }
            }
        }
        s = s + 1;
    }
    out
}

} // verus!
