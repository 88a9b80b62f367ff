//! Stable sort of keyed items by their key in `str` order: items with equal keys keep
//! the order in which they came.

use vstd::prelude::*;
use crate::text::lex_le;
use crate::text::lex_lt;
use crate::text::lemma_lex_total;
use crate::text::lemma_lex_trans;
use crate::text::str_lt;

verus! {

/// Items with their keys taken by view.
pub open spec fn keyed<T>(v: Seq<(String, T)>) -> Seq<(Seq<char>, T)> {
    v.map_values(|p: (String, T)| (p.0@, p.1))
}

/// Insert `x` in front of the first entry of `s` whose key is not smaller.
pub open spec fn insert_first<T>(s: Seq<(Seq<char>, T)>, x: (Seq<char>, T)) -> Seq<(Seq<char>, T)>
    decreases s.len(),
{
    if s.len() == 0 {
        seq![x]
    } else if lex_le(x.0, s[0].0) {
        seq![x] + s
    } else {
        seq![s[0]] + insert_first(s.drop_first(), x)
    }
}

/// The stable sort of `s` by key: the first item goes in front of every later item
/// whose key is not smaller than its own.
pub open spec fn sort_stable<T>(s: Seq<(Seq<char>, T)>) -> Seq<(Seq<char>, T)>
    decreases s.len(),
{
    if s.len() == 0 {
        s
    } else {
        insert_first(sort_stable(s.drop_first()), s[0])
    }
}

/// Keys in non-decreasing order.
pub open spec fn sorted_keys<T>(s: Seq<(Seq<char>, T)>) -> bool {
    forall|i: int, j: int| 0 <= i < j < s.len() ==> lex_le(#[trigger] s[i].0, #[trigger] s[j].0)
}

proof fn lemma_insert_at<T>(s: Seq<(Seq<char>, T)>, x: (Seq<char>, T), j: int)
    requires
        0 <= j <= s.len(),
        j == s.len() || lex_le(x.0, s[j].0),
        forall|k: int| 0 <= k < j ==> lex_lt(#[trigger] s[k].0, x.0),
    ensures
        insert_first(s, x) == s.insert(j, x),
    decreases s.len(),
{
    if s.len() == 0 {
        assert(s.insert(j, x) =~= seq![x]);
    } else if j == 0 {
        assert(s.insert(j, x) =~= seq![x] + s);
    } else {
        assert(lex_lt(s[0].0, x.0));
        assert(!lex_le(x.0, s[0].0)) by {
            lemma_lex_total(x.0, s[0].0);
        }
        let t = s.drop_first();
        assert forall|k: int| 0 <= k < j - 1 implies lex_lt(#[trigger] t[k].0, x.0) by {
            assert(t[k] == s[k + 1]);
        }
        if j < s.len() {
            assert(t[j - 1] == s[j]);
        }
        lemma_insert_at(t, x, j - 1);
        assert(seq![s[0]] + t.insert(j - 1, x) =~= s.insert(j, x));
    }
}

/// Stable sort by key, in `str` order.
pub fn sort_by_key_str<T>(items: Vec<(String, T)>) -> (r: Vec<(String, T)>)
    ensures
        keyed(r@) == sort_stable(keyed(items@)),
{
    let ghost input = keyed(items@);
    let ghost n = items.len();
    let mut rest = items;
    let mut out: Vec<(String, T)> = Vec::new();
    assert(input.skip(n as int) =~= Seq::<(Seq<char>, T)>::empty());
    while rest.len() > 0
        invariant
            rest.len() <= n,
            keyed(rest@) == input.take(rest.len() as int),
            input.len() == n,
            keyed(out@) == sort_stable(input.skip(rest.len() as int)),
        decreases rest.len(),
    {
        let ghost before = keyed(out@);
        let ghost i = rest.len() - 1;
        let x = rest.pop().unwrap();
        assert(keyed(rest@) =~= input.take(i as int)) by {
            assert(input.take(i + 1).take(i as int) =~= input.take(i as int));
        }
        assert((x.0@, x.1) == input[i as int]) by {
            assert(input.take(i + 1)[i as int] == input[i as int]);
        }
        let mut j: usize = 0;
        while j < out.len() && str_lt(out[j].0.as_str(), x.0.as_str())
            invariant
                j <= out.len(),
                forall|k: int| 0 <= k < j ==> lex_lt(#[trigger] keyed(out@)[k].0, x.0@),
            decreases out.len() - j,
        {
            j = j + 1;
        }
        proof {
            if j < out.len() {
                lemma_lex_total(keyed(out@)[j as int].0, x.0@);
            }
            lemma_insert_at(before, (x.0@, x.1), j as int);
        }
        out.insert(j, x);
        assert(keyed(out@) =~= before.insert(j as int, (x.0@, x.1)));
        assert(input.skip(i as int).drop_first() =~= input.skip(i + 1));
        assert(input.skip(i as int)[0] == input[i as int]);
    }
    assert(input.skip(0) =~= input);
    out
}

proof fn lemma_lex_le_trans(a: Seq<char>, b: Seq<char>, c: Seq<char>)
    requires
        lex_le(a, b),
        lex_le(b, c),
    ensures
        lex_le(a, c),
{
    if a != b && b != c {
        lemma_lex_trans(a, b, c);
    }
}

proof fn lemma_insert_first_props<T>(s: Seq<(Seq<char>, T)>, x: (Seq<char>, T))
    ensures
        insert_first(s, x).to_multiset() == s.to_multiset().insert(x),
        forall|y: (Seq<char>, T)| #[trigger] insert_first(s, x).contains(y) ==> y == x || s.contains(y),
        sorted_keys(s) ==> sorted_keys(insert_first(s, x)),
    decreases s.len(),
{
    broadcast use vstd::seq_lib::group_to_multiset_ensures;
    let r = insert_first(s, x);
    if s.len() == 0 {
        assert(r =~= Seq::<(Seq<char>, T)>::empty().push(x));
        assert(forall|y: (Seq<char>, T)| #[trigger] r.contains(y) ==> y == r[0]);
    } else if lex_le(x.0, s[0].0) {
        vstd::seq_lib::lemma_multiset_commutative(seq![x], s);
        assert(seq![x].to_multiset() =~= Seq::<(Seq<char>, T)>::empty().push(x).to_multiset()) by {
            assert(seq![x] =~= Seq::<(Seq<char>, T)>::empty().push(x));
        }
        assert forall|y: (Seq<char>, T)| #[trigger] r.contains(y) implies y == x || s.contains(y) by {
            let k = choose|k: int| 0 <= k < r.len() && r[k] == y;
            if k > 0 {
                assert(s[k - 1] == y);
            }
        }
        if sorted_keys(s) {
            assert forall|i: int, j: int| 0 <= i < j < r.len() implies lex_le(#[trigger] r[i].0, #[trigger] r[j].0) by {
                if i == 0 {
                    if j > 1 {
                        assert(lex_le(s[0].0, s[j - 1].0));
                        lemma_lex_le_trans(x.0, s[0].0, s[j - 1].0);
                    }
                } else {
                    assert(lex_le(s[i - 1].0, s[j - 1].0));
                }
            }
        }
    } else {
        let t = s.drop_first();
        lemma_insert_first_props(t, x);
        let u = insert_first(t, x);
        assert(r == seq![s[0]] + u);
        vstd::seq_lib::lemma_multiset_commutative(seq![s[0]], u);
        vstd::seq_lib::lemma_multiset_commutative(seq![s[0]], t);
        assert(seq![s[0]] + t =~= s);
        assert(seq![s[0]].to_multiset().add(t.to_multiset().insert(x)) =~= seq![s[0]].to_multiset().add(
            t.to_multiset(),
        ).insert(x));
        assert forall|y: (Seq<char>, T)| #[trigger] r.contains(y) implies y == x || s.contains(y) by {
            let k = choose|k: int| 0 <= k < r.len() && r[k] == y;
            if k == 0 {
                assert(s[0] == y);
            } else {
                assert(u[k - 1] == y);
                assert(u.contains(y));
                if y != x {
                    let m = choose|m: int| 0 <= m < t.len() && t[m] == y;
                    assert(s[m + 1] == y);
                }
            }
        }
        if sorted_keys(s) {
            assert(sorted_keys(t)) by {
                assert forall|i: int, j: int| 0 <= i < j < t.len() implies lex_le(#[trigger] t[i].0, #[trigger] t[j].0) by {
                    assert(t[i] == s[i + 1]);
                    assert(t[j] == s[j + 1]);
                }
            }
            lemma_lex_total(x.0, s[0].0);
            assert forall|i: int, j: int| 0 <= i < j < r.len() implies lex_le(#[trigger] r[i].0, #[trigger] r[j].0) by {
                if i == 0 {
                    let y = r[j];
                    assert(u[j - 1] == y);
                    assert(u.contains(y));
                    if y != x {
                        let m = choose|m: int| 0 <= m < t.len() && t[m] == y;
                        assert(s[m + 1] == y);
                        assert(lex_le(s[0].0, s[m + 1].0));
                    }
                } else {
                    assert(r[i] == u[i - 1]);
                    assert(r[j] == u[j - 1]);
                }
            }
        }
    }
}

/// The stable sort orders keys non-decreasingly and keeps exactly the items it was given.
pub proof fn law_sort_stable_sorted_permutation<T>(s: Seq<(Seq<char>, T)>)
    ensures
        sorted_keys(sort_stable(s)),
        sort_stable(s).to_multiset() == s.to_multiset(),
    decreases s.len(),
{
    broadcast use vstd::seq_lib::group_to_multiset_ensures;
    if s.len() > 0 {
        let t = s.drop_first();
        law_sort_stable_sorted_permutation(t);
        lemma_insert_first_props(sort_stable(t), s[0]);
        vstd::seq_lib::lemma_multiset_commutative(seq![s[0]], t);
        assert(seq![s[0]] + t =~= s);
        assert(seq![s[0]] =~= Seq::<(Seq<char>, T)>::empty().push(s[0]));
    }
}

/// `s` with `f` applied to each item's value, keys unchanged.
pub open spec fn map_vals<T, U>(s: Seq<(Seq<char>, T)>, f: spec_fn(T) -> U) -> Seq<(Seq<char>, U)> {
    s.map_values(|p: (Seq<char>, T)| (p.0, f(p.1)))
}

proof fn lemma_insert_map_vals<T, U>(s: Seq<(Seq<char>, T)>, x: (Seq<char>, T), f: spec_fn(T) -> U)
    ensures
        insert_first(map_vals(s, f), (x.0, f(x.1))) == map_vals(insert_first(s, x), f),
    decreases s.len(),
{
    if s.len() == 0 {
        assert(map_vals(seq![x], f) =~= seq![(x.0, f(x.1))]);
    } else if lex_le(x.0, s[0].0) {
        assert(map_vals(seq![x] + s, f) =~= seq![(x.0, f(x.1))] + map_vals(s, f));
    } else {
        lemma_insert_map_vals(s.drop_first(), x, f);
        assert(map_vals(s, f).drop_first() =~= map_vals(s.drop_first(), f));
        assert(map_vals(seq![s[0]] + insert_first(s.drop_first(), x), f) =~= seq![
            map_vals(s, f)[0],
        ] + map_vals(insert_first(s.drop_first(), x), f));
    }
}

/// Sorting commutes with changing the values: keys alone decide the order.
pub proof fn lemma_sort_map_vals<T, U>(s: Seq<(Seq<char>, T)>, f: spec_fn(T) -> U)
    ensures
        sort_stable(map_vals(s, f)) == map_vals(sort_stable(s), f),
    decreases s.len(),
{
    if s.len() > 0 {
        lemma_sort_map_vals(s.drop_first(), f);
        assert(map_vals(s, f).drop_first() =~= map_vals(s.drop_first(), f));
        lemma_insert_map_vals(sort_stable(s.drop_first()), s[0], f);
    }
}

/// Keyed views follow insertion, replacement and appending.
pub proof fn lemma_keyed_edits<T, U>(v: Seq<(String, T)>, x: (String, T), j: int, f: spec_fn(T) -> U)
    ensures
        0 <= j <= v.len() ==> map_vals(keyed(v.insert(j, x)), f) == map_vals(keyed(v), f).insert(
            j,
            (x.0@, f(x.1)),
        ),
        0 <= j < v.len() ==> map_vals(keyed(v.update(j, x)), f) == map_vals(keyed(v), f).update(
            j,
            (x.0@, f(x.1)),
        ),
        map_vals(keyed(v.push(x)), f) == map_vals(keyed(v), f).push((x.0@, f(x.1))),
{
    if 0 <= j <= v.len() {
        assert(map_vals(keyed(v.insert(j, x)), f) =~= map_vals(keyed(v), f).insert(j, (x.0@, f(x.1))));
    }
    if 0 <= j < v.len() {
        assert(map_vals(keyed(v.update(j, x)), f) =~= map_vals(keyed(v), f).update(j, (x.0@, f(x.1))));
    }
    assert(map_vals(keyed(v.push(x)), f) =~= map_vals(keyed(v), f).push((x.0@, f(x.1))));
}

} // verus!
