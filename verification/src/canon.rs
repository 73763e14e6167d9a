//! Canonicalization: every JSON value has one flat, deterministic string form.
//!
//! Strings render as their contents (no quotes), numbers as their decimal
//! text, booleans as `true`/`false`, null as `null`. An array renders as
//! `[..]` with elements comma-space separated; an object renders as `{..}`
//! with `"key": value` entries, the keys put in lexicographic order so that
//! logically equal objects render alike no matter how their entries were
//! ordered on input.

use vstd::prelude::*;
use vstd::string::StringExecFns;

use crate::json::Json;
use crate::json::distinct_keys;
use crate::text::lemma_lex_lt_total;
use crate::text::lemma_lex_lt_trans;
use crate::text::lex_lt;
use crate::text::str_lt;

verus! {

/// The canonical character sequence of a value: the specification the
/// executable [`canonicalize`] is proved against.
pub open spec fn canon(v: Json) -> Seq<char>
    decreases v, 1int,
{
    match v {
        Json::Null => "null"@,
        Json::Bool(b) => if b {
            "true"@
        } else {
            "false"@
        },
        Json::Num(s) => s@,
        Json::Str(s) => s@,
        Json::Arr(a) => "["@ + canon_arr(a@) + "]"@,
        Json::Obj(o) => "{"@ + canon_entries(sort_pairs(canon_pairs(o@))) + "}"@,
    }
}

/// Array elements, each canonicalized, joined by `", "`.
pub open spec fn canon_arr(elems: Seq<Json>) -> Seq<char>
    decreases elems, 0int,
{
    if elems.len() == 0 {
        Seq::empty()
    } else if elems.len() == 1 {
        canon(elems[0])
    } else {
        canon_arr(elems.drop_last()) + ", "@ + canon(elems.last())
    }
}

/// Object entries as (key, canonicalized value) character-sequence pairs, in
/// entry order.
pub open spec fn canon_pairs(entries: Seq<(String, Json)>) -> Seq<(Seq<char>, Seq<char>)>
    decreases entries, 0int,
{
    if entries.len() == 0 {
        Seq::empty()
    } else {
        canon_pairs(entries.drop_last()).push(
            (entries.last().0@, canon(entries.last().1)),
        )
    }
}

/// Inserts a pair into a key-sorted pair sequence, after every pair whose key
/// does not come strictly after `p`'s: a stable insertion.
pub open spec fn insert_pair(
    p: (Seq<char>, Seq<char>),
    s: Seq<(Seq<char>, Seq<char>)>,
) -> Seq<(Seq<char>, Seq<char>)>
    decreases s.len(),
{
    if s.len() == 0 {
        seq![p]
    } else if lex_lt(p.0, s[0].0) {
        seq![p] + s
    } else {
        seq![s[0]] + insert_pair(p, s.drop_first())
    }
}

/// Sorts entry pairs by key, lexicographically and stably.
pub open spec fn sort_pairs(s: Seq<(Seq<char>, Seq<char>)>) -> Seq<(Seq<char>, Seq<char>)>
    decreases s.len(),
{
    if s.len() == 0 {
        Seq::empty()
    } else {
        insert_pair(s.last(), sort_pairs(s.drop_last()))
    }
}

/// Renders entry pairs as `"key": value`, joined by `", "`.
pub open spec fn canon_entries(s: Seq<(Seq<char>, Seq<char>)>) -> Seq<char>
    decreases s.len(),
{
    if s.len() == 0 {
        Seq::empty()
    } else if s.len() == 1 {
        canon_entry(s[0])
    } else {
        canon_entries(s.drop_last()) + ", "@ + canon_entry(s.last())
    }
}

/// One rendered object entry: the key in quotes, a colon-space, the value.
pub open spec fn canon_entry(p: (Seq<char>, Seq<char>)) -> Seq<char> {
    "\""@ + p.0 + "\": "@ + p.1
}

/// The character sequences behind a vector of rendered (key, value) strings.
pub open spec fn pair_views(s: Seq<(String, String)>) -> Seq<(Seq<char>, Seq<char>)> {
    s.map_values(|p: (String, String)| (p.0@, p.1@))
}

proof fn lemma_insert_pair_at(
    p: (Seq<char>, Seq<char>),
    s: Seq<(Seq<char>, Seq<char>)>,
    idx: int,
)
    requires
        0 <= idx <= s.len(),
        forall|j: int| 0 <= j < idx ==> !lex_lt(p.0, (#[trigger] s[j]).0),
        idx < s.len() ==> lex_lt(p.0, s[idx].0),
    ensures
        insert_pair(p, s) == s.insert(idx, p),
    decreases idx,
{
    if idx == 0 {
        assert(insert_pair(p, s) =~= s.insert(0, p));
    } else {
        lemma_insert_pair_at(p, s.drop_first(), idx - 1);
        assert(insert_pair(p, s) =~= s.insert(idx, p));
    }
}

/// Puts `p` where it belongs in a vector of rendered pairs kept sorted by key.
#[verifier::loop_isolation(false)]
fn insert_sorted_pair(out: &mut Vec<(String, String)>, p: (String, String))
    ensures
        pair_views(final(out)@) == insert_pair((p.0@, p.1@), pair_views(old(out)@)),
{
    let n = out.len();
    let mut idx: usize = 0;
    while idx < n
        invariant
            n == out.len(),
            0 <= idx <= n,
            forall|j: int| 0 <= j < idx ==> !lex_lt(p.0@, (#[trigger] out@[j]).0@),
        decreases n - idx,
    {
        if str_lt(p.0.as_str(), out[idx].0.as_str()) {
            break;
        }
        idx = idx + 1;
    }
    proof {
        lemma_insert_pair_at((p.0@, p.1@), pair_views(out@), idx as int);
    }
    let ghost prior = out@;
    out.insert(idx, p);
    proof {
        assert(pair_views(out@) =~= pair_views(prior).insert(idx as int, (p.0@, p.1@)));
    }
}

/// Keys never decrease along the pair sequence.
pub open spec fn key_sorted(s: Seq<(Seq<char>, Seq<char>)>) -> bool {
    forall|i: int, j: int|
        0 <= i < j < s.len() ==> !lex_lt((#[trigger] s[j]).0, (#[trigger] s[i]).0)
}

/// No two pairs share a key.
pub open spec fn pair_keys_distinct(s: Seq<(Seq<char>, Seq<char>)>) -> bool {
    forall|i: int, j: int| 0 <= i < j < s.len() ==> (#[trigger] s[i]).0 != (#[trigger] s[j]).0
}

proof fn lemma_insert_pair_elems(p: (Seq<char>, Seq<char>), s: Seq<(Seq<char>, Seq<char>)>)
    ensures
        insert_pair(p, s).len() == s.len() + 1,
        forall|m: int|
            0 <= m < insert_pair(p, s).len() ==> (#[trigger] insert_pair(p, s)[m]) == p
                || s.contains(insert_pair(p, s)[m]),
    decreases s.len(),
{
    if s.len() == 0 {
    } else if lex_lt(p.0, s[0].0) {
        assert forall|m: int|
            0 <= m < insert_pair(p, s).len() implies (#[trigger] insert_pair(p, s)[m]) == p
            || s.contains(insert_pair(p, s)[m]) by {
            if m > 0 {
                assert(insert_pair(p, s)[m] == s[m - 1]);
            }
        }
    } else {
        lemma_insert_pair_elems(p, s.drop_first());
        assert forall|m: int|
            0 <= m < insert_pair(p, s).len() implies (#[trigger] insert_pair(p, s)[m]) == p
            || s.contains(insert_pair(p, s)[m]) by {
            if m == 0 {
                assert(insert_pair(p, s)[0] == s[0]);
            } else {
                let q = insert_pair(p, s)[m];
                assert(q == insert_pair(p, s.drop_first())[m - 1]);
                if q != p {
                    let j = choose|j: int|
                        0 <= j < s.drop_first().len() && s.drop_first()[j] == q;
                    assert(s[j + 1] == q);
                }
            }
        }
    }
}

proof fn lemma_insert_pair_multiset(p: (Seq<char>, Seq<char>), s: Seq<(Seq<char>, Seq<char>)>)
    ensures
        insert_pair(p, s).to_multiset() == s.to_multiset().insert(p),
    decreases s.len(),
{
    broadcast use vstd::seq_lib::group_to_multiset_ensures;
    broadcast use vstd::multiset::group_multiset_axioms;

    if s.len() == 0 {
        assert(insert_pair(p, s) =~= s.push(p));
    } else if lex_lt(p.0, s[0].0) {
        assert(insert_pair(p, s) =~= s.insert(0, p));
    } else {
        lemma_insert_pair_multiset(p, s.drop_first());
        assert(insert_pair(p, s) =~= insert_pair(p, s.drop_first()).insert(0, s[0]));
        assert(s =~= s.drop_first().insert(0, s[0]));
        assert(s.drop_first().to_multiset().insert(p).insert(s[0]) =~= s.drop_first().to_multiset()
            .insert(s[0]).insert(p));
    }
}

proof fn lemma_insert_pair_sorted(p: (Seq<char>, Seq<char>), s: Seq<(Seq<char>, Seq<char>)>)
    requires
        key_sorted(s),
    ensures
        key_sorted(insert_pair(p, s)),
    decreases s.len(),
{
    if s.len() == 0 {
    } else if lex_lt(p.0, s[0].0) {
        let r = insert_pair(p, s);
        assert forall|i: int, j: int|
            0 <= i < j < r.len() implies !lex_lt((#[trigger] r[j]).0, (#[trigger] r[i]).0) by {
            assert(r[j] == s[j - 1]);
            if i == 0 {
                if lex_lt(s[j - 1].0, p.0) {
                    lemma_lex_lt_trans(s[j - 1].0, p.0, s[0].0);
                    lemma_lex_lt_total(s[j - 1].0, s[0].0);
                }
            } else {
                assert(r[i] == s[i - 1]);
            }
        }
    } else {
        lemma_insert_pair_sorted(p, s.drop_first());
        lemma_insert_pair_elems(p, s.drop_first());
        let rest = insert_pair(p, s.drop_first());
        let r = insert_pair(p, s);
        assert forall|i: int, j: int|
            0 <= i < j < r.len() implies !lex_lt((#[trigger] r[j]).0, (#[trigger] r[i]).0) by {
            assert(r[j] == rest[j - 1]);
            if i == 0 {
                let q = rest[j - 1];
                if q == p {
                    lemma_lex_lt_total(p.0, s[0].0);
                } else {
                    let k = choose|k: int|
                        0 <= k < s.drop_first().len() && s.drop_first()[k] == q;
                    assert(s[k + 1] == q);
                }
            } else {
                assert(r[i] == rest[i - 1]);
            }
        }
    }
}

proof fn lemma_sort_pairs_multiset(s: Seq<(Seq<char>, Seq<char>)>)
    ensures
        sort_pairs(s).to_multiset() == s.to_multiset(),
    decreases s.len(),
{
    broadcast use vstd::seq_lib::group_to_multiset_ensures;

    if s.len() > 0 {
        lemma_sort_pairs_multiset(s.drop_last());
        lemma_insert_pair_multiset(s.last(), sort_pairs(s.drop_last()));
        assert(s =~= s.drop_last().push(s.last()));
    }
}

proof fn lemma_sort_pairs_sorted(s: Seq<(Seq<char>, Seq<char>)>)
    ensures
        key_sorted(sort_pairs(s)),
    decreases s.len(),
{
    if s.len() > 0 {
        lemma_sort_pairs_sorted(s.drop_last());
        lemma_insert_pair_sorted(s.last(), sort_pairs(s.drop_last()));
    }
}

proof fn lemma_count_at_least_two(t: Seq<(Seq<char>, Seq<char>)>, i: int, j: int)
    requires
        0 <= i < j < t.len(),
        t[i] == t[j],
    ensures
        t.to_multiset().count(t[i]) >= 2,
{
    broadcast use vstd::seq_lib::group_to_multiset_ensures;
    broadcast use vstd::multiset::group_multiset_axioms;

    assert(t.remove(i)[j - 1] == t[i]);
    assert(t.remove(i).contains(t[i]));
    assert(t.remove(i).to_multiset() == t.to_multiset().remove(t[i]));
    assert(t.remove(i).to_multiset().count(t[i]) > 0);
}

proof fn lemma_keys_distinct_transfer(s: Seq<(Seq<char>, Seq<char>)>, t: Seq<(Seq<char>, Seq<char>)>)
    requires
        s.to_multiset() == t.to_multiset(),
        pair_keys_distinct(s),
    ensures
        pair_keys_distinct(t),
{
    broadcast use vstd::seq_lib::group_to_multiset_ensures;
    broadcast use vstd::multiset::group_multiset_axioms;

    assert forall|i: int, j: int|
        0 <= i < j < t.len() implies (#[trigger] t[i]).0 != (#[trigger] t[j]).0 by {
        if t[i].0 == t[j].0 {
            if t[i] == t[j] {
                lemma_count_at_least_two(t, i, j);
                let x = t[i];
                assert(s.contains(x));
                let a = choose|a: int| 0 <= a < s.len() && s[a] == x;
                assert(s.remove(a).to_multiset().count(x) >= 1);
                assert(s.remove(a).contains(x));
                let b = choose|b: int| 0 <= b < s.remove(a).len() && s.remove(a)[b] == x;
                if b < a {
                    assert(s[b] == x);
                } else {
                    assert(s[b + 1] == x);
                }
            } else {
                assert(t.contains(t[i]));
                assert(t.contains(t[j]));
                assert(t.to_multiset().count(t[i]) > 0);
                assert(t.to_multiset().count(t[j]) > 0);
                assert(s.contains(t[i]));
                assert(s.contains(t[j]));
                let a = choose|a: int| 0 <= a < s.len() && s[a] == t[i];
                let b = choose|b: int| 0 <= b < s.len() && s[b] == t[j];
                assert(s[a].0 == s[b].0);
            }
        }
    }
}

proof fn lemma_key_sorted_unique(s: Seq<(Seq<char>, Seq<char>)>, t: Seq<(Seq<char>, Seq<char>)>)
    requires
        key_sorted(s),
        key_sorted(t),
        pair_keys_distinct(s),
        s.to_multiset() == t.to_multiset(),
    ensures
        s == t,
    decreases s.len(),
{
    broadcast use vstd::seq_lib::group_to_multiset_ensures;
    broadcast use vstd::multiset::group_multiset_axioms;

    if s.len() == 0 {
        assert(t.to_multiset().len() == 0);
        assert(s =~= t);
    } else {
        lemma_keys_distinct_transfer(s, t);
        assert(s.contains(s[0]));
        assert(s.to_multiset().count(s[0]) > 0);
        assert(t.contains(s[0]));
        let k = choose|k: int| 0 <= k < t.len() && t[k] == s[0];
        assert(t.contains(t[0]));
        assert(t.to_multiset().count(t[0]) > 0);
        assert(s.contains(t[0]));
        let m = choose|m: int| 0 <= m < s.len() && s[m] == t[0];
        lemma_lex_lt_total(s[0].0, t[0].0);
        assert(s[0].0 == t[0].0);
        assert(k == 0);
        assert(t[0] == s[0]);
        assert(s.drop_first() =~= s.remove(0));
        assert(t.drop_first() =~= t.remove(0));
        assert(s.drop_first().to_multiset() == t.drop_first().to_multiset());
        assert(key_sorted(s.drop_first()));
        assert(pair_keys_distinct(s.drop_first()));
        assert(key_sorted(t.drop_first()));
        lemma_key_sorted_unique(s.drop_first(), t.drop_first());
        assert(s.to_multiset().len() == s.len());
        assert(t.to_multiset().len() == t.len());
        assert forall|i: int| 0 < i < s.len() implies s[i] == t[i] by {
            assert(s[i] == s.drop_first()[i - 1]);
            assert(t[i] == t.drop_first()[i - 1]);
        }
        assert(s =~= t);
    }
}

proof fn lemma_canon_pairs_pointwise(s: Seq<(String, Json)>)
    ensures
        canon_pairs(s).len() == s.len(),
        forall|i: int|
            0 <= i < s.len() ==> (#[trigger] canon_pairs(s)[i]) == (s[i].0@, canon(s[i].1)),
    decreases s.len(),
{
    if s.len() > 0 {
        lemma_canon_pairs_pointwise(s.drop_last());
    }
}

proof fn lemma_canon_pairs_remove(t: Seq<(String, Json)>, k: int)
    requires
        0 <= k < t.len(),
    ensures
        canon_pairs(t).to_multiset() == canon_pairs(t.remove(k)).to_multiset().insert(
            (t[k].0@, canon(t[k].1)),
        ),
    decreases t.len(),
{
    broadcast use vstd::seq_lib::group_to_multiset_ensures;
    broadcast use vstd::multiset::group_multiset_axioms;

    if k == t.len() - 1 {
        assert(t.remove(k) =~= t.drop_last());
    } else {
        lemma_canon_pairs_remove(t.drop_last(), k);
        assert(t.remove(k).drop_last() =~= t.drop_last().remove(k));
        assert(t.remove(k).last() == t.last());
        let below = canon_pairs(t.drop_last().remove(k)).to_multiset();
        let rk = (t[k].0@, canon(t[k].1));
        let rl = (t.last().0@, canon(t.last().1));
        assert(below.insert(rk).insert(rl) =~= below.insert(rl).insert(rk));
    }
}

proof fn lemma_canon_pairs_multiset(rs: Seq<(String, Json)>, ts: Seq<(String, Json)>)
    requires
        rs.to_multiset() == ts.to_multiset(),
    ensures
        canon_pairs(rs).to_multiset() == canon_pairs(ts).to_multiset(),
    decreases rs.len(),
{
    broadcast use vstd::seq_lib::group_to_multiset_ensures;
    broadcast use vstd::multiset::group_multiset_axioms;

    if rs.len() == 0 {
        assert(ts.to_multiset().len() == 0);
        assert(ts =~= Seq::<(String, Json)>::empty());
        assert(canon_pairs(rs) =~= canon_pairs(ts));
    } else {
        let x = rs.last();
        assert(rs.contains(x));
        assert(rs.to_multiset().count(x) > 0);
        assert(ts.contains(x));
        let k = choose|k: int| 0 <= k < ts.len() && ts[k] == x;
        assert(rs =~= rs.drop_last().push(x));
        assert(rs.drop_last().to_multiset() == rs.to_multiset().remove(x));
        assert(ts.remove(k).to_multiset() == ts.to_multiset().remove(x));
        lemma_canon_pairs_multiset(rs.drop_last(), ts.remove(k));
        lemma_canon_pairs_remove(ts, k);
    }
}

/// Whether two values are logically equal: equal scalars, arrays equal
/// pointwise, and objects carrying the same keys — distinct within each
/// object, in any order — with logically equal values.
pub open spec fn equiv(a: Json, b: Json) -> bool
    decreases a, 1int,
{
    match (a, b) {
        (Json::Null, Json::Null) => true,
        (Json::Bool(x), Json::Bool(y)) => x == y,
        (Json::Num(x), Json::Num(y)) => x@ == y@,
        (Json::Str(x), Json::Str(y)) => x@ == y@,
        (Json::Arr(xs), Json::Arr(ys)) => equiv_arr(xs@, ys@),
        (Json::Obj(xs), Json::Obj(ys)) => equiv_obj(xs@, ys@),
        _ => false,
    }
}

/// Pointwise logical equality of two element sequences.
pub open spec fn equiv_arr(xs: Seq<Json>, ys: Seq<Json>) -> bool
    decreases xs, 0int,
{
    &&& xs.len() == ys.len()
    &&& forall|i: int| 0 <= i < xs.len() ==> equiv(#[trigger] xs[i], ys[i])
}

/// Logical equality of two entry lists: the same length, keys distinct
/// within each, and every entry of the first matched by key somewhere in the
/// second with a logically equal value.
pub open spec fn equiv_obj(xs: Seq<(String, Json)>, ys: Seq<(String, Json)>) -> bool
    decreases xs, 0int,
{
    &&& xs.len() == ys.len()
    &&& distinct_keys(xs)
    &&& distinct_keys(ys)
    &&& forall|i: int|
        0 <= i < xs.len() ==> exists|j: int|
            0 <= j < ys.len() && (#[trigger] ys[j]).0@ == (#[trigger] xs[i]).0@ && equiv(
                xs[i].1,
                ys[j].1,
            )
}

proof fn lemma_elementwise_multiset(s: Seq<(Seq<char>, Seq<char>)>, t: Seq<(Seq<char>, Seq<char>)>)
    requires
        pair_keys_distinct(s),
        s.len() == t.len(),
        forall|i: int| 0 <= i < s.len() ==> t.contains(#[trigger] s[i]),
    ensures
        s.to_multiset() == t.to_multiset(),
    decreases s.len(),
{
    broadcast use vstd::seq_lib::group_to_multiset_ensures;
    broadcast use vstd::multiset::group_multiset_axioms;

    if s.len() == 0 {
        assert(s =~= t);
    } else {
        let x = s.last();
        assert(s[s.len() - 1] == x);
        assert(t.contains(x));
        let j0 = choose|j: int| 0 <= j < t.len() && t[j] == x;
        let s2 = s.drop_last();
        let t2 = t.remove(j0);
        assert forall|i: int| 0 <= i < s2.len() implies t2.contains(#[trigger] s2[i]) by {
            assert(s2[i] == s[i]);
            assert(t.contains(s[i]));
            let jj = choose|j: int| 0 <= j < t.len() && t[j] == s[i];
            assert(s[i].0 != x.0);
            assert(jj != j0);
            if jj < j0 {
                assert(t2[jj] == s[i]);
            } else {
                assert(t2[jj - 1] == s[i]);
            }
        }
        assert(pair_keys_distinct(s2));
        lemma_elementwise_multiset(s2, t2);
        assert(s =~= s2.push(x));
        assert(t2.to_multiset() == t.to_multiset().remove(x));
        assert(t.to_multiset().count(x) > 0);
        assert(t.to_multiset().remove(x).insert(x) =~= t.to_multiset());
    }
}

/// Logically equal values have the same canonical string: the canonical
/// form does not depend on the order in which any object in the value —
/// however deeply nested — lists its entries.
pub proof fn lemma_canon_respects_equiv(a: Json, b: Json)
    requires
        equiv(a, b),
    ensures
        canon(a) == canon(b),
    decreases a, 1int,
{
    match (a, b) {
        (Json::Arr(x), Json::Arr(y)) => {
            lemma_canon_respects_equiv_arr(x@, y@);
        },
        (Json::Obj(xs), Json::Obj(ys)) => {
            let rx = canon_pairs(xs@);
            let ry = canon_pairs(ys@);
            lemma_canon_pairs_pointwise(xs@);
            lemma_canon_pairs_pointwise(ys@);
            assert(pair_keys_distinct(rx));
            assert(pair_keys_distinct(ry));
            assert forall|i: int| 0 <= i < rx.len() implies ry.contains(#[trigger] rx[i]) by {
                let j = choose|j: int|
                    0 <= j < ys@.len() && (#[trigger] ys@[j]).0@ == xs@[i].0@ && equiv(
                        xs@[i].1,
                        ys@[j].1,
                    );
                lemma_canon_respects_equiv(xs@[i].1, ys@[j].1);
                assert(ry[j] == rx[i]);
            }
            lemma_elementwise_multiset(rx, ry);
            lemma_sort_pairs_multiset(rx);
            lemma_sort_pairs_multiset(ry);
            lemma_sort_pairs_sorted(rx);
            lemma_sort_pairs_sorted(ry);
            lemma_keys_distinct_transfer(rx, sort_pairs(rx));
            lemma_key_sorted_unique(sort_pairs(rx), sort_pairs(ry));
        },
        _ => {},
    }
}

proof fn lemma_canon_respects_equiv_arr(xs: Seq<Json>, ys: Seq<Json>)
    requires
        equiv_arr(xs, ys),
    ensures
        canon_arr(xs) == canon_arr(ys),
    decreases xs, 0int,
{
    if xs.len() > 0 {
        lemma_canon_respects_equiv(xs.last(), ys.last());
        assert(equiv_arr(xs.drop_last(), ys.drop_last()));
        lemma_canon_respects_equiv_arr(xs.drop_last(), ys.drop_last());
    }
}

/// Canonicalization is deterministic: the canonical form is a function of
/// the value alone, so equal values — here and in every later call — have
/// equal canonical strings.
pub proof fn lemma_canon_deterministic(a: Json, b: Json)
    requires
        a == b,
    ensures
        canon(a) == canon(b),
{
}

/// Canonicalization does not depend on the order of an object's entries:
/// two objects holding the same entries — as a multiset, the keys distinct —
/// have the same canonical string, whatever order the entries stand in.
pub proof fn lemma_canon_obj_entry_order(xs: Vec<(String, Json)>, ys: Vec<(String, Json)>)
    requires
        xs@.to_multiset() == ys@.to_multiset(),
        distinct_keys(xs@),
    ensures
        canon(Json::Obj(xs)) == canon(Json::Obj(ys)),
{
    lemma_canon_pairs_multiset(xs@, ys@);
    lemma_canon_pairs_pointwise(xs@);
    assert(pair_keys_distinct(canon_pairs(xs@)));
    lemma_sort_pairs_multiset(canon_pairs(xs@));
    lemma_sort_pairs_multiset(canon_pairs(ys@));
    lemma_sort_pairs_sorted(canon_pairs(xs@));
    lemma_sort_pairs_sorted(canon_pairs(ys@));
    lemma_keys_distinct_transfer(canon_pairs(xs@), sort_pairs(canon_pairs(xs@)));
    lemma_key_sorted_unique(sort_pairs(canon_pairs(xs@)), sort_pairs(canon_pairs(ys@)));
}

/// Builds the canonical string of `v`.
#[verifier::loop_isolation(false)]
pub fn canonicalize(v: &Json) -> (r: String)
    ensures
        r@ == canon(*v),
    decreases *v,
{
    match v {
        Json::Null => String::from_str("null"),
        Json::Bool(b) => {
            if *b {
                String::from_str("true")
            } else {
                String::from_str("false")
            }
        },
        Json::Num(s) => s.clone(),
        Json::Str(s) => s.clone(),
        Json::Arr(a) => {
            let mut r = String::from_str("[");
            let n = a.len();
            let mut i: usize = 0;
            while i < n
                invariant
                    n == a.len(),
                    0 <= i <= n,
                    r@ == "["@ + canon_arr(a@.subrange(0, i as int)),
                decreases n - i,
            {
                if i > 0 {
                    r.append(", ");
                }
                let elem = canonicalize(&a[i]);
                r.append(elem.as_str());
                proof {
                    assert(a@.subrange(0, i + 1 as int).drop_last() =~= a@.subrange(0, i as int));
                    assert(a@.subrange(0, i + 1 as int).last() == a@[i as int]);
                }
                i = i + 1;
            }
            proof {
                assert(a@.subrange(0, n as int) =~= a@);
            }
            r.append("]");
            r
        },
        Json::Obj(o) => {
            let n = o.len();
            let mut sorted: Vec<(String, String)> = Vec::new();
            let mut i: usize = 0;
            while i < n
                invariant
                    n == o.len(),
                    0 <= i <= n,
                    pair_views(sorted@) == sort_pairs(canon_pairs(o@.subrange(0, i as int))),
                decreases n - i,
            {
                let rendered = canonicalize(&o[i].1);
                insert_sorted_pair(&mut sorted, (o[i].0.clone(), rendered));
                proof {
                    let prefix = o@.subrange(0, i + 1 as int);
                    assert(prefix.drop_last() =~= o@.subrange(0, i as int));
                    assert(prefix.last() == o@[i as int]);
                    assert(canon_pairs(prefix).drop_last() =~= canon_pairs(o@.subrange(0, i as int)));
                    assert(canon_pairs(prefix).last() == (o@[i as int].0@, canon(o@[i as int].1)));
                }
                i = i + 1;
            }
            proof {
                assert(o@.subrange(0, n as int) =~= o@);
            }
            let ghost ps = sort_pairs(canon_pairs(o@));
            let mut r = String::from_str("{");
            let m = sorted.len();
            let mut j: usize = 0;
            while j < m
                invariant
                    m == sorted.len(),
                    0 <= j <= m,
                    pair_views(sorted@) == ps,
                    r@ == "{"@ + canon_entries(ps.subrange(0, j as int)),
                decreases m - j,
            {
                if j > 0 {
                    r.append(", ");
                }
                r.append("\"");
                r.append(sorted[j].0.as_str());
                r.append("\": ");
                r.append(sorted[j].1.as_str());
                proof {
                    assert(ps.subrange(0, j + 1 as int).drop_last() =~= ps.subrange(0, j as int));
                    assert(ps.subrange(0, j + 1 as int).last() == ps[j as int]);
                }
                j = j + 1;
            }
            proof {
                assert(ps.subrange(0, m as int) =~= ps);
            }
            r.append("}");
            r
        },
    }
}

} // verus!
