//! Object fields kept as an association list sorted strictly by key, the
//! ordered-by-key container behind the `Object` variant. Keeping the fields
//! sorted at every step makes key order deterministic for every reader:
//! equality, rendering and JSON conversion all see the same order.

use vstd::prelude::*;
use crate::order::{
    lex_lt, str_compare, KeyOrder, lemma_lex_connected, lemma_lex_irreflexive,
    lemma_lex_asymmetric, lemma_lex_transitive,
};

verus! {

/// Keys strictly increase, so they are unique and iteration is in sorted
/// key order.
pub open spec fn sorted_keys<V>(s: Seq<(String, V)>) -> bool {
    forall|i: int, j: int| 0 <= i < j < s.len() ==> lex_lt(s[i].0@, s[j].0@)
}

/// The field list after binding `k` to `v`: an existing binding of `k` is
/// replaced, any other key keeps its place, and a new key enters at its
/// sorted position.
pub open spec fn spec_insert_field<V>(s: Seq<(String, V)>, k: String, v: V) -> Seq<(String, V)>
    decreases s.len(),
{
    if s.len() == 0 {
        seq![(k, v)]
    } else if lex_lt(k@, s[0].0@) {
        seq![(k, v)] + s
    } else if k@ == s[0].0@ {
        seq![(k, v)] + s.subrange(1, s.len() as int)
    } else {
        seq![s[0]] + spec_insert_field(s.subrange(1, s.len() as int), k, v)
    }
}

/// Where the insertion lands: given that everything before `pos` is below
/// `k` and the entry at `pos` (if any) is not, the result is the list split
/// at `pos`, with the entry at `pos` replaced when its key is `k`.
pub proof fn lemma_insert_field_at<V>(s: Seq<(String, V)>, k: String, v: V, pos: int)
    requires
        0 <= pos <= s.len(),
        forall|j: int| 0 <= j < pos ==> lex_lt(s[j].0@, k@),
        pos < s.len() ==> !lex_lt(s[pos].0@, k@),
    ensures
        pos == s.len() ==> spec_insert_field(s, k, v) =~= s + seq![(k, v)],
        pos < s.len() && k@ == s[pos].0@ ==> spec_insert_field(s, k, v) =~= s.subrange(0, pos)
            + seq![(k, v)] + s.subrange(pos + 1, s.len() as int),
        pos < s.len() && k@ != s[pos].0@ ==> spec_insert_field(s, k, v) =~= s.subrange(0, pos)
            + seq![(k, v)] + s.subrange(pos, s.len() as int),
    decreases s.len(),
{
    lemma_lex_irreflexive(k@);
    if pos == 0 {
        if s.len() == 0 {
        } else if k@ == s[0].0@ {
            assert(spec_insert_field(s, k, v) =~= s.subrange(0, 0) + seq![(k, v)] + s.subrange(
                1,
                s.len() as int,
            ));
        } else {
            if !lex_lt(k@, s[0].0@) {
                lemma_lex_connected(k@, s[0].0@);
            }
            assert(spec_insert_field(s, k, v) =~= s.subrange(0, 0) + seq![(k, v)] + s.subrange(
                0,
                s.len() as int,
            ));
        }
    } else {
        let t = s.subrange(1, s.len() as int);
        lemma_lex_asymmetric(s[0].0@, k@);
        lemma_insert_field_at(t, k, v, pos - 1);
        assert(s.subrange(0, pos) =~= seq![s[0]] + t.subrange(0, pos - 1));
        if pos == s.len() {
            assert(spec_insert_field(s, k, v) =~= s + seq![(k, v)]);
        } else if k@ == s[pos].0@ {
            assert(t.subrange(pos, t.len() as int) =~= s.subrange(pos + 1, s.len() as int));
            assert(spec_insert_field(s, k, v) =~= s.subrange(0, pos) + seq![(k, v)] + s.subrange(
                pos + 1,
                s.len() as int,
            ));
        } else {
            assert(t.subrange(pos - 1, t.len() as int) =~= s.subrange(pos, s.len() as int));
            assert(spec_insert_field(s, k, v) =~= s.subrange(0, pos) + seq![(k, v)] + s.subrange(
                pos,
                s.len() as int,
            ));
        }
    }
}

/// Every entry of the result either binds `k` or is an entry of `s`.
pub proof fn lemma_insert_field_entries<V>(s: Seq<(String, V)>, k: String, v: V)
    ensures
        forall|i: int|
            0 <= i < spec_insert_field(s, k, v).len() ==> (
                #[trigger] spec_insert_field(s, k, v)[i] == (k, v)
                || exists|j: int| 0 <= j < s.len() && spec_insert_field(s, k, v)[i] == s[j]
            ),
    decreases s.len(),
{
    if s.len() == 0 {
    } else if lex_lt(k@, s[0].0@) {
    } else if k@ == s[0].0@ {
    } else {
        let t = s.subrange(1, s.len() as int);
        lemma_insert_field_entries(t, k, v);
        let r = spec_insert_field(s, k, v);
        assert forall|i: int| 0 <= i < r.len() implies (
            r[i] == (k, v) || exists|j: int| 0 <= j < s.len() && r[i] == s[j]
        ) by {
            if i > 0 {
                let ri = spec_insert_field(t, k, v)[i - 1];
                assert(r[i] == ri);
                if ri != (k, v) {
                    let j = choose|j: int| 0 <= j < t.len() && ri == t[j];
                    assert(r[i] == s[j + 1]);
                }
            }
        }
    }
}

/// Inserting keeps the fields sorted.
pub proof fn lemma_insert_field_sorted<V>(s: Seq<(String, V)>, k: String, v: V)
    requires
        sorted_keys(s),
    ensures
        sorted_keys(spec_insert_field(s, k, v)),
    decreases s.len(),
{
    lemma_lex_irreflexive(k@);
    if s.len() == 0 {
    } else if lex_lt(k@, s[0].0@) {
        let r = seq![(k, v)] + s;
        assert forall|i: int, j: int| 0 <= i < j < r.len() implies lex_lt(r[i].0@, r[j].0@) by {
            if i == 0 && j > 1 {
                lemma_lex_transitive(k@, s[0].0@, s[j - 1].0@);
            }
        }
    } else if k@ == s[0].0@ {
        let r = seq![(k, v)] + s.subrange(1, s.len() as int);
        assert forall|i: int, j: int| 0 <= i < j < r.len() implies lex_lt(r[i].0@, r[j].0@) by {
            if i == 0 {
                assert(lex_lt(s[0].0@, s[j].0@));
            }
        }
    } else {
        let t = s.subrange(1, s.len() as int);
        if !lex_lt(s[0].0@, k@) {
            lemma_lex_connected(k@, s[0].0@);
        }
        lemma_insert_field_sorted(t, k, v);
        lemma_insert_field_entries(t, k, v);
        let r = seq![s[0]] + spec_insert_field(t, k, v);
        assert forall|i: int, j: int| 0 <= i < j < r.len() implies lex_lt(r[i].0@, r[j].0@) by {
            if i == 0 {
                let rj = spec_insert_field(t, k, v)[j - 1];
                if rj == (k, v) {
                    assert(lex_lt(s[0].0@, k@));
                } else {
                    let m = choose|m: int| 0 <= m < t.len() && rj == t[m];
                    assert(lex_lt(s[0].0@, s[m + 1].0@));
                }
            }
        }
    }
}

/// Some entry of `s` has key `k`.
pub open spec fn has_key<V>(s: Seq<(String, V)>, k: Seq<char>) -> bool {
    exists|i: int| 0 <= i < s.len() && s[i].0@ == k
}

/// Sorted field lists are canonical: two sorted lists that bind the same
/// keys to the same values are the same list, entry for entry. This is
/// what makes an object's stored form — and so everything that reads it —
/// independent of how it was put together.
pub proof fn lemma_sorted_fields_canonical<V>(a: Seq<(String, V)>, b: Seq<(String, V)>)
    requires
        sorted_keys(a),
        sorted_keys(b),
        forall|k: Seq<char>| has_key(a, k) <==> has_key(b, k),
        forall|i: int, j: int|
            0 <= i < a.len() && 0 <= j < b.len() && a[i].0@ == b[j].0@ ==> a[i].1 == b[j].1,
    ensures
        a.len() == b.len(),
        forall|i: int| 0 <= i < a.len() ==> a[i].0@ == b[i].0@ && a[i].1 == b[i].1,
    decreases a.len(),
{
    if a.len() == 0 {
        if b.len() > 0 {
            assert(has_key(b, b[0].0@));
            assert(has_key(a, b[0].0@));
        }
    } else if b.len() == 0 {
        assert(has_key(a, a[0].0@));
        assert(has_key(b, a[0].0@));
    } else {
        // The head keys agree: each is the least key of the common key set.
        assert(has_key(a, a[0].0@));
        let j0 = choose|j: int| 0 <= j < b.len() && b[j].0@ == a[0].0@;
        assert(has_key(b, b[0].0@));
        let i0 = choose|i: int| 0 <= i < a.len() && a[i].0@ == b[0].0@;
        if a[0].0@ != b[0].0@ {
            assert(j0 > 0 && i0 > 0);
            assert(lex_lt(b[0].0@, b[j0].0@));
            assert(lex_lt(a[0].0@, a[i0].0@));
            lemma_lex_asymmetric(b[0].0@, a[0].0@);
        }
        assert(a[0].0@ == b[0].0@ && a[0].1 == b[0].1);
        let at = a.subrange(1, a.len() as int);
        let bt = b.subrange(1, b.len() as int);
        assert forall|k: Seq<char>| has_key(at, k) implies has_key(bt, k) by {
            let i = choose|i: int| 0 <= i < at.len() && at[i].0@ == k;
            assert(a[i + 1].0@ == k);
            assert(has_key(a, k));
            let j = choose|j: int| 0 <= j < b.len() && b[j].0@ == k;
            assert(lex_lt(a[0].0@, a[i + 1].0@));
            lemma_lex_irreflexive(k);
            assert(j != 0);
            assert(bt[j - 1].0@ == k);
        }
        assert forall|k: Seq<char>| has_key(bt, k) implies has_key(at, k) by {
            let j = choose|j: int| 0 <= j < bt.len() && bt[j].0@ == k;
            assert(b[j + 1].0@ == k);
            assert(has_key(b, k));
            let i = choose|i: int| 0 <= i < a.len() && a[i].0@ == k;
            assert(lex_lt(b[0].0@, b[j + 1].0@));
            lemma_lex_irreflexive(k);
            assert(i != 0);
            assert(at[i - 1].0@ == k);
        }
        assert forall|i: int, j: int|
            0 <= i < at.len() && 0 <= j < bt.len() && at[i].0@ == bt[j].0@ implies at[i].1
            == bt[j].1 by {
            assert(a[i + 1].0@ == b[j + 1].0@);
        }
        lemma_sorted_fields_canonical(at, bt);
        assert forall|i: int| 0 <= i < a.len() implies a[i].0@ == b[i].0@ && a[i].1 == b[i].1 by {
            if i > 0 {
                assert(at[i - 1].0@ == bt[i - 1].0@ && at[i - 1].1 == bt[i - 1].1);
            }
        }
    }
}

/// Binding two distinct keys lands in the same field list whichever comes
/// first: an object's contents do not depend on the order its fields were
/// added in. `lemma_insert_field_commutes` lifts this to either order.
proof fn lemma_insert_field_commutes_lt<V>(
    s: Seq<(String, V)>,
    k1: String,
    v1: V,
    k2: String,
    v2: V,
)
    requires
        lex_lt(k1@, k2@),
    ensures
        spec_insert_field(spec_insert_field(s, k1, v1), k2, v2) =~= spec_insert_field(
            spec_insert_field(s, k2, v2),
            k1,
            v1,
        ),
    decreases s.len(),
{
    lemma_lex_irreflexive(k1@);
    lemma_lex_irreflexive(k2@);
    lemma_lex_asymmetric(k1@, k2@);
    let a = spec_insert_field(s, k1, v1);
    let b = spec_insert_field(s, k2, v2);
    if s.len() == 0 {
        assert(a =~= seq![(k1, v1)]);
        assert(b =~= seq![(k2, v2)]);
        let a1 = a.subrange(1, a.len() as int);
        assert(a1.len() == 0);
        assert(spec_insert_field(a1, k2, v2) =~= seq![(k2, v2)]);
        assert(!lex_lt(k2@, a[0].0@) && k2@ != a[0].0@);
        assert(spec_insert_field(a, k2, v2) =~= seq![a[0]] + spec_insert_field(a1, k2, v2));
        assert(spec_insert_field(a, k2, v2) =~= seq![(k1, v1), (k2, v2)]);
        assert(spec_insert_field(b, k1, v1) =~= seq![(k1, v1), (k2, v2)]);
    } else {
        let h0 = s[0].0@;
        let t = s.subrange(1, s.len() as int);
        if lex_lt(k2@, h0) {
            lemma_lex_transitive(k1@, k2@, h0);
            assert(a =~= seq![(k1, v1)] + s);
            assert(b =~= seq![(k2, v2)] + s);
            assert(a[0] == (k1, v1));
            assert(spec_insert_field(a, k2, v2) =~= seq![(k1, v1)] + spec_insert_field(
                a.subrange(1, a.len() as int),
                k2,
                v2,
            ));
            assert(a.subrange(1, a.len() as int) =~= s);
            assert(spec_insert_field(b, k1, v1) =~= seq![(k1, v1)] + b);
            assert(spec_insert_field(a, k2, v2) =~= seq![(k1, v1), (k2, v2)] + s);
            assert(spec_insert_field(b, k1, v1) =~= seq![(k1, v1), (k2, v2)] + s);
        } else if k2@ == h0 {
            assert(lex_lt(k1@, h0));
            assert(a =~= seq![(k1, v1)] + s);
            assert(b =~= seq![(k2, v2)] + t);
            assert(a.subrange(1, a.len() as int) =~= s);
            assert(spec_insert_field(a, k2, v2) =~= seq![(k1, v1)] + spec_insert_field(s, k2, v2));
            assert(spec_insert_field(b, k1, v1) =~= seq![(k1, v1)] + b);
        } else {
            // h0 comes before k2
            if !lex_lt(h0, k2@) {
                lemma_lex_connected(k2@, h0);
            }
            lemma_lex_asymmetric(h0, k2@);
            assert(b =~= seq![s[0]] + spec_insert_field(t, k2, v2));
            if lex_lt(k1@, h0) {
                assert(a =~= seq![(k1, v1)] + s);
                assert(a.subrange(1, a.len() as int) =~= s);
                assert(spec_insert_field(a, k2, v2) =~= seq![(k1, v1)] + spec_insert_field(
                    s,
                    k2,
                    v2,
                ));
                assert(spec_insert_field(b, k1, v1) =~= seq![(k1, v1)] + b);
            } else if k1@ == h0 {
                assert(a =~= seq![(k1, v1)] + t);
                assert(a.subrange(1, a.len() as int) =~= t);
                assert(spec_insert_field(a, k2, v2) =~= seq![(k1, v1)] + spec_insert_field(
                    t,
                    k2,
                    v2,
                ));
                let bt = spec_insert_field(t, k2, v2);
                assert(b[0].0@ == k1@);
                assert(b.subrange(1, b.len() as int) =~= bt);
                assert(spec_insert_field(b, k1, v1) =~= seq![(k1, v1)] + bt);
            } else {
                if !lex_lt(h0, k1@) {
                    lemma_lex_connected(k1@, h0);
                }
                lemma_lex_asymmetric(h0, k1@);
                lemma_insert_field_commutes_lt(t, k1, v1, k2, v2);
                assert(a =~= seq![s[0]] + spec_insert_field(t, k1, v1));
                assert(a.subrange(1, a.len() as int) =~= spec_insert_field(t, k1, v1));
                assert(b.subrange(1, b.len() as int) =~= spec_insert_field(t, k2, v2));
                assert(spec_insert_field(a, k2, v2) =~= seq![s[0]] + spec_insert_field(
                    spec_insert_field(t, k1, v1),
                    k2,
                    v2,
                ));
                assert(spec_insert_field(b, k1, v1) =~= seq![s[0]] + spec_insert_field(
                    spec_insert_field(t, k2, v2),
                    k1,
                    v1,
                ));
            }
        }
    }
}

/// Binding two distinct keys is order-independent: the object that results
/// is the same field list either way.
pub proof fn lemma_insert_field_commutes<V>(
    s: Seq<(String, V)>,
    k1: String,
    v1: V,
    k2: String,
    v2: V,
)
    requires
        k1@ != k2@,
    ensures
        spec_insert_field(spec_insert_field(s, k1, v1), k2, v2) =~= spec_insert_field(
            spec_insert_field(s, k2, v2),
            k1,
            v1,
        ),
{
    if !lex_lt(k1@, k2@) && !lex_lt(k2@, k1@) {
        lemma_lex_connected(k1@, k2@);
    }
    if lex_lt(k1@, k2@) {
        lemma_insert_field_commutes_lt(s, k1, v1, k2, v2);
    } else {
        lemma_insert_field_commutes_lt(s, k2, v2, k1, v1);
    }
}

/// Binds `key` to `value` in a sorted field list, in place.
pub fn insert_field<V>(fields: &mut Vec<(String, V)>, key: String, value: V)
    ensures
        final(fields)@ == spec_insert_field(old(fields)@, key, value),
{
    let n: usize = fields.len();
    let mut i: usize = 0;
    while i < n
        invariant
            i <= n,
            n == fields@.len(),
            fields@ == old(fields)@,
            forall|j: int| 0 <= j < i ==> lex_lt(fields@[j].0@, key@),
        decreases n - i,
    {
        let ord = str_compare(fields[i].0.as_str(), key.as_str());
        match ord {
            KeyOrder::Less => {
                i = i + 1;
            }
            KeyOrder::Equal => {
                proof {
                    lemma_lex_irreflexive(key@);
                    lemma_insert_field_at(fields@, key, value, i as int);
                }
                fields.remove(i);
                fields.insert(i, (key, value));
                proof {
                    assert(fields@ =~= old(fields)@.subrange(0, i as int) + seq![(key, value)]
                        + old(fields)@.subrange(i + 1, n as int));
                }
                return;
            }
            KeyOrder::Greater => {
                proof {
                    lemma_insert_field_at(fields@, key, value, i as int);
                }
                fields.insert(i, (key, value));
                proof {
                    assert(fields@ =~= old(fields)@.subrange(0, i as int) + seq![(key, value)]
                        + old(fields)@.subrange(i as int, n as int));
                }
                return;
            }
        }
    }
    proof {
        lemma_insert_field_at(fields@, key, value, n as int);
    }
    fields.push((key, value));
    proof {
        assert(fields@ =~= old(fields)@ + seq![(key, value)]);
    }
}

} // verus!
