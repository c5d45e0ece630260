//! Lexicographic order on strings by Unicode code point, the order in which
//! object fields are kept. It agrees with the standard byte-wise order on
//! UTF-8 encoded strings.

use vstd::prelude::*;
use vstd::string::StrSliceExecFns;

verus! {

/// `a` comes strictly before `b` in code-point lexicographic order.
pub open spec fn lex_lt(a: Seq<char>, b: Seq<char>) -> bool
    decreases a.len(),
{
    if b.len() == 0 {
        false
    } else if a.len() == 0 {
        true
    } else if (a[0] as u32) < (b[0] as u32) {
        true
    } else if (a[0] as u32) > (b[0] as u32) {
        false
    } else {
        lex_lt(a.subrange(1, a.len() as int), b.subrange(1, b.len() as int))
    }
}

/// The order is connected: two strings neither of which precedes the other
/// are the same string.
pub proof fn lemma_lex_connected(a: Seq<char>, b: Seq<char>)
    requires
        !lex_lt(a, b),
        !lex_lt(b, a),
    ensures
        a =~= b,
    decreases a.len(),
{
    if b.len() == 0 {
        assert(a.len() == 0);
    } else if a.len() == 0 {
        assert(lex_lt(a, b));
    } else {
        assert((a[0] as u32) == (b[0] as u32));
        vstd::utf8::char_u32_cast(a[0], a[0] as u32);
        vstd::utf8::char_u32_cast(b[0], b[0] as u32);
        assert(a[0] == b[0]);
        lemma_lex_connected(
            a.subrange(1, a.len() as int),
            b.subrange(1, b.len() as int),
        );
        assert(a =~= seq![a[0]] + a.subrange(1, a.len() as int));
        assert(b =~= seq![b[0]] + b.subrange(1, b.len() as int));
    }
}

/// The order is irreflexive.
pub proof fn lemma_lex_irreflexive(a: Seq<char>)
    ensures
        !lex_lt(a, a),
    decreases a.len(),
{
    if a.len() > 0 {
        lemma_lex_irreflexive(a.subrange(1, a.len() as int));
    }
}

/// The order is asymmetric: no two strings precede each other.
pub proof fn lemma_lex_asymmetric(a: Seq<char>, b: Seq<char>)
    requires
        lex_lt(a, b),
    ensures
        !lex_lt(b, a),
    decreases a.len(),
{
    if a.len() > 0 && b.len() > 0 && (a[0] as u32) == (b[0] as u32) {
        lemma_lex_asymmetric(
            a.subrange(1, a.len() as int),
            b.subrange(1, b.len() as int),
        );
    }
}

/// The order is transitive.
pub proof fn lemma_lex_transitive(a: Seq<char>, b: Seq<char>, c: Seq<char>)
    requires
        lex_lt(a, b),
        lex_lt(b, c),
    ensures
        lex_lt(a, c),
    decreases a.len(),
{
    if a.len() > 0 && b.len() > 0 && c.len() > 0 && (a[0] as u32) == (b[0] as u32)
        && (b[0] as u32) == (c[0] as u32) {
        lemma_lex_transitive(
            a.subrange(1, a.len() as int),
            b.subrange(1, b.len() as int),
            c.subrange(1, c.len() as int),
        );
    }
}

/// Three-way comparison of two strings in the order `lex_lt`.
pub enum KeyOrder {
    Less,
    Equal,
    Greater,
}

/// Compares two strings character by character in code-point order.
pub fn str_compare(a: &str, b: &str) -> (r: KeyOrder)
    ensures
        matches!(r, KeyOrder::Less) <==> lex_lt(a@, b@),
        matches!(r, KeyOrder::Greater) <==> lex_lt(b@, a@),
        matches!(r, KeyOrder::Equal) <==> a@ == b@,
{
    let a_len: usize = a.unicode_len();
    let b_len: usize = b.unicode_len();
    let mut i: usize = 0;
    proof {
        assert(a@.subrange(0, a_len as int) =~= a@);
        assert(b@.subrange(0, b_len as int) =~= b@);
        assert(a@.subrange(0, 0) =~= b@.subrange(0, 0));
    }
    loop
        invariant
            i <= a_len,
            i <= b_len,
            a_len == a@.len(),
            b_len == b@.len(),
            a@.subrange(0, i as int) =~= b@.subrange(0, i as int),
            lex_lt(a@, b@) == lex_lt(
                a@.subrange(i as int, a_len as int),
                b@.subrange(i as int, b_len as int),
            ),
            lex_lt(b@, a@) == lex_lt(
                b@.subrange(i as int, b_len as int),
                a@.subrange(i as int, a_len as int),
            ),
        decreases a_len - i,
    {
        if i >= a_len || i >= b_len {
            if a_len < b_len {
                proof {
                    assert(a@.subrange(i as int, a_len as int).len() == 0);
                    assert(b@.subrange(i as int, b_len as int).len() > 0);
                }
                return KeyOrder::Less;
            } else if b_len < a_len {
                proof {
                    assert(b@.subrange(i as int, b_len as int).len() == 0);
                    assert(a@.subrange(i as int, a_len as int).len() > 0);
                }
                return KeyOrder::Greater;
            } else {
                proof {
                    assert(i == a_len && i == b_len);
                    assert(a@.subrange(0, i as int) =~= a@);
                    assert(b@.subrange(0, i as int) =~= b@);
                    assert(a@ =~= b@);
                    lemma_lex_irreflexive(a@);
                }
                return KeyOrder::Equal;
            }
        }
        let ca = a.get_char(i);
        let cb = b.get_char(i);
        let ua = ca as u32;
        let ub = cb as u32;
        if ua < ub {
            proof {
                lemma_prefix_ne(a@, b@, i as int);
            }
            return KeyOrder::Less;
        } else if ub < ua {
            proof {
                lemma_prefix_ne(a@, b@, i as int);
            }
            return KeyOrder::Greater;
        }
        proof {
            let sa = a@.subrange(i as int, a_len as int);
            let sb = b@.subrange(i as int, b_len as int);
            assert(sa.len() > 0 && sb.len() > 0);
            assert(sa[0] == a@[i as int] && sb[0] == b@[i as int]);
            assert((sa[0] as u32) == (sb[0] as u32));
            assert(sa.subrange(1, sa.len() as int) =~= a@.subrange(
                i + 1,
                a_len as int,
            ));
            assert(sb.subrange(1, sb.len() as int) =~= b@.subrange(
                i + 1,
                b_len as int,
            ));
            assert(a@.subrange(0, i + 1) =~= a@.subrange(0, i as int) + seq![a@[i as int]]);
            assert(b@.subrange(0, i + 1) =~= b@.subrange(0, i as int) + seq![b@[i as int]]);
        }
        i = i + 1;
    }
}

/// If the characters at position `i` differ while the prefixes up to `i`
/// agree, the comparison of the suffixes from `i` settles the whole one.
proof fn lemma_prefix_ne(a: Seq<char>, b: Seq<char>, i: int)
    requires
        0 <= i < a.len(),
        i < b.len(),
        (a[i] as u32) != (b[i] as u32),
    ensures
        lex_lt(a.subrange(i, a.len() as int), b.subrange(i, b.len() as int))
            <==> (a[i] as u32) < (b[i] as u32),
        lex_lt(b.subrange(i, b.len() as int), a.subrange(i, a.len() as int))
            <==> (b[i] as u32) < (a[i] as u32),
{
    let sa = a.subrange(i, a.len() as int);
    let sb = b.subrange(i, b.len() as int);
    assert(sa.len() > 0 && sb.len() > 0);
    assert(sa[0] == a[i] && sb[0] == b[i]);
}

} // verus!
