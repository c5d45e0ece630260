//! Character-level rules for rendering string literals as GraphQL source
//! text. Carriage return, line feed, tab, double quote and backslash pass
//! through as themselves, as does every character from U+0020 up to U+FFFF;
//! any other character is written as `\u` followed by its code point's
//! decimal digits in a zero-padded 4-digit field. These rules, including
//! the unescaped quote and backslash and the decimal (not hexadecimal)
//! digits, are the module's exact contract: downstream readers of the
//! rendered text depend on them as they stand.

use vstd::prelude::*;
use vstd::string::StrSliceExecFns;

verus! {

/// The character for a single decimal digit.
pub open spec fn digit_char(d: nat) -> char {
    ((d + 0x30) as u8) as char
}

/// The decimal digits of `n`, most significant first, no leading zeros.
pub open spec fn dec_digits(n: nat) -> Seq<char>
    decreases n,
{
    if n < 10 {
        seq![digit_char(n)]
    } else {
        dec_digits(n / 10) + seq![digit_char(n % 10)]
    }
}

/// The decimal digits of `n` left-padded with zeros to at least 4 digits:
/// the field written after `\u`.
pub open spec fn dec_escape(n: nat) -> Seq<char> {
    let d = dec_digits(n);
    if d.len() >= 4 {
        d
    } else {
        Seq::new((4 - d.len()) as nat, |i: int| '0') + d
    }
}

/// What one character of a string literal renders as.
pub open spec fn esc_char(c: char) -> Seq<char> {
    if c == '\r' || c == '\n' || c == '\t' {
        seq![c]
    } else if 0x20 <= (c as u32) && (c as u32) <= 0xFFFF {
        seq![c]
    } else {
        seq!['\\', 'u'] + dec_escape((c as u32) as nat)
    }
}

/// What a whole string renders as between the quotes.
pub open spec fn escape_seq(s: Seq<char>) -> Seq<char>
    decreases s.len(),
{
    if s.len() == 0 {
        Seq::empty()
    } else {
        escape_seq(s.subrange(0, s.len() - 1)) + esc_char(s[s.len() - 1])
    }
}

/// A string literal: the escaped text between double quotes.
pub open spec fn quoted(s: Seq<char>) -> Seq<char> {
    seq!['"'] + escape_seq(s) + seq!['"']
}

/// Appends the `\u` decimal field for code point `n` to `out`.
pub fn push_dec_escape(n: u32, out: &mut Vec<char>)
    ensures
        final(out)@ == old(out)@ + dec_escape(n as nat),
{
    let mut digits: Vec<char> = Vec::new();
    let mut m: u32 = n;
    loop
        invariant_except_break
            dec_digits(n as nat) =~= dec_digits(m as nat) + digits@,
        ensures
            dec_digits(n as nat) =~= digits@,
        decreases m,
    {
        let d: u8 = (m % 10) as u8;
        let c = (48 + d) as char;
        proof {
            assert(c == digit_char((m % 10) as nat));
        }
        digits.insert(0, c);
        proof {
            if m >= 10 {
                assert(dec_digits(m as nat) =~= dec_digits((m / 10) as nat) + seq![
                    digit_char((m % 10) as nat),
                ]);
            }
        }
        m = m / 10;
        if m == 0 {
            break;
        }
    }
    let ghost dd = dec_digits(n as nat);
    while digits.len() < 4
        invariant
            dd.len() <= digits@.len(),
            digits@.len() == dd.len() || (dd.len() < 4 && digits@.len() <= 4),
            digits@.subrange(digits@.len() - dd.len(), digits@.len() as int) =~= dd,
            forall|i: int| 0 <= i < digits@.len() - dd.len() ==> digits@[i] == '0',
        decreases 4 - digits@.len(),
    {
        digits.insert(0, '0');
        proof {
            assert(digits@.subrange(digits@.len() - dd.len(), digits@.len() as int) =~= dd);
        }
    }
    proof {
        if dd.len() >= 4 {
            assert(digits@ =~= dd);
            assert(digits@ =~= dec_escape(n as nat));
        } else {
            assert(digits@.len() == 4);
            assert(digits@ =~= Seq::new((4 - dd.len()) as nat, |i: int| '0') + dd);
            assert(digits@ =~= dec_escape(n as nat));
        }
    }
    out.append(&mut digits);
}

/// Writes `s` as a GraphQL string literal onto `out`: a double quote, each
/// character under the escaping rules above, and a closing double quote.
pub fn write_quoted(s: &str, out: &mut Vec<char>)
    ensures
        final(out)@ == old(out)@ + quoted(s@),
{
    out.push('"');
    let n: usize = s.unicode_len();
    let mut i: usize = 0;
    while i < n
        invariant
            i <= n,
            n == s@.len(),
            out@ =~= old(out)@ + seq!['"'] + escape_seq(s@.subrange(0, i as int)),
        decreases n - i,
    {
        let c = s.get_char(i);
        let u = c as u32;
        if c == '\r' {
            out.push('\r');
        } else if c == '\n' {
            out.push('\n');
        } else if c == '\t' {
            out.push('\t');
        } else if c == '"' {
            out.push('"');
        } else if c == '\\' {
            out.push('\\');
        } else if 0x20 <= u && u <= 0xFFFF {
            out.push(c);
        } else {
            out.push('\\');
            out.push('u');
            push_dec_escape(u, out);
        }
        proof {
            let pre = s@.subrange(0, i as int);
            let pre1 = s@.subrange(0, i + 1);
            assert(pre1.subrange(0, i as int) =~= pre);
            assert(pre1[i as int] == s@[i as int]);
            assert(escape_seq(pre1) =~= escape_seq(pre) + esc_char(s@[i as int]));
            assert(out@ =~= old(out)@ + seq!['"'] + escape_seq(pre1));
        }
        i = i + 1;
    }
    proof {
        assert(s@.subrange(0, n as int) =~= s@);
    }
    out.push('"');
    proof {
        assert(out@ =~= old(out)@ + quoted(s@));
    }
}

} // verus!
