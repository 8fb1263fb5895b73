//! Conversions between code-point sequences and strings, and small
//! code-point predicates shared by the tokenizer and the validator.

use vstd::prelude::*;

use crate::constants::CP_FE0F;
use unicode_normalization::UnicodeNormalization;

verus! {

/// A code point that is a Unicode scalar value, i.e. a valid `char`.
pub open spec fn is_scalar_value(cp: u32) -> bool {
    cp < 0xD800 || (0xE000 <= cp && cp <= 0x10FFFF)
}

/// The sequence with every U+FE0F removed.
pub open spec fn filter_fe0f_seq(cps: Seq<u32>) -> Seq<u32> {
    cps.filter(|cp: u32| cp != CP_FE0F)
}

/// The characters denoted by a code-point sequence; code points that are not
/// scalar values are dropped.
pub open spec fn chars_of_cps(cps: Seq<u32>) -> Seq<char> {
    cps.filter(|cp: u32| is_scalar_value(cp)).map_values(|cp: u32| cp as char)
}

/// The code points of a character sequence.
pub open spec fn cps_of_chars(s: Seq<char>) -> Seq<u32> {
    s.map_values(|c: char| c as u32)
}

/// What `unicode_normalization`'s NFC returns on a string: canonical
/// decomposition followed by canonical composition, a function of the
/// characters alone.
pub uninterp spec fn nfc_of(s: Seq<char>) -> Seq<char>;

/// Relies on `char::from_u32`: `Some` exactly on Unicode scalar values, and
/// the returned character has the given code point.
#[verifier::external_body]
fn char_from_u32(cp: u32) -> (r: Option<char>)
    ensures
        r == if is_scalar_value(cp) {
            Some(cp as char)
        } else {
            None::<char>
        },
{
    char::from_u32(cp)
}

/// Relies on `String::push`: appends one character at the end.
#[verifier::external_body]
fn push_char(s: &mut String, c: char)
    ensures
        final(s)@ == old(s)@.push(c),
{
    s.push(c)
}

/// Relies on `unicode_normalization::UnicodeNormalization::nfc`: returns the
/// canonical composition (NFC) of the input, which depends on the characters
/// alone. Normalization forms are idempotent (Unicode Standard Annex #15),
/// so the result is its own NFC.
#[verifier::external_body]
pub fn nfc(str: &str) -> (r: String)
    ensures
        r@ == nfc_of(str@),
        nfc_of(r@) == r@,
{
    str.nfc().collect()
}

/// Removes every U+FE0F (variation selector-16) from the sequence.
pub fn filter_fe0f(cps: &Vec<u32>) -> (r: Vec<u32>)
    ensures
        r@ == filter_fe0f_seq(cps@),
{
    let pred = |cp: u32| cp != CP_FE0F;
    let mut r: Vec<u32> = Vec::new();
    let mut i: usize = 0;
    while i < cps.len()
        invariant
            i <= cps.len(),
            r@ == cps@.take(i as int).filter(|cp: u32| cp != CP_FE0F),
        decreases cps.len() - i,
    {
        proof {
            assert(cps@.take(i + 1) =~= cps@.take(i as int).push(cps@[i as int]));
            cps@.take(i as int).lemma_filter_push(cps@[i as int], |cp: u32| cp != CP_FE0F);
        }
        if cps[i] != CP_FE0F {
            r.push(cps[i]);
        }
        i += 1;
    }
    proof {
        assert(cps@.take(cps@.len() as int) =~= cps@);
    }
    r
}

/// Converts code points to a string; code points that are not Unicode scalar
/// values are dropped.
pub fn cps2str(cps: &Vec<u32>) -> (r: String)
    ensures
        r@ == chars_of_cps(cps@),
{
    let mut r = String::new();
    let mut i: usize = 0;
    while i < cps.len()
        invariant
            i <= cps.len(),
            r@ == chars_of_cps(cps@.take(i as int)),
        decreases cps.len() - i,
    {
        let ghost pred = |cp: u32| is_scalar_value(cp);
        let ghost f = |cp: u32| cp as char;
        let ghost x = cps@[i as int];
        proof {
            assert(cps@.take(i + 1) =~= cps@.take(i as int).push(x));
            cps@.take(i as int).lemma_filter_push(x, pred);
            if pred(x) {
                cps@.take(i as int).filter(pred).lemma_push_map_commute(f, x);
            }
        }
        if let Some(c) = char_from_u32(cps[i]) {
            push_char(&mut r, c);
        }
        i += 1;
    }
    proof {
        assert(cps@.take(cps@.len() as int) =~= cps@);
    }
    r
}

/// Converts one code point to a string (empty if it is not a scalar value).
pub fn cp2str(cp: u32) -> (r: String)
    ensures
        r@ == chars_of_cps(seq![cp]),
{
    let cps: Vec<u32> = vec![cp];
    proof {
        assert(cps@ =~= seq![cp]);
    }
    cps2str(&cps)
}

/// The code points of a string, in order.
pub fn str2cps(str: &str) -> (r: Vec<u32>)
    ensures
        r@ == cps_of_chars(str@),
{
    let n = str.unicode_len();
    let mut r: Vec<u32> = Vec::new();
    let mut i: usize = 0;
    while i < n
        invariant
            i <= n,
            n == str@.len(),
            r@ == cps_of_chars(str@.take(i as int)),
        decreases n - i,
    {
        let c = str.get_char(i);
        r.push(c as u32);
        proof {
            assert(str@.take(i + 1) =~= str@.take(i as int).push(c));
            str@.take(i as int).lemma_push_map_commute(|ch: char| ch as u32, c);
        }
        i += 1;
    }
    proof {
        assert(str@.take(str@.len() as int) =~= str@);
    }
    r
}

/// True for code points in the ASCII range.
pub fn is_ascii(cp: u32) -> (r: bool)
    ensures
        r == (cp <= 0x7F),
{
    cp <= 0x7F
}

/// A decimal digit.
pub open spec fn is_digit_char(c: char) -> bool {
    48 <= c as u32 <= 57
}

/// Every character of the sequence is a decimal digit.
pub open spec fn all_digits(s: Seq<char>) -> bool {
    forall|i: int| 0 <= i < s.len() ==> is_digit_char(#[trigger] s[i])
}

/// The number a digit sequence denotes in base ten.
pub open spec fn digits_value(s: Seq<char>) -> int
    decreases s.len(),
{
    if s.len() == 0 {
        0
    } else {
        digits_value(s.drop_last()) * 10 + (s.last() as u32 - 48)
    }
}

/// The value of a decimal numeral: defined exactly for non-empty digit
/// sequences whose value fits in 32 bits.
pub open spec fn spec_parse_u32(s: Seq<char>) -> Option<u32> {
    if s.len() > 0 && all_digits(s) && digits_value(s) <= u32::MAX {
        Some(digits_value(s) as u32)
    } else {
        None
    }
}

proof fn lemma_digits_value_nonneg(s: Seq<char>)
    requires
        all_digits(s),
    ensures
        digits_value(s) >= 0,
    decreases s.len(),
{
    if s.len() > 0 {
        assert(all_digits(s.drop_last())) by {
            assert(forall|i: int|
                0 <= i < s.drop_last().len() ==> #[trigger] s.drop_last()[i] == s[i]);
        }
        lemma_digits_value_nonneg(s.drop_last());
    }
}

proof fn lemma_digits_prefix_le(s: Seq<char>, k: int)
    requires
        all_digits(s),
        0 <= k <= s.len(),
    ensures
        digits_value(s.take(k)) <= digits_value(s),
    decreases s.len() - k,
{
    if k < s.len() {
        assert(s.take(k + 1).drop_last() =~= s.take(k));
        assert(all_digits(s.take(k))) by {
            assert(forall|i: int| 0 <= i < k ==> #[trigger] s.take(k)[i] == s[i]);
        }
        lemma_digits_value_nonneg(s.take(k));
        assert(digits_value(s.take(k + 1)) == digits_value(s.take(k)) * 10 + (s[k] as u32 - 48));
        assert(digits_value(s.take(k)) * 10 >= digits_value(s.take(k))) by (nonlinear_arith)
            requires
                digits_value(s.take(k)) >= 0,
        ;
        lemma_digits_prefix_le(s, k + 1);
    } else {
        assert(s.take(k) =~= s);
    }
}

/// Parses a decimal numeral; `Some` exactly for non-empty all-digit strings
/// whose value fits in 32 bits.
pub fn parse_decimal(s: &str) -> (r: Option<u32>)
    ensures
        r == spec_parse_u32(s@),
{
    let n = s.unicode_len();
    if n == 0 {
        return None;
    }
    let mut acc: u32 = 0;
    let mut i: usize = 0;
    while i < n
        invariant
            i <= n,
            n == s@.len(),
            s@.len() > 0,
            all_digits(s@.take(i as int)),
            acc == digits_value(s@.take(i as int)),
        decreases n - i,
    {
        let c = s.get_char(i);
        let cv = c as u32;
        proof {
            assert(s@.take(i + 1).drop_last() =~= s@.take(i as int));
            assert(s@.take(i + 1).last() == s@[i as int]);
        }
        if cv < 48 || cv > 57 {
            proof {
                assert(!is_digit_char(s@[i as int]));
                assert(!all_digits(s@));
            }
            return None;
        }
        let d = cv - 48;
        proof {
            assert(all_digits(s@.take(i + 1)));
        }
        if acc > (u32::MAX - d) / 10 {
            proof {
                assert(acc * 10 + d > u32::MAX) by (nonlinear_arith)
                    requires
                        acc > (u32::MAX - d) / 10,
                        0 <= d <= 9,
                ;
                assert(digits_value(s@.take(i + 1)) == acc * 10 + d);
                if all_digits(s@) {
                    lemma_digits_prefix_le(s@, i + 1);
                    assert(digits_value(s@) > u32::MAX);
                }
            }
            return None;
        }
        proof {
            assert(acc * 10 + d <= u32::MAX) by (nonlinear_arith)
                requires
                    acc <= (u32::MAX - d) / 10,
                    0 <= d <= 9,
            ;
        }
        acc = acc * 10 + d;
        i += 1;
    }
    proof {
        assert(s@.take(s@.len() as int) =~= s@);
        lemma_digits_value_nonneg(s@);
    }
    Some(acc)
}

} // verus!
