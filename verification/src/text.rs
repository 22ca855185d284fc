//! Characters, decimal numerals and conversions between `str`, `String` and
//! `Vec<char>`. The log codec and the file-name protocol are built on these.

use vstd::prelude::*;
use vstd::string::StrSliceExecFns;

verus! {

// ---------------------------------------------------------------------------
// character classes
// ---------------------------------------------------------------------------

pub open spec fn is_digit(c: char) -> bool {
    48 <= c as u32 && c as u32 <= 57
}

pub open spec fn digit_val(c: char) -> nat {
    (c as u32 - 48) as nat
}

pub open spec fn digit_char(n: nat) -> char {
    ((48 + n) as u8) as char
}

/// Lower-case hexadecimal digit for a value below 16.
pub open spec fn hex_char(n: nat) -> char {
    if n < 10 {
        digit_char(n)
    } else {
        ((87 + n) as u8) as char
    }
}

pub open spec fn is_lower_hex(c: char) -> bool {
    is_digit(c) || (97 <= c as u32 && c as u32 <= 102)
}

pub open spec fn hex_val(c: char) -> nat {
    if is_digit(c) {
        digit_val(c)
    } else {
        (c as u32 - 87) as nat
    }
}

pub proof fn lemma_digit_char_val(n: nat)
    requires
        n < 10,
    ensures
        is_digit(digit_char(n)),
        digit_val(digit_char(n)) == n,
{
}

pub proof fn lemma_hex_char_val(n: nat)
    requires
        n < 16,
    ensures
        is_lower_hex(hex_char(n)),
        hex_val(hex_char(n)) == n,
{
}

// ---------------------------------------------------------------------------
// decimal numerals
// ---------------------------------------------------------------------------

/// The minimal decimal numeral of `n`, most significant digit first.
pub open spec fn dec_digits(n: nat) -> Seq<char>
    decreases n,
{
    if n < 10 {
        seq![digit_char(n)]
    } else {
        dec_digits(n / 10) + seq![digit_char(n % 10)]
    }
}

/// The value of a digit string, most significant digit first.
pub open spec fn dec_val(s: Seq<char>) -> nat
    decreases s.len(),
{
    if s.len() == 0 {
        0
    } else {
        dec_val(s.drop_last()) * 10 + digit_val(s.last())
    }
}

pub open spec fn all_digits(s: Seq<char>) -> bool {
    forall|i: int| 0 <= i < s.len() ==> is_digit(#[trigger] s[i])
}

pub open spec fn ten_pow(k: nat) -> nat
    decreases k,
{
    if k == 0 {
        1
    } else {
        10 * ten_pow((k - 1) as nat)
    }
}

pub proof fn lemma_dec_digits_shape(n: nat)
    ensures
        dec_digits(n).len() >= 1,
        all_digits(dec_digits(n)),
        n > 0 ==> dec_digits(n)[0] != digit_char(0),
    decreases n,
{
    if n >= 10 {
        lemma_dec_digits_shape(n / 10);
        assert forall|i: int| 0 <= i < dec_digits(n).len() implies is_digit(
            #[trigger] dec_digits(n)[i],
        ) by {
            if i < dec_digits(n / 10).len() {
                assert(dec_digits(n)[i] == dec_digits(n / 10)[i]);
            } else {
                assert(dec_digits(n)[i] == digit_char(n % 10));
            }
        }
    }
}

pub proof fn lemma_dec_val_of_digits(n: nat)
    ensures
        dec_val(dec_digits(n)) == n,
    decreases n,
{
    if n < 10 {
        lemma_digit_char_val(n);
        assert(dec_digits(n).drop_last() =~= Seq::<char>::empty());
        assert(dec_val(Seq::<char>::empty()) == 0);
        assert(dec_val(dec_digits(n)) == dec_val(dec_digits(n).drop_last()) * 10 + digit_val(
            dec_digits(n).last(),
        ));
        assert(dec_digits(n).last() == digit_char(n));
    } else {
        lemma_digit_char_val(n % 10);
        lemma_dec_val_of_digits(n / 10);
        assert(dec_digits(n).drop_last() =~= dec_digits(n / 10));
        assert(dec_digits(n).last() == digit_char(n % 10));
        assert(dec_val(dec_digits(n)) == dec_val(dec_digits(n / 10)) * 10 + digit_val(
            digit_char(n % 10),
        ));
        assert(dec_val(dec_digits(n)) == (n / 10) * 10 + n % 10);
        vstd::arithmetic::div_mod::lemma_fundamental_div_mod(n as int, 10);
    }
}

pub proof fn lemma_dec_digits_len(n: nat, k: nat)
    requires
        n < ten_pow(k),
        k >= 1,
    ensures
        dec_digits(n).len() <= k,
    decreases k,
{
    if n >= 10 {
        assert(ten_pow(k) == 10 * ten_pow((k - 1) as nat));
        lemma_dec_digits_len(n / 10, (k - 1) as nat);
    }
}

pub proof fn lemma_ten_pow_mono(a: nat, b: nat)
    requires
        a <= b,
    ensures
        ten_pow(a) <= ten_pow(b),
    decreases b,
{
    if a < b {
        lemma_ten_pow_mono(a, (b - 1) as nat);
        assert(ten_pow(b) == 10 * ten_pow((b - 1) as nat));
    }
}

/// A run of `k` zero characters.
pub open spec fn zeros(k: nat) -> Seq<char> {
    Seq::new(k, |i: int| digit_char(0))
}

pub proof fn lemma_dec_val_zeros_prefix(k: nat, s: Seq<char>)
    ensures
        dec_val(zeros(k) + s) == dec_val(s),
    decreases s.len(), k,
{
    if s.len() == 0 {
        if k > 0 {
            assert((zeros(k) + s).drop_last() =~= zeros((k - 1) as nat) + s);
            assert((zeros(k) + s).last() == digit_char(0));
            lemma_dec_val_zeros_prefix((k - 1) as nat, s);
        } else {
            assert(zeros(0) + s =~= s);
        }
    } else {
        assert((zeros(k) + s).drop_last() =~= zeros(k) + s.drop_last());
        assert((zeros(k) + s).last() == s.last());
        lemma_dec_val_zeros_prefix(k, s.drop_last());
    }
}

/// The numeral of `n` zero-padded on the left to at least `w` characters,
/// as the `{:0>w}` format writes it.
pub open spec fn padded_dec(n: nat, w: nat) -> Seq<char> {
    if dec_digits(n).len() >= w {
        dec_digits(n)
    } else {
        zeros((w - dec_digits(n).len()) as nat) + dec_digits(n)
    }
}

pub proof fn lemma_padded_dec_shape(n: nat, w: nat)
    ensures
        padded_dec(n, w).len() >= w,
        all_digits(padded_dec(n, w)),
        dec_val(padded_dec(n, w)) == n,
{
    lemma_dec_digits_shape(n);
    lemma_dec_val_of_digits(n);
    if dec_digits(n).len() < w {
        let k = (w - dec_digits(n).len()) as nat;
        lemma_dec_val_zeros_prefix(k, dec_digits(n));
        assert forall|i: int| 0 <= i < padded_dec(n, w).len() implies is_digit(
            #[trigger] padded_dec(n, w)[i],
        ) by {
            if i >= k {
                assert(padded_dec(n, w)[i] == dec_digits(n)[i - k]);
            }
        }
    }
}

// ---------------------------------------------------------------------------
// executable character and string helpers
// ---------------------------------------------------------------------------

/// The characters of a string slice, in order.
pub fn chars_of_str(s: &str) -> (r: Vec<char>)
    ensures
        r@ == s@,
{
    let n = s.unicode_len();
    let mut r: Vec<char> = Vec::new();
    let mut i: usize = 0;
    while i < n
        invariant
            n == s@.len(),
            i <= n,
            r@ == s@.take(i as int),
        decreases n - i,
    {
        r.push(s.get_char(i));
        i = i + 1;
        assert(r@ =~= s@.take(i as int));
    }
    assert(r@ =~= s@);
    r
}

/// Relies on `String`'s `FromIterator<char>` impl: collecting characters
/// builds the string holding exactly those characters in order.
#[verifier::external_body]
pub fn string_from_chars(cs: &Vec<char>) -> (r: String)
    ensures
        r@ == cs@,
{
    cs.iter().collect()
}

/// Appends the characters of `s` to `out`.
pub fn push_str_chars(out: &mut Vec<char>, s: &str)
    ensures
        final(out)@ == old(out)@ + s@,
{
    let n = s.unicode_len();
    let mut i: usize = 0;
    while i < n
        invariant
            n == s@.len(),
            i <= n,
            out@ == old(out)@ + s@.take(i as int),
        decreases n - i,
    {
        out.push(s.get_char(i));
        i = i + 1;
        assert(out@ =~= old(out)@ + s@.take(i as int));
    }
    assert(out@ =~= old(out)@ + s@);
}

/// Character-wise equality of two character vectors.
pub fn chars_eq(a: &Vec<char>, b: &Vec<char>) -> (r: bool)
    ensures
        r == (a@ == b@),
{
    if a.len() != b.len() {
        return false;
    }
    let mut i: usize = 0;
    while i < a.len()
        invariant
            a.len() == b.len(),
            i <= a.len(),
            forall|j: int| 0 <= j < i ==> a@[j] == b@[j],
        decreases a.len() - i,
    {
        if a[i] != b[i] {
            return false;
        }
        i = i + 1;
    }
    proof {
        assert(a@ =~= b@);
    }
    true
}

/// Writes the minimal decimal numeral of `n`.
pub fn fmt_u128(n: u128) -> (r: Vec<char>)
    ensures
        r@ == dec_digits(n as nat),
{
    let mut rev: Vec<char> = Vec::new();
    let mut m: u128 = n;
    loop
        invariant_except_break
            (m == n && rev@ =~= Seq::<char>::empty()) || (m > 0 && dec_digits(n as nat)
                =~= dec_digits(m as nat) + rev@.reverse()),
        ensures
            dec_digits(n as nat) == rev@.reverse(),
        decreases m,
    {
        let d = m % 10;
        rev.push(((48 + d as u8)) as char);
        proof {
            assert(rev@.last() == digit_char((m % 10) as nat));
            assert(rev@.reverse() =~= seq![digit_char((m % 10) as nat)]
                + rev@.drop_last().reverse());
            if m == n && rev@.drop_last() =~= Seq::<char>::empty() {
                assert(rev@.reverse() =~= seq![digit_char((m % 10) as nat)]);
                if m < 10 {
                    assert(dec_digits(n as nat) =~= rev@.reverse());
                } else {
                    assert(dec_digits(n as nat) =~= dec_digits((m / 10) as nat)
                        + rev@.reverse());
                }
            } else {
                if m < 10 {
                    assert(dec_digits(m as nat) =~= seq![digit_char(m as nat)]);
                    assert(dec_digits(n as nat) =~= rev@.reverse());
                } else {
                    assert(dec_digits(m as nat) =~= dec_digits((m / 10) as nat)
                        + seq![digit_char((m % 10) as nat)]);
                    assert(dec_digits(n as nat) =~= dec_digits((m / 10) as nat)
                        + rev@.reverse());
                }
            }
        }
        m = m / 10;
        if m == 0 {
            break;
        }
    }
    let mut r: Vec<char> = Vec::new();
    let mut i: usize = rev.len();
    while i > 0
        invariant
            i <= rev.len(),
            r@ == rev@.skip(i as int).reverse(),
        decreases i,
    {
        i = i - 1;
        r.push(rev[i]);
        proof {
            assert(rev@.skip(i as int) =~= seq![rev@[i as int]] + rev@.skip(i as int + 1));
            assert(rev@.skip(i as int).reverse() =~= rev@.skip(i as int + 1).reverse()
                + seq![rev@[i as int]]);
        }
    }
    proof {
        assert(rev@.skip(0) =~= rev@);
    }
    r
}

/// Writes `n` zero-padded to 20 characters, as the log and data file-name
/// protocol requires.
pub fn fmt_padded20(n: u64) -> (r: Vec<char>)
    ensures
        r@ == padded_dec(n as nat, 20),
        r@.len() == 20,
{
    let digits = fmt_u128(n as u128);
    proof {
        reveal_with_fuel(ten_pow, 21);
        assert(ten_pow(20) > u64::MAX);
        lemma_dec_digits_len(n as nat, 20);
    }
    let mut r: Vec<char> = Vec::new();
    while r.len() + digits.len() < 20
        invariant
            digits@ == dec_digits(n as nat),
            r@ == zeros(r@.len()),
            r@.len() + digits@.len() <= 20,
        decreases 20 - r.len(),
    {
        r.push('0');
        proof {
            assert(r@ =~= zeros(r@.len()));
        }
    }
    let mut digits = digits;
    r.append(&mut digits);
    proof {
        if dec_digits(n as nat).len() >= 20 {
            assert(r@ =~= dec_digits(n as nat));
        }
    }
    r
}

} // verus!
