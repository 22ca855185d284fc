//! The JSON wire primitives of the transaction log: string escaping, string
//! literals, unsigned numbers and booleans. The log is written and read by
//! this engine alone, so the codec is canonical: the parser accepts exactly
//! the text the encoder produces, and anything else is malformed.
//!
//! Spec parsers work on a suffix of the input and hand back the parsed value
//! with the unconsumed rest; executable parsers walk a `Vec<char>` by index
//! and are proved to agree with them.

use vstd::prelude::*;
use vstd::string::StrSliceExecFns;
use crate::text::{
    all_digits, chars_of_str, dec_digits, dec_val, digit_char, digit_val, fmt_u128, hex_char,
    hex_val, is_digit, is_lower_hex, lemma_dec_digits_shape, lemma_dec_val_of_digits,
    lemma_digit_char_val, lemma_hex_char_val, push_str_chars,
};

verus! {

// ---------------------------------------------------------------------------
// string escaping
// ---------------------------------------------------------------------------

/// A control character below 0x20, from its code.
pub open spec fn ctrl_char(n: nat) -> char {
    (n as u8) as char
}

/// How one character is written inside a JSON string: quote and backslash
/// get a backslash escape, control characters a `\u00XX` escape, everything
/// else stands as itself.
pub open spec fn esc_char(c: char) -> Seq<char> {
    if c == '"' {
        seq!['\\', '"']
    } else if c == '\\' {
        seq!['\\', '\\']
    } else if (c as u32) < 32 {
        seq!['\\', 'u', '0', '0', hex_char((c as u32 / 16) as nat), hex_char(
            (c as u32 % 16) as nat,
        )]
    } else {
        seq![c]
    }
}

pub open spec fn esc(s: Seq<char>) -> Seq<char>
    decreases s.len(),
{
    if s.len() == 0 {
        Seq::empty()
    } else {
        esc_char(s[0]) + esc(s.skip(1))
    }
}

/// A JSON string: the escaped characters between double quotes.
pub open spec fn enc_jstr(s: Seq<char>) -> Seq<char> {
    seq!['"'] + esc(s) + seq!['"']
}

pub proof fn lemma_esc_snoc(s: Seq<char>, c: char)
    ensures
        esc(s.push(c)) == esc(s) + esc_char(c),
    decreases s.len(),
{
    if s.len() == 0 {
        assert(s.push(c)[0] == c);
        assert(s.push(c).skip(1) =~= Seq::<char>::empty());
        assert(esc(Seq::<char>::empty()) == Seq::<char>::empty());
        assert(esc(s) == Seq::<char>::empty());
        assert(esc(s.push(c)) =~= esc(s) + esc_char(c));
    } else {
        assert(s.push(c)[0] == s[0]);
        assert(s.push(c).skip(1) =~= s.skip(1).push(c));
        lemma_esc_snoc(s.skip(1), c);
        assert(esc(s.push(c)) =~= esc(s) + esc_char(c));
    }
}

// ---------------------------------------------------------------------------
// spec parsers
// ---------------------------------------------------------------------------

/// Parses the body of a JSON string up to and over the closing quote.
pub open spec fn p_jbody(s: Seq<char>) -> Option<(Seq<char>, Seq<char>)>
    decreases s.len(),
{
    if s.len() == 0 {
        None
    } else if s[0] == '"' {
        Some((Seq::empty(), s.skip(1)))
    } else if s[0] == '\\' {
        if s.len() < 2 {
            None
        } else if s[1] == '"' || s[1] == '\\' {
            match p_jbody(s.skip(2)) {
                Some((t, r)) => Some((seq![s[1]] + t, r)),
                None => None,
            }
        } else if s[1] == 'u' {
            if s.len() < 6 {
                None
            } else if s[2] == '0' && s[3] == '0' && is_lower_hex(s[4]) && is_lower_hex(s[5])
                && hex_val(s[4]) * 16 + hex_val(s[5]) < 32 {
                match p_jbody(s.skip(6)) {
                    Some((t, r)) => Some(
                        (seq![ctrl_char(hex_val(s[4]) * 16 + hex_val(s[5]))] + t, r),
                    ),
                    None => None,
                }
            } else {
                None
            }
        } else {
            None
        }
    } else if (s[0] as u32) >= 32 {
        match p_jbody(s.skip(1)) {
            Some((t, r)) => Some((seq![s[0]] + t, r)),
            None => None,
        }
    } else {
        None
    }
}

/// Parses a whole JSON string, opening quote included.
pub open spec fn p_jstr(s: Seq<char>) -> Option<(Seq<char>, Seq<char>)> {
    if s.len() > 0 && s[0] == '"' {
        p_jbody(s.skip(1))
    } else {
        None
    }
}

/// Consumes an exact literal.
pub open spec fn p_lit(s: Seq<char>, l: Seq<char>) -> Option<Seq<char>> {
    if l.len() <= s.len() && s.take(l.len() as int) == l {
        Some(s.skip(l.len() as int))
    } else {
        None
    }
}

/// The length of the digit run at the head of `s`.
pub open spec fn digit_run(s: Seq<char>) -> nat
    decreases s.len(),
{
    if s.len() > 0 && is_digit(s[0]) {
        1 + digit_run(s.skip(1))
    } else {
        0
    }
}

/// Parses a canonical unsigned decimal number: a nonempty digit run without
/// a superfluous leading zero, whose value fits the widest integer carried
/// on the wire.
pub open spec fn p_num(s: Seq<char>) -> Option<(nat, Seq<char>)> {
    let k = digit_run(s);
    if k == 0 {
        None
    } else if k > 1 && s[0] == digit_char(0) {
        None
    } else if dec_val(s.take(k as int)) > u128::MAX {
        None
    } else {
        Some((dec_val(s.take(k as int)), s.skip(k as int)))
    }
}

pub open spec fn enc_bool(b: bool) -> Seq<char> {
    if b {
        ("true")@
    } else {
        ("false")@
    }
}

pub open spec fn p_bool(s: Seq<char>) -> Option<(bool, Seq<char>)> {
    if p_lit(s, ("true")@) is Some {
        Some((true, p_lit(s, ("true")@)->Some_0))
    } else if p_lit(s, ("false")@) is Some {
        Some((false, p_lit(s, ("false")@)->Some_0))
    } else {
        None
    }
}

// ---------------------------------------------------------------------------
// inversion: each parser undoes its encoder
// ---------------------------------------------------------------------------

/// Two characters with the same code are the same character.
proof fn lemma_char_code_eq(a: char, b: char)
    requires
        a as u32 == b as u32,
    ensures
        a == b,
{
    vstd::utf8::char_u32_cast(a, a as u32);
    vstd::utf8::char_u32_cast(b, b as u32);
}

pub proof fn lemma_p_lit(l: Seq<char>, rest: Seq<char>)
    ensures
        p_lit(l + rest, l) == Some(rest),
{
    assert((l + rest).take(l.len() as int) =~= l);
    assert((l + rest).skip(l.len() as int) =~= rest);
}

pub proof fn lemma_p_jbody_esc(t: Seq<char>, rest: Seq<char>)
    ensures
        p_jbody(esc(t) + seq!['"'] + rest) == Some((t, rest)),
    decreases t.len(),
{
    let s = esc(t) + seq!['"'] + rest;
    if t.len() == 0 {
        assert(s[0] == '"');
        assert(s.skip(1) =~= rest);
        assert(p_jbody(s)->Some_0.0 =~= t);
    } else {
        let c = t[0];
        let inner = esc(t.skip(1)) + seq!['"'] + rest;
        lemma_p_jbody_esc(t.skip(1), rest);
        assert(esc(t) == esc_char(c) + esc(t.skip(1)));
        assert(s =~= esc_char(c) + inner);
        if c == '"' {
            assert(s[0] == '\\' && s[1] == '"');
            assert(s.skip(2) =~= inner);
            assert(p_jbody(s)->Some_0.0 =~= t);
        } else if c == '\\' {
            assert(s[0] == '\\' && s[1] == '\\');
            assert(s.skip(2) =~= inner);
            assert(p_jbody(s)->Some_0.0 =~= t);
        } else if (c as u32) < 32 {
            let hi = (c as u32 / 16) as nat;
            let lo = (c as u32 % 16) as nat;
            lemma_hex_char_val(hi);
            lemma_hex_char_val(lo);
            assert(s[0] == '\\' && s[1] == 'u' && s[2] == '0' && s[3] == '0');
            assert(s[4] == hex_char(hi) && s[5] == hex_char(lo));
            assert(16 * ((c as u32) / 16) + ((c as u32) % 16) == c as u32) by (nonlinear_arith);
            assert(hex_val(s[4]) * 16 + hex_val(s[5]) == c as u32);
            assert(ctrl_char((c as u32) as nat) as u32 == c as u32);
            lemma_char_code_eq(ctrl_char((c as u32) as nat), c);
            assert(s.skip(6) =~= inner);
            assert(p_jbody(s)->Some_0.0 =~= t);
        } else {
            assert(s[0] == c);
            assert(s.skip(1) =~= inner);
            assert(p_jbody(s)->Some_0.0 =~= t);
        }
    }
}

pub proof fn lemma_p_jstr_enc(t: Seq<char>, rest: Seq<char>)
    ensures
        p_jstr(enc_jstr(t) + rest) == Some((t, rest)),
{
    let s = enc_jstr(t) + rest;
    assert(s[0] == '"');
    assert(s.skip(1) =~= esc(t) + seq!['"'] + rest);
    lemma_p_jbody_esc(t, rest);
}

proof fn lemma_digit_run_of(d: Seq<char>, rest: Seq<char>)
    requires
        all_digits(d),
        rest.len() == 0 || !is_digit(rest[0]),
    ensures
        digit_run(d + rest) == d.len(),
    decreases d.len(),
{
    let s = d + rest;
    if d.len() == 0 {
        assert(s =~= rest);
    } else {
        assert(s[0] == d[0]);
        assert(s.skip(1) =~= d.skip(1) + rest);
        assert(all_digits(d.skip(1)));
        lemma_digit_run_of(d.skip(1), rest);
    }
}

pub proof fn lemma_p_num_enc(n: u128, rest: Seq<char>)
    requires
        rest.len() == 0 || !is_digit(rest[0]),
    ensures
        p_num(dec_digits(n as nat) + rest) == Some((n as nat, rest)),
{
    let d = dec_digits(n as nat);
    let s = d + rest;
    lemma_dec_digits_shape(n as nat);
    lemma_dec_val_of_digits(n as nat);
    lemma_digit_run_of(d, rest);
    assert(s.take(d.len() as int) =~= d);
    assert(s.skip(d.len() as int) =~= rest);
    if d.len() > 1 {
        assert(s[0] == d[0]);
        assert(d[0] != digit_char(0));
    }
}

pub proof fn lemma_p_bool_enc(b: bool, rest: Seq<char>)
    ensures
        p_bool(enc_bool(b) + rest) == Some((b, rest)),
{
    reveal_strlit("true");
    reveal_strlit("false");
    lemma_p_lit(enc_bool(b), rest);
    if !b {
        let s = enc_bool(b) + rest;
        assert(s[0] == 'f');
        if p_lit(s, ("true")@) is Some {
            assert(s.take(4)[0] == 't');
            assert(false);
        }
    }
}

// ---------------------------------------------------------------------------
// executable encoders
// ---------------------------------------------------------------------------

fn e_is_digit(c: char) -> (r: bool)
    ensures
        r == is_digit(c),
{
    let u = c as u32;
    48 <= u && u <= 57
}

fn e_hex_char(n: u8) -> (r: char)
    requires
        n < 16,
    ensures
        r == hex_char(n as nat),
{
    if n < 10 {
        (48 + n) as char
    } else {
        (87 + n) as char
    }
}

fn e_hex_val(c: char) -> (r: Option<u8>)
    ensures
        match r {
            Some(v) => is_lower_hex(c) && v as nat == hex_val(c) && v < 16,
            None => !is_lower_hex(c),
        },
{
    let u = c as u32;
    if 48 <= u && u <= 57 {
        Some((u - 48) as u8)
    } else if 97 <= u && u <= 102 {
        Some((u - 87) as u8)
    } else {
        None
    }
}

/// Appends the JSON string form of `s`, quotes and escapes included.
pub fn push_jstr(out: &mut Vec<char>, s: &str)
    ensures
        final(out)@ == old(out)@ + enc_jstr(s@),
{
    out.push('"');
    let n = s.unicode_len();
    let mut i: usize = 0;
    while i < n
        invariant
            n == s@.len(),
            i <= n,
            out@ == old(out)@ + seq!['"'] + esc(s@.take(i as int)),
        decreases n - i,
    {
        let c = s.get_char(i);
        let u = c as u32;
        if c == '"' {
            out.push('\\');
            out.push('"');
        } else if c == '\\' {
            out.push('\\');
            out.push('\\');
        } else if u < 32 {
            out.push('\\');
            out.push('u');
            out.push('0');
            out.push('0');
            out.push(e_hex_char((u / 16) as u8));
            out.push(e_hex_char((u % 16) as u8));
        } else {
            out.push(c);
        }
        proof {
            lemma_esc_snoc(s@.take(i as int), c);
            assert(s@.take(i + 1 as int) =~= s@.take(i as int).push(c));
            assert(out@ =~= old(out)@ + seq!['"'] + esc(s@.take(i + 1 as int)));
        }
        i = i + 1;
    }
    out.push('"');
    proof {
        assert(s@.take(n as int) =~= s@);
        assert(out@ =~= old(out)@ + enc_jstr(s@));
    }
}

/// Appends the decimal form of `n`.
pub fn push_num(out: &mut Vec<char>, n: u128)
    ensures
        final(out)@ == old(out)@ + dec_digits(n as nat),
{
    let mut d = fmt_u128(n);
    out.append(&mut d);
}

/// Appends `true` or `false`.
pub fn push_bool(out: &mut Vec<char>, b: bool)
    ensures
        final(out)@ == old(out)@ + enc_bool(b),
{
    if b {
        push_str_chars(out, "true");
    } else {
        push_str_chars(out, "false");
    }
}

// ---------------------------------------------------------------------------
// executable parsers
// ---------------------------------------------------------------------------

/// Consumes the literal `l` at position `i`.
pub fn e_lit(s: &Vec<char>, i: usize, l: &str) -> (r: Option<usize>)
    requires
        i <= s@.len(),
    ensures
        match r {
            Some(j) => i <= j <= s@.len() && p_lit(s@.skip(i as int), l@) == Some(
                s@.skip(j as int),
            ),
            None => p_lit(s@.skip(i as int), l@) is None,
        },
{
    let lc = chars_of_str(l);
    let n = s.len();
    if n - i < lc.len() {
        return None;
    }
    let mut k: usize = 0;
    while k < lc.len()
        invariant
            n == s@.len(),
            i + lc@.len() <= n,
            k <= lc@.len(),
            lc@ == l@,
            forall|m: int| 0 <= m < k ==> s@[i + m] == lc@[m],
        decreases lc.len() - k,
    {
        if s[i + k] != lc[k] {
            proof {
                assert(s@.skip(i as int).take(l@.len() as int)[k as int] != l@[k as int]);
            }
            return None;
        }
        k = k + 1;
    }
    proof {
        assert(s@.skip(i as int).take(l@.len() as int) =~= l@);
        assert(s@.skip(i as int).skip(l@.len() as int) =~= s@.skip(i + l@.len()));
    }
    Some(i + lc.len())
}

/// Parses a JSON string at position `i`.
pub fn e_jstr(s: &Vec<char>, i: usize) -> (r: Option<(Vec<char>, usize)>)
    requires
        i <= s@.len(),
    ensures
        match r {
            Some((t, j)) => i <= j <= s@.len() && p_jstr(s@.skip(i as int)) == Some(
                (t@, s@.skip(j as int)),
            ),
            None => p_jstr(s@.skip(i as int)) is None,
        },
{
    if i == s.len() || s[i] != '"' {
        return None;
    }
    let mut acc: Vec<char> = Vec::new();
    let mut j: usize = i + 1;
    proof {
        assert(s@.skip(i as int)[0] == s@[i as int]);
        assert(s@.skip(i as int).skip(1) =~= s@.skip(i as int + 1));
        if let Some((t, r)) = p_jbody(s@.skip(j as int)) {
            assert(acc@ + t =~= t);
        }
    }
    loop
        invariant_except_break
            i + 1 <= j <= s@.len(),
            p_jstr(s@.skip(i as int)) == p_jbody(s@.skip(i as int + 1)),
            match p_jbody(s@.skip(j as int)) {
                Some((t, r)) => p_jbody(s@.skip(i as int + 1)) == Some((acc@ + t, r)),
                None => p_jbody(s@.skip(i as int + 1)) is None,
            },
        ensures
            match p_jstr(s@.skip(i as int)) {
                Some((t, r)) => t == acc@ && i + 1 <= j <= s@.len() && r == s@.skip(j as int),
                None => false,
            },
        decreases s@.len() - j,
    {
        proof {
            if j == s@.len() {
                assert(s@.skip(j as int) =~= Seq::<char>::empty());
            }
        }
        if j == s.len() {
            return None;
        }
        let c = s[j];
        let ghost pre = s@.skip(j as int);
        proof {
            assert(pre[0] == c);
            assert(pre.skip(1) =~= s@.skip(j as int + 1));
        }
        if c == '"' {
            proof {
                assert(p_jbody(pre) == Some((Seq::<char>::empty(), s@.skip(j as int + 1))));
                assert(acc@ + Seq::<char>::empty() =~= acc@);
            }
            j = j + 1;
            break;
        } else if c == '\\' {
            proof {
                if j + 1 == s@.len() {
                    assert(pre.len() < 2);
                }
            }
            if j + 1 == s.len() {
                return None;
            }
            let e = s[j + 1];
            proof {
                assert(pre[1] == e);
                assert(pre.skip(2) =~= s@.skip(j as int + 2));
            }
            if e == '"' || e == '\\' {
                acc.push(e);
                proof {
                    if let Some((t, r)) = p_jbody(s@.skip(j as int + 2)) {
                        assert(p_jbody(pre) == Some((seq![e] + t, r)));
                        assert(acc@ + t =~= acc@.drop_last() + (seq![e] + t));
                    }
                }
                j = j + 2;
            } else if e == 'u' {
                proof {
                    if s@.len() - j < 6 {
                        assert(pre.len() < 6);
                    }
                }
                if s.len() - j < 6 {
                    return None;
                }
                let c2 = s[j + 2];
                let c3 = s[j + 3];
                proof {
                    assert(pre[2] == c2 && pre[3] == c3);
                    assert(pre[4] == s@[j + 4] && pre[5] == s@[j + 5]);
                    assert(pre.skip(6) =~= s@.skip(j as int + 6));
                }
                if c2 != '0' || c3 != '0' {
                    return None;
                }
                let h4 = e_hex_val(s[j + 4]);
                let h5 = e_hex_val(s[j + 5]);
                match (h4, h5) {
                    (Some(hi), Some(lo)) => {
                        let code: u8 = hi * 16 + lo;
                        if code >= 32 {
                            return None;
                        }
                        acc.push(code as char);
                        proof {
                            assert(ctrl_char((hi * 16 + lo) as nat) == code as char);
                            if let Some((t, r)) = p_jbody(s@.skip(j as int + 6)) {
                                assert(p_jbody(pre) == Some(
                                    (seq![ctrl_char((hi * 16 + lo) as nat)] + t, r),
                                ));
                                assert(acc@ + t =~= acc@.drop_last() + (seq![code as char] + t));
                            }
                        }
                        j = j + 6;
                    },
                    _ => {
                        return None;
                    },
                }
            } else {
                return None;
            }
        } else if (c as u32) >= 32 {
            acc.push(c);
            proof {
                if let Some((t, r)) = p_jbody(s@.skip(j as int + 1)) {
                    assert(p_jbody(pre) == Some((seq![c] + t, r)));
                    assert(acc@ + t =~= acc@.drop_last() + (seq![c] + t));
                }
            }
            j = j + 1;
        } else {
            return None;
        }
    }
    Some((acc, j))
}

/// Parses a canonical unsigned decimal number at position `i`.
pub fn e_num(s: &Vec<char>, i: usize) -> (r: Option<(u128, usize)>)
    requires
        i <= s@.len(),
    ensures
        match r {
            Some((v, j)) => i <= j <= s@.len() && p_num(s@.skip(i as int)) == Some(
                (v as nat, s@.skip(j as int)),
            ),
            None => p_num(s@.skip(i as int)) is None,
        },
{
    let ghost suf = s@.skip(i as int);
    let mut j: usize = i;
    while j < s.len() && e_is_digit(s[j])
        invariant
            i <= j <= s@.len(),
            suf == s@.skip(i as int),
            digit_run(suf) == j - i + digit_run(s@.skip(j as int)),
            all_digits(suf.take(j - i)),
        decreases s@.len() - j,
    {
        proof {
            let pre = s@.skip(j as int);
            assert(pre[0] == s@[j as int]);
            assert(pre.skip(1) =~= s@.skip(j as int + 1));
            assert(digit_run(pre) == 1 + digit_run(s@.skip(j as int + 1)));
            assert(all_digits(suf.take(j + 1 - i))) by {
                assert(forall|m: int|
                    0 <= m < j + 1 - i ==> #[trigger] suf.take(j + 1 - i)[m] == s@[i + m]);
            }
        }
        j = j + 1;
    }
    proof {
        let pre = s@.skip(j as int);
        if j == s@.len() {
            assert(pre =~= Seq::<char>::empty());
        }
        assert(digit_run(pre) == 0);
        assert(digit_run(suf) == j - i);
        assert(suf.take(j - i) =~= s@.subrange(i as int, j as int));
        assert(suf.skip(j - i) =~= s@.skip(j as int));
    }
    if j == i {
        return None;
    }
    if j - i > 1 && s[i] == '0' {
        proof {
            assert(suf[0] == digit_char(0));
        }
        return None;
    }
    // accumulate; the run is canonical, so overflow marks a value too wide
    let mut v: u128 = 0;
    let mut k: usize = i;
    while k < j
        invariant
            i <= k <= j <= s@.len(),
            suf == s@.skip(i as int),
            all_digits(suf.take(j - i)),
            digit_run(suf) == j - i,
            v as nat == dec_val(suf.take(k - i)),
        decreases j - k,
    {
        proof {
            assert(suf.take(j - i)[k - i] == s@[k as int]);
            assert(is_digit(s@[k as int]));
            assert(suf.take(k + 1 - i).drop_last() =~= suf.take(k - i));
            assert(suf.take(k + 1 - i).last() == s@[k as int]);
        }
        let d = (s[k] as u32 - 48) as u8;
        if v > (u128::MAX - d as u128) / 10 {
            proof {
                lemma_dec_val_take_mono(suf, (k + 1 - i) as nat, (j - i) as nat);
                assert(dec_val(suf.take(k + 1 - i)) == v as nat * 10 + digit_val(s@[k as int]));
                assert(dec_val(suf.take(j - i)) > u128::MAX);
            }
            return None;
        }
        v = v * 10 + d as u128;
        k = k + 1;
    }
    proof {
        assert(suf.take(k - i) =~= suf.take(j - i));
    }
    Some((v, j))
}

/// Value on a longer canonical digit prefix is no smaller.
proof fn lemma_dec_val_take_mono(s: Seq<char>, a: nat, b: nat)
    requires
        a <= b <= s.len(),
        all_digits(s.take(b as int)),
    ensures
        dec_val(s.take(a as int)) <= dec_val(s.take(b as int)),
    decreases b - a,
{
    if a < b {
        lemma_dec_val_take_mono(s, a, (b - 1) as nat);
        assert(s.take(b as int).drop_last() =~= s.take(b - 1 as int));
        assert(all_digits(s.take(b - 1 as int)));
        assert(dec_val(s.take(b as int)) == dec_val(s.take(b - 1 as int)) * 10 + digit_val(
            s.take(b as int).last(),
        ));
    }
}

/// Parses `true` or `false` at position `i`.
pub fn e_bool(s: &Vec<char>, i: usize) -> (r: Option<(bool, usize)>)
    requires
        i <= s@.len(),
    ensures
        match r {
            Some((b, j)) => i <= j <= s@.len() && p_bool(s@.skip(i as int)) == Some(
                (b, s@.skip(j as int)),
            ),
            None => p_bool(s@.skip(i as int)) is None,
        },
{
    if let Some(j) = e_lit(s, i, "true") {
        return Some((true, j));
    }
    if let Some(j) = e_lit(s, i, "false") {
        return Some((false, j));
    }
    None
}

} // verus!
