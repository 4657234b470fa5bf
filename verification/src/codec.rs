use vstd::prelude::*;
use vstd::string::*;

use crate::dec::{pow10, Dec};
use crate::token::{TokenRecord, TokenV, Unlock};

verus! {

/// Whether a byte is a decimal digit.
pub open spec fn is_digit(b: u8) -> bool {
    48 <= b <= 57
}

/// The byte of one decimal digit.
pub open spec fn digit_byte(n: nat) -> u8
    recommends
        n < 10,
{
    (48 + n) as u8
}

/// The value of one decimal digit byte.
pub open spec fn digit_val(b: u8) -> nat
    recommends
        is_digit(b),
{
    (b - 48) as nat
}

/// A number written as exactly `w` decimal digits, zero padded on the left.
pub open spec fn pad(n: nat, w: nat) -> Seq<u8>
    recommends
        n < pow10(w),
    decreases w,
{
    if w == 0 {
        Seq::empty()
    } else {
        pad(n / 10, (w - 1) as nat).push(digit_byte(n % 10))
    }
}

/// Whether every byte of a sequence is a decimal digit.
pub open spec fn all_digits(s: Seq<u8>) -> bool {
    forall|k: int| 0 <= k < s.len() ==> is_digit(#[trigger] s[k])
}

/// The value of a sequence of decimal digit bytes.
pub open spec fn seq_val(s: Seq<u8>) -> nat
    decreases s.len(),
{
    if s.len() == 0 {
        0
    } else {
        seq_val(s.drop_last()) * 10 + digit_val(s.last())
    }
}

/// A padded number is `w` digits denoting the number itself.
pub proof fn lemma_pad_facts(n: nat, w: nat)
    requires
        n < pow10(w),
    ensures
        pad(n, w).len() == w,
        all_digits(pad(n, w)),
        seq_val(pad(n, w)) == n,
    decreases w,
{
    if w == 0 {
        assert(pow10(0) == 1);
    } else {
        assert(n / 10 < pow10((w - 1) as nat)) by (nonlinear_arith)
            requires
                n < pow10(w),
                pow10(w) == 10 * pow10((w - 1) as nat),
                pow10((w - 1) as nat) >= 0,
        ;
        lemma_pad_facts(n / 10, (w - 1) as nat);
        let s = pad(n / 10, (w - 1) as nat).push(digit_byte(n % 10));
        assert(s.drop_last() =~= pad(n / 10, (w - 1) as nat));
        assert(s.last() == digit_byte(n % 10));
        assert(seq_val(s) == (n / 10) * 10 + n % 10);
        assert((n / 10) * 10 + n % 10 == n);
        assert forall|k: int| 0 <= k < s.len() implies is_digit(#[trigger] s[k]) by {
            if k < s.len() - 1 {
                assert(s[k] == pad(n / 10, (w - 1) as nat)[k]);
            }
        }
    }
}

/// The value of a digit prefix never exceeds the value of the whole run.
pub proof fn lemma_seq_val_prefix(s: Seq<u8>, k: int)
    requires
        0 <= k <= s.len(),
    ensures
        seq_val(s.subrange(0, k)) <= seq_val(s),
    decreases s.len() - k,
{
    if k < s.len() {
        lemma_seq_val_prefix(s, k + 1);
        let t = s.subrange(0, k + 1);
        assert(t.drop_last() =~= s.subrange(0, k));
        assert(seq_val(t) == seq_val(s.subrange(0, k)) * 10 + digit_val(t.last()));
    } else {
        assert(s.subrange(0, k) =~= s);
    }
}

/// Append the decimal digits of `n`, zero padded to exactly `w` digits.
pub fn push_pad(out: &mut Vec<u8>, n: u128, w: usize)
    requires
        n < pow10(w as nat),
    ensures
        final(out)@ == old(out)@ + pad(n as nat, w as nat),
    decreases w,
{
    if w == 0 {
        proof {
            assert(out@ =~= old(out)@ + pad(n as nat, 0));
        }
    } else {
        proof {
            assert(pow10(w as nat) == 10 * pow10((w - 1) as nat));
            assert(n / 10 < pow10((w - 1) as nat)) by (nonlinear_arith)
                requires
                    n < pow10(w as nat),
                    pow10(w as nat) == 10 * pow10((w - 1) as nat),
                    pow10((w - 1) as nat) >= 0,
            ;
        }
        push_pad(out, n / 10, w - 1);
        out.push((n % 10) as u8 + 48);
        proof {
            assert(out@ =~= old(out)@ + pad(n as nat, w as nat));
        }
    }
}

/// Parse exactly `w` digit bytes at `i` as a number. Where the input carries
/// a representable number padded to `w` digits, that number is returned with
/// the position after it.
pub fn parse_pad(s: &Vec<u8>, i: usize, w: usize) -> (r: Option<(u128, usize)>)
    ensures
        r matches Some(p) ==> p.1 == i + w && p.1 <= s.len(),
        forall|n: nat|
            (n <= u128::MAX && n < pow10(w as nat) && i + w <= s.len() && s@.subrange(
                i as int,
                i + w,
            ) == pad(n, w as nat)) ==> (r matches Some(p) && p.0 == n),
{
    if i > s.len() || s.len() - i < w {
        return None;
    }
    let mut acc: u128 = 0;
    let mut k = i;
    while k < i + w
        invariant
            i <= k <= i + w <= s.len(),
            acc == seq_val(s@.subrange(i as int, k as int)),
            acc <= u128::MAX,
        decreases i + w - k,
    {
        let b = s[k];
        if b < 48 || b > 57 {
            proof {
                assert forall|n: nat|
                    !(n <= u128::MAX && n < pow10(w as nat) && i + w <= s.len() && s@.subrange(
                        i as int,
                        i + w,
                    ) == pad(n, w as nat)) by {
                    if n <= u128::MAX && n < pow10(w as nat) && i + w <= s.len() && s@.subrange(
                        i as int,
                        i + w,
                    ) == pad(n, w as nat) {
                        lemma_pad_facts(n, w as nat);
                        assert(s@[k as int] == pad(n, w as nat)[k - i]);
                    }
                }
            }
            return None;
        }
        let d = b - 48;
        let ghost prefix = s@.subrange(i as int, k as int);
        let ghost next = s@.subrange(i as int, k + 1 as int);
        proof {
            assert(next.drop_last() =~= prefix);
            assert(seq_val(next) == acc * 10 + d);
        }
        if acc > 34028236692093846346337460743176821145u128 || (acc
            == 34028236692093846346337460743176821145u128 && d > 5) {
            proof {
                assert(seq_val(next) > u128::MAX);
                assert forall|n: nat|
                    !(n <= u128::MAX && n < pow10(w as nat) && i + w <= s.len() && s@.subrange(
                        i as int,
                        i + w,
                    ) == pad(n, w as nat)) by {
                    if n <= u128::MAX && n < pow10(w as nat) && i + w <= s.len() && s@.subrange(
                        i as int,
                        i + w,
                    ) == pad(n, w as nat) {
                        lemma_pad_facts(n, w as nat);
                        let whole = s@.subrange(i as int, i + w as int);
                        assert(seq_val(whole) == n);
                        lemma_seq_val_prefix(whole, k + 1 - i);
                        assert(whole.subrange(0, k + 1 - i) =~= next);
                    }
                }
            }
            return None;
        }
        acc = acc * 10 + (d as u128);
        k = k + 1;
    }
    proof {
        assert forall|n: nat|
            (n <= u128::MAX && n < pow10(w as nat) && i + w <= s.len() && s@.subrange(
                i as int,
                i + w,
            ) == pad(n, w as nat)) implies acc == n by {
            lemma_pad_facts(n, w as nat);
            assert(s@.subrange(i as int, i + w) =~= s@.subrange(i as int, k as int));
        }
    }
    Some((acc, k))
}

/// Match one byte at `i`, yielding the position after it.
pub fn eat(s: &Vec<u8>, i: usize, b: u8) -> (r: Option<usize>)
    ensures
        r matches Some(j) ==> j == i + 1 && j <= s.len() && s@[i as int] == b,
        (i < s.len() && s@[i as int] == b) ==> (r matches Some(j) && j == i + 1),
{
    if i < s.len() && s[i] == b {
        Some(i + 1)
    } else {
        None
    }
}

/// How many digits each padded atom carries: a mantissa, a scale, a
/// character code, an unlock date, an identity.
pub const W_MANT: usize = 29;

/// Digits of a padded scale.
pub const W_SCALE: usize = 2;

/// Digits of a padded character code.
pub const W_CODE: usize = 7;

/// Digits of a padded unlock date.
pub const W_DATE: usize = 12;

/// Digits of a padded identity.
pub const W_ID: usize = 39;

/// The encoding of a decimal: a two-element array of quoted digit strings,
/// the signed zero-padded mantissa and the zero-padded scale.
pub open spec fn enc_dec(d: Dec) -> Seq<u8> {
    seq![91u8, 34u8, sign_byte(d.mantissa as int)] + pad(abs(d.mantissa as int), W_MANT as nat)
        + seq![34u8, 44u8, 34u8] + pad(d.scale as nat, W_SCALE as nat) + seq![34u8, 93u8]
}

/// The sign byte of a mantissa.
pub open spec fn sign_byte(m: int) -> u8 {
    if m < 0 {
        45
    } else {
        43
    }
}

/// The magnitude of an integer.
pub open spec fn abs(m: int) -> nat {
    if m < 0 {
        (-m) as nat
    } else {
        m as nat
    }
}

/// Total width of an encoded decimal.
pub const W_DEC: usize = 39;

/// The hypothesis under which a decimal parse at `i` is owed `d`: the input
/// carries the encoding of the well-formed decimal there.
pub open spec fn dec_at(s: Seq<u8>, i: int, d: Dec) -> bool {
    &&& d.wf()
    &&& 0 <= i
    &&& i + W_DEC <= s.len()
    &&& s.subrange(i, i + W_DEC) == enc_dec(d)
}

/// Append the encoding of a decimal.
pub fn push_dec(out: &mut Vec<u8>, d: &Dec)
    requires
        d.wf(),
    ensures
        final(out)@ == old(out)@ + enc_dec(*d),
        enc_dec(*d).len() == W_DEC,
{
    proof {
        crate::dec::lemma_pow10_value();
        lemma_pow10_chain();
        lemma_pad_facts(abs(d.mantissa as int), W_MANT as nat);
        lemma_pad_facts(d.scale as nat, W_SCALE as nat);
    }
    out.push(91);
    out.push(34);
    if d.mantissa < 0 {
        out.push(45);
    } else {
        out.push(43);
    }
    let magnitude: u128 = if d.mantissa < 0 {
        (-d.mantissa) as u128
    } else {
        d.mantissa as u128
    };
    push_pad(out, magnitude, W_MANT);
    out.push(34);
    out.push(44);
    out.push(34);
    push_pad(out, d.scale as u128, W_SCALE);
    out.push(34);
    out.push(93);
    proof {
        assert(out@ =~= old(out)@ + enc_dec(*d));
    }
}

/// Powers of ten used for the padded widths, related to the scale ceiling.
pub proof fn lemma_pow10_chain()
    ensures
        pow10(W_MANT as nat) == 100000000000000000000000000000,
        pow10(W_SCALE as nat) == 100,
        pow10(W_CODE as nat) == 10000000,
        pow10(W_DATE as nat) == 1000000000000,
        pow10(W_ID as nat) > u128::MAX,
{
    reveal_with_fuel(pow10, 40);
}

/// Parse an encoded decimal at `i`. Where the input carries the encoding of
/// a well-formed decimal, that decimal is returned with the position after
/// it.
pub fn parse_dec(s: &Vec<u8>, i: usize) -> (r: Option<(Dec, usize)>)
    ensures
        r matches Some(p) ==> p.1 == i + W_DEC && p.1 <= s.len() && p.0.wf(),
        forall|d: Dec| dec_at(s@, i as int, d) ==> (r matches Some(p) && p.0 == d && p.1 == i
            + W_DEC),
{
    if i > s.len() || s.len() - i < W_DEC {
        return None;
    }
    proof {
        lemma_pow10_chain();
        assert forall|d: Dec| dec_at(s@, i as int, d) implies {
            let e = enc_dec(d);
            &&& s@[i as int] == 91
            &&& s@[i + 1] == 34
            &&& s@[i + 2] == sign_byte(d.mantissa as int)
            &&& s@.subrange(i + 3, i + 3 + W_MANT) == pad(abs(d.mantissa as int), W_MANT as nat)
            &&& s@[i + 32] == 34
            &&& s@[i + 33] == 44
            &&& s@[i + 34] == 34
            &&& s@.subrange(i + 35, i + 35 + W_SCALE) == pad(d.scale as nat, W_SCALE as nat)
            &&& s@[i + 37] == 34
            &&& s@[i + 38] == 93
        } by {
            let e = enc_dec(d);
            let pm = pad(abs(d.mantissa as int), W_MANT as nat);
            let ps = pad(d.scale as nat, W_SCALE as nat);
            let head = seq![91u8, 34u8, sign_byte(d.mantissa as int)];
            let mid = seq![34u8, 44u8, 34u8];
            let tail = seq![34u8, 93u8];
            lemma_pad_facts(abs(d.mantissa as int), W_MANT as nat);
            lemma_pad_facts(d.scale as nat, W_SCALE as nat);
            assert(e == head + pm + mid + ps + tail);
            assert(e.len() == W_DEC);
            assert forall|q: int| 0 <= q < W_DEC implies s@[i + q] == e[q] by {
                assert(e[q] == s@.subrange(i as int, i + W_DEC)[q]);
            }
            assert forall|q: int| 0 <= q < W_MANT implies e[3 + q] == pm[q] by {
                assert(e[3 + q] == (head + pm)[3 + q]);
            }
            assert forall|q: int| 0 <= q < W_SCALE implies e[35 + q] == ps[q] by {
                assert(e[35 + q] == (head + pm + mid + ps)[35 + q]);
                assert((head + pm + mid + ps)[35 + q] == ps[q]);
            }
            assert(s@.subrange(i + 3, i + 3 + W_MANT) =~= pm);
            assert(s@.subrange(i + 35, i + 35 + W_SCALE) =~= ps);
            assert(e[0] == (head + pm)[0]);
            assert(e[1] == (head + pm)[1]);
            assert(e[2] == (head + pm)[2]);
            assert(e[32] == (head + pm + mid)[32]);
            assert(e[33] == (head + pm + mid)[33]);
            assert(e[34] == (head + pm + mid)[34]);
            assert(e[37] == (head + pm + mid + ps + tail)[37]);
            assert(e[38] == (head + pm + mid + ps + tail)[38]);
        }
    }
    let c0 = eat(s, i, 91);
    let c1 = eat(s, i + 1, 34);
    let plus = eat(s, i + 2, 43);
    let minus = eat(s, i + 2, 45);
    let mant = parse_pad(s, i + 3, W_MANT);
    let c2 = eat(s, i + 32, 34);
    let c3 = eat(s, i + 33, 44);
    let c4 = eat(s, i + 34, 34);
    let scale = parse_pad(s, i + 35, W_SCALE);
    let c5 = eat(s, i + 37, 34);
    let c6 = eat(s, i + 38, 93);
    if c0.is_some() && c1.is_some() && (plus.is_some() || minus.is_some()) && c2.is_some()
        && c3.is_some() && c4.is_some() && c5.is_some() && c6.is_some() {
        if let (Some((m, _)), Some((sc, _))) = (mant, scale) {
            if m <= 79228162514264337593543950335u128 && sc <= 28 {
                let mantissa: i128 = if minus.is_some() {
                    -(m as i128)
                } else {
                    m as i128
                };
                let d = Dec { mantissa, scale: sc as u32 };
                return Some((d, i + W_DEC));
            }
        }
    }
    None
}

/// Relies on String::push: appends one character to the end of the string.
pub assume_specification[ String::push ](s: &mut String, c: char)
    ensures
        final(s)@ == old(s)@.push(c),
;

/// Relies on char::from_u32: the character with the given code, or nothing
/// where the code is no Unicode scalar value.
pub assume_specification[ char::from_u32 ](v: u32) -> (r: Option<char>)
    ensures
        r matches Some(c) ==> c as u32 == v,
        vstd::utf8::is_scalar(v) ==> r is Some,
;

/// The encoding of one character: its code point, quoted and zero padded.
pub open spec fn qp7(c: char) -> Seq<u8> {
    seq![34u8] + pad((c as u32) as nat, W_CODE as nat) + seq![34u8]
}

/// Every character's code point fits the padded width.
pub proof fn lemma_code_bound(c: char)
    ensures
        (c as u32) < 10000000,
        qp7(c).len() == 9,
        is_scalar_code(c),
{
    vstd::utf8::char_is_scalar(c);
    lemma_pow10_chain();
    lemma_pad_facts((c as u32) as nat, W_CODE as nat);
}

/// Whether a character's code point is a Unicode scalar value, which every
/// character's is.
pub open spec fn is_scalar_code(c: char) -> bool {
    vstd::utf8::is_scalar(c as u32)
}

/// The encoding of a sequence of characters: their quoted padded code
/// points, comma separated.
pub open spec fn enc_codes(cs: Seq<char>) -> Seq<u8>
    decreases cs.len(),
{
    if cs.len() == 0 {
        Seq::empty()
    } else if cs.len() == 1 {
        qp7(cs[0])
    } else {
        qp7(cs[0]) + seq![44u8] + enc_codes(cs.drop_first())
    }
}

/// The encoding of a text value: an array of its characters' codes.
pub open spec fn enc_str(cs: Seq<char>) -> Seq<u8> {
    seq![91u8] + enc_codes(cs) + seq![93u8]
}

/// The length of an encoded nonempty code list.
pub proof fn lemma_codes_len(cs: Seq<char>)
    requires
        cs.len() >= 1,
    ensures
        enc_codes(cs).len() == 10 * cs.len() - 1,
    decreases cs.len(),
{
    lemma_code_bound(cs[0]);
    if cs.len() > 1 {
        lemma_codes_len(cs.drop_first());
    }
}

/// Where each element of an encoded code list lies: element `k` at offset
/// `10 k`, a separating comma after every element but the last.
pub proof fn lemma_codes_layout(cs: Seq<char>, k: int)
    requires
        0 <= k < cs.len(),
    ensures
        enc_codes(cs).subrange(10 * k, 10 * k + 9) == qp7(cs[k]),
        k < cs.len() - 1 ==> enc_codes(cs)[10 * k + 9] == 44,
    decreases k,
{
    lemma_codes_len(cs);
    lemma_code_bound(cs[0]);
    let e = enc_codes(cs);
    if k == 0 {
        if cs.len() == 1 {
            assert(e.subrange(0, 9) =~= qp7(cs[0]));
        } else {
            lemma_codes_len(cs.drop_first());
            assert forall|q: int| 0 <= q < 9 implies e[q] == qp7(cs[0])[q] by {
                assert(e[q] == (qp7(cs[0]) + seq![44u8])[q]);
            }
            assert(e.subrange(0, 9) =~= qp7(cs[0]));
            assert(e[9] == (qp7(cs[0]) + seq![44u8])[9]);
        }
    } else {
        let rest = cs.drop_first();
        lemma_codes_len(rest);
        lemma_codes_layout(rest, k - 1);
        assert(rest[k - 1] == cs[k]);
        assert forall|q: int| 0 <= q < 9 implies #[trigger] e[10 * k + q] == enc_codes(
            rest,
        ).subrange(10 * (k - 1), 10 * (k - 1) + 9)[q] by {
            assert(e[10 * k + q] == enc_codes(rest)[10 * (k - 1) + q]);
        }
        assert(e.subrange(10 * k, 10 * k + 9) =~= qp7(cs[k]));
        if k < cs.len() - 1 {
            assert(e[10 * k + 9] == enc_codes(rest)[10 * (k - 1) + 9]);
        }
    }
}

/// Appending one more element to an encoded code list.
pub proof fn lemma_codes_snoc(cs: Seq<char>, k: int)
    requires
        0 <= k < cs.len(),
    ensures
        enc_codes(cs.take(k + 1)) == if k == 0 {
            qp7(cs[0])
        } else {
            enc_codes(cs.take(k)) + seq![44u8] + qp7(cs[k])
        },
    decreases k,
{
    if k == 0 {
        assert(cs.take(1) =~= seq![cs[0]]);
        assert(enc_codes(cs.take(1)) == qp7(cs.take(1)[0]));
    } else {
        let rest = cs.drop_first();
        lemma_codes_snoc(rest, k - 1);
        assert(cs.take(k + 1).drop_first() =~= rest.take(k));
        assert(cs.take(k).drop_first() =~= rest.take(k - 1));
        assert(enc_codes(cs.take(k + 1)) == qp7(cs[0]) + seq![44u8] + enc_codes(rest.take(k)));
        if k == 1 {
            assert(enc_codes(cs.take(1)) =~= qp7(cs[0]));
            assert(enc_codes(cs.take(k + 1)) =~= enc_codes(cs.take(k)) + seq![44u8] + qp7(cs[k]));
        } else {
            assert(enc_codes(cs.take(k)) == qp7(cs[0]) + seq![44u8] + enc_codes(rest.take(k - 1)));
            assert(enc_codes(cs.take(k + 1)) =~= enc_codes(cs.take(k)) + seq![44u8] + qp7(cs[k]));
        }
    }
}

/// Append the encoding of a text value.
pub fn push_str(out: &mut Vec<u8>, txt: &str)
    ensures
        final(out)@ == old(out)@ + enc_str(txt@),
{
    out.push(91);
    let n = txt.unicode_len();
    let mut k: usize = 0;
    while k < n
        invariant
            0 <= k <= n == txt@.len(),
            out@ == old(out)@ + seq![91u8] + enc_codes(txt@.take(k as int)),
        decreases n - k,
    {
        if k > 0 {
            out.push(44);
        }
        let c = txt.get_char(k);
        let code = c as u32;
        proof {
            lemma_code_bound(c);
            lemma_pow10_chain();
        }
        out.push(34);
        push_pad(out, code as u128, W_CODE);
        out.push(34);
        proof {
            lemma_codes_snoc(txt@, k as int);
            assert(out@ =~= old(out)@ + seq![91u8] + enc_codes(txt@.take(k + 1)));
        }
        k = k + 1;
    }
    out.push(93);
    proof {
        assert(txt@.take(n as int) =~= txt@);
        assert(out@ =~= old(out)@ + enc_str(txt@));
    }
}

/// Parse one quoted character code at `i`.
pub fn parse_code(s: &Vec<u8>, i: usize) -> (r: Option<(char, usize)>)
    ensures
        r matches Some(p) ==> p.1 == i + 9 && p.1 <= s.len(),
        forall|c: char|
            (0 <= i && i + 9 <= s.len() && s@.subrange(i as int, i + 9) == qp7(c)) ==> (r matches
                Some(p) && p.0 == c && p.1 == i + 9),
{
    if i > s.len() || s.len() - i < 9 {
        return None;
    }
    proof {
        lemma_pow10_chain();
        assert forall|c: char|
            (i + 9 <= s.len() && s@.subrange(i as int, i + 9) == qp7(c)) implies {
            &&& s@[i as int] == 34
            &&& s@.subrange(i + 1, i + 1 + W_CODE) == pad((c as u32) as nat, W_CODE as nat)
            &&& s@[i + 8] == 34
        } by {
            let e = qp7(c);
            let pc = pad((c as u32) as nat, W_CODE as nat);
            lemma_code_bound(c);
            assert forall|q: int| 0 <= q < 9 implies s@[i + q] == e[q] by {
                assert(e[q] == s@.subrange(i as int, i + 9)[q]);
            }
            assert forall|q: int| 0 <= q < W_CODE implies e[1 + q] == pc[q] by {
                assert(e[1 + q] == (seq![34u8] + pc)[1 + q]);
            }
            assert(s@.subrange(i + 1, i + 1 + W_CODE) =~= pc);
            assert(e[0] == (seq![34u8] + pc)[0]);
            assert(e[8] == (seq![34u8] + pc + seq![34u8])[8]);
        }
    }
    let c0 = eat(s, i, 34);
    let code = parse_pad(s, i + 1, W_CODE);
    let c1 = eat(s, i + 8, 34);
    if c0.is_some() && c1.is_some() {
        if let Some((v, _)) = code {
            if v <= 1114111 {
                match char::from_u32(v as u32) {
                    Some(c) => {
                        proof {
                            assert forall|c2: char|
                                (i + 9 <= s.len() && s@.subrange(i as int, i + 9) == qp7(c2))
                                implies c == c2 by {
                                lemma_code_bound(c2);
                                vstd::utf8::char_u32_cast(c, c as u32);
                                vstd::utf8::char_u32_cast(c2, c2 as u32);
                            }
                        }
                        return Some((c, i + 9));
                    },
                    None => {
                        proof {
                            assert forall|c2: char|
                                !(i + 9 <= s.len() && s@.subrange(i as int, i + 9) == qp7(c2)) by {
                                if i + 9 <= s.len() && s@.subrange(i as int, i + 9) == qp7(c2) {
                                    lemma_code_bound(c2);
                                }
                            }
                        }
                        return None;
                    },
                }
            }
        }
    }
    proof {
        assert forall|c2: char|
            !(i + 9 <= s.len() && s@.subrange(i as int, i + 9) == qp7(c2)) by {
            if i + 9 <= s.len() && s@.subrange(i as int, i + 9) == qp7(c2) {
                lemma_code_bound(c2);
            }
        }
    }
    None
}

/// The hypothesis under which a text parse at `i` is owed `cs`: the input
/// carries the encoding of that character sequence there.
pub open spec fn str_at(s: Seq<u8>, i: int, cs: Seq<char>) -> bool {
    &&& 0 <= i
    &&& i + enc_str(cs).len() <= s.len()
    &&& s.subrange(i, i + enc_str(cs).len() as int) == enc_str(cs)
}

/// The length of an encoded text value.
pub open spec fn str_len(cs: Seq<char>) -> int {
    if cs.len() == 0 {
        2
    } else {
        10 * (cs.len() as int) + 1
    }
}

/// The encoded text value has the length `str_len` gives.
pub proof fn lemma_str_len(cs: Seq<char>)
    ensures
        enc_str(cs).len() == str_len(cs),
{
    if cs.len() > 0 {
        lemma_codes_len(cs);
    }
}

/// The byte facts a text hypothesis yields at each element position.
proof fn lemma_str_elem(s: Seq<u8>, i: int, cs: Seq<char>, k: int)
    requires
        str_at(s, i, cs),
        0 <= k < cs.len(),
    ensures
        s.subrange(i + 1 + 10 * k, i + 10 * k + 10) == qp7(cs[k]),
        k < cs.len() - 1 ==> s[i + 10 * k + 10] == 44,
        k == cs.len() - 1 ==> s[i + 10 * k + 10] == 93,
{
    let e = enc_str(cs);
    let codes = enc_codes(cs);
    lemma_str_len(cs);
    lemma_codes_len(cs);
    lemma_codes_layout(cs, k);
    assert forall|q: int| 0 <= q < codes.len() implies s[i + 1 + q] == codes[q] by {
        assert(e[1 + q] == (seq![91u8] + codes)[1 + q]);
        assert(s[i + 1 + q] == s.subrange(i, i + e.len() as int)[1 + q]);
    }
    assert forall|q: int| 0 <= q < 9 implies s[i + 1 + 10 * k + q] == qp7(cs[k])[q] by {
        assert(s[i + 1 + (10 * k + q)] == codes[10 * k + q]);
        assert(codes[10 * k + q] == codes.subrange(10 * k, 10 * k + 9)[q]);
    }
    assert(s.subrange(i + 1 + 10 * k, i + 10 * k + 10) =~= qp7(cs[k]));
    if k < cs.len() - 1 {
        assert(s[i + 1 + (10 * k + 9)] == codes[10 * k + 9]);
    } else {
        assert(e[1 + codes.len() as int] == 93) by {
            assert(e[1 + codes.len() as int] == (seq![91u8] + codes + seq![93u8])[1
                + codes.len() as int]);
        }
        assert(s[i + 1 + codes.len() as int] == e[1 + codes.len() as int]);
    }
}

/// The opening byte facts a text hypothesis yields.
proof fn lemma_str_head(s: Seq<u8>, i: int, cs: Seq<char>)
    requires
        str_at(s, i, cs),
    ensures
        s[i] == 91,
        cs.len() == 0 ==> s[i + 1] == 93,
        cs.len() > 0 ==> s[i + 1] == 34,
        i + 2 <= s.len(),
{
    let e = enc_str(cs);
    lemma_str_len(cs);
    assert(s[i] == s.subrange(i, i + e.len() as int)[0]);
    assert(e[0] == (seq![91u8] + enc_codes(cs))[0]);
    if cs.len() == 0 {
        assert(e[1] == (seq![91u8] + enc_codes(cs) + seq![93u8])[1]);
        assert(s[i + 1] == s.subrange(i, i + e.len() as int)[1]);
    } else {
        lemma_codes_len(cs);
        lemma_codes_layout(cs, 0);
        lemma_code_bound(cs[0]);
        assert(e[1] == (seq![91u8] + enc_codes(cs))[1]);
        assert(enc_codes(cs)[0] == enc_codes(cs).subrange(0, 9)[0]);
        assert(qp7(cs[0])[0] == (seq![34u8] + pad((cs[0] as u32) as nat, W_CODE as nat))[0]);
        assert(s[i + 1] == s.subrange(i, i + e.len() as int)[1]);
    }
}

/// Parse an encoded text value at `i`. Where the input carries the encoding
/// of a character sequence, a string holding it is returned with the
/// position after it.
pub fn parse_str(s: &Vec<u8>, i: usize) -> (r: Option<(String, usize)>)
    ensures
        r matches Some(p) ==> i < p.1 <= s.len(),
        forall|cs: Seq<char>|
            str_at(s@, i as int, cs) ==> (r matches Some(p) && p.0@ == cs && p.1 == i + str_len(
                cs,
            )),
{
    if eat(s, i, 91).is_none() {
        proof {
            assert forall|cs: Seq<char>| !str_at(s@, i as int, cs) by {
                if str_at(s@, i as int, cs) {
                    lemma_str_head(s@, i as int, cs);
                }
            }
        }
        return None;
    }
    if let Some(j) = eat(s, i + 1, 93) {
        proof {
            assert forall|cs: Seq<char>| str_at(s@, i as int, cs) implies cs.len() == 0 by {
                lemma_str_head(s@, i as int, cs);
            }
            assert forall|cs: Seq<char>| str_at(s@, i as int, cs) implies cs =~= Seq::<
                char,
            >::empty() by {}
        }
        return Some((String::new(), j));
    }
    let mut out = String::new();
    let mut pos = i + 1;
    proof {
        assert(out@ =~= Seq::<char>::empty());
        assert forall|cs: Seq<char>|
            str_at(s@, i as int, cs) implies (out@.len() < cs.len() && out@ == cs.take(
                out@.len() as int,
            ) && pos == i + 1 + 10 * out@.len()) by {
            lemma_str_head(s@, i as int, cs);
            assert(cs.take(0) =~= Seq::<char>::empty());
            assert(out@ == cs.take(0));
        }
    }
    loop
        invariant
            i + 1 <= pos <= s.len(),
            forall|cs: Seq<char>|
                str_at(s@, i as int, cs) ==> (out@.len() < cs.len() && out@ == cs.take(
                    out@.len() as int,
                ) && pos == i + 1 + 10 * out@.len()),
        decreases s.len() - pos,
    {
        let parsed = parse_code(s, pos);
        let (c, after) = match parsed {
            Some(p) => p,
            None => {
                proof {
                    assert forall|cs: Seq<char>| !str_at(s@, i as int, cs) by {
                        if str_at(s@, i as int, cs) {
                            let k = out@.len() as int;
                            lemma_str_elem(s@, i as int, cs, k);
                            lemma_str_len(cs);
                            assert(s@.subrange(pos as int, pos as int + 9) =~= s@.subrange(
                                i + 1 + 10 * k,
                                i + 10 * k + 10,
                            ));
                        }
                    }
                }
                return None;
            },
        };
        proof {
            assert forall|cs: Seq<char>|
                str_at(s@, i as int, cs) implies (c == cs[out@.len() as int] && after == pos + 9)
                by {
                let k = out@.len() as int;
                lemma_str_elem(s@, i as int, cs, k);
                lemma_str_len(cs);
                assert(s@.subrange(pos as int, pos as int + 9) =~= s@.subrange(
                    i + 1 + 10 * k,
                    i + 10 * k + 10,
                ));
            }
        }
        out.push(c);
        if let Some(j) = eat(s, after, 93) {
            proof {
                assert forall|cs: Seq<char>|
                    str_at(s@, i as int, cs) implies (out@ =~= cs && j == i + str_len(cs)) by {
                    let k = (out@.len() - 1) as int;
                    lemma_str_elem(s@, i as int, cs, k);
                    assert(cs.take(k).push(cs[k]) =~= cs.take(k + 1));
                    if k < cs.len() - 1 {
                        assert(s@[i + 10 * k + 10] == 44);
                    }
                    assert(cs.take(cs.len() as int) =~= cs);
                }
            }
            return Some((out, j));
        }
        if let Some(j) = eat(s, after, 44) {
            proof {
                assert forall|cs: Seq<char>|
                    str_at(s@, i as int, cs) implies (out@.len() < cs.len() && out@ == cs.take(
                        out@.len() as int,
                    ) && j == i + 1 + 10 * out@.len()) by {
                    let k = (out@.len() - 1) as int;
                    lemma_str_elem(s@, i as int, cs, k);
                    assert(cs.take(k).push(cs[k]) =~= cs.take(k + 1));
                    if k == cs.len() - 1 {
                        assert(s@[i + 10 * k + 10] == 93);
                    }
                }
            }
            pos = j;
        } else {
            proof {
                assert forall|cs: Seq<char>| !str_at(s@, i as int, cs) by {
                    if str_at(s@, i as int, cs) {
                        let k = (out@.len() - 1) as int;
                        lemma_str_elem(s@, i as int, cs, k);
                        lemma_str_len(cs);
                        assert(i + 10 * k + 10 < s@.len());
                    }
                }
            }
            return None;
        }
    }
}

/// The encoding of an optional decimal: the null literal, or the decimal.
pub open spec fn enc_opt_dec(od: Option<Dec>) -> Seq<u8> {
    match od {
        None => seq![110u8, 117u8, 108u8, 108u8],
        Some(d) => enc_dec(d),
    }
}

/// The length of an encoded optional decimal.
pub open spec fn opt_len(od: Option<Dec>) -> int {
    match od {
        None => 4,
        Some(_) => W_DEC as int,
    }
}

/// The hypothesis under which an optional-decimal parse at `i` is owed `od`.
pub open spec fn opt_dec_at(s: Seq<u8>, i: int, od: Option<Dec>) -> bool {
    &&& (od matches Some(d) ==> d.wf())
    &&& 0 <= i
    &&& i + opt_len(od) <= s.len()
    &&& s.subrange(i, i + opt_len(od)) == enc_opt_dec(od)
}

/// Append the encoding of an optional decimal.
pub fn push_opt_dec(out: &mut Vec<u8>, od: &Option<Dec>)
    requires
        od matches Some(d) ==> d.wf(),
    ensures
        final(out)@ == old(out)@ + enc_opt_dec(*od),
{
    match od {
        None => {
            out.push(110);
            out.push(117);
            out.push(108);
            out.push(108);
            proof {
                assert(out@ =~= old(out)@ + enc_opt_dec(None::<Dec>));
            }
        },
        Some(d) => {
            push_dec(out, d);
        },
    }
}

/// Parse an encoded optional decimal at `i`.
pub fn parse_opt_dec(s: &Vec<u8>, i: usize) -> (r: Option<(Option<Dec>, usize)>)
    ensures
        r matches Some(p) ==> i < p.1 <= s.len() && (p.0 matches Some(d) ==> d.wf()),
        forall|od: Option<Dec>|
            opt_dec_at(s@, i as int, od) ==> (r matches Some(p) && p.0 == od && p.1 == i + opt_len(
                od,
            )),
{
    proof {
        assert forall|od: Option<Dec>| opt_dec_at(s@, i as int, od) implies match od {
            None => s@[i as int] == 110,
            Some(d) => s@[i as int] == 91 && dec_at(s@, i as int, d),
        } by {
            let e = enc_opt_dec(od);
            assert(s@[i as int] == s@.subrange(i as int, i + opt_len(od))[0]);
            match od {
                None => {},
                Some(d) => {
                    let pm = pad(abs(d.mantissa as int), W_MANT as nat);
                    assert(e[0] == (seq![91u8, 34u8, sign_byte(d.mantissa as int)] + pm)[0]);
                },
            }
        }
    }
    if i < s.len() && s[i] == 110 {
        if s.len() - i < 4 {
            return None;
        }
        let c1 = eat(s, i + 1, 117);
        let c2 = eat(s, i + 2, 108);
        let c3 = eat(s, i + 3, 108);
        if c1.is_some() && c2.is_some() && c3.is_some() {
            proof {
                assert forall|od: Option<Dec>|
                    opt_dec_at(s@, i as int, od) implies od is None by {
                    assert(s@[i as int] == 110);
                }
                assert forall|od: Option<Dec>|
                    opt_dec_at(s@, i as int, od) implies (od is None && i + 4 <= s.len()) by {}
            }
            return Some((None, i + 4));
        }
        proof {
            assert forall|od: Option<Dec>| !opt_dec_at(s@, i as int, od) by {
                if opt_dec_at(s@, i as int, od) {
                    let e = enc_opt_dec(od);
                    assert(s@[i + 1] == s@.subrange(i as int, i + opt_len(od))[1]);
                    assert(s@[i + 2] == s@.subrange(i as int, i + opt_len(od))[2]);
                    assert(s@[i + 3] == s@.subrange(i as int, i + opt_len(od))[3]);
                }
            }
        }
        return None;
    }
    match parse_dec(s, i) {
        Some((d, j)) => Some((Some(d), j)),
        None => {
            proof {
                assert forall|od: Option<Dec>| !opt_dec_at(s@, i as int, od) by {
                    if opt_dec_at(s@, i as int, od) {
                    }
                }
            }
            None
        },
    }
}

/// The encoding of one unlock event: an array of the quoted padded date and
/// the amount.
pub open spec fn enc_unlock(u: Unlock) -> Seq<u8> {
    seq![91u8, 34u8] + pad(u.date as nat, W_DATE as nat) + seq![34u8, 44u8] + enc_dec(u.amount)
        + seq![93u8]
}

/// Total width of an encoded unlock event.
pub const W_UNLOCK: usize = 56;

/// The hypothesis under which an unlock parse at `i` is owed `u`.
pub open spec fn unlock_at(s: Seq<u8>, i: int, u: Unlock) -> bool {
    &&& u.wf()
    &&& 0 <= i
    &&& i + W_UNLOCK <= s.len()
    &&& s.subrange(i, i + W_UNLOCK) == enc_unlock(u)
}

/// Append the encoding of one unlock event.
pub fn push_unlock(out: &mut Vec<u8>, u: &Unlock)
    requires
        u.wf(),
    ensures
        final(out)@ == old(out)@ + enc_unlock(*u),
        enc_unlock(*u).len() == W_UNLOCK,
{
    proof {
        lemma_pow10_chain();
        lemma_pad_facts(u.date as nat, W_DATE as nat);
    }
    out.push(91);
    out.push(34);
    push_pad(out, u.date as u128, W_DATE);
    out.push(34);
    out.push(44);
    push_dec(out, &u.amount);
    out.push(93);
    proof {
        assert(out@ =~= old(out)@ + enc_unlock(*u));
    }
}

/// Parse an encoded unlock event at `i`.
pub fn parse_unlock(s: &Vec<u8>, i: usize) -> (r: Option<(Unlock, usize)>)
    ensures
        r matches Some(p) ==> p.1 == i + W_UNLOCK && p.1 <= s.len() && p.0.wf(),
        forall|u: Unlock|
            unlock_at(s@, i as int, u) ==> (r matches Some(p) && p.0 == u && p.1 == i + W_UNLOCK),
{
    if i > s.len() || s.len() - i < W_UNLOCK {
        return None;
    }
    proof {
        lemma_pow10_chain();
        assert forall|u: Unlock| unlock_at(s@, i as int, u) implies {
            &&& s@[i as int] == 91
            &&& s@[i + 1] == 34
            &&& s@.subrange(i + 2, i + 2 + W_DATE) == pad(u.date as nat, W_DATE as nat)
            &&& s@[i + 14] == 34
            &&& s@[i + 15] == 44
            &&& dec_at(s@, i + 16, u.amount)
            &&& s@[i + 55] == 93
        } by {
            let e = enc_unlock(u);
            let pd = pad(u.date as nat, W_DATE as nat);
            let ed = enc_dec(u.amount);
            let head = seq![91u8, 34u8];
            let mid = seq![34u8, 44u8];
            lemma_pad_facts(u.date as nat, W_DATE as nat);
            lemma_pad_facts(abs(u.amount.mantissa as int), W_MANT as nat);
            lemma_pad_facts(u.amount.scale as nat, W_SCALE as nat);
            assert(ed.len() == W_DEC);
            assert(e == head + pd + mid + ed + seq![93u8]);
            assert(e.len() == W_UNLOCK);
            assert forall|q: int| 0 <= q < W_UNLOCK implies s@[i + q] == e[q] by {
                assert(e[q] == s@.subrange(i as int, i + W_UNLOCK)[q]);
            }
            assert forall|q: int| 0 <= q < W_DATE implies e[2 + q] == pd[q] by {
                assert(e[2 + q] == (head + pd)[2 + q]);
            }
            assert(s@.subrange(i + 2, i + 2 + W_DATE) =~= pd);
            assert(e[0] == (head + pd)[0]);
            assert(e[1] == (head + pd)[1]);
            assert(e[14] == (head + pd + mid)[14]);
            assert(e[15] == (head + pd + mid)[15]);
            assert forall|q: int| 0 <= q < W_DEC implies e[16 + q] == ed[q] by {
                assert(e[16 + q] == (head + pd + mid + ed)[16 + q]);
            }
            assert(s@.subrange(i + 16, i + 16 + W_DEC) =~= ed);
            assert(e[55] == (head + pd + mid + ed + seq![93u8])[55]);
        }
    }
    let c0 = eat(s, i, 91);
    let c1 = eat(s, i + 1, 34);
    let date = parse_pad(s, i + 2, W_DATE);
    let c2 = eat(s, i + 14, 34);
    let c3 = eat(s, i + 15, 44);
    let amount = parse_dec(s, i + 16);
    let c4 = eat(s, i + 55, 93);
    if c0.is_some() && c1.is_some() && c2.is_some() && c3.is_some() && c4.is_some() {
        if let (Some((v, _)), Some((d, _))) = (date, amount) {
            if v <= 253402300799u128 {
                let u = Unlock { date: v as i64, amount: d };
                return Some((u, i + W_UNLOCK));
            }
        }
    }
    None
}

/// The encoding of a sequence of unlock events, comma separated.
pub open spec fn enc_unlocks(us: Seq<Unlock>) -> Seq<u8>
    decreases us.len(),
{
    if us.len() == 0 {
        Seq::empty()
    } else if us.len() == 1 {
        enc_unlock(us[0])
    } else {
        enc_unlock(us[0]) + seq![44u8] + enc_unlocks(us.drop_first())
    }
}

/// The encoding of an unlock schedule: null, or the array of its events.
pub open spec fn enc_ulist(us: Seq<Unlock>) -> Seq<u8> {
    seq![91u8] + enc_unlocks(us) + seq![93u8]
}

/// The length of an encoded unlock array.
pub open spec fn ulist_len(us: Seq<Unlock>) -> int {
    if us.len() == 0 {
        2
    } else {
        57 * (us.len() as int) + 1
    }
}

/// The hypothesis under which an unlock-array parse at `i` is owed `us`.
pub open spec fn ulist_at(s: Seq<u8>, i: int, us: Seq<Unlock>) -> bool {
    &&& crate::token::events_wf(us)
    &&& 0 <= i
    &&& i + enc_ulist(us).len() <= s.len()
    &&& s.subrange(i, i + enc_ulist(us).len() as int) == enc_ulist(us)
}

/// A well-formed unlock event's encoding has the fixed width.
pub proof fn lemma_unlock_len(u: Unlock)
    requires
        u.wf(),
    ensures
        enc_unlock(u).len() == W_UNLOCK,
{
    lemma_pow10_chain();
    lemma_pad_facts(u.date as nat, W_DATE as nat);
    lemma_pad_facts(abs(u.amount.mantissa as int), W_MANT as nat);
    lemma_pad_facts(u.amount.scale as nat, W_SCALE as nat);
}

/// The length of an encoded nonempty unlock list.
pub proof fn lemma_unlocks_len(us: Seq<Unlock>)
    requires
        crate::token::events_wf(us),
        us.len() >= 1,
    ensures
        enc_unlocks(us).len() == 57 * us.len() - 1,
    decreases us.len(),
{
    assert(us[0].wf());
    lemma_unlock_len(us[0]);
    if us.len() > 1 {
        assert(crate::token::events_wf(us.drop_first()));
        lemma_unlocks_len(us.drop_first());
    }
}

/// Where each element of an encoded unlock list lies.
pub proof fn lemma_unlocks_layout(us: Seq<Unlock>, k: int)
    requires
        crate::token::events_wf(us),
        0 <= k < us.len(),
    ensures
        enc_unlocks(us).subrange(57 * k, 57 * k + 56) == enc_unlock(us[k]),
        k < us.len() - 1 ==> enc_unlocks(us)[57 * k + 56] == 44,
    decreases k,
{
    lemma_unlocks_len(us);
    lemma_unlock_len(us[0]);
    let e = enc_unlocks(us);
    if k == 0 {
        if us.len() == 1 {
            assert(e.subrange(0, 56) =~= enc_unlock(us[0]));
        } else {
            assert(crate::token::events_wf(us.drop_first()));
            lemma_unlocks_len(us.drop_first());
            assert forall|q: int| 0 <= q < 56 implies e[q] == enc_unlock(us[0])[q] by {
                assert(e[q] == (enc_unlock(us[0]) + seq![44u8])[q]);
            }
            assert(e.subrange(0, 56) =~= enc_unlock(us[0]));
            assert(e[56] == (enc_unlock(us[0]) + seq![44u8])[56]);
        }
    } else {
        let rest = us.drop_first();
        assert(crate::token::events_wf(rest));
        lemma_unlocks_len(rest);
        lemma_unlocks_layout(rest, k - 1);
        assert(rest[k - 1] == us[k]);
        assert forall|q: int| 0 <= q < 56 implies #[trigger] e[57 * k + q] == enc_unlocks(
            rest,
        ).subrange(57 * (k - 1), 57 * (k - 1) + 56)[q] by {
            assert(e[57 * k + q] == enc_unlocks(rest)[57 * (k - 1) + q]);
        }
        assert(e.subrange(57 * k, 57 * k + 56) =~= enc_unlock(us[k]));
        if k < us.len() - 1 {
            assert(e[57 * k + 56] == enc_unlocks(rest)[57 * (k - 1) + 56]);
        }
    }
}

/// Appending one more element to an encoded unlock list.
pub proof fn lemma_unlocks_snoc(us: Seq<Unlock>, k: int)
    requires
        0 <= k < us.len(),
    ensures
        enc_unlocks(us.take(k + 1)) == if k == 0 {
            enc_unlock(us[0])
        } else {
            enc_unlocks(us.take(k)) + seq![44u8] + enc_unlock(us[k])
        },
    decreases k,
{
    if k == 0 {
        assert(us.take(1) =~= seq![us[0]]);
        assert(enc_unlocks(us.take(1)) == enc_unlock(us.take(1)[0]));
    } else {
        let rest = us.drop_first();
        lemma_unlocks_snoc(rest, k - 1);
        assert(us.take(k + 1).drop_first() =~= rest.take(k));
        assert(us.take(k).drop_first() =~= rest.take(k - 1));
        assert(enc_unlocks(us.take(k + 1)) == enc_unlock(us[0]) + seq![44u8] + enc_unlocks(
            rest.take(k),
        ));
        if k == 1 {
            assert(enc_unlocks(us.take(1)) =~= enc_unlock(us[0]));
            assert(enc_unlocks(us.take(k + 1)) =~= enc_unlocks(us.take(k)) + seq![44u8]
                + enc_unlock(us[k]));
        } else {
            assert(enc_unlocks(us.take(k)) == enc_unlock(us[0]) + seq![44u8] + enc_unlocks(
                rest.take(k - 1),
            ));
            assert(enc_unlocks(us.take(k + 1)) =~= enc_unlocks(us.take(k)) + seq![44u8]
                + enc_unlock(us[k]));
        }
    }
}

/// The byte facts an unlock-array hypothesis yields at each element.
proof fn lemma_ulist_elem(s: Seq<u8>, i: int, us: Seq<Unlock>, k: int)
    requires
        ulist_at(s, i, us),
        0 <= k < us.len(),
    ensures
        unlock_at(s, i + 1 + 57 * k, us[k]),
        k < us.len() - 1 ==> s[i + 57 * k + 57] == 44,
        k == us.len() - 1 ==> s[i + 57 * k + 57] == 93,
{
    let e = enc_ulist(us);
    let body = enc_unlocks(us);
    lemma_unlocks_len(us);
    lemma_unlocks_layout(us, k);
    lemma_unlock_len(us[k]);
    assert forall|q: int| 0 <= q < body.len() implies s[i + 1 + q] == body[q] by {
        assert(e[1 + q] == (seq![91u8] + body)[1 + q]);
        assert(s[i + 1 + q] == s.subrange(i, i + e.len() as int)[1 + q]);
    }
    assert forall|q: int| 0 <= q < 56 implies s[i + 1 + 57 * k + q] == enc_unlock(us[k])[q] by {
        assert(s[i + 1 + (57 * k + q)] == body[57 * k + q]);
        assert(body[57 * k + q] == body.subrange(57 * k, 57 * k + 56)[q]);
    }
    assert(s.subrange(i + 1 + 57 * k, i + 1 + 57 * k + 56) =~= enc_unlock(us[k]));
    assert(us[k].wf());
    if k < us.len() - 1 {
        assert(s[i + 1 + (57 * k + 56)] == body[57 * k + 56]);
    } else {
        assert(e[1 + body.len() as int] == 93) by {
            assert(e[1 + body.len() as int] == (seq![91u8] + body + seq![93u8])[1
                + body.len() as int]);
        }
        assert(s[i + 1 + body.len() as int] == e[1 + body.len() as int]);
    }
}

/// The opening byte facts an unlock-array hypothesis yields.
proof fn lemma_ulist_head(s: Seq<u8>, i: int, us: Seq<Unlock>)
    requires
        ulist_at(s, i, us),
    ensures
        s[i] == 91,
        us.len() == 0 ==> s[i + 1] == 93,
        us.len() > 0 ==> s[i + 1] == 91,
        i + 2 <= s.len(),
{
    let e = enc_ulist(us);
    assert(s[i] == s.subrange(i, i + e.len() as int)[0]);
    assert(e[0] == (seq![91u8] + enc_unlocks(us))[0]);
    if us.len() == 0 {
        assert(e[1] == (seq![91u8] + enc_unlocks(us) + seq![93u8])[1]);
        assert(s[i + 1] == s.subrange(i, i + e.len() as int)[1]);
    } else {
        lemma_unlocks_len(us);
        lemma_unlocks_layout(us, 0);
        lemma_unlock_len(us[0]);
        assert(e[1] == (seq![91u8] + enc_unlocks(us))[1]);
        assert(enc_unlocks(us)[0] == enc_unlocks(us).subrange(0, 56)[0]);
        assert(enc_unlock(us[0])[0] == (seq![91u8, 34u8] + pad(us[0].date as nat, W_DATE as nat))[
            0
        ]);
        assert(s[i + 1] == s.subrange(i, i + e.len() as int)[1]);
    }
}

/// Parse an encoded unlock array at `i`.
pub fn parse_ulist(s: &Vec<u8>, i: usize) -> (r: Option<(Vec<Unlock>, usize)>)
    ensures
        r matches Some(p) ==> i < p.1 <= s.len() && crate::token::events_wf(p.0@),
        forall|us: Seq<Unlock>|
            ulist_at(s@, i as int, us) ==> (r matches Some(p) && p.0@ == us && p.1 == i
                + ulist_len(us)),
{
    if eat(s, i, 91).is_none() {
        proof {
            assert forall|us: Seq<Unlock>| !ulist_at(s@, i as int, us) by {
                if ulist_at(s@, i as int, us) {
                    lemma_ulist_head(s@, i as int, us);
                }
            }
        }
        return None;
    }
    if let Some(j) = eat(s, i + 1, 93) {
        proof {
            assert forall|us: Seq<Unlock>| ulist_at(s@, i as int, us) implies (us =~= Seq::<
                Unlock,
            >::empty() && j == i + ulist_len(us)) by {
                lemma_ulist_head(s@, i as int, us);
            }
        }
        let out: Vec<Unlock> = Vec::new();
        return Some((out, j));
    }
    let mut out: Vec<Unlock> = Vec::new();
    let mut pos = i + 1;
    proof {
        assert(out@ =~= Seq::<Unlock>::empty());
        assert forall|us: Seq<Unlock>|
            ulist_at(s@, i as int, us) implies (out@.len() < us.len() && out@ == us.take(
                out@.len() as int,
            ) && pos == i + 1 + 57 * out@.len()) by {
            lemma_ulist_head(s@, i as int, us);
            assert(us.take(0) =~= Seq::<Unlock>::empty());
            assert(out@ == us.take(0));
        }
    }
    loop
        invariant
            i + 1 <= pos <= s.len(),
            crate::token::events_wf(out@),
            forall|us: Seq<Unlock>|
                ulist_at(s@, i as int, us) ==> (out@.len() < us.len() && out@ == us.take(
                    out@.len() as int,
                ) && pos == i + 1 + 57 * out@.len()),
        decreases s.len() - pos,
    {
        let parsed = parse_unlock(s, pos);
        let (u, after) = match parsed {
            Some(p) => p,
            None => {
                proof {
                    assert forall|us: Seq<Unlock>| !ulist_at(s@, i as int, us) by {
                        if ulist_at(s@, i as int, us) {
                            let k = out@.len() as int;
                            lemma_ulist_elem(s@, i as int, us, k);
                            assert(s@.subrange(pos as int, pos as int + W_UNLOCK) =~= s@.subrange(
                                i + 1 + 57 * k,
                                i + 1 + 57 * k + 56,
                            ));
                        }
                    }
                }
                return None;
            },
        };
        proof {
            assert forall|us: Seq<Unlock>|
                ulist_at(s@, i as int, us) implies (u == us[out@.len() as int] && after == pos
                + 56) by {
                let k = out@.len() as int;
                lemma_ulist_elem(s@, i as int, us, k);
                assert(s@.subrange(pos as int, pos as int + W_UNLOCK) =~= s@.subrange(
                    i + 1 + 57 * k,
                    i + 1 + 57 * k + 56,
                ));
            }
        }
        out.push(u);
        if let Some(j) = eat(s, after, 93) {
            proof {
                assert forall|us: Seq<Unlock>|
                    ulist_at(s@, i as int, us) implies (out@ =~= us && j == i + ulist_len(us)) by {
                    let k = (out@.len() - 1) as int;
                    lemma_ulist_elem(s@, i as int, us, k);
                    assert(us.take(k).push(us[k]) =~= us.take(k + 1));
                    if k < us.len() - 1 {
                        assert(s@[i + 57 * k + 57] == 44);
                    }
                    assert(us.take(us.len() as int) =~= us);
                }
            }
            return Some((out, j));
        }
        if let Some(j) = eat(s, after, 44) {
            proof {
                assert forall|us: Seq<Unlock>|
                    ulist_at(s@, i as int, us) implies (out@.len() < us.len() && out@ == us.take(
                        out@.len() as int,
                    ) && j == i + 1 + 57 * out@.len()) by {
                    let k = (out@.len() - 1) as int;
                    lemma_ulist_elem(s@, i as int, us, k);
                    assert(us.take(k).push(us[k]) =~= us.take(k + 1));
                    if k == us.len() - 1 {
                        assert(s@[i + 57 * k + 57] == 93);
                    }
                }
            }
            pos = j;
        } else {
            proof {
                assert forall|us: Seq<Unlock>| !ulist_at(s@, i as int, us) by {
                    if ulist_at(s@, i as int, us) {
                        let k = (out@.len() - 1) as int;
                        lemma_ulist_elem(s@, i as int, us, k);
                        lemma_unlocks_len(us);
                        assert(i + 57 * k + 57 < s@.len());
                    }
                }
            }
            return None;
        }
    }
}

/// Append the encoding of an unlock array.
pub fn push_ulist(out: &mut Vec<u8>, us: &Vec<Unlock>)
    requires
        crate::token::events_wf(us@),
    ensures
        final(out)@ == old(out)@ + enc_ulist(us@),
{
    out.push(91);
    let mut k: usize = 0;
    while k < us.len()
        invariant
            0 <= k <= us.len(),
            crate::token::events_wf(us@),
            out@ == old(out)@ + seq![91u8] + enc_unlocks(us@.take(k as int)),
        decreases us.len() - k,
    {
        if k > 0 {
            out.push(44);
        }
        proof {
            assert(us@[k as int].wf());
        }
        push_unlock(out, &us[k]);
        proof {
            lemma_unlocks_snoc(us@, k as int);
            assert(out@ =~= old(out)@ + seq![91u8] + enc_unlocks(us@.take(k + 1)));
        }
        k = k + 1;
    }
    out.push(93);
    proof {
        assert(us@.take(us@.len() as int) =~= us@);
        assert(out@ =~= old(out)@ + enc_ulist(us@));
    }
}

/// The encoding of an unlock schedule: null, or the array of its events.
pub open spec fn enc_sched(os: Option<Seq<Unlock>>) -> Seq<u8> {
    match os {
        None => seq![110u8, 117u8, 108u8, 108u8],
        Some(us) => enc_ulist(us),
    }
}

/// The length of an encoded unlock schedule.
pub open spec fn sched_len(os: Option<Seq<Unlock>>) -> int {
    match os {
        None => 4,
        Some(us) => ulist_len(us),
    }
}

/// The hypothesis under which a schedule parse at `i` is owed `os`.
pub open spec fn sched_at(s: Seq<u8>, i: int, os: Option<Seq<Unlock>>) -> bool {
    &&& (os matches Some(us) ==> crate::token::events_wf(us))
    &&& 0 <= i
    &&& i + sched_len(os) <= s.len()
    &&& s.subrange(i, i + sched_len(os)) == enc_sched(os)
}

/// The encoded schedule has the length `sched_len` gives.
pub proof fn lemma_sched_len(os: Option<Seq<Unlock>>)
    requires
        os matches Some(us) ==> crate::token::events_wf(us),
    ensures
        enc_sched(os).len() == sched_len(os),
{
    if let Some(us) = os {
        if us.len() > 0 {
            lemma_unlocks_len(us);
        }
    }
}

/// Append the encoding of an unlock schedule.
pub fn push_sched(out: &mut Vec<u8>, os: &Option<Vec<Unlock>>)
    requires
        os matches Some(v) ==> crate::token::events_wf(v@),
    ensures
        final(out)@ == old(out)@ + (match *os {
            Some(ref v) => enc_sched(Some(v@)),
            None => enc_sched(None),
        }),
{
    match os {
        None => {
            out.push(110);
            out.push(117);
            out.push(108);
            out.push(108);
            proof {
                assert(out@ =~= old(out)@ + enc_sched(None));
            }
        },
        Some(v) => {
            push_ulist(out, v);
        },
    }
}

/// Parse an encoded unlock schedule at `i`.
pub fn parse_sched(s: &Vec<u8>, i: usize) -> (r: Option<(Option<Vec<Unlock>>, usize)>)
    ensures
        r matches Some(p) ==> i < p.1 <= s.len() && (p.0 matches Some(v)
            ==> crate::token::events_wf(v@)),
        forall|os: Option<Seq<Unlock>>|
            sched_at(s@, i as int, os) ==> (r matches Some(p) && (match os {
                Some(us) => p.0 matches Some(v) && v@ == us,
                None => p.0 is None,
            }) && p.1 == i + sched_len(os)),
{
    proof {
        assert forall|os: Option<Seq<Unlock>>| sched_at(s@, i as int, os) implies match os {
            None => s@[i as int] == 110,
            Some(us) => s@[i as int] == 91 && ulist_at(s@, i as int, us),
        } by {
            assert(s@[i as int] == s@.subrange(i as int, i + sched_len(os))[0]);
            match os {
                None => {},
                Some(us) => {
                    lemma_sched_len(os);
                    assert(ulist_at(s@, i as int, us));
                    lemma_ulist_head(s@, i as int, us);
                },
            }
        }
    }
    if i < s.len() && s[i] == 110 {
        if s.len() - i < 4 {
            return None;
        }
        let c1 = eat(s, i + 1, 117);
        let c2 = eat(s, i + 2, 108);
        let c3 = eat(s, i + 3, 108);
        if c1.is_some() && c2.is_some() && c3.is_some() {
            return Some((None, i + 4));
        }
        proof {
            assert forall|os: Option<Seq<Unlock>>| !sched_at(s@, i as int, os) by {
                if sched_at(s@, i as int, os) {
                    assert(s@[i + 1] == s@.subrange(i as int, i + sched_len(os))[1]);
                    assert(s@[i + 2] == s@.subrange(i as int, i + sched_len(os))[2]);
                    assert(s@[i + 3] == s@.subrange(i as int, i + sched_len(os))[3]);
                }
            }
        }
        return None;
    }
    match parse_ulist(s, i) {
        Some((v, j)) => Some((Some(v), j)),
        None => {
            proof {
                assert forall|os: Option<Seq<Unlock>>| !sched_at(s@, i as int, os) by {
                    if sched_at(s@, i as int, os) {
                    }
                }
            }
            None
        },
    }
}

/// A well-formed decimal's encoding has the fixed width.
pub proof fn lemma_dec_len(d: Dec)
    requires
        d.wf(),
    ensures
        enc_dec(d).len() == W_DEC,
{
    lemma_pow10_chain();
    lemma_pad_facts(abs(d.mantissa as int), W_MANT as nat);
    lemma_pad_facts(d.scale as nat, W_SCALE as nat);
}

/// The encoded optional decimal has the length `opt_len` gives.
pub proof fn lemma_opt_len(od: Option<Dec>)
    requires
        od matches Some(d) ==> d.wf(),
    ensures
        enc_opt_dec(od).len() == opt_len(od),
{
    if let Some(d) = od {
        lemma_dec_len(d);
    }
}

/// The encoding of a token: an array of its identity, name, symbol, decimal
/// fields and unlock schedule, in declaration order, as fixed-width quoted
/// digit strings, code-point arrays, decimal pairs and nulls.
pub open spec fn enc_token(t: TokenV) -> Seq<u8> {
    seq![91u8, 34u8] + pad(t.id as nat, W_ID as nat) + seq![34u8, 44u8] + enc_str(t.name)
        + seq![44u8] + enc_str(t.symbol) + seq![44u8] + enc_dec(t.total_supply) + seq![44u8]
        + enc_dec(t.current_supply) + seq![44u8] + enc_dec(t.initial_supply_percentage)
        + seq![44u8] + enc_opt_dec(t.inflation_rate) + seq![44u8] + enc_opt_dec(t.burn_rate)
        + seq![44u8] + enc_dec(t.initial_price) + seq![44u8] + enc_opt_dec(t.airdrop_percentage)
        + seq![44u8] + enc_sched(t.unlock_schedule) + seq![93u8]
}

/// Serialize a token: the byte text of its encoding.
#[verifier::rlimit(100)]
pub fn encode_token(t: &TokenRecord) -> (r: Vec<u8>)
    requires
        t.wf(),
    ensures
        r@ == enc_token(t@),
{
    proof {
        lemma_pow10_chain();
    }
    let mut out: Vec<u8> = Vec::new();
    out.push(91);
    out.push(34);
    push_pad(&mut out, t.id, W_ID);
    out.push(34);
    out.push(44);
    push_str(&mut out, t.name.as_str());
    out.push(44);
    push_str(&mut out, t.symbol.as_str());
    out.push(44);
    push_dec(&mut out, &t.total_supply);
    out.push(44);
    push_dec(&mut out, &t.current_supply);
    out.push(44);
    push_dec(&mut out, &t.initial_supply_percentage);
    out.push(44);
    push_opt_dec(&mut out, &t.inflation_rate);
    out.push(44);
    push_opt_dec(&mut out, &t.burn_rate);
    out.push(44);
    push_dec(&mut out, &t.initial_price);
    out.push(44);
    push_opt_dec(&mut out, &t.airdrop_percentage);
    out.push(44);
    push_sched(&mut out, &t.unlock_schedule);
    out.push(93);
    proof {
        assert(out@ =~= enc_token(t@));
    }
    out
}

/// The hypothesis under which a token decode is owed `t`: the whole input is
/// the encoding of the well-formed token.
pub open spec fn token_at(s: Seq<u8>, t: TokenV) -> bool {
    &&& t.wf()
    &&& s == enc_token(t)
}

/// Deserialize a token. Where the input is the encoding of a well-formed
/// token, that token is returned: decoding inverts encoding, so a serialized
/// then deserialized token equals the original under structural equality.
/// Whatever the input, a decoded token is well-formed; malformed text that
/// decodes at all yields a well-formed token, never an unchecked one.
#[verifier::rlimit(100)]
#[verifier::spinoff_prover]
pub fn decode_token(s: &Vec<u8>) -> (r: Option<TokenRecord>)
    ensures
        r matches Some(tok) ==> tok.wf(),
        forall|t: TokenV| token_at(s@, t) ==> (r matches Some(tok) && tok@ == t),
{
    proof {
        lemma_pow10_chain();
        assert forall|t: TokenV| token_at(s@, t) implies {
            let a1 = seq![91u8, 34u8] + pad(t.id as nat, W_ID as nat) + seq![34u8, 44u8];
            let a2 = a1 + enc_str(t.name) + seq![44u8];
            let a3 = a2 + enc_str(t.symbol) + seq![44u8];
            let a4 = a3 + enc_dec(t.total_supply) + seq![44u8];
            let a5 = a4 + enc_dec(t.current_supply) + seq![44u8];
            let a6 = a5 + enc_dec(t.initial_supply_percentage) + seq![44u8];
            let a7 = a6 + enc_opt_dec(t.inflation_rate) + seq![44u8];
            let a8 = a7 + enc_opt_dec(t.burn_rate) + seq![44u8];
            let a9 = a8 + enc_dec(t.initial_price) + seq![44u8];
            let a10 = a9 + enc_opt_dec(t.airdrop_percentage) + seq![44u8];
            &&& s@.len() == enc_token(t).len()
            &&& s@[0] == 91
            &&& s@[1] == 34
            &&& s@.subrange(2, 41) == pad(t.id as nat, W_ID as nat)
            &&& s@[41] == 34
            &&& s@[42] == 44
            &&& str_at(s@, 43, t.name)
            &&& s@[a2.len() - 1] == 44
            &&& a2.len() == 44 + str_len(t.name)
            &&& str_at(s@, a2.len() as int, t.symbol)
            &&& s@[a3.len() - 1] == 44
            &&& a3.len() == a2.len() + str_len(t.symbol) + 1
            &&& dec_at(s@, a3.len() as int, t.total_supply)
            &&& s@[a4.len() - 1] == 44
            &&& a4.len() == a3.len() + 40
            &&& dec_at(s@, a4.len() as int, t.current_supply)
            &&& s@[a5.len() - 1] == 44
            &&& a5.len() == a4.len() + 40
            &&& dec_at(s@, a5.len() as int, t.initial_supply_percentage)
            &&& s@[a6.len() - 1] == 44
            &&& a6.len() == a5.len() + 40
            &&& opt_dec_at(s@, a6.len() as int, t.inflation_rate)
            &&& s@[a7.len() - 1] == 44
            &&& a7.len() == a6.len() + opt_len(t.inflation_rate) + 1
            &&& opt_dec_at(s@, a7.len() as int, t.burn_rate)
            &&& s@[a8.len() - 1] == 44
            &&& a8.len() == a7.len() + opt_len(t.burn_rate) + 1
            &&& dec_at(s@, a8.len() as int, t.initial_price)
            &&& s@[a9.len() - 1] == 44
            &&& a9.len() == a8.len() + 40
            &&& opt_dec_at(s@, a9.len() as int, t.airdrop_percentage)
            &&& s@[a10.len() - 1] == 44
            &&& a10.len() == a9.len() + opt_len(t.airdrop_percentage) + 1
            &&& sched_at(s@, a10.len() as int, t.unlock_schedule)
            &&& s@.len() == a10.len() + sched_len(t.unlock_schedule) + 1
            &&& s@[s@.len() - 1] == 93
        } by {
            let e = enc_token(t);
            let a1 = seq![91u8, 34u8] + pad(t.id as nat, W_ID as nat) + seq![34u8, 44u8];
            let a2 = a1 + enc_str(t.name) + seq![44u8];
            let a3 = a2 + enc_str(t.symbol) + seq![44u8];
            let a4 = a3 + enc_dec(t.total_supply) + seq![44u8];
            let a5 = a4 + enc_dec(t.current_supply) + seq![44u8];
            let a6 = a5 + enc_dec(t.initial_supply_percentage) + seq![44u8];
            let a7 = a6 + enc_opt_dec(t.inflation_rate) + seq![44u8];
            let a8 = a7 + enc_opt_dec(t.burn_rate) + seq![44u8];
            let a9 = a8 + enc_dec(t.initial_price) + seq![44u8];
            let a10 = a9 + enc_opt_dec(t.airdrop_percentage) + seq![44u8];
            let a11 = a10 + enc_sched(t.unlock_schedule) + seq![93u8];
            assert(e == a11);
            lemma_pad_facts(t.id as nat, W_ID as nat);
            lemma_str_len(t.name);
            lemma_str_len(t.symbol);
            lemma_dec_len(t.total_supply);
            lemma_dec_len(t.current_supply);
            lemma_dec_len(t.initial_supply_percentage);
            lemma_opt_len(t.inflation_rate);
            lemma_opt_len(t.burn_rate);
            lemma_dec_len(t.initial_price);
            lemma_opt_len(t.airdrop_percentage);
            lemma_sched_len(t.unlock_schedule);
            assert(a1.len() == 43);
            assert(s@[0] == (seq![91u8, 34u8] + pad(t.id as nat, W_ID as nat))[0]);
            assert(s@[1] == (seq![91u8, 34u8] + pad(t.id as nat, W_ID as nat))[1]);
            assert forall|q: int| 0 <= q < 39 implies s@[2 + q] == pad(t.id as nat, W_ID as nat)[q]
                by {
                assert(s@[2 + q] == a1[2 + q]);
                assert(a1[2 + q] == (seq![91u8, 34u8] + pad(t.id as nat, W_ID as nat))[2 + q]);
            }
            assert(s@.subrange(2, 41) =~= pad(t.id as nat, W_ID as nat));
            assert(s@[41] == a1[41]);
            assert(s@[42] == a1[42]);
            assert forall|q: int| 0 <= q < enc_str(t.name).len() implies s@[43 + q] == enc_str(
                t.name,
            )[q] by {
                assert(s@[43 + q] == a2[43 + q]);
                assert(a2[43 + q] == (a1 + enc_str(t.name))[43 + q]);
            }
            assert(s@.subrange(43, 43 + enc_str(t.name).len() as int) =~= enc_str(t.name));
            assert(s@[a2.len() - 1] == a2[a2.len() - 1]);
            assert forall|q: int| 0 <= q < enc_str(t.symbol).len() implies s@[a2.len() + q]
                == enc_str(t.symbol)[q] by {
                assert(s@[a2.len() + q] == a3[a2.len() + q]);
                assert(a3[a2.len() + q] == (a2 + enc_str(t.symbol))[a2.len() + q]);
            }
            assert(s@.subrange(a2.len() as int, a2.len() as int + enc_str(t.symbol).len() as int) =~= enc_str(
                t.symbol,
            ));
            assert(s@[a3.len() - 1] == a3[a3.len() - 1]);
            assert forall|q: int| 0 <= q < 39 implies s@[a3.len() + q] == enc_dec(t.total_supply)[q]
                by {
                assert(s@[a3.len() + q] == a4[a3.len() + q]);
                assert(a4[a3.len() + q] == (a3 + enc_dec(t.total_supply))[a3.len() + q]);
            }
            assert(s@.subrange(a3.len() as int, a3.len() as int + 39) =~= enc_dec(t.total_supply));
            assert(s@[a4.len() - 1] == a4[a4.len() - 1]);
            assert forall|q: int| 0 <= q < 39 implies s@[a4.len() + q] == enc_dec(
                t.current_supply,
            )[q] by {
                assert(s@[a4.len() + q] == a5[a4.len() + q]);
                assert(a5[a4.len() + q] == (a4 + enc_dec(t.current_supply))[a4.len() + q]);
            }
            assert(s@.subrange(a4.len() as int, a4.len() as int + 39) =~= enc_dec(t.current_supply));
            assert(s@[a5.len() - 1] == a5[a5.len() - 1]);
            assert forall|q: int| 0 <= q < 39 implies s@[a5.len() + q] == enc_dec(
                t.initial_supply_percentage,
            )[q] by {
                assert(s@[a5.len() + q] == a6[a5.len() + q]);
                assert(a6[a5.len() + q] == (a5 + enc_dec(t.initial_supply_percentage))[a5.len()
                    + q]);
            }
            assert(s@.subrange(a5.len() as int, a5.len() as int + 39) =~= enc_dec(
                t.initial_supply_percentage,
            ));
            assert(s@[a6.len() - 1] == a6[a6.len() - 1]);
            assert forall|q: int| 0 <= q < opt_len(t.inflation_rate) implies s@[a6.len() + q]
                == enc_opt_dec(t.inflation_rate)[q] by {
                assert(s@[a6.len() + q] == a7[a6.len() + q]);
                assert(a7[a6.len() + q] == (a6 + enc_opt_dec(t.inflation_rate))[a6.len() + q]);
            }
            assert(s@.subrange(a6.len() as int, a6.len() as int + opt_len(t.inflation_rate)) =~= enc_opt_dec(
                t.inflation_rate,
            ));
            assert(s@[a7.len() - 1] == a7[a7.len() - 1]);
            assert forall|q: int| 0 <= q < opt_len(t.burn_rate) implies s@[a7.len() + q]
                == enc_opt_dec(t.burn_rate)[q] by {
                assert(s@[a7.len() + q] == a8[a7.len() + q]);
                assert(a8[a7.len() + q] == (a7 + enc_opt_dec(t.burn_rate))[a7.len() + q]);
            }
            assert(s@.subrange(a7.len() as int, a7.len() as int + opt_len(t.burn_rate)) =~= enc_opt_dec(
                t.burn_rate,
            ));
            assert(s@[a8.len() - 1] == a8[a8.len() - 1]);
            assert forall|q: int| 0 <= q < 39 implies s@[a8.len() + q] == enc_dec(t.initial_price)[
                q
            ] by {
                assert(s@[a8.len() + q] == a9[a8.len() + q]);
                assert(a9[a8.len() + q] == (a8 + enc_dec(t.initial_price))[a8.len() + q]);
            }
            assert(s@.subrange(a8.len() as int, a8.len() as int + 39) =~= enc_dec(t.initial_price));
            assert(s@[a9.len() - 1] == a9[a9.len() - 1]);
            assert forall|q: int| 0 <= q < opt_len(t.airdrop_percentage) implies s@[a9.len() + q]
                == enc_opt_dec(t.airdrop_percentage)[q] by {
                assert(s@[a9.len() + q] == a10[a9.len() + q]);
                assert(a10[a9.len() + q] == (a9 + enc_opt_dec(t.airdrop_percentage))[a9.len() + q]);
            }
            assert(s@.subrange(a9.len() as int, a9.len() as int + opt_len(t.airdrop_percentage))
                =~= enc_opt_dec(t.airdrop_percentage));
            assert(s@[a10.len() - 1] == a10[a10.len() - 1]);
            assert forall|q: int| 0 <= q < sched_len(t.unlock_schedule) implies s@[a10.len() + q]
                == enc_sched(t.unlock_schedule)[q] by {
                assert(s@[a10.len() + q] == a11[a10.len() + q]);
                assert(a11[a10.len() + q] == (a10 + enc_sched(t.unlock_schedule))[a10.len() + q]);
            }
            assert(s@.subrange(a10.len() as int, a10.len() as int + sched_len(t.unlock_schedule))
                =~= enc_sched(t.unlock_schedule));
            assert(s@[a11.len() - 1] == a11[a11.len() - 1]);
        }
    }
    let c0 = eat(s, 0, 91);
    let c1 = eat(s, 1, 34);
    let id_parsed = parse_pad(s, 2, W_ID);
    let c2 = eat(s, 41, 34);
    let c3 = eat(s, 42, 44);
    if !(c0.is_some() && c1.is_some() && c2.is_some() && c3.is_some()) {
        return None;
    }
    let id = match id_parsed {
        Some(p) => p.0,
        None => {
            return None;
        },
    };
    let (name, p1) = match parse_str(s, 43) {
        Some(p) => p,
        None => {
            return None;
        },
    };
    let p1b = match eat(s, p1, 44) {
        Some(j) => j,
        None => {
            return None;
        },
    };
    let (symbol, p2) = match parse_str(s, p1b) {
        Some(p) => p,
        None => {
            return None;
        },
    };
    let p2b = match eat(s, p2, 44) {
        Some(j) => j,
        None => {
            return None;
        },
    };
    let (total_supply, p3) = match parse_dec(s, p2b) {
        Some(p) => p,
        None => {
            return None;
        },
    };
    let p3b = match eat(s, p3, 44) {
        Some(j) => j,
        None => {
            return None;
        },
    };
    let (current_supply, p4) = match parse_dec(s, p3b) {
        Some(p) => p,
        None => {
            return None;
        },
    };
    let p4b = match eat(s, p4, 44) {
        Some(j) => j,
        None => {
            return None;
        },
    };
    let (initial_supply_percentage, p5) = match parse_dec(s, p4b) {
        Some(p) => p,
        None => {
            return None;
        },
    };
    let p5b = match eat(s, p5, 44) {
        Some(j) => j,
        None => {
            return None;
        },
    };
    let (inflation_rate, p6) = match parse_opt_dec(s, p5b) {
        Some(p) => p,
        None => {
            return None;
        },
    };
    let p6b = match eat(s, p6, 44) {
        Some(j) => j,
        None => {
            return None;
        },
    };
    let (burn_rate, p7) = match parse_opt_dec(s, p6b) {
        Some(p) => p,
        None => {
            return None;
        },
    };
    let p7b = match eat(s, p7, 44) {
        Some(j) => j,
        None => {
            return None;
        },
    };
    let (initial_price, p8) = match parse_dec(s, p7b) {
        Some(p) => p,
        None => {
            return None;
        },
    };
    let p8b = match eat(s, p8, 44) {
        Some(j) => j,
        None => {
            return None;
        },
    };
    let (airdrop_percentage, p9) = match parse_opt_dec(s, p8b) {
        Some(p) => p,
        None => {
            return None;
        },
    };
    let p9b = match eat(s, p9, 44) {
        Some(j) => j,
        None => {
            return None;
        },
    };
    let (unlock_schedule, p10) = match parse_sched(s, p9b) {
        Some(p) => p,
        None => {
            return None;
        },
    };
    let p10b = match eat(s, p10, 93) {
        Some(j) => j,
        None => {
            return None;
        },
    };
    if p10b != s.len() {
        return None;
    }
    let tok = TokenRecord {
        id,
        name,
        symbol,
        total_supply,
        current_supply,
        initial_supply_percentage,
        inflation_rate,
        burn_rate,
        initial_price,
        airdrop_percentage,
        unlock_schedule,
    };
    Some(tok)
}

/// Serializing a token and deserializing the text yields a token equal to
/// the original under structural equality: decoding inverts encoding on
/// every well-formed token.
pub fn token_roundtrip(t: &TokenRecord) -> (r: Option<TokenRecord>)
    requires
        t.wf(),
    ensures
        r matches Some(tok) && tok@ == t@,
{
    let encoded = encode_token(t);
    proof {
        assert(token_at(encoded@, t@));
    }
    decode_token(&encoded)
}

} // verus!
