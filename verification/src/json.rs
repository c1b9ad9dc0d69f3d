//! Emitters and parsers for the JSON fragments the wire payloads use:
//! decimal numbers, escaped strings, and byte-valued arrays.
//!
//! Every emitter has a spec-level twin over `Seq<u8>`, every parser is a
//! strict recognizer of the emitted grammar, and round-trip lemmas prove
//! that parsing an emitted value (with any continuation) gives the value
//! back.

use vstd::prelude::*;
use vstd::arithmetic::div_mod::lemma_fundamental_div_mod;

verus! {

/// ASCII decimal digit.
pub open spec fn is_digit(b: u8) -> bool {
    48 <= b <= 57
}

/// Decimal digits of `n`, most significant first.
pub open spec fn spec_emit_u128(n: u128) -> Seq<u8>
    decreases n,
{
    if n < 10 {
        seq![(48 + n) as u8]
    } else {
        spec_emit_u128(n / 10).push((48 + n % 10) as u8)
    }
}

/// Greedy digit run starting from accumulator `acc`; fails if the value
/// would not fit in a `u128`.
pub open spec fn spec_parse_digits(s: Seq<u8>, acc: int) -> Option<(int, Seq<u8>)>
    decreases s.len(),
{
    if s.len() > 0 && is_digit(s[0]) {
        let acc2 = acc * 10 + (s[0] - 48);
        if acc2 > u128::MAX {
            None
        } else {
            spec_parse_digits(s.skip(1), acc2)
        }
    } else {
        Some((acc, s))
    }
}

/// Canonical decimal number: `0`, or a nonzero leading digit followed by
/// a greedy digit run.
pub open spec fn spec_parse_u128(s: Seq<u8>) -> Option<(u128, Seq<u8>)> {
    if s.len() == 0 || !is_digit(s[0]) {
        None
    } else if s[0] == 48 {
        Some((0, s.skip(1)))
    } else {
        match spec_parse_digits(s, 0) {
            None => None,
            Some((v, r)) => Some((v as u128, r)),
        }
    }
}

pub open spec fn pow10(k: nat) -> int
    decreases k,
{
    if k == 0 {
        1
    } else {
        10 * pow10((k - 1) as nat)
    }
}

proof fn lemma_emit_u128_first(n: u128)
    ensures
        spec_emit_u128(n).len() >= 1,
        is_digit(spec_emit_u128(n)[0]),
        n > 0 ==> spec_emit_u128(n)[0] != 48,
    decreases n,
{
    if n >= 10 {
        lemma_emit_u128_first(n / 10);
    }
}

/// Running the digit parser over an emitted number continues on the rest
/// with the number folded into the accumulator.
proof fn lemma_parse_digits_emit(n: u128, acc: int, rest: Seq<u8>)
    requires
        0 <= acc,
        acc * pow10(spec_emit_u128(n).len()) + n <= u128::MAX,
    ensures
        spec_parse_digits(spec_emit_u128(n) + rest, acc) == spec_parse_digits(
            rest,
            acc * pow10(spec_emit_u128(n).len()) + n,
        ),
    decreases n,
{
    let e = spec_emit_u128(n);
    let s = e + rest;
    lemma_emit_u128_first(n);
    if n < 10 {
        assert(s[0] == (48 + n) as u8);
        let acc2 = acc * 10 + (s[0] - 48);
        assert(acc2 == acc * pow10(e.len()) + n) by {
            reveal_with_fuel(pow10, 2);
        }
        assert(s.skip(1) =~= rest);
    } else {
        let ep = spec_emit_u128(n / 10);
        let d = (48 + n % 10) as u8;
        assert(e == ep.push(d));
        assert(s =~= ep + (seq![d] + rest));
        let p = pow10(ep.len());
        assert(pow10(e.len()) == 10 * p);
        lemma_fundamental_div_mod(n as int, 10);
        assert((acc * p + n / 10) * 10 + (n % 10) == acc * (10 * p) + n) by (nonlinear_arith)
            requires
                n == 10 * (n as int / 10) + (n as int % 10),
        ;
        assert(0 <= n % 10 < 10);
        assert(acc * p + n / 10 <= u128::MAX);
        lemma_parse_digits_emit(n / 10, acc, seq![d] + rest);
        let mid = seq![d] + rest;
        let acc1 = acc * p + n / 10;
        assert(spec_parse_digits(s, acc) == spec_parse_digits(mid, acc1));
        assert(mid[0] == d && is_digit(d));
        let acc2 = acc1 * 10 + (d - 48);
        assert(acc2 == acc * pow10(e.len()) + n);
        assert(mid.skip(1) =~= rest);
    }
}

/// Parsing an emitted number followed by anything that does not start
/// with a digit yields the number back.
pub proof fn lemma_parse_emit_u128(n: u128, rest: Seq<u8>)
    requires
        rest.len() == 0 || !is_digit(rest[0]),
    ensures
        spec_parse_u128(spec_emit_u128(n) + rest) == Some((n, rest)),
{
    let e = spec_emit_u128(n);
    let s = e + rest;
    lemma_emit_u128_first(n);
    assert(s[0] == e[0]);
    if n == 0 {
        assert(e =~= seq![48u8]);
        assert(s.skip(1) =~= rest);
    } else {
        assert(e.len() >= 1);
        assert(pow10(e.len()) >= 0) by {
            lemma_pow10_pos(e.len());
        }
        assert(0 * pow10(e.len()) + n <= u128::MAX);
        lemma_parse_digits_emit(n, 0, rest);
        assert(spec_parse_digits(s, 0) == spec_parse_digits(rest, n as int));
        assert(spec_parse_digits(rest, n as int) == Some((n as int, rest)));
    }
}

proof fn lemma_pow10_pos(k: nat)
    ensures
        pow10(k) >= 1,
    decreases k,
{
    if k > 0 {
        lemma_pow10_pos((k - 1) as nat);
    }
}

/// Appends the canonical decimal form of `n`.
pub fn emit_u128(out: &mut Vec<u8>, n: u128)
    ensures
        final(out)@ == old(out)@ + spec_emit_u128(n),
    decreases n,
{
    if n < 10 {
        out.push(48 + (n as u8));
        proof {
            assert(final(out)@ =~= old(out)@ + spec_emit_u128(n));
        }
    } else {
        emit_u128(out, n / 10);
        out.push(48 + ((n % 10) as u8));
        proof {
            assert(final(out)@ =~= old(out)@ + spec_emit_u128(n));
        }
    }
}

/// Parses a canonical decimal number at position `i`; returns the value
/// and the position after it.
pub fn parse_u128_at(s: &Vec<u8>, i: usize) -> (r: Option<(u128, usize)>)
    requires
        i <= s@.len(),
    ensures
        match r {
            Some(p) => i <= p.1 <= s@.len() && spec_parse_u128(s@.skip(i as int)) == Some(
                (p.0, s@.skip(p.1 as int)),
            ),
            None => spec_parse_u128(s@.skip(i as int)) is None,
        },
{
    let s_len: usize = s.len();
    if i == s_len {
        return None;
    }
    let b = s[i];
    proof {
        assert(s@.skip(i as int)[0] == s@[i as int]);
    }
    if !(48 <= b && b <= 57) {
        return None;
    }
    if b == 48 {
        proof {
            assert(s@.skip(i as int).skip(1) =~= s@.skip(i + 1));
        }
        return Some((0, i + 1));
    }
    let mut acc: u128 = 0;
    let mut j: usize = i;
    loop
        invariant
            s_len == s@.len(),
            i <= j <= s_len,
            s@.skip(i as int).len() > 0,
            is_digit(s@.skip(i as int)[0]),
            s@.skip(i as int)[0] != 48,
            spec_parse_digits(s@.skip(i as int), 0) == spec_parse_digits(
                s@.skip(j as int),
                acc as int,
            ),
        decreases s_len - j,
    {
        if j == s_len {
            proof {
                assert(s@.skip(j as int).len() == 0);
            }
            return Some((acc, j));
        }
        let d = s[j];
        proof {
            assert(s@.skip(j as int)[0] == s@[j as int]);
        }
        if !(48 <= d && d <= 57) {
            return Some((acc, j));
        }
        let dv: u128 = (d - 48) as u128;
        let limit: u128 = (u128::MAX - dv) / 10;
        proof {
            lemma_fundamental_div_mod((u128::MAX - dv) as int, 10);
        }
        if acc > limit {
            proof {
                assert((acc as int) * 10 + dv > u128::MAX);
            }
            return None;
        }
        proof {
            assert((acc as int) * 10 + dv <= u128::MAX);
            assert(s@.skip(j as int).skip(1) =~= s@.skip(j + 1));
        }
        acc = acc * 10 + dv;
        j += 1;
    }
}

/// Hex digit (lower case) for a value below 16.
pub open spec fn spec_hex_digit(v: u8) -> u8 {
    if v < 10 {
        (48 + v) as u8
    } else {
        (87 + v) as u8
    }
}

/// Value of a hex digit byte, or -1 if the byte is no hex digit.
pub open spec fn spec_hex_val(b: u8) -> int {
    if 48 <= b <= 57 {
        b - 48
    } else if 97 <= b <= 102 {
        b - 87
    } else {
        -1
    }
}

/// JSON escaping of one byte: quote and backslash get a backslash,
/// control bytes become `\u00XX`, all else passes through.
pub open spec fn spec_escape_byte(b: u8) -> Seq<u8> {
    if b == 34 {
        seq![92u8, 34u8]
    } else if b == 92 {
        seq![92u8, 92u8]
    } else if b < 32 {
        seq![92u8, 117u8, 48u8, 48u8, spec_hex_digit(b / 16), spec_hex_digit(b % 16)]
    } else {
        seq![b]
    }
}

pub open spec fn spec_escape(s: Seq<u8>) -> Seq<u8>
    decreases s.len(),
{
    if s.len() == 0 {
        Seq::empty()
    } else {
        spec_escape_byte(s[0]) + spec_escape(s.skip(1))
    }
}

/// A quoted, escaped JSON string.
pub open spec fn spec_emit_string(s: Seq<u8>) -> Seq<u8> {
    seq![34u8] + spec_escape(s) + seq![34u8]
}

/// String body after the opening quote, up to the closing quote.
pub open spec fn spec_parse_strbody(s: Seq<u8>) -> Option<(Seq<u8>, Seq<u8>)>
    decreases s.len(),
{
    if s.len() == 0 {
        None
    } else if s[0] == 34 {
        Some((Seq::empty(), s.skip(1)))
    } else if s[0] == 92 {
        if s.len() < 2 {
            None
        } else if s[1] == 34 || s[1] == 92 {
            match spec_parse_strbody(s.skip(2)) {
                None => None,
                Some((t, r)) => Some((seq![s[1]] + t, r)),
            }
        } else if s[1] == 117 {
            if s.len() < 6 {
                None
            } else if s[2] == 48 && s[3] == 48 && spec_hex_val(s[4]) >= 0 && spec_hex_val(s[5])
                >= 0 {
                match spec_parse_strbody(s.skip(6)) {
                    None => None,
                    Some((t, r)) => Some(
                        (seq![(spec_hex_val(s[4]) * 16 + spec_hex_val(s[5])) as u8] + t, r),
                    ),
                }
            } else {
                None
            }
        } else {
            None
        }
    } else if s[0] < 32 {
        None
    } else {
        match spec_parse_strbody(s.skip(1)) {
            None => None,
            Some((t, r)) => Some((seq![s[0]] + t, r)),
        }
    }
}

pub open spec fn spec_parse_string(s: Seq<u8>) -> Option<(Seq<u8>, Seq<u8>)> {
    if s.len() > 0 && s[0] == 34 {
        spec_parse_strbody(s.skip(1))
    } else {
        None
    }
}

/// The bytes 93 and 35 — `]` then `#`, the envelope's closing delimiter
/// — are nowhere adjacent.
pub open spec fn spec_no_close_pair(x: Seq<u8>) -> bool {
    forall|j: int| 0 <= j && j + 1 < x.len() ==> !(#[trigger] x[j] == 93 && x[j + 1] == 35)
}

/// No `#` byte — 35 — anywhere.
pub open spec fn spec_no_hash(x: Seq<u8>) -> bool {
    forall|j: int| 0 <= j < x.len() ==> x[j] != 35
}

/// Bytes without `#` cannot hold the closing delimiter.
pub proof fn lemma_no_hash_no_close(x: Seq<u8>)
    requires
        spec_no_hash(x),
    ensures
        spec_no_close_pair(x),
        !crate::bytes::contains_sub(x, seq![93u8, 35u8]),
{
    crate::bytes::lemma_contains_pair(x, 93, 35);
}

/// Freedom from `#` survives concatenation.
pub proof fn lemma_no_hash_concat(a: Seq<u8>, b: Seq<u8>)
    requires
        spec_no_hash(a),
        spec_no_hash(b),
    ensures
        spec_no_hash(a + b),
{
    assert forall|j: int| 0 <= j < (a + b).len() implies (a + b)[j] != 35 by {
        if j < a.len() {
            assert((a + b)[j] == a[j]);
        } else {
            assert((a + b)[j] == b[j - a.len()]);
        }
    }
}

/// Emitted numbers are digits alone: no `#` among them.
pub proof fn lemma_emit_u128_no_hash(n: u128)
    ensures
        spec_no_hash(spec_emit_u128(n)),
    decreases n,
{
    if n >= 10 {
        lemma_emit_u128_no_hash(n / 10);
    }
}

proof fn lemma_emit_u8_items_no_hash(l: Seq<u8>)
    ensures
        spec_no_hash(spec_emit_u8_items(l)),
    decreases l.len(),
{
    if l.len() == 0 {
    } else if l.len() == 1 {
        lemma_emit_u128_no_hash(l[0] as u128);
    } else {
        lemma_emit_u128_no_hash(l[0] as u128);
        lemma_emit_u8_items_no_hash(l.skip(1));
        lemma_no_hash_concat(spec_emit_u128(l[0] as u128), seq![44u8]);
        lemma_no_hash_concat(
            spec_emit_u128(l[0] as u128) + seq![44u8],
            spec_emit_u8_items(l.skip(1)),
        );
    }
}

/// Emitted byte lists hold digits, commas and brackets: no `#`.
pub proof fn lemma_emit_u8_list_no_hash(l: Seq<u8>)
    ensures
        spec_no_hash(spec_emit_u8_list(l)),
{
    lemma_emit_u8_items_no_hash(l);
    lemma_no_hash_concat(seq![91u8], spec_emit_u8_items(l));
    lemma_no_hash_concat(seq![91u8] + spec_emit_u8_items(l), seq![93u8]);
}

/// Text free of the closing delimiter stays free of it when put between
/// neighbours that cannot complete the pair at either seam.
pub proof fn lemma_no_close_concat(a: Seq<u8>, b: Seq<u8>)
    requires
        spec_no_close_pair(a),
        spec_no_close_pair(b),
        a.len() > 0 && b.len() > 0 ==> !(a.last() == 93 && b[0] == 35),
    ensures
        spec_no_close_pair(a + b),
{
    assert forall|j: int|
        0 <= j && j + 1 < (a + b).len() implies !(#[trigger] (a + b)[j] == 93 && (a + b)[j + 1]
        == 35) by {
        if j + 1 < a.len() {
            assert((a + b)[j] == a[j] && (a + b)[j + 1] == a[j + 1]);
        } else if j + 1 == a.len() {
            assert((a + b)[j] == a.last() && (a + b)[j + 1] == b[0]);
        } else {
            assert((a + b)[j] == b[j - a.len()] && (a + b)[j + 1] == b[j + 1 - a.len()]);
        }
    }
}

/// What one escaped byte can look like: at least one byte long, opening
/// with 35 or closing with 93 only as the pass-through of that very byte.
proof fn lemma_escape_byte_shape(b: u8)
    ensures
        spec_escape_byte(b).len() >= 1,
        spec_escape_byte(b)[0] == 35 ==> b == 35,
        spec_escape_byte(b).last() == 93 ==> b == 93,
        spec_no_close_pair(spec_escape_byte(b)),
{
    let e = spec_escape_byte(b);
    if b == 34 || b == 92 {
        assert(e[0] == 92 && e[1] == b);
        assert(e.last() == b);
    } else if b < 32 {
        assert(e[0] == 92 && e[1] == 117 && e[2] == 48 && e[3] == 48);
        assert(e[4] == spec_hex_digit(b / 16) && e[5] == spec_hex_digit(b % 16));
        assert(b % 16 < 16);
        assert(e.last() != 93);
        assert(forall|j: int| 0 <= j && j + 1 < e.len() ==> e[j] != 93);
    } else {
        assert(e[0] == b && e.last() == b);
    }
}

/// Escaped text is nonempty when the text is, and opens with 35 only
/// when the text does.
proof fn lemma_escape_first(s: Seq<u8>)
    ensures
        s.len() > 0 ==> spec_escape(s).len() >= 1,
        s.len() > 0 && spec_escape(s)[0] == 35 ==> s[0] == 35,
{
    if s.len() > 0 {
        lemma_escape_byte_shape(s[0]);
        assert(spec_escape(s)[0] == spec_escape_byte(s[0])[0]);
    }
}

/// Escaping text free of the closing delimiter yields bytes free of it.
pub proof fn lemma_escape_no_close(v: Seq<u8>)
    requires
        spec_no_close_pair(v),
    ensures
        spec_no_close_pair(spec_escape(v)),
    decreases v.len(),
{
    if v.len() == 0 {
    } else {
        let eb = spec_escape_byte(v[0]);
        let tail = spec_escape(v.skip(1));
        let e = spec_escape(v);
        assert(e == eb + tail);
        lemma_escape_byte_shape(v[0]);
        assert(spec_no_close_pair(v.skip(1))) by {
            assert(forall|j: int|
                0 <= j && j + 1 < v.skip(1).len() ==> #[trigger] v.skip(1)[j] == v[j + 1]
                    && v.skip(1)[j + 1] == v[j + 2]);
        }
        lemma_escape_no_close(v.skip(1));
        lemma_escape_first(v.skip(1));
        assert forall|j: int| 0 <= j && j + 1 < e.len() implies !(#[trigger] e[j] == 93 && e[j + 1] == 35) by {
            if j + 1 < eb.len() {
                assert(e[j] == eb[j] && e[j + 1] == eb[j + 1]);
            } else if j + 1 == eb.len() {
                assert(e[j] == eb.last());
                assert(e[j + 1] == tail[0]);
                if e[j] == 93 && e[j + 1] == 35 {
                    assert(v[0] == 93);
                    assert(v.skip(1)[0] == 35);
                    assert(v[1] == 35);
                }
            } else {
                assert(e[j] == tail[j - eb.len()]);
                assert(e[j + 1] == tail[j + 1 - eb.len()]);
            }
        }
    }
}

/// Escaping distributes over concatenation.
proof fn lemma_escape_concat(a: Seq<u8>, b: Seq<u8>)
    ensures
        spec_escape(a + b) == spec_escape(a) + spec_escape(b),
    decreases a.len(),
{
    if a.len() == 0 {
        assert(a + b =~= b);
        assert(spec_escape(a) + spec_escape(b) =~= spec_escape(b));
    } else {
        assert((a + b)[0] == a[0]);
        assert((a + b).skip(1) =~= a.skip(1) + b);
        lemma_escape_concat(a.skip(1), b);
        assert(spec_escape_byte(a[0]) + (spec_escape(a.skip(1)) + spec_escape(b)) =~= (
        spec_escape_byte(a[0]) + spec_escape(a.skip(1))) + spec_escape(b));
    }
}

/// Parsing an escaped body followed by the closing quote and anything
/// else yields the unescaped bytes back.
pub proof fn lemma_parse_emit_strbody(s: Seq<u8>, rest: Seq<u8>)
    ensures
        spec_parse_strbody(spec_escape(s) + (seq![34u8] + rest)) == Some((s, rest)),
    decreases s.len(),
{
    let total = spec_escape(s) + (seq![34u8] + rest);
    if s.len() == 0 {
        assert(total =~= seq![34u8] + rest);
        assert(total[0] == 34);
        assert(total.skip(1) =~= rest);
    } else {
        let b = s[0];
        let tail = spec_escape(s.skip(1)) + (seq![34u8] + rest);
        lemma_parse_emit_strbody(s.skip(1), rest);
        assert(total =~= spec_escape_byte(b) + tail);
        let eb = spec_escape_byte(b);
        assert(forall|k: int| 0 <= k < eb.len() ==> total[k] == eb[k]);
        if b == 34 || b == 92 {
            assert(total[0] == 92 && total[1] == b);
            assert(total.skip(2) =~= tail);
            assert(seq![b] + s.skip(1) =~= s);
        } else if b < 32 {
            assert(total[0] == 92 && total[1] == 117 && total[2] == 48 && total[3] == 48);
            assert(total[4] == spec_hex_digit(b / 16) && total[5] == spec_hex_digit(b % 16));
            assert(spec_hex_val(spec_hex_digit(b / 16)) == b / 16);
            assert(spec_hex_val(spec_hex_digit(b % 16)) == b % 16);
            assert((b / 16) * 16 + b % 16 == b) by {
                lemma_fundamental_div_mod(b as int, 16);
            }
            assert(total.skip(6) =~= tail);
            assert(seq![b] + s.skip(1) =~= s);
        } else {
            assert(total[0] == b);
            assert(total.skip(1) =~= tail);
            assert(seq![b] + s.skip(1) =~= s);
        }
    }
}

/// Parsing an emitted string followed by anything yields the string back.
pub proof fn lemma_parse_emit_string(s: Seq<u8>, rest: Seq<u8>)
    ensures
        spec_parse_string(spec_emit_string(s) + rest) == Some((s, rest)),
{
    let total = spec_emit_string(s) + rest;
    assert(total[0] == 34);
    assert(total.skip(1) =~= spec_escape(s) + (seq![34u8] + rest));
    lemma_parse_emit_strbody(s, rest);
}

/// Appends the quoted, escaped form of `s`.
pub fn emit_string(out: &mut Vec<u8>, s: &Vec<u8>)
    ensures
        final(out)@ == old(out)@ + spec_emit_string(s@),
{
    let s_len: usize = s.len();
    out.push(34);
    let mut k: usize = 0;
    while k < s_len
        invariant
            s_len == s@.len(),
            k <= s_len,
            out@ == old(out)@ + seq![34u8] + spec_escape(s@.take(k as int)),
        decreases s_len - k,
    {
        let b = s[k];
        if b == 34 || b == 92 {
            out.push(92);
            out.push(b);
        } else if b < 32 {
            out.push(92);
            out.push(117);
            out.push(48);
            out.push(48);
            let hi = b / 16;
            let lo = b % 16;
            out.push(if hi < 10 { 48 + hi } else { 87 + hi });
            out.push(if lo < 10 { 48 + lo } else { 87 + lo });
        } else {
            out.push(b);
        }
        proof {
            assert(s@.take(k + 1) =~= s@.take(k as int) + seq![s@[k as int]]);
            lemma_escape_concat(s@.take(k as int), seq![s@[k as int]]);
            assert(seq![s@[k as int]].skip(1) =~= Seq::<u8>::empty());
            assert(spec_escape(Seq::<u8>::empty()) == Seq::<u8>::empty());
            assert(spec_escape(seq![s@[k as int]]) == spec_escape_byte(s@[k as int]) + spec_escape(
                Seq::<u8>::empty(),
            ));
            assert(spec_escape(seq![s@[k as int]]) =~= spec_escape_byte(s@[k as int]));
            assert(out@ =~= old(out)@ + seq![34u8] + spec_escape(s@.take(k + 1)));
        }
        k += 1;
    }
    out.push(34);
    proof {
        assert(s@.take(s_len as int) =~= s@);
        assert(out@ =~= old(out)@ + spec_emit_string(s@));
    }
}

fn hex_val(b: u8) -> (r: Option<u8>)
    ensures
        match r {
            Some(v) => spec_hex_val(b) == v,
            None => spec_hex_val(b) == -1,
        },
{
    if 48 <= b && b <= 57 {
        Some(b - 48)
    } else if 97 <= b && b <= 102 {
        Some(b - 87)
    } else {
        None
    }
}

/// Parses a quoted string at position `i`; returns the unescaped bytes
/// and the position after the closing quote.
pub fn parse_string_at(s: &Vec<u8>, i: usize) -> (r: Option<(Vec<u8>, usize)>)
    requires
        i <= s@.len(),
    ensures
        match r {
            Some(p) => i <= p.1 <= s@.len() && spec_parse_string(s@.skip(i as int)) == Some(
                (p.0@, s@.skip(p.1 as int)),
            ),
            None => spec_parse_string(s@.skip(i as int)) is None,
        },
{
    let s_len: usize = s.len();
    if i == s_len {
        return None;
    }
    proof {
        assert(s@.skip(i as int)[0] == s@[i as int]);
    }
    if s[i] != 34 {
        return None;
    }
    proof {
        assert(s@.skip(i as int).skip(1) =~= s@.skip(i + 1));
    }
    let mut out: Vec<u8> = Vec::new();
    let mut j: usize = i + 1;
    loop
        invariant
            s_len == s@.len(),
            i + 1 <= j <= s_len,
            spec_parse_string(s@.skip(i as int)) == spec_parse_strbody(s@.skip(i + 1)),
            (match spec_parse_strbody(s@.skip(j as int)) {
                None => spec_parse_strbody(s@.skip(i + 1)) is None,
                Some((t, r)) => spec_parse_strbody(s@.skip(i + 1)) == Some((out@ + t, r)),
            }),
        decreases s_len - j,
    {
        if j == s_len {
            proof {
                assert(s@.skip(j as int).len() == 0);
            }
            return None;
        }
        let b = s[j];
        proof {
            assert(s@.skip(j as int)[0] == s@[j as int]);
        }
        if b == 34 {
            proof {
                assert(s@.skip(j as int).skip(1) =~= s@.skip(j + 1));
                assert(out@ + Seq::<u8>::empty() =~= out@);
            }
            return Some((out, j + 1));
        }
        if b == 92 {
            if j + 1 == s_len {
                proof {
                    assert(s@.skip(j as int).len() == 1);
                }
                return None;
            }
            let c = s[j + 1];
            proof {
                assert(s@.skip(j as int)[1] == s@[j + 1]);
            }
            if c == 34 || c == 92 {
                proof {
                    assert(s@.skip(j as int).skip(2) =~= s@.skip(j + 2));
                    step_cons(spec_parse_strbody(s@.skip(i + 1)), spec_parse_strbody(s@.skip(j + 2)), out@, c);
                }
                out.push(c);
                j += 2;
            } else if c == 117 {
                if s_len - j < 6 {
                    proof {
                        assert(s@.skip(j as int).len() < 6);
                    }
                    return None;
                }
                proof {
                    assert(s@.skip(j as int)[2] == s@[j + 2]);
                    assert(s@.skip(j as int)[3] == s@[j + 3]);
                    assert(s@.skip(j as int)[4] == s@[j + 4]);
                    assert(s@.skip(j as int)[5] == s@[j + 5]);
                }
                if !(s[j + 2] == 48 && s[j + 3] == 48) {
                    return None;
                }
                let hv4 = hex_val(s[j + 4]);
                let hv5 = hex_val(s[j + 5]);
                match (hv4, hv5) {
                    (Some(h), Some(l)) => {
                        let v: u8 = h * 16 + l;
                        proof {
                            assert(s@.skip(j as int).skip(6) =~= s@.skip(j + 6));
                            step_cons(spec_parse_strbody(s@.skip(i + 1)), spec_parse_strbody(s@.skip(j + 6)), out@, v);
                        }
                        out.push(v);
                        j += 6;
                    },
                    _ => {
                        return None;
                    },
                }
            } else {
                return None;
            }
        } else if b < 32 {
            return None;
        } else {
            proof {
                assert(s@.skip(j as int).skip(1) =~= s@.skip(j + 1));
                step_cons(spec_parse_strbody(s@.skip(i + 1)), spec_parse_strbody(s@.skip(j + 1)), out@, b);
            }
            out.push(b);
            j += 1;
        }
    }
}

/// Reassociates one decoded byte from a parser's continuation onto the
/// bytes already accumulated.
pub proof fn step_cons<T>(whole: Option<(Seq<T>, Seq<u8>)>, next: Option<(Seq<T>, Seq<u8>)>, acc: Seq<T>, b: T)
    requires
        (match next {
            None => whole is None,
            Some((t, r)) => whole == Some((acc + (seq![b] + t), r)),
        }),
    ensures
        (match next {
            None => whole is None,
            Some((t, r)) => whole == Some((acc.push(b) + t, r)),
        }),
{
    match next {
        None => {},
        Some((t, r)) => {
            assert(acc.push(b) + t =~= acc + (seq![b] + t));
        },
    }
}

/// Matches the exact literal `lit` at the head of `s`.
pub open spec fn spec_expect(s: Seq<u8>, lit: Seq<u8>) -> Option<Seq<u8>> {
    if s.len() >= lit.len() && s.take(lit.len() as int) == lit {
        Some(s.skip(lit.len() as int))
    } else {
        None
    }
}

pub proof fn lemma_expect_emit(lit: Seq<u8>, rest: Seq<u8>)
    ensures
        spec_expect(lit + rest, lit) == Some(rest),
{
    assert((lit + rest).take(lit.len() as int) =~= lit);
    assert((lit + rest).skip(lit.len() as int) =~= rest);
}

/// Matches the literal `lit` at position `i`; returns the position after it.
pub fn expect_at(s: &Vec<u8>, i: usize, lit: &Vec<u8>) -> (r: Option<usize>)
    requires
        i <= s@.len(),
    ensures
        match r {
            Some(j) => i <= j <= s@.len() && spec_expect(s@.skip(i as int), lit@) == Some(
                s@.skip(j as int),
            ),
            None => spec_expect(s@.skip(i as int), lit@) is None,
        },
{
    let s_len: usize = s.len();
    let l_len: usize = lit.len();
    if s_len - i < l_len {
        return None;
    }
    let mut k: usize = 0;
    while k < l_len
        invariant
            s_len == s@.len(),
            l_len == lit@.len(),
            i + l_len <= s_len,
            k <= l_len,
            forall|m: int| 0 <= m < k ==> s@[i + m] == lit@[m],
        decreases l_len - k,
    {
        if s[i + k] != lit[k] {
            proof {
                assert(s@.skip(i as int).take(lit@.len() as int)[k as int] == s@[i + k]);
            }
            return None;
        }
        k += 1;
    }
    proof {
        assert(s@.skip(i as int).take(lit@.len() as int) =~= lit@);
        assert(s@.skip(i as int).skip(lit@.len() as int) =~= s@.skip(i + l_len));
    }
    Some(i + l_len)
}

/// Comma-separated decimal items of a nonempty byte list.
pub open spec fn spec_emit_u8_items(l: Seq<u8>) -> Seq<u8>
    decreases l.len(),
{
    if l.len() == 0 {
        Seq::empty()
    } else if l.len() == 1 {
        spec_emit_u128(l[0] as u128)
    } else {
        spec_emit_u128(l[0] as u128) + seq![44u8] + spec_emit_u8_items(l.skip(1))
    }
}

/// A JSON array of byte-valued numbers.
pub open spec fn spec_emit_u8_list(l: Seq<u8>) -> Seq<u8> {
    seq![91u8] + spec_emit_u8_items(l) + seq![93u8]
}

/// The number parser always consumes at least one byte on success.
pub proof fn lemma_parse_u128_consumes(s: Seq<u8>)
    ensures
        (match spec_parse_u128(s) {
            Some((v, r)) => r.len() < s.len(),
            None => true,
        }),
{
    if s.len() > 0 && is_digit(s[0]) && s[0] != 48 {
        let acc2 = 0 * 10 + (s[0] - 48);
        if acc2 <= u128::MAX {
            lemma_parse_digits_len(s.skip(1), acc2);
        }
    }
}

proof fn lemma_parse_digits_len(s: Seq<u8>, acc: int)
    ensures
        (match spec_parse_digits(s, acc) {
            Some((v, r)) => r.len() <= s.len(),
            None => true,
        }),
    decreases s.len(),
{
    if s.len() > 0 && is_digit(s[0]) {
        let acc2 = acc * 10 + (s[0] - 48);
        if acc2 <= u128::MAX {
            lemma_parse_digits_len(s.skip(1), acc2);
        }
    }
}

/// The string parser never returns more than it was given.
pub proof fn lemma_parse_string_len(s: Seq<u8>)
    ensures
        (match spec_parse_string(s) {
            Some((t, r)) => r.len() < s.len(),
            None => true,
        }),
{
    if s.len() > 0 && s[0] == 34 {
        lemma_parse_strbody_len(s.skip(1));
    }
}

proof fn lemma_parse_strbody_len(s: Seq<u8>)
    ensures
        (match spec_parse_strbody(s) {
            Some((t, r)) => r.len() <= s.len(),
            None => true,
        }),
    decreases s.len(),
{
    if s.len() == 0 {
    } else if s[0] == 34 {
    } else if s[0] == 92 {
        if s.len() < 2 {
        } else if s[1] == 34 || s[1] == 92 {
            lemma_parse_strbody_len(s.skip(2));
        } else if s[1] == 117 {
            if s.len() >= 6 {
                lemma_parse_strbody_len(s.skip(6));
            }
        }
    } else if s[0] < 32 {
    } else {
        lemma_parse_strbody_len(s.skip(1));
    }
}

/// One or more byte-valued numbers separated by commas, consuming the
/// closing bracket.
pub open spec fn spec_parse_u8_items(s: Seq<u8>) -> Option<(Seq<u8>, Seq<u8>)>
    decreases s.len(),
        via spec_parse_u8_items_dec
{
    match spec_parse_u128(s) {
        None => None,
        Some((v, r)) => if v > 255 {
            None
        } else if r.len() > 0 && r[0] == 44 {
            match spec_parse_u8_items(r.skip(1)) {
                None => None,
                Some((t, rr)) => Some((seq![v as u8] + t, rr)),
            }
        } else if r.len() > 0 && r[0] == 93 {
            Some((seq![v as u8], r.skip(1)))
        } else {
            None
        },
    }
}

#[via_fn]
proof fn spec_parse_u8_items_dec(s: Seq<u8>) {
    lemma_parse_u128_consumes(s);
}

/// A full byte list: brackets around zero or more items.
pub open spec fn spec_parse_u8_list(s: Seq<u8>) -> Option<(Seq<u8>, Seq<u8>)> {
    if s.len() == 0 || s[0] != 91 {
        None
    } else if s.len() >= 2 && s[1] == 93 {
        Some((Seq::empty(), s.skip(2)))
    } else {
        spec_parse_u8_items(s.skip(1))
    }
}

/// The byte-list parser always consumes at least one byte on success.
pub proof fn lemma_parse_u8_list_len(s: Seq<u8>)
    ensures
        (match spec_parse_u8_list(s) {
            Some((t, r)) => r.len() < s.len(),
            None => true,
        }),
{
    if s.len() > 0 && s[0] == 91 {
        if !(s.len() >= 2 && s[1] == 93) {
            lemma_parse_u8_items_len(s.skip(1));
        }
    }
}

proof fn lemma_parse_u8_items_len(s: Seq<u8>)
    ensures
        (match spec_parse_u8_items(s) {
            Some((t, r)) => r.len() < s.len(),
            None => true,
        }),
    decreases s.len(),
{
    lemma_parse_u128_consumes(s);
    match spec_parse_u128(s) {
        None => {},
        Some((v, r)) => {
            if v <= 255 && r.len() > 0 && r[0] == 44 {
                lemma_parse_u8_items_len(r.skip(1));
            }
        },
    }
}

proof fn lemma_parse_emit_u8_items(l: Seq<u8>, rest: Seq<u8>)
    requires
        l.len() >= 1,
    ensures
        spec_parse_u8_items(spec_emit_u8_items(l) + (seq![93u8] + rest)) == Some((l, rest)),
    decreases l.len(),
{
    let v = l[0] as u128;
    if l.len() == 1 {
        let total = spec_emit_u8_items(l) + (seq![93u8] + rest);
        lemma_parse_emit_u128(v, seq![93u8] + rest);
        assert(total =~= spec_emit_u128(v) + (seq![93u8] + rest));
        let r = seq![93u8] + rest;
        assert(r[0] == 93);
        assert(r.skip(1) =~= rest);
        assert(seq![l[0]] =~= l);
    } else {
        let total = spec_emit_u8_items(l) + (seq![93u8] + rest);
        let tail_items = spec_emit_u8_items(l.skip(1));
        let rest1 = seq![44u8] + (tail_items + (seq![93u8] + rest));
        assert(total =~= spec_emit_u128(v) + rest1);
        lemma_parse_emit_u128(v, rest1);
        assert(rest1[0] == 44);
        assert(rest1.skip(1) =~= tail_items + (seq![93u8] + rest));
        lemma_parse_emit_u8_items(l.skip(1), rest);
        assert(seq![l[0]] + l.skip(1) =~= l);
    }
}

/// Parsing an emitted byte list followed by anything yields the list back.
pub proof fn lemma_parse_emit_u8_list(l: Seq<u8>, rest: Seq<u8>)
    ensures
        spec_parse_u8_list(spec_emit_u8_list(l) + rest) == Some((l, rest)),
{
    let total = spec_emit_u8_list(l) + rest;
    assert(total[0] == 91);
    if l.len() == 0 {
        assert(spec_emit_u8_items(l) == Seq::<u8>::empty());
        assert(total =~= seq![91u8, 93u8] + rest);
        assert(total[1] == 93);
        assert(total.skip(2) =~= rest);
        assert(l =~= Seq::<u8>::empty());
    } else {
        lemma_emit_u128_first(l[0] as u128);
        assert(total[1] == spec_emit_u8_items(l)[0]);
        assert(spec_emit_u8_items(l)[0] == spec_emit_u128(l[0] as u128)[0]);
        assert(total[1] != 93);
        assert(total.skip(1) =~= spec_emit_u8_items(l) + (seq![93u8] + rest));
        lemma_parse_emit_u8_items(l, rest);
    }
}

/// Appends the JSON array form of the byte list `l`.
pub fn emit_u8_list(out: &mut Vec<u8>, l: &Vec<u8>)
    ensures
        final(out)@ == old(out)@ + spec_emit_u8_list(l@),
{
    let l_len: usize = l.len();
    out.push(91);
    if l_len > 0 {
        emit_u128(out, l[0] as u128);
        proof {
            assert(l@.take(1)[0] == l@[0]);
            assert(spec_emit_u8_items(l@.take(1)) == spec_emit_u128(l@[0] as u128));
            assert(out@ =~= old(out)@ + seq![91u8] + spec_emit_u8_items(l@.take(1)));
        }
        let mut k: usize = 1;
        while k < l_len
            invariant
                l_len == l@.len(),
                1 <= k <= l_len,
                out@ == old(out)@ + seq![91u8] + spec_emit_u8_items(l@.take(k as int)),
            decreases l_len - k,
        {
            out.push(44);
            emit_u128(out, l[k] as u128);
            proof {
                assert(l@.take(k + 1) =~= l@.take(k as int).push(l@[k as int]));
                lemma_emit_u8_items_snoc(l@.take(k as int), l@[k as int]);
                assert(out@ =~= old(out)@ + seq![91u8] + spec_emit_u8_items(l@.take(k + 1)));
            }
            k += 1;
        }
    }
    out.push(93);
    proof {
        assert(l@.take(l_len as int) =~= l@);
        assert(out@ =~= old(out)@ + spec_emit_u8_list(l@));
    }
}

proof fn lemma_emit_u8_items_snoc(l: Seq<u8>, x: u8)
    requires
        l.len() >= 1,
    ensures
        spec_emit_u8_items(l.push(x)) == spec_emit_u8_items(l) + seq![44u8] + spec_emit_u128(
            x as u128,
        ),
    decreases l.len(),
{
    if l.len() == 1 {
        let lp = l.push(x);
        assert(lp[0] == l[0]);
        assert(lp.skip(1) =~= seq![x]);
        assert(spec_emit_u8_items(seq![x]) == spec_emit_u128(x as u128));
    } else {
        let lp = l.push(x);
        assert(lp[0] == l[0]);
        assert(lp.skip(1) =~= l.skip(1).push(x));
        lemma_emit_u8_items_snoc(l.skip(1), x);
        assert(spec_emit_u128(lp[0] as u128) + seq![44u8] + (spec_emit_u8_items(l.skip(1))
            + seq![44u8] + spec_emit_u128(x as u128)) =~= (spec_emit_u128(l[0] as u128) + seq![44u8]
            + spec_emit_u8_items(l.skip(1))) + seq![44u8] + spec_emit_u128(x as u128));
    }
}

/// Parses a byte list at position `i`; returns the bytes and the position
/// after the closing bracket.
pub fn parse_u8_list_at(s: &Vec<u8>, i: usize) -> (r: Option<(Vec<u8>, usize)>)
    requires
        i <= s@.len(),
    ensures
        match r {
            Some(p) => i <= p.1 <= s@.len() && spec_parse_u8_list(s@.skip(i as int)) == Some(
                (p.0@, s@.skip(p.1 as int)),
            ),
            None => spec_parse_u8_list(s@.skip(i as int)) is None,
        },
{
    let s_len: usize = s.len();
    if i == s_len {
        return None;
    }
    proof {
        assert(s@.skip(i as int)[0] == s@[i as int]);
    }
    if s[i] != 91 {
        return None;
    }
    if i + 1 < s_len {
        proof {
            assert(s@.skip(i as int)[1] == s@[i + 1]);
        }
        if s[i + 1] == 93 {
            proof {
                assert(s@.skip(i as int).skip(2) =~= s@.skip(i + 2));
            }
            return Some((Vec::new(), i + 2));
        }
    } else {
        proof {
            assert(s@.skip(i as int).len() == 1);
            assert(spec_parse_u128(s@.skip(i + 1)) is None);
        }
        return None;
    }
    proof {
        assert(s@.skip(i as int).skip(1) =~= s@.skip(i + 1));
    }
    let mut out: Vec<u8> = Vec::new();
    let mut j: usize = i + 1;
    loop
        invariant
            s_len == s@.len(),
            i + 1 <= j <= s_len,
            spec_parse_u8_list(s@.skip(i as int)) == spec_parse_u8_items(s@.skip(i + 1)),
            (match spec_parse_u8_items(s@.skip(j as int)) {
                None => spec_parse_u8_items(s@.skip(i + 1)) is None,
                Some((t, r)) => spec_parse_u8_items(s@.skip(i + 1)) == Some((out@ + t, r)),
            }),
        decreases s_len - j,
    {
        let parsed = parse_u128_at(s, j);
        match parsed {
            None => {
                return None;
            },
            Some((v, j2)) => {
                if v > 255 {
                    return None;
                }
                proof {
                    lemma_parse_u128_consumes(s@.skip(j as int));
                }
                let vb: u8 = v as u8;
                if j2 == s_len {
                    proof {
                        assert(s@.skip(j2 as int).len() == 0);
                    }
                    return None;
                }
                let c = s[j2];
                proof {
                    assert(s@.skip(j2 as int)[0] == s@[j2 as int]);
                }
                if c == 44 {
                    proof {
                        assert(s@.skip(j2 as int).skip(1) =~= s@.skip(j2 + 1));
                        step_cons(
                            spec_parse_u8_items(s@.skip(i + 1)),
                            spec_parse_u8_items(s@.skip(j2 + 1)),
                            out@,
                            vb,
                        );
                    }
                    out.push(vb);
                    j = j2 + 1;
                } else if c == 93 {
                    proof {
                        assert(s@.skip(j2 as int).skip(1) =~= s@.skip(j2 + 1));
                        assert(out@ + seq![vb] =~= out@.push(vb));
                    }
                    out.push(vb);
                    return Some((out, j2 + 1));
                } else {
                    return None;
                }
            },
        }
    }
}

} // verus!
