//! Byte-level JSON text primitives for the wire protocol: string escaping and
//! unescaping, and decimal number rendering and parsing, each with an exact
//! specification and a proof that parsing inverts printing.
//!
//! The frame payload is UTF-8 JSON.  Text is handled at the byte level: a
//! string field is written as `"` + escaped UTF-8 bytes + `"`, where `"`,
//! `\`, and control bytes below 0x20 are escaped; all other bytes (including
//! UTF-8 continuation bytes, which never collide with ASCII) pass through.

use vstd::prelude::*;

verus! {

/// Byte value of `"`.
pub const QUOTE: u8 = 34;

/// Byte value of `\`.
pub const BACKSLASH: u8 = 92;

/// Lowercase hex digit for a value below 16.
pub open spec fn hex_digit(n: int) -> u8 {
    if n < 10 {
        (48 + n) as u8
    } else {
        (87 + n) as u8
    }
}

/// Escape sequence for one byte of string content.
pub open spec fn esc_byte(b: u8) -> Seq<u8> {
    if b == QUOTE {
        seq![BACKSLASH, QUOTE]
    } else if b == BACKSLASH {
        seq![BACKSLASH, BACKSLASH]
    } else if b < 32 {
        seq![BACKSLASH, 117u8, 48u8, 48u8, hex_digit(b as int / 16), hex_digit(b as int % 16)]
    } else {
        seq![b]
    }
}

/// Escaped form of a whole byte string.
pub open spec fn esc(s: Seq<u8>) -> Seq<u8>
    decreases s.len(),
{
    if s.len() == 0 {
        Seq::empty()
    } else {
        esc_byte(s[0]) + esc(s.drop_first())
    }
}

/// Appending one byte extends the escaped form by that byte's escape sequence.
pub proof fn lemma_esc_snoc(s: Seq<u8>, b: u8)
    ensures
        esc(s.push(b)) == esc(s) + esc_byte(b),
    decreases s.len(),
{
    if s.len() == 0 {
        assert(s.push(b).drop_first() =~= Seq::<u8>::empty());
        assert(esc(Seq::<u8>::empty()) == Seq::<u8>::empty());
        assert(esc(s.push(b)) == esc_byte(b) + esc(Seq::<u8>::empty()));
        assert(esc(s.push(b)) =~= esc(s) + esc_byte(b));
    } else {
        assert(s.push(b).drop_first() =~= s.drop_first().push(b));
        assert(s.push(b)[0] == s[0]);
        lemma_esc_snoc(s.drop_first(), b);
        assert(esc(s.push(b)) == esc_byte(s[0]) + esc(s.drop_first().push(b)));
        assert(esc(s.push(b)) =~= esc(s) + esc_byte(b));
    }
}

/// Append the escaped form of `s` to `out`.
pub fn escape_into(out: &mut Vec<u8>, s: &[u8])
    ensures
        final(out)@ == old(out)@ + esc(s@),
{
    let ghost orig = old(out)@;
    proof {
        assert(s@.take(0) =~= Seq::<u8>::empty());
        assert(orig + esc(s@.take(0)) =~= orig);
    }
    let mut i: usize = 0;
    while i < s.len()
        invariant
            i <= s@.len(),
            out@ == orig + esc(s@.take(i as int)),
        decreases s@.len() - i,
    {
        let b = s[i];
        if b == QUOTE {
            out.push(BACKSLASH);
            out.push(QUOTE);
        } else if b == BACKSLASH {
            out.push(BACKSLASH);
            out.push(BACKSLASH);
        } else if b < 32 {
            out.push(BACKSLASH);
            out.push(117);
            out.push(48);
            out.push(48);
            let hi = b / 16;
            let lo = b % 16;
            out.push(if hi < 10 { 48 + hi } else { 87 + hi });
            out.push(if lo < 10 { 48 + lo } else { 87 + lo });
        } else {
            out.push(b);
        }
        proof {
            assert(s@.take(i + 1) =~= s@.take(i as int).push(s@[i as int]));
            lemma_esc_snoc(s@.take(i as int), s@[i as int]);
            assert(out@ =~= orig + esc(s@.take(i + 1)));
        }
        i = i + 1;
    }
    proof {
        assert(s@.take(s@.len() as int) =~= s@);
    }
}

/// Value of a hex digit byte, if it is one (lowercase letters only).
pub open spec fn unhex(b: u8) -> Option<int> {
    if 48 <= b && b <= 57 {
        Some(b as int - 48)
    } else if 97 <= b && b <= 102 {
        Some(b as int - 87)
    } else {
        None
    }
}

/// Deterministic decoder for escaped string content.  Reads up to an
/// unescaped closing `"` and returns the decoded bytes together with what
/// follows the closing quote; `None` on malformed input.
pub open spec fn unesc(s: Seq<u8>) -> Option<(Seq<u8>, Seq<u8>)>
    decreases s.len(),
{
    if s.len() == 0 {
        None
    } else if s[0] == QUOTE {
        Some((Seq::empty(), s.drop_first()))
    } else if s[0] == BACKSLASH {
        if s.len() < 2 {
            None
        } else if s[1] == QUOTE || s[1] == BACKSLASH {
            match unesc(s.skip(2)) {
                None => None,
                Some((d, r)) => Some((seq![s[1]] + d, r)),
            }
        } else if s[1] == 117 {
            if s.len() < 6 || s[2] != 48 || s[3] != 48 {
                None
            } else {
                match (unhex(s[4]), unhex(s[5])) {
                    (Some(hi), Some(lo)) => match unesc(s.skip(6)) {
                        None => None,
                        Some((d, r)) => Some((seq![(hi * 16 + lo) as u8] + d, r)),
                    },
                    _ => None,
                }
            }
        } else {
            None
        }
    } else if s[0] < 32 {
        None
    } else {
        match unesc(s.drop_first()) {
            None => None,
            Some((d, r)) => Some((seq![s[0]] + d, r)),
        }
    }
}

/// Unescaping inverts escaping: decoding `esc(x)` followed by a closing
/// quote yields exactly `x` and the bytes after the quote.
pub proof fn lemma_unesc_esc(x: Seq<u8>, r: Seq<u8>)
    ensures
        unesc(esc(x) + seq![QUOTE] + r) == Some((x, r)),
    decreases x.len(),
{
    let s = esc(x) + seq![QUOTE] + r;
    if x.len() == 0 {
        assert(s =~= seq![QUOTE] + r);
        assert(s[0] == QUOTE);
        assert(s.drop_first() =~= r);
        assert(x =~= Seq::<u8>::empty());
    } else {
        let b = x[0];
        let tail = x.drop_first();
        assert(esc(x) =~= esc_byte(b) + esc(tail));
        lemma_unesc_esc(tail, r);
        let srest = esc(tail) + seq![QUOTE] + r;
        if b == QUOTE {
            assert(s =~= seq![BACKSLASH, QUOTE] + srest);
            assert(s[0] == BACKSLASH && s[1] == QUOTE);
            assert(s.skip(2) =~= srest);
            assert(seq![s[1]] + tail =~= x);
        } else if b == BACKSLASH {
            assert(s =~= seq![BACKSLASH, BACKSLASH] + srest);
            assert(s[0] == BACKSLASH && s[1] == BACKSLASH);
            assert(s.skip(2) =~= srest);
            assert(seq![s[1]] + tail =~= x);
        } else if b < 32 {
            let hi = b as int / 16;
            let lo = b as int % 16;
            assert(s =~= seq![BACKSLASH, 117u8, 48u8, 48u8, hex_digit(hi), hex_digit(lo)] + srest);
            assert(s[0] == BACKSLASH && s[1] == 117 && s[2] == 48 && s[3] == 48);
            assert(s[4] == hex_digit(hi) && s[5] == hex_digit(lo));
            assert(0 <= hi < 2 && 0 <= lo < 16);
            assert(unhex(hex_digit(hi)) == Some(hi));
            assert(unhex(hex_digit(lo)) == Some(lo));
            assert(s.skip(6) =~= srest);
            assert((hi * 16 + lo) as u8 == b);
            assert(seq![(hi * 16 + lo) as u8] + tail =~= x);
        } else {
            assert(s =~= seq![b] + srest);
            assert(s[0] == b);
            assert(s.drop_first() =~= srest);
            assert(seq![s[0]] + tail =~= x);
        }
    }
}

/// Prepend already-decoded content to a decoder outcome.
pub open spec fn unesc_prepend(acc: Seq<u8>, o: Option<(Seq<u8>, Seq<u8>)>) -> Option<
    (Seq<u8>, Seq<u8>),
> {
    match o {
        None => None,
        Some((d, r)) => Some((acc + d, r)),
    }
}

/// Prepending composes by concatenation.
proof fn lemma_unesc_prepend_assoc(a: Seq<u8>, c: Seq<u8>, o: Option<(Seq<u8>, Seq<u8>)>)
    ensures
        unesc_prepend(a, unesc_prepend(c, o)) == unesc_prepend(a + c, o),
{
    match o {
        None => {},
        Some((d, r)) => {
            assert(a + (c + d) =~= (a + c) + d);
        },
    }
}

/// Decode escaped string content starting at byte `i` of `s`; the byte
/// before `i` is the opening quote.  Returns the decoded bytes and the index
/// just past the closing quote, or `None` exactly when the deterministic
/// decoder rejects the suffix.
pub fn unescape_from(s: &Vec<u8>, i: usize) -> (r: Option<(Vec<u8>, usize)>)
    requires
        i <= s@.len(),
    ensures
        match unesc(s@.skip(i as int)) {
            None => r is None,
            Some((d, rem)) => {
                &&& r matches Some((v, j))
                &&& v@ == d
                &&& i <= j <= s@.len()
                &&& s@.skip(j as int) == rem
            },
        },
{
    let mut acc: Vec<u8> = Vec::new();
    let mut pos = i;
    loop
        invariant
            i <= pos <= s@.len(),
            unesc(s@.skip(i as int)) == unesc_prepend(acc@, unesc(s@.skip(pos as int))),
        decreases s@.len() - pos,
    {
        let ghost suff = s@.skip(pos as int);
        if pos >= s.len() {
            return None;
        }
        let b = s[pos];
        assert(suff[0] == b);
        if b == QUOTE {
            proof {
                assert(suff.drop_first() =~= s@.skip(pos + 1));
                assert(acc@ + Seq::<u8>::empty() =~= acc@);
            }
            return Some((acc, pos + 1));
        } else if b == BACKSLASH {
            if pos + 1 >= s.len() {
                assert(suff.len() < 2);
                return None;
            }
            let e = s[pos + 1];
            assert(suff[1] == e);
            if e == QUOTE || e == BACKSLASH {
                let ghost a0 = acc@;
                acc.push(e);
                proof {
                    assert(suff.skip(2) =~= s@.skip(pos + 2));
                    assert(unesc(suff) == unesc_prepend(seq![e], unesc(s@.skip(pos + 2))));
                    lemma_unesc_prepend_assoc(a0, seq![e], unesc(s@.skip(pos + 2)));
                    assert(a0 + seq![e] =~= acc@);
                }
                pos = pos + 2;
            } else if e == 117 {
                if s.len() - pos < 6 {
                    assert(suff.len() < 6);
                    return None;
                }
                let c2 = s[pos + 2];
                let c3 = s[pos + 3];
                let h4 = s[pos + 4];
                let h5 = s[pos + 5];
                assert(suff[2] == c2 && suff[3] == c3 && suff[4] == h4 && suff[5] == h5);
                if c2 != 48 || c3 != 48 {
                    return None;
                }
                let hi: u8 = if 48 <= h4 && h4 <= 57 {
                    h4 - 48
                } else if 97 <= h4 && h4 <= 102 {
                    h4 - 87
                } else {
                    return None;
                };
                let lo: u8 = if 48 <= h5 && h5 <= 57 {
                    h5 - 48
                } else if 97 <= h5 && h5 <= 102 {
                    h5 - 87
                } else {
                    return None;
                };
                assert(unhex(h4) == Some(hi as int) && unhex(h5) == Some(lo as int));
                let ghost a0 = acc@;
                let v: u8 = hi * 16 + lo;
                acc.push(v);
                proof {
                    assert(suff.skip(6) =~= s@.skip(pos + 6));
                    assert(unesc(suff) == unesc_prepend(seq![v], unesc(s@.skip(pos + 6))));
                    lemma_unesc_prepend_assoc(a0, seq![v], unesc(s@.skip(pos + 6)));
                    assert(a0 + seq![v] =~= acc@);
                }
                pos = pos + 6;
            } else {
                return None;
            }
        } else if b < 32 {
            return None;
        } else {
            let ghost a0 = acc@;
            acc.push(b);
            proof {
                assert(suff.drop_first() =~= s@.skip(pos + 1));
                assert(unesc(suff) == unesc_prepend(seq![b], unesc(s@.skip(pos + 1))));
                lemma_unesc_prepend_assoc(a0, seq![b], unesc(s@.skip(pos + 1)));
                assert(a0 + seq![b] =~= acc@);
            }
            pos = pos + 1;
        }
    }
}

/// Decimal digits of `n`, most significant first, no sign and no padding.
pub open spec fn dec_digits(n: nat) -> Seq<u8>
    decreases n,
{
    if n < 10 {
        seq![(48 + n) as u8]
    } else {
        dec_digits(n / 10) + seq![(48 + n % 10) as u8]
    }
}

/// Whether a byte is an ASCII decimal digit.
pub open spec fn is_digit(b: u8) -> bool {
    48 <= b && b <= 57
}

/// Whether every byte of `s` is a decimal digit.
pub open spec fn all_digits(s: Seq<u8>) -> bool {
    forall|k: int| 0 <= k < s.len() ==> is_digit(#[trigger] s[k])
}

/// Value of a digit string read left to right on top of `acc`.
pub open spec fn dec_val(s: Seq<u8>, acc: nat) -> nat
    decreases s.len(),
{
    if s.len() == 0 {
        acc
    } else {
        dec_val(s.drop_first(), acc * 10 + (s[0] - 48) as nat)
    }
}

/// Number of leading decimal digits.
pub open spec fn digit_prefix_len(s: Seq<u8>) -> int
    decreases s.len(),
{
    if s.len() > 0 && is_digit(s[0]) {
        1 + digit_prefix_len(s.drop_first())
    } else {
        0
    }
}

/// Deterministic decimal parser: the value of the longest digit prefix and
/// what follows it; `None` when the input does not start with a digit.
pub open spec fn parse_dec(s: Seq<u8>) -> Option<(nat, Seq<u8>)> {
    let k = digit_prefix_len(s);
    if k == 0 {
        None
    } else {
        Some((dec_val(s.take(k), 0), s.skip(k)))
    }
}

proof fn lemma_digit_prefix_concat(a: Seq<u8>, b: Seq<u8>)
    requires
        all_digits(a),
        b.len() == 0 || !is_digit(b[0]),
    ensures
        digit_prefix_len(a + b) == a.len(),
    decreases a.len(),
{
    if a.len() == 0 {
        assert(a + b =~= b);
    } else {
        assert((a + b).drop_first() =~= a.drop_first() + b);
        assert((a + b)[0] == a[0]);
        assert(all_digits(a.drop_first())) by {
            assert(forall|k: int|
                0 <= k < a.drop_first().len() ==> #[trigger] a.drop_first()[k] == a[k + 1]);
        }
        lemma_digit_prefix_concat(a.drop_first(), b);
    }
}

proof fn lemma_all_digits_dec(n: nat)
    ensures
        all_digits(dec_digits(n)),
        dec_digits(n).len() >= 1,
    decreases n,
{
    if n < 10 {
    } else {
        lemma_all_digits_dec(n / 10);
    }
}

proof fn lemma_dec_val_snoc(s: Seq<u8>, d: u8, acc: nat)
    requires
        is_digit(d),
    ensures
        dec_val(s.push(d), acc) == dec_val(s, acc) * 10 + (d - 48),
    decreases s.len(),
{
    if s.len() == 0 {
        assert(s.push(d).drop_first() =~= Seq::<u8>::empty());
        assert(s.push(d)[0] == d);
        assert(dec_val(Seq::<u8>::empty(), acc * 10 + (d - 48) as nat) == acc * 10 + (d
            - 48) as nat);
        assert(dec_val(s.push(d), acc) == acc * 10 + (d - 48));
    } else {
        assert(s.push(d).drop_first() =~= s.drop_first().push(d));
        assert(s.push(d)[0] == s[0]);
        lemma_dec_val_snoc(s.drop_first(), d, acc * 10 + (s[0] - 48) as nat);
        assert(dec_val(s.push(d), acc) == dec_val(s.drop_first().push(d), acc * 10 + (s[0]
            - 48) as nat));
        assert(dec_val(s, acc) == dec_val(s.drop_first(), acc * 10 + (s[0] - 48) as nat));
    }
}

proof fn lemma_dec_val_split(a: Seq<u8>, b: Seq<u8>, acc: nat)
    ensures
        dec_val(a + b, acc) == dec_val(b, dec_val(a, acc)),
    decreases a.len(),
{
    if a.len() == 0 {
        assert(a + b =~= b);
    } else {
        assert((a + b).drop_first() =~= a.drop_first() + b);
        assert((a + b)[0] == a[0]);
        lemma_dec_val_split(a.drop_first(), b, acc * 10 + (a[0] - 48) as nat);
    }
}

proof fn lemma_dec_val_monotone(s: Seq<u8>, acc: nat)
    ensures
        dec_val(s, acc) >= acc,
    decreases s.len(),
{
    if s.len() == 0 {
    } else {
        lemma_dec_val_monotone(s.drop_first(), acc * 10 + (s[0] - 48) as nat);
    }
}

proof fn lemma_dec_val_digits(n: nat)
    ensures
        dec_val(dec_digits(n), 0) == n,
    decreases n,
{
    if n < 10 {
        assert(dec_digits(n) =~= seq![(48 + n) as u8]);
        assert(dec_digits(n)[0] == (48 + n) as u8);
        assert(dec_digits(n).drop_first() =~= Seq::<u8>::empty());
        assert(dec_val(Seq::<u8>::empty(), n) == n);
    } else {
        lemma_dec_val_digits(n / 10);
        assert(dec_digits(n) =~= dec_digits(n / 10).push((48 + n % 10) as u8));
        lemma_dec_val_snoc(dec_digits(n / 10), (48 + n % 10) as u8, 0);
        assert(dec_val(dec_digits(n), 0) == dec_val(dec_digits(n / 10), 0) * 10 + n % 10);
    }
}

/// Decimal parsing inverts decimal printing, as long as what follows the
/// digits is empty or starts with a non-digit.
pub proof fn lemma_parse_dec_digits(n: nat, r: Seq<u8>)
    requires
        r.len() == 0 || !is_digit(r[0]),
    ensures
        parse_dec(dec_digits(n) + r) == Some((n, r)),
{
    lemma_all_digits_dec(n);
    lemma_digit_prefix_concat(dec_digits(n), r);
    let s = dec_digits(n) + r;
    let k = dec_digits(n).len() as int;
    assert(s.take(k) =~= dec_digits(n));
    assert(s.skip(k) =~= r);
    lemma_dec_val_digits(n);
}

/// Append the decimal digits of `n` to `out`.
pub fn push_dec(out: &mut Vec<u8>, n: u64)
    ensures
        final(out)@ == old(out)@ + dec_digits(n as nat),
    decreases n,
{
    if n < 10 {
        out.push(48 + n as u8);
        proof {
            assert(old(out)@.push((48 + n as nat) as u8) =~= old(out)@ + dec_digits(n as nat));
        }
    } else {
        let ghost orig = out@;
        push_dec(out, n / 10);
        out.push(48 + (n % 10) as u8);
        proof {
            assert((orig + dec_digits((n / 10) as nat)).push((48 + (n as nat) % 10) as u8) =~= orig
                + dec_digits(n as nat));
        }
    }
}

/// Parse a decimal number no larger than `bound` starting at byte `i`.
/// Mirrors the deterministic parser: `None` exactly when the input has no
/// digit at `i` or the parsed value exceeds `bound`.
pub fn parse_dec_from(s: &Vec<u8>, i: usize, bound: u32) -> (r: Option<(u32, usize)>)
    requires
        i <= s@.len(),
    ensures
        match parse_dec(s@.skip(i as int)) {
            None => r is None,
            Some((v, rem)) => {
                if v <= bound as nat {
                    &&& r matches Some((x, j))
                    &&& x as nat == v
                    &&& i <= j <= s@.len()
                    &&& s@.skip(j as int) == rem
                } else {
                    r is None
                }
            },
        },
{
    let ghost suffix = s@.skip(i as int);
    let mut j = i;
    let mut acc: u64 = 0;
    while j < s.len() && s[j] >= 48 && s[j] <= 57
        invariant
            i <= j <= s@.len(),
            all_digits(s@.subrange(i as int, j as int)),
            acc as nat == dec_val(s@.subrange(i as int, j as int), 0),
            acc <= bound,
            bound <= u32::MAX,
        decreases s@.len() - j,
    {
        let d = s[j];
        let ghost pre = s@.subrange(i as int, j as int);
        proof {
            assert(s@.subrange(i as int, j + 1) =~= pre.push(d));
            lemma_dec_val_snoc(pre, d, 0);
        }
        let next: u64 = acc * 10 + (d - 48) as u64;
        if next > bound as u64 {
            proof {
                let whole = s@.skip(i as int);
                let k = digit_prefix_len(whole);
                assert(all_digits(s@.subrange(i as int, j + 1)));
                lemma_digit_prefix_ge(s@, i as int, j + 1);
                lemma_digit_prefix_le(whole);
                assert(j + 1 - i <= k <= whole.len());
                let full = whole.take(k);
                assert(full =~= pre.push(d) + whole.subrange(j + 1 - i, k));
                lemma_dec_val_split(pre.push(d), whole.subrange(j + 1 - i, k), 0);
                lemma_dec_val_monotone(whole.subrange(j + 1 - i, k), next as nat);
                assert(dec_val(full, 0) >= next);
            }
            return None;
        }
        acc = next;
        j = j + 1;
    }
    proof {
        let rest = s@.skip(j as int);
        assert(suffix =~= s@.subrange(i as int, j as int) + rest);
        if rest.len() > 0 {
            assert(rest[0] == s@[j as int]);
        }
        lemma_digit_prefix_concat(s@.subrange(i as int, j as int), rest);
        assert(digit_prefix_len(suffix) == j - i);
        if j > i {
            assert(suffix.take(j - i) =~= s@.subrange(i as int, j as int));
            assert(suffix.skip(j - i) =~= s@.skip(j as int));
        }
    }
    if j == i {
        return None;
    }
    Some((acc as u32, j))
}

proof fn lemma_digit_prefix_le(s: Seq<u8>)
    ensures
        0 <= digit_prefix_len(s) <= s.len(),
    decreases s.len(),
{
    if s.len() > 0 && is_digit(s[0]) {
        lemma_digit_prefix_le(s.drop_first());
    }
}

/// The digit prefix of the suffix at `i` reaches at least to `e` when all
/// bytes from `i` up to `e` are digits.
proof fn lemma_digit_prefix_ge(s: Seq<u8>, i: int, e: int)
    requires
        0 <= i <= e <= s.len(),
        all_digits(s.subrange(i, e)),
    ensures
        digit_prefix_len(s.skip(i)) >= e - i,
    decreases e - i,
{
    if e > i {
        assert(is_digit(s.skip(i)[0])) by {
            assert(s.subrange(i, e)[0] == s.skip(i)[0]);
        }
        assert(s.skip(i).drop_first() =~= s.skip(i + 1));
        assert(digit_prefix_len(s.skip(i)) == 1 + digit_prefix_len(s.skip(i).drop_first()));
        assert(all_digits(s.subrange(i + 1, e))) by {
            assert(forall|k: int|
                0 <= k < e - i - 1 ==> #[trigger] s.subrange(i + 1, e)[k] == s.subrange(i, e)[k
                    + 1]);
        }
        lemma_digit_prefix_ge(s, i + 1, e);
    } else {
        lemma_digit_prefix_le(s.skip(i));
    }
}

} // verus!
