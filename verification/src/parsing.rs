//! The meaning of parsing a correlation vector string: a specification-level
//! parser that the executable `parse` is proved to implement, and the lemmas
//! that make it the inverse of formatting.

use vstd::prelude::*;
use vstd::utf8::is_ascii_chars;

use crate::correlationvectorparsererror::{CorrelationVectorParseError, CounterParseError};
use crate::decimal::{
    dec_digits, digit_char, digit_val, is_digit, lemma_dec_digits_shape, lemma_dec_len_le, pow10,
};
use crate::model::{
    byte_len, counters_chars, format_of, lemma_byte_len_ascii, lemma_format_decompose,
    length_exact, wf, CvModel,
};

verus! {

/// The index of the first dot in `s`, or `s.len()` when there is none.
pub open spec fn first_dot(s: Seq<char>) -> nat
    decreases s.len(),
{
    if s.len() == 0 {
        0
    } else if s[0] == '.' {
        0
    } else {
        1 + first_dot(s.drop_first())
    }
}

pub proof fn lemma_first_dot(s: Seq<char>)
    ensures
        first_dot(s) <= s.len(),
        first_dot(s) < s.len() ==> s[first_dot(s) as int] == '.',
        forall|k: int| 0 <= k < first_dot(s) ==> s[k] != '.',
    decreases s.len(),
{
    if s.len() == 0 {
    } else if s[0] == '.' {
    } else {
        lemma_first_dot(s.drop_first());
        let d = first_dot(s.drop_first());
        assert forall|k: int| 0 <= k < first_dot(s) implies s[k] != '.' by {
            if k > 0 {
                assert(s.drop_first()[k - 1] == s[k]);
            }
        }
        if first_dot(s) < s.len() {
            assert(s[first_dot(s) as int] == s.drop_first()[d as int]);
        }
    }
}

/// A position with no dot before it that holds a dot (or is the end) is the
/// first dot.
pub proof fn lemma_first_dot_is(s: Seq<char>, j: int)
    requires
        0 <= j <= s.len(),
        forall|k: int| 0 <= k < j ==> s[k] != '.',
        j == s.len() || s[j] == '.',
    ensures
        first_dot(s) == j,
{
    lemma_first_dot(s);
}

/// Scanning the digits of a counter segment left to right, as the parser
/// does: the first character that is not a digit fails the segment, and so
/// does the first step that takes the accumulator past the 32-bit range.
pub open spec fn scan_u32(s: Seq<char>, acc: nat) -> Result<u32, CounterParseError>
    recommends
        acc <= 0xFFFF_FFFF,
    decreases s.len(),
{
    if s.len() == 0 {
        Ok(acc as u32)
    } else if !is_digit(s[0]) {
        Err(CounterParseError::InvalidDigit)
    } else if acc * 10 + digit_val(s[0]) > 0xFFFF_FFFF {
        Err(CounterParseError::Overflow)
    } else {
        scan_u32(s.drop_first(), acc * 10 + digit_val(s[0]))
    }
}

/// A counter segment as an unsigned 32-bit value.
pub open spec fn parse_u32(s: Seq<char>) -> Result<u32, CounterParseError> {
    if s.len() == 0 {
        Err(CounterParseError::EmptySegment)
    } else {
        scan_u32(s, 0)
    }
}

/// The counter portion of an input: dot-separated segments, each a counter,
/// the first failing segment deciding the error.
pub open spec fn parse_counters(s: Seq<char>) -> Result<Seq<u32>, CounterParseError>
    decreases s.len(),
{
    let d = first_dot(s);
    if d >= s.len() {
        match parse_u32(s) {
            Ok(v) => Ok(seq![v]),
            Err(e) => Err(e),
        }
    } else {
        match parse_u32(s.take(d as int)) {
            Ok(v) => match parse_counters(s.skip(d as int + 1)) {
                Ok(vs) => Ok(seq![v] + vs),
                Err(e) => Err(e),
            },
            Err(e) => Err(e),
        }
    }
}

/// What parsing a string means. The input is rejected when it is over 128
/// bytes, or exactly 128 bytes without the termination marker; one trailing
/// marker is stripped and remembered as immutability; the text before the
/// first dot becomes the base, the rest must be a non-empty counter list;
/// and the claimed length is the full input's byte length.
pub open spec fn parse_spec(s: Seq<char>) -> Result<CvModel, CorrelationVectorParseError> {
    if byte_len(s) > 128 {
        Err(CorrelationVectorParseError::StringTooLongError)
    } else if s.len() == 0 {
        Err(CorrelationVectorParseError::Empty)
    } else if byte_len(s) == 128 && s.last() != '!' {
        Err(CorrelationVectorParseError::StringTooLongError)
    } else {
        let terminated = s.last() == '!';
        let content = if terminated {
            s.drop_last()
        } else {
            s
        };
        let d = first_dot(content);
        if d == content.len() {
            Err(CorrelationVectorParseError::MissingVector)
        } else {
            match parse_counters(content.skip(d as int + 1)) {
                Ok(vs) => Ok(
                    CvModel {
                        base: content.take(d as int),
                        vector: vs,
                        immutable: terminated,
                        length: byte_len(s),
                    },
                ),
                Err(e) => Err(CorrelationVectorParseError::ParseError { source: e }),
            }
        }
    }
}

/// A successful scan stays within a bound that shrinks with the remaining
/// digits: from an accumulator of `acc`, at most `(acc + 1) * 10^len - 1`.
pub proof fn lemma_scan_bound(s: Seq<char>, acc: nat)
    requires
        acc <= 0xFFFF_FFFF,
        scan_u32(s, acc) is Ok,
    ensures
        (scan_u32(s, acc)->Ok_0 as nat) < (acc + 1) * pow10(s.len()),
        forall|k: int| 0 <= k < s.len() ==> is_digit(#[trigger] s[k]),
    decreases s.len(),
{
    if s.len() == 0 {
        assert((acc + 1) * pow10(0) == acc + 1) by (nonlinear_arith)
            requires
                pow10(0) == 1,
        ;
    } else {
        let acc2 = acc * 10 + digit_val(s[0]);
        let n0 = s.drop_first().len();
        lemma_pow10_pos(n0);
        lemma_scan_bound(s.drop_first(), acc2);
        let v = scan_u32(s, acc)->Ok_0 as nat;
        let n = s.drop_first().len();
        assert(v < (acc2 + 1) * pow10(n));
        assert((acc2 + 1) * pow10(n) <= (acc + 1) * pow10(s.len())) by (nonlinear_arith)
            requires
                acc2 <= acc * 10 + 9,
                pow10(s.len()) == 10 * pow10(n),
                pow10(n) >= 1,
        ;
        assert forall|k: int| 0 <= k < s.len() implies is_digit(#[trigger] s[k]) by {
            if k > 0 {
                assert(s.drop_first()[k - 1] == s[k]);
            }
        }
    }
}

pub proof fn lemma_pow10_pos(k: nat)
    ensures
        pow10(k) >= 1,
    decreases k,
{
    if k > 0 {
        lemma_pow10_pos((k - 1) as nat);
    }
}

/// A successful counter list holds at least one counter, its text is ASCII,
/// and its canonical re-formatting is never longer than the text it was read
/// from.
pub proof fn lemma_parse_counters_ok(s: Seq<char>)
    requires
        parse_counters(s) is Ok,
    ensures
        parse_counters(s)->Ok_0.len() >= 1,
        is_ascii_chars(s),
        counters_chars(parse_counters(s)->Ok_0).len() <= s.len(),
    decreases s.len(),
{
    lemma_first_dot(s);
    let d = first_dot(s);
    if d == s.len() {
        let v = parse_u32(s)->Ok_0;
        lemma_scan_bound(s, 0);
        lemma_pow10_pos(s.len());
        assert((0 + 1) * pow10(s.len()) == pow10(s.len())) by (nonlinear_arith);
        lemma_dec_len_le(v as nat, s.len());
        lemma_dec_digits_shape(v as nat);
        assert(counters_chars(parse_counters(s)->Ok_0) == dec_digits(v as nat)) by {
            assert(parse_counters(s)->Ok_0 =~= seq![v]);
        }
        assert(is_ascii_chars(s)) by {
            assert(forall|k: int| 0 <= k < s.len() ==> is_digit(#[trigger] s[k]));
        }
    } else {
        let seg = s.take(d as int);
        let rest = s.skip(d as int + 1);
        let v = parse_u32(seg)->Ok_0;
        let vs = parse_counters(rest)->Ok_0;
        lemma_parse_counters_ok(rest);
        lemma_scan_bound(seg, 0);
        lemma_pow10_pos(seg.len());
        assert((0 + 1) * pow10(seg.len()) == pow10(seg.len())) by (nonlinear_arith);
        assert(seg.len() >= 1);
        lemma_dec_len_le(v as nat, seg.len());
        lemma_dec_digits_shape(v as nat);
        let all = parse_counters(s)->Ok_0;
        assert(all == seq![v] + vs);
        lemma_counters_cons(v, vs);
        assert(counters_chars(all).len() <= s.len()) by {
            assert(counters_chars(all) == dec_digits(v as nat) + seq!['.'] + counters_chars(vs));
            assert(s.len() == seg.len() + 1 + rest.len());
        }
        assert(is_ascii_chars(s)) by {
            assert forall|k: int| 0 <= k < s.len() implies '\0' <= #[trigger] s[k] <= '\u{7f}' by {
                if k < d {
                    assert(seg[k] == s[k]);
                    assert(is_digit(s[k]));
                } else if k == d {
                    assert(s[k] == '.');
                } else {
                    assert(rest[k - d - 1] == s[k]);
                }
            }
        }
    }
}

/// Prepending one counter to a non-empty list prepends its digits and a dot
/// to the counter portion.
pub proof fn lemma_counters_cons(v: u32, vs: Seq<u32>)
    requires
        vs.len() >= 1,
    ensures
        counters_chars(seq![v] + vs) == dec_digits(v as nat) + seq!['.'] + counters_chars(vs),
    decreases vs.len(),
{
    let w = seq![v] + vs;
    if vs.len() == 1 {
        assert(w.len() == 2);
        assert(w.drop_last() =~= seq![v]);
        assert(w.last() == vs[0]);
        assert(counters_chars(seq![v]) == dec_digits(v as nat));
        assert(counters_chars(vs) == dec_digits(vs[0] as nat));
    } else {
        assert(w.drop_last() =~= seq![v] + vs.drop_last());
        lemma_counters_cons(v, vs.drop_last());
        assert(w.last() == vs.last());
        assert(counters_chars(w) == counters_chars(seq![v] + vs.drop_last()) + seq!['.']
            + dec_digits(vs.last() as nat));
        assert(dec_digits(v as nat) + seq!['.'] + (counters_chars(vs.drop_last()) + seq!['.']
            + dec_digits(vs.last() as nat)) =~= dec_digits(v as nat) + seq!['.'] + counters_chars(
            vs,
        ));
        assert(counters_chars(w) =~= dec_digits(v as nat) + seq!['.'] + counters_chars(vs));
    }
}

/// The counter portion of any counter list is ASCII text.
pub proof fn lemma_counters_ascii(v: Seq<u32>)
    ensures
        is_ascii_chars(counters_chars(v)),
        byte_len(counters_chars(v)) == counters_chars(v).len(),
    decreases v.len(),
{
    if v.len() == 0 {
        assert(is_ascii_chars(counters_chars(v)));
    } else if v.len() == 1 {
        lemma_dec_digits_shape(v[0] as nat);
        assert forall|i: int| 0 <= i < counters_chars(v).len() implies '\0'
            <= #[trigger] counters_chars(v)[i] <= '\u{7f}' by {
            assert(is_digit(dec_digits(v[0] as nat)[i]));
        }
    } else {
        lemma_counters_ascii(v.drop_last());
        lemma_dec_digits_shape(v.last() as nat);
        let head = counters_chars(v.drop_last());
        let tail = dec_digits(v.last() as nat);
        assert forall|i: int| 0 <= i < counters_chars(v).len() implies '\0'
            <= #[trigger] counters_chars(v)[i] <= '\u{7f}' by {
            if i < head.len() {
                assert(counters_chars(v)[i] == head[i]);
            } else if i == head.len() {
                assert(counters_chars(v)[i] == '.');
            } else {
                assert(counters_chars(v)[i] == tail[i - head.len() - 1]);
                assert(is_digit(tail[i - head.len() - 1]));
            }
        }
    }
    lemma_byte_len_ascii(counters_chars(v));
}

/// Scanning one more digit multiplies the value by ten and adds it.
pub proof fn lemma_scan_push(s: Seq<char>, c: char, acc: nat)
    requires
        acc <= 0xFFFF_FFFF,
        is_digit(c),
        scan_u32(s, acc) is Ok,
        (scan_u32(s, acc)->Ok_0 as nat) * 10 + digit_val(c) <= 0xFFFF_FFFF,
    ensures
        scan_u32(s.push(c), acc) == Ok::<u32, CounterParseError>(((scan_u32(s, acc)->Ok_0 as nat) * 10 + digit_val(c)) as u32),
    decreases s.len(),
{
    if s.len() == 0 {
        assert(scan_u32(s, acc) == Ok::<u32, CounterParseError>(acc as u32));
        assert((acc as u32) as nat == acc);
        assert(s.push(c)[0] == c);
        assert(s.push(c).drop_first() =~= Seq::<char>::empty());
        assert(scan_u32(s.push(c), acc) == scan_u32(Seq::<char>::empty(), acc * 10 + digit_val(c)));
        assert(scan_u32(Seq::<char>::empty(), acc * 10 + digit_val(c)) == Ok::<u32,
            CounterParseError>(((acc * 10 + digit_val(c))) as u32));
    } else {
        assert(is_digit(s[0]) && acc * 10 + digit_val(s[0]) <= 0xFFFF_FFFF);
        let acc2 = acc * 10 + digit_val(s[0]);
        assert(scan_u32(s, acc) == scan_u32(s.drop_first(), acc2));
        assert(s.push(c)[0] == s[0]);
        assert(s.push(c).drop_first() =~= s.drop_first().push(c));
        assert(scan_u32(s.push(c), acc) == scan_u32(s.drop_first().push(c), acc2));
        lemma_scan_push(s.drop_first(), c, acc2);
    }
}

/// The decimal form of a counter parses back to the counter.
pub proof fn lemma_parse_u32_dec_digits(n: nat)
    requires
        n <= 0xFFFF_FFFF,
    ensures
        parse_u32(dec_digits(n)) == Ok::<u32, CounterParseError>(n as u32),
        scan_u32(dec_digits(n), 0) == Ok::<u32, CounterParseError>(n as u32),
    decreases n,
{
    lemma_dec_digits_shape(n);
    if n < 10 {
        assert(digit_val(digit_char(n)) == n);
        assert(is_digit(digit_char(n)));
        assert(dec_digits(n)[0] == digit_char(n));
        assert(dec_digits(n).drop_first() =~= Seq::<char>::empty());
        assert(scan_u32(dec_digits(n), 0) == scan_u32(Seq::<char>::empty(), n));
        assert(scan_u32(Seq::<char>::empty(), n) == Ok::<u32, CounterParseError>(n as u32));
    } else {
        lemma_parse_u32_dec_digits(n / 10);
        assert(digit_val(digit_char(n % 10)) == n % 10);
        lemma_dec_digits_shape(n % 10);
        lemma_scan_push(dec_digits(n / 10), digit_char(n % 10), 0);
        assert((n / 10) * 10 + n % 10 == n);
    }
}

/// The last character of a counter portion is a digit.
pub proof fn lemma_counters_last_digit(v: Seq<u32>)
    requires
        v.len() >= 1,
    ensures
        counters_chars(v).len() >= 1,
        is_digit(counters_chars(v).last()),
{
    if v.len() == 1 {
        lemma_dec_digits_shape(v[0] as nat);
    } else {
        let tail = dec_digits(v.last() as nat);
        lemma_dec_digits_shape(v.last() as nat);
        assert(counters_chars(v).last() == tail.last());
    }
}

/// The counter portion of a counter list parses back to the list.
pub proof fn lemma_parse_counters_format(v: Seq<u32>)
    requires
        v.len() >= 1,
    ensures
        parse_counters(counters_chars(v)) == Ok::<Seq<u32>, CounterParseError>(v),
    decreases v.len(),
{
    if v.len() == 1 {
        let s = counters_chars(v);
        assert(s == dec_digits(v[0] as nat));
        lemma_dec_digits_shape(v[0] as nat);
        lemma_first_dot_is(s, s.len() as int);
        lemma_parse_u32_dec_digits(v[0] as nat);
        assert(parse_counters(s) == Ok::<Seq<u32>, CounterParseError>(seq![v[0]]));
        assert(seq![v[0]] =~= v);
    } else {
        let head = v[0];
        let tail = v.drop_first();
        assert(v =~= seq![head] + tail);
        lemma_counters_cons(head, tail);
        let s = counters_chars(v);
        let ds = dec_digits(head as nat);
        let rest = counters_chars(tail);
        assert(s == ds + seq!['.'] + rest);
        lemma_dec_digits_shape(head as nat);
        let d = ds.len() as int;
        assert forall|k: int| 0 <= k < d implies s[k] != '.' by {
            assert(s[k] == ds[k]);
            assert(is_digit(ds[k]));
        }
        assert(s[d] == '.');
        lemma_first_dot_is(s, d);
        assert(s.take(d) =~= ds);
        assert(s.skip(d + 1) =~= rest);
        lemma_parse_u32_dec_digits(head as nat);
        lemma_parse_counters_format(tail);
        assert(parse_counters(s) == Ok::<Seq<u32>, CounterParseError>(seq![head] + tail));
    }
}

/// Parsing inverts formatting: a well-formed vector with exact length
/// accounting parses back, field for field, from its own string form. (A
/// vector whose accounting over-reserved for a carry that never came, or one
/// parsed from a counter with leading zeros, formats to a shorter string and
/// is exempt.)
pub proof fn lemma_parse_format_round_trip(m: CvModel)
    requires
        wf(m),
        length_exact(m),
    ensures
        parse_spec(format_of(m)) == Ok::<CvModel, CorrelationVectorParseError>(m),
{
    let s = format_of(m);
    lemma_format_decompose(m);
    lemma_counters_last_digit(m.vector);
    let cc = counters_chars(m.vector);
    let content0 = m.base + seq!['.'] + cc;
    assert(byte_len(s) == m.length);
    if m.immutable {
        assert(s.last() == '!');
        assert(s.drop_last() =~= content0);
    } else {
        assert(s =~= content0);
        assert(s.last() == cc.last());
        assert(s.last() != '!');
        assert(byte_len(s) <= 127);
    }
    let terminated = s.last() == '!';
    assert(terminated == m.immutable);
    let content = if terminated {
        s.drop_last()
    } else {
        s
    };
    assert(content =~= content0);
    let d = m.base.len() as int;
    assert forall|k: int| 0 <= k < d implies content[k] != '.' by {
        assert(content[k] == m.base[k]);
    }
    assert(content[d] == '.');
    lemma_first_dot_is(content, d);
    assert(content.take(d) =~= m.base);
    assert(content.skip(d + 1) =~= cc);
    lemma_parse_counters_format(m.vector);
    let r = parse_spec(s)->Ok_0;
    assert(r =~= m);
}

} // verus!
