//! The mathematical model of a correlation vector: its abstract state, the
//! string it formats to, the byte budget, and the transition functions that
//! the executable operations are proved to implement.

use vstd::prelude::*;
use vstd::utf8::{encode_utf8, is_ascii_chars, is_ascii_chars_encode_utf8};

use crate::decimal::{dec_digits, dec_len, lemma_dec_digits_shape};
use crate::spinparams::{spec_tick_periodicity_bits, spec_ticks_to_drop, SpinParams};

verus! {

/// The abstract state of a correlation vector.
///
/// `length` is the byte budget accounting: the length, in bytes, that the
/// vector claims its string form has. A well-formed vector never claims less
/// than the true length, and one with an exact count (see [`length_exact`])
/// claims it precisely.
#[verifier::ext_equal]
pub ghost struct CvModel {
    pub base: Seq<char>,
    pub vector: Seq<u32>,
    pub immutable: bool,
    pub length: nat,
}

/// The number of bytes the UTF-8 encoding of `s` takes.
pub open spec fn byte_len(s: Seq<char>) -> nat {
    encode_utf8(s).len()
}

/// UTF-8 encoding distributes over concatenation.
pub proof fn lemma_encode_utf8_concat(a: Seq<char>, b: Seq<char>)
    ensures
        encode_utf8(a + b) == encode_utf8(a) + encode_utf8(b),
        byte_len(a + b) == byte_len(a) + byte_len(b),
    decreases a.len(),
{
    if a.len() == 0 {
        assert(a + b =~= b);
        assert(encode_utf8(a) + encode_utf8(b) =~= encode_utf8(b));
    } else {
        assert((a + b)[0] == a[0]);
        assert((a + b).drop_first() =~= a.drop_first() + b);
        lemma_encode_utf8_concat(a.drop_first(), b);
        assert(encode_utf8(a + b) =~= encode_utf8(a) + encode_utf8(b));
    }
}

/// Every character takes between one and four bytes.
pub proof fn lemma_byte_len_bounds(s: Seq<char>)
    ensures
        s.len() <= byte_len(s) <= 4 * s.len(),
    decreases s.len(),
{
    if s.len() == 0 {
    } else {
        assert(1 <= vstd::utf8::encode_scalar(s[0] as u32).len() <= 4);
        lemma_byte_len_bounds(s.drop_first());
    }
}

/// An ASCII character sequence takes one byte per character.
pub proof fn lemma_byte_len_ascii(s: Seq<char>)
    requires
        is_ascii_chars(s),
    ensures
        byte_len(s) == s.len(),
{
    is_ascii_chars_encode_utf8(s);
}

/// A sequence of decimal digit characters is ASCII.
pub proof fn lemma_digits_ascii(n: nat)
    ensures
        is_ascii_chars(dec_digits(n)),
        byte_len(dec_digits(n)) == dec_len(n),
{
    lemma_dec_digits_shape(n);
    assert forall|i: int| 0 <= i < dec_digits(n).len() implies '\0' <= #[trigger] dec_digits(
        n,
    )[i] <= '\u{7f}' by {
        assert(crate::decimal::is_digit(dec_digits(n)[i]));
    }
    lemma_byte_len_ascii(dec_digits(n));
}

/// The counter portion of the string form: the counters' decimal forms joined
/// by dots.
pub open spec fn counters_chars(v: Seq<u32>) -> Seq<char>
    decreases v.len(),
{
    if v.len() <= 0 {
        Seq::empty()
    } else if v.len() == 1 {
        dec_digits(v[0] as nat)
    } else {
        counters_chars(v.drop_last()) + seq!['.'] + dec_digits(v.last() as nat)
    }
}

/// The string form of a vector: base, dot, counters, and the termination
/// marker exactly when the vector is immutable.
pub open spec fn format_of(m: CvModel) -> Seq<char> {
    m.base + seq!['.'] + counters_chars(m.vector) + (if m.immutable {
        seq!['!']
    } else {
        Seq::<char>::empty()
    })
}

/// Well-formedness: at least one counter, a dot-free base, a length claim
/// that is never below the true byte length, and the 128-byte ceiling, with
/// one byte held back for the termination marker while mutable.
pub open spec fn wf(m: CvModel) -> bool {
    &&& m.vector.len() >= 1
    &&& (forall|i: int| 0 <= i < m.base.len() ==> m.base[i] != '.')
    &&& byte_len(format_of(m)) <= m.length
    &&& m.length <= 128
    &&& (!m.immutable ==> m.length <= 127)
}

/// The length claim is exact: `length` equals the byte length of the string
/// form. This holds for freshly generated vectors and is preserved by every
/// operation except an increment whose counter ends in 9 without gaining a
/// digit (19 to 20, say), where the accounting deliberately over-reserves.
pub open spec fn length_exact(m: CvModel) -> bool {
    m.length == byte_len(format_of(m))
}

/// Appending one counter: spend its decimal length plus one byte for the dot,
/// or, when that would break the 127-byte budget, turn immutable instead and
/// charge the one byte that the termination marker now takes.
pub open spec fn try_append_spec(m: CvModel, c: u32) -> CvModel {
    if m.immutable {
        m
    } else if m.length + dec_len(c as nat) + 1 > 127 {
        CvModel { immutable: true, length: m.length + 1, ..m }
    } else {
        CvModel { vector: m.vector.push(c), length: m.length + dec_len(c as nat) + 1, ..m }
    }
}

/// What `extend` does: append a fresh zero counter.
pub open spec fn extend_spec(m: CvModel) -> CvModel {
    try_append_spec(m, 0)
}

/// What `increment` does: add one to the last counter. A counter ending in 9
/// may gain a digit, so one more byte is reserved first; if the budget cannot
/// cover it the vector turns immutable and the counter stays as it is. A
/// counter at `u32::MAX` is left untouched.
pub open spec fn increment_spec(m: CvModel) -> CvModel
    recommends
        m.vector.len() >= 1,
{
    if m.immutable {
        m
    } else {
        let last = m.vector.last();
        if last == u32::MAX {
            m
        } else if last % 10 == 9 {
            if m.length + 1 <= 127 {
                CvModel {
                    vector: m.vector.update(m.vector.len() - 1, (last + 1) as u32),
                    length: m.length + 1,
                    ..m
                }
            } else {
                CvModel { immutable: true, length: m.length + 1, ..m }
            }
        } else {
            CvModel { vector: m.vector.update(m.vector.len() - 1, (last + 1) as u32), ..m }
        }
    }
}

/// Folding entropy bytes into the shifted timestamp, most significant first.
pub open spec fn or_entropy(value: u64, entropy: Seq<u8>) -> u64
    decreases entropy.len(),
{
    if entropy.len() == 0 {
        value
    } else {
        or_entropy((value << 8) | (entropy[0] as u64), entropy.drop_first())
    }
}

/// Masking the composite to its configured width; a width of 64 keeps the
/// full value.
pub open spec fn spin_mask(value: u64, bits: int) -> u64 {
    if bits == 64 {
        value
    } else {
        value & (((1u64 << (bits as u64)) - 1) as u64)
    }
}

/// The spin value: the timestamp with its low bits dropped, the entropy bytes
/// folded in, and the result masked to the configured width.
pub open spec fn spec_spin_value(ticks: u64, entropy: Seq<u8>, params: SpinParams) -> u64 {
    spin_mask(
        or_entropy(ticks >> spec_ticks_to_drop(params.spin_counter_interval), entropy),
        spec_tick_periodicity_bits(params),
    )
}

pub open spec fn low32(value: u64) -> u32 {
    (value & 0xFFFF_FFFF) as u32
}

pub open spec fn high32(value: u64) -> u32 {
    (value >> 32) as u32
}

/// What `spin` does for a given timestamp and entropy draw: append the low
/// half of the spin value, then, when the configured width goes past 32 bits,
/// the high half, then a fresh zero. The first append that would break the
/// budget turns the vector immutable and drops the rest.
pub open spec fn spin_spec(m: CvModel, ticks: u64, entropy: Seq<u8>, params: SpinParams) -> CvModel {
    if m.immutable {
        m
    } else {
        let value = spec_spin_value(ticks, entropy, params);
        let m1 = try_append_spec(m, low32(value));
        let m2 = if spec_tick_periodicity_bits(params) > 32 {
            try_append_spec(m1, high32(value))
        } else {
            m1
        };
        try_append_spec(m2, 0)
    }
}

/// The byte length of the string form, split into its parts.
pub proof fn lemma_format_decompose(m: CvModel)
    ensures
        byte_len(format_of(m)) == byte_len(m.base) + 1 + byte_len(counters_chars(m.vector)) + (
        if m.immutable {
            1int
        } else {
            0int
        }),
{
    let term = if m.immutable {
        seq!['!']
    } else {
        Seq::<char>::empty()
    };
    lemma_encode_utf8_concat(m.base, seq!['.']);
    lemma_encode_utf8_concat(m.base + seq!['.'], counters_chars(m.vector));
    lemma_encode_utf8_concat(m.base + seq!['.'] + counters_chars(m.vector), term);
    lemma_byte_len_ascii(seq!['.']);
    if m.immutable {
        lemma_byte_len_ascii(seq!['!']);
    }
}

/// Appending a counter extends the counter portion by a dot and its digits.
pub proof fn lemma_counters_push(v: Seq<u32>, c: u32)
    requires
        v.len() >= 1,
    ensures
        counters_chars(v.push(c)) == counters_chars(v) + seq!['.'] + dec_digits(c as nat),
        byte_len(counters_chars(v.push(c))) == byte_len(counters_chars(v)) + 1 + dec_len(c as nat),
{
    assert(v.push(c).drop_last() =~= v);
    assert(v.push(c).last() == c);
    lemma_encode_utf8_concat(counters_chars(v), seq!['.']);
    lemma_encode_utf8_concat(counters_chars(v) + seq!['.'], dec_digits(c as nat));
    lemma_byte_len_ascii(seq!['.']);
    lemma_digits_ascii(c as nat);
}

/// Replacing the last counter swaps only its digits in the counter portion.
pub proof fn lemma_counters_update_last(v: Seq<u32>, x: u32)
    requires
        v.len() >= 1,
    ensures
        byte_len(counters_chars(v.update(v.len() - 1, x))) == byte_len(counters_chars(v))
            - dec_len(v.last() as nat) + dec_len(x as nat),
{
    let w = v.update(v.len() - 1, x);
    assert(w.last() == x);
    if v.len() == 1 {
        lemma_digits_ascii(v[0] as nat);
        lemma_digits_ascii(x as nat);
    } else {
        assert(w.drop_last() =~= v.drop_last());
        lemma_encode_utf8_concat(counters_chars(v.drop_last()), seq!['.']);
        lemma_encode_utf8_concat(
            counters_chars(v.drop_last()) + seq!['.'],
            dec_digits(v.last() as nat),
        );
        lemma_encode_utf8_concat(counters_chars(v.drop_last()) + seq!['.'], dec_digits(x as nat));
        lemma_digits_ascii(v.last() as nat);
        lemma_digits_ascii(x as nat);
    }
}

/// What one attempted append guarantees: well-formedness is kept, the base is
/// untouched, an immutable vector is left alone, the budget decides between
/// appending and turning immutable, and exact accounting is preserved.
pub proof fn lemma_try_append(m: CvModel, c: u32)
    requires
        wf(m),
    ensures
        ({
            let r = try_append_spec(m, c);
            &&& wf(r)
            &&& r.base == m.base
            &&& (m.immutable ==> r == m)
            &&& (m.immutable ==> r.immutable)
            &&& r.immutable == (m.immutable || m.length + dec_len(c as nat) + 1 > 127)
            &&& (!r.immutable ==> r.vector == m.vector.push(c) && r.length == m.length + dec_len(
                c as nat,
            ) + 1)
            &&& (!m.immutable && r.immutable ==> r.vector == m.vector && r.length == m.length + 1)
            &&& (length_exact(m) ==> length_exact(r))
        }),
{
    if m.immutable {
    } else {
        lemma_format_decompose(m);
        let r = try_append_spec(m, c);
        lemma_format_decompose(r);
        if m.length + dec_len(c as nat) + 1 > 127 {
        } else {
            lemma_counters_push(m.vector, c);
        }
    }
}

/// What `extend` guarantees; a fresh zero costs exactly two bytes.
pub proof fn lemma_extend(m: CvModel)
    requires
        wf(m),
    ensures
        ({
            let r = extend_spec(m);
            &&& wf(r)
            &&& r.base == m.base
            &&& (m.immutable ==> r == m)
            &&& r.immutable == (m.immutable || m.length + 2 > 127)
            &&& (!r.immutable ==> r.vector == m.vector.push(0) && r.length == m.length + 2)
            &&& (!m.immutable && r.immutable ==> r.vector == m.vector && r.length == m.length + 1)
            &&& (length_exact(m) ==> length_exact(r))
        }),
{
    lemma_try_append(m, 0);
}

/// What `increment` guarantees. The length grows by exactly one byte when the
/// last counter ends in 9 and the budget allows, and not at all otherwise;
/// exact accounting survives unless that counter ends in 9 without its
/// decimal form growing.
pub proof fn lemma_increment(m: CvModel)
    requires
        wf(m),
    ensures
        ({
            let r = increment_spec(m);
            let last = m.vector.last();
            &&& wf(r)
            &&& r.base == m.base
            &&& (m.immutable ==> r == m)
            &&& (m.immutable ==> r.immutable)
            &&& r.vector.len() == m.vector.len()
            &&& (!m.immutable && last != u32::MAX && last % 10 == 9 && m.length + 1 <= 127 ==> !r.immutable
                && r.length == m.length + 1 && r.vector == m.vector.update(
                m.vector.len() - 1,
                (last + 1) as u32,
            ))
            &&& (!m.immutable && last != u32::MAX && last % 10 == 9 && m.length + 1 > 127
                ==> r.immutable && r.length == m.length + 1 && r.vector == m.vector)
            &&& (last % 10 != 9 || last == u32::MAX ==> r.length == m.length && r.immutable
                == m.immutable)
            &&& (length_exact(m) && (m.immutable || last == u32::MAX || last % 10 != 9 || dec_len(
                (last + 1) as nat,
            ) == dec_len(last as nat) + 1) ==> length_exact(r))
        }),
{
    if m.immutable {
    } else {
        let last = m.vector.last();
        if last == u32::MAX {
        } else {
            crate::decimal::lemma_dec_len_succ(last as nat);
            lemma_format_decompose(m);
            let r = increment_spec(m);
            lemma_format_decompose(r);
            if last % 10 == 9 && m.length + 1 > 127 {
            } else {
                lemma_counters_update_last(m.vector, (last + 1) as u32);
            }
        }
    }
}

/// What `spin` guarantees for any timestamp and entropy draw: the vector
/// stays well formed, its string form stays within 128 bytes, the base is
/// untouched, an immutable vector is left alone, and exact accounting is
/// preserved.
pub proof fn lemma_spin(m: CvModel, ticks: u64, entropy: Seq<u8>, params: SpinParams)
    requires
        wf(m),
    ensures
        ({
            let r = spin_spec(m, ticks, entropy, params);
            &&& wf(r)
            &&& r.base == m.base
            &&& (m.immutable ==> r == m)
            &&& (m.immutable ==> r.immutable)
            &&& byte_len(format_of(r)) <= 128
            &&& (length_exact(m) ==> length_exact(r))
        }),
{
    if m.immutable {
    } else {
        let value = spec_spin_value(ticks, entropy, params);
        let m1 = try_append_spec(m, low32(value));
        lemma_try_append(m, low32(value));
        let m2 = if spec_tick_periodicity_bits(params) > 32 {
            lemma_try_append(m1, high32(value));
            try_append_spec(m1, high32(value))
        } else {
            m1
        };
        lemma_try_append(m2, 0);
    }
}

/// `k` successive extends.
pub open spec fn iterate_extend(m: CvModel, k: nat) -> CvModel
    decreases k,
{
    if k == 0 {
        m
    } else {
        iterate_extend(extend_spec(m), (k - 1) as nat)
    }
}

pub proof fn lemma_iterate_extend(m: CvModel, k: nat)
    requires
        wf(m),
    ensures
        wf(iterate_extend(m, k)),
        m.immutable ==> iterate_extend(m, k) == m,
        iterate_extend(m, k).immutable || iterate_extend(m, k).length == m.length + 2 * k,
    decreases k,
{
    if k == 0 {
    } else {
        lemma_extend(m);
        lemma_iterate_extend(extend_spec(m), (k - 1) as nat);
    }
}

/// Repeated extends always run the vector into its budget: after 64 of them
/// it is immutable, its string form is still within 128 bytes and ends with
/// the termination marker, and a further extend is a no-op.
pub proof fn lemma_extend_eventually_immutable(m: CvModel)
    requires
        wf(m),
    ensures
        iterate_extend(m, 64).immutable,
        byte_len(format_of(iterate_extend(m, 64))) <= 128,
        format_of(iterate_extend(m, 64)).last() == '!',
        extend_spec(iterate_extend(m, 64)) == iterate_extend(m, 64),
{
    lemma_iterate_extend(m, 64);
    let r = iterate_extend(m, 64);
    assert(r.immutable) by {
        if !r.immutable {
            assert(r.length == m.length + 128);
        }
    }
    let s = r.base + seq!['.'] + counters_chars(r.vector) + seq!['!'];
    assert(format_of(r).last() == '!') by {
        assert(format_of(r) =~= s);
        assert(s.last() == '!');
    }
}

} // verus!
