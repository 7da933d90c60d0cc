//! The correlation vector itself and its operations.

use vstd::prelude::*;
use vstd::string::{StrSliceExecFns, StringExecFns, StringSliceAdditionalSpecFns};

use crate::decimal::{
    append_decimal, dec_digits, dec_len, lemma_dec_len_u32, serialized_length_of,
};
use crate::model::{
    byte_len, counters_chars, extend_spec, format_of, increment_spec, lemma_byte_len_ascii,
    lemma_encode_utf8_concat, lemma_extend, lemma_format_decompose, lemma_increment, lemma_spin,
    length_exact, or_entropy, spec_spin_value, spin_spec, wf, CvModel,
};
use crate::correlationvectorparsererror::{CorrelationVectorParseError, CounterParseError};
use crate::parsing::{
    lemma_counters_ascii, lemma_first_dot_is, lemma_parse_counters_ok, parse_counters, parse_spec,
    parse_u32, scan_u32,
};
use crate::spinparams::{
    generate_entropy, spec_entropy_bytes, tick_periodicity_bits, ticks_to_drop, SpinParams,
};
use crate::trusted::{
    base64_encode_16, fresh_uuid_bytes, is_base64_data_char, strip_padding, unix_epoch,
};

verus! {

/// The Correlation Vector struct.
#[derive(Debug)]
pub struct CorrelationVector {
    base: String,
    vector: Vec<u32>,
    immutable: bool,
    serialized_length: usize,
}

impl View for CorrelationVector {
    type V = CvModel;

    closed spec fn view(&self) -> CvModel {
        CvModel {
            base: self.base@,
            vector: self.vector@,
            immutable: self.immutable,
            length: self.serialized_length as nat,
        }
    }
}

impl CorrelationVector {
    /// Create a new CorrelationVector from a given 128-bit identity: the 16
    /// bytes are base64-encoded, the trailing `=` padding is stripped, and
    /// the result becomes the base of a fresh vector with a single zero
    /// counter.
    pub fn new_from_uuid(base: [u8; 16]) -> (r: CorrelationVector)
        ensures
            r@.base == strip_padding(crate::trusted::base64_std_of(base@)),
            r@.base.len() == 22,
            r@.vector == seq![0u32],
            !r@.immutable,
            r@.length == 24,
            wf(r@),
            length_exact(r@),
    {
        let encoded: String = base64_encode_16(&base);
        let mut end: usize = encoded.as_str().unicode_len();
        while end > 0 && encoded.as_str().get_char(end - 1) == '='
            invariant
                22 <= end <= 24,
                encoded@.len() == 24,
                forall|i: int| 0 <= i < 22 ==> is_base64_data_char(#[trigger] encoded@[i]),
                encoded@[22] == '=',
                encoded@[23] == '=',
            decreases end,
        {
            end = end - 1;
        }
        assert(end == 22);
        let stripped: &str = encoded.as_str().substring_char(0, end);
        let base_string: String = stripped.to_owned();
        let base_byte_count: usize = base_string.as_str().len();
        proof {
            let e = encoded@;
            assert(base_string@ == e.subrange(0, 22));
            assert(is_ascii_chars_of_base(base_string@)) by {
                assert forall|i: int| 0 <= i < base_string@.len() implies '\0'
                    <= #[trigger] base_string@[i] <= '\u{7f}' && base_string@[i] != '.' by {
                    assert(base_string@[i] == e[i]);
                    assert(is_base64_data_char(e[i]));
                }
            }
            lemma_byte_len_ascii(base_string@);
            assert(base_byte_count == 22);
            assert(strip_padding(e) == strip_padding(e.subrange(0, 23))) by {
                assert(e.last() == '=');
                assert(e.drop_last() =~= e.subrange(0, 23));
            }
            assert(strip_padding(e.subrange(0, 23)) == strip_padding(e.subrange(0, 22))) by {
                assert(e.subrange(0, 23).last() == e[22]);
                assert(e.subrange(0, 23).drop_last() =~= e.subrange(0, 22));
            }
            assert(strip_padding(e.subrange(0, 22)) == e.subrange(0, 22)) by {
                assert(e.subrange(0, 22).last() == e[21]);
                assert(is_base64_data_char(e[21]));
            }
        }
        let mut counters: Vec<u32> = Vec::new();
        counters.push(0);
        let r = CorrelationVector {
            base: base_string,
            vector: counters,
            immutable: false,
            serialized_length: base_byte_count + 2,
        };
        proof {
            assert(r@.vector =~= seq![0u32]);
            assert(counters_chars(r@.vector) == dec_digits(0));
            crate::model::lemma_digits_ascii(0);
            lemma_format_decompose(r@);
        }
        r
    }

    /// Creates a new CorrelationVector with a randomly generated identity.
    pub fn new() -> (r: CorrelationVector)
        ensures
            r@.base.len() == 22,
            r@.vector == seq![0u32],
            !r@.immutable,
            r@.length == 24,
            wf(r@),
            length_exact(r@),
    {
        Self::new_from_uuid(fresh_uuid_bytes())
    }

    /// Create a new CorrelationVector from a string representation of a
    /// CorrelationVector. The input is rejected when it is over 128 bytes, or
    /// exactly 128 bytes without the termination marker; one trailing marker
    /// is stripped and remembered as immutability; the text before the first
    /// dot becomes the base; each remaining dot-separated segment must be an
    /// unsigned 32-bit decimal counter. Exactly which result comes back for
    /// which input is given by [`parse_spec`].
    #[verifier::loop_isolation(false)]
    #[verifier::rlimit(60)]
    pub fn parse(input: &str) -> (r: Result<CorrelationVector, CorrelationVectorParseError>)
        ensures
            (match r {
                Ok(cv) => parse_spec(input@) == Ok::<CvModel, CorrelationVectorParseError>(cv@)
                    && wf(cv@),
                Err(e) => parse_spec(input@) == Err::<CvModel, CorrelationVectorParseError>(e),
            }),
    {
        let ghost s = input@;
        let ul: usize = input.unicode_len();
        if ul > 128 {
            proof {
                crate::model::lemma_byte_len_bounds(s);
            }
            return Err(CorrelationVectorParseError::StringTooLongError);
        }
        proof {
            crate::model::lemma_byte_len_bounds(s);
            assert(input.spec_bytes() == vstd::utf8::encode_utf8(s));
        }
        let nbytes: usize = input.len();
        proof {
            assert(nbytes == byte_len(s));
        }
        if nbytes > 128 {
            return Err(CorrelationVectorParseError::StringTooLongError);
        }
        if ul == 0 {
            return Err(CorrelationVectorParseError::Empty);
        }
        let last_char: char = input.get_char(ul - 1);
        let terminated: bool = last_char == '!';
        if nbytes == 128 && !terminated {
            return Err(CorrelationVectorParseError::StringTooLongError);
        }
        let content_len: usize = if terminated {
            ul - 1
        } else {
            ul
        };
        let ghost content = if terminated {
            s.drop_last()
        } else {
            s
        };
        proof {
            assert(content =~= s.take(content_len as int));
        }
        let mut j: usize = 0;
        while j < content_len && input.get_char(j) != '.'
            invariant
                0 <= j <= content_len,
                forall|k: int| 0 <= k < j ==> content[k] != '.',
            decreases content_len - j,
        {
            proof {
                assert(content[j as int] == s[j as int]);
            }
            j = j + 1;
        }
        if j == content_len {
            proof {
                lemma_first_dot_is(content, j as int);
            }
            return Err(CorrelationVectorParseError::MissingVector);
        }
        proof {
            assert(content[j as int] == s[j as int]);
            lemma_first_dot_is(content, j as int);
        }
        let base_str: &str = input.substring_char(0, j);
        let base_string: String = base_str.to_owned();
        proof {
            assert(base_string@ =~= content.take(j as int));
        }
        let ghost rest_all = content.skip(j as int + 1);
        let mut counters: Vec<u32> = Vec::new();
        let mut seg_start: usize = j + 1;
        proof {
            if parse_counters(rest_all) is Ok {
                let vs = parse_counters(rest_all)->Ok_0;
                assert(counters@ + vs =~= vs);
            }
        }
        loop
            invariant
                j + 1 <= seg_start <= content_len,
                (match parse_counters(content.skip(seg_start as int)) {
                    Ok(vs) => parse_counters(rest_all) == Ok::<Seq<u32>, CounterParseError>(
                        counters@ + vs,
                    ),
                    Err(e) => parse_counters(rest_all) == Err::<Seq<u32>, CounterParseError>(e),
                }),
            decreases content_len - seg_start,
        {
            let mut end: usize = seg_start;
            while end < content_len && input.get_char(end) != '.'
                invariant
                    seg_start <= end <= content_len,
                    forall|k: int| seg_start <= k < end ==> content[k] != '.',
                decreases content_len - end,
            {
                proof {
                    assert(content[end as int] == s[end as int]);
                }
                end = end + 1;
            }
            let ghost seg_rest = content.skip(seg_start as int);
            let ghost segment = content.subrange(seg_start as int, end as int);
            proof {
                assert forall|k: int| 0 <= k < end - seg_start implies seg_rest[k] != '.' by {
                    assert(seg_rest[k] == content[k + seg_start]);
                }
                if end < content_len {
                    assert(seg_rest[(end - seg_start) as int] == content[end as int]);
                    assert(content[end as int] == s[end as int]);
                }
                lemma_first_dot_is(seg_rest, end - seg_start);
                assert(segment =~= seg_rest.take((end - seg_start) as int));
                if end == content_len {
                    assert(segment =~= seg_rest);
                }
            }
            if end == seg_start {
                return Err(
                    CorrelationVectorParseError::ParseError {
                        source: CounterParseError::EmptySegment,
                    },
                );
            }
            let mut acc: u64 = 0;
            let mut k: usize = seg_start;
            proof {
                assert(segment.skip(0) =~= segment);
            }
            while k < end
                invariant
                    seg_start <= k <= end,
                    acc <= 0xFFFF_FFFF,
                    scan_u32(segment, 0) == scan_u32(
                        segment.skip((k - seg_start) as int),
                        acc as nat,
                    ),
                decreases end - k,
            {
                let c: char = input.get_char(k);
                proof {
                    assert(segment.skip((k - seg_start) as int)[0] == segment[(k
                        - seg_start) as int]);
                    assert(segment[(k - seg_start) as int] == content[k as int]);
                    assert(content[k as int] == s[k as int]);
                }
                if !(c >= '0' && c <= '9') {
                    return Err(
                        CorrelationVectorParseError::ParseError {
                            source: CounterParseError::InvalidDigit,
                        },
                    );
                }
                let d: u32 = (c as u32) - 48;
                proof {
                    assert(crate::decimal::digit_val(c) == d);
                }
                let next: u64 = acc * 10 + (d as u64);
                if next > 0xFFFF_FFFF {
                    return Err(
                        CorrelationVectorParseError::ParseError {
                            source: CounterParseError::Overflow,
                        },
                    );
                }
                proof {
                    assert(segment.skip((k - seg_start) as int).drop_first() =~= segment.skip((k + 1
                        - seg_start) as int));
                }
                acc = next;
                k = k + 1;
            }
            proof {
                assert(segment.skip((end - seg_start) as int) =~= Seq::<char>::empty());
                assert(scan_u32(segment, 0) == Ok::<u32, CounterParseError>(acc as u32));
                assert(parse_u32(segment) == Ok::<u32, CounterParseError>(acc as u32));
            }
            let value: u32 = acc as u32;
            let ghost counters_before = counters@;
            counters.push(value);
            proof {
                assert(counters@ =~= counters_before + seq![value]);
            }
            if end == content_len {
                proof {
                    assert(parse_counters(seg_rest) == Ok::<Seq<u32>, CounterParseError>(
                        seq![value],
                    ));
                    assert(counters_before + seq![value] == counters@);
                    assert(parse_counters(rest_all) == Ok::<Seq<u32>, CounterParseError>(
                        counters@,
                    ));
                }
                let cv = CorrelationVector {
                    base: base_string,
                    vector: counters,
                    immutable: terminated,
                    serialized_length: nbytes,
                };
                proof {
                    lemma_parse_counters_ok(rest_all);
                    lemma_counters_ascii(cv@.vector);
                    lemma_format_decompose(cv@);
                    lemma_encode_utf8_concat(cv@.base, seq!['.']);
                    lemma_encode_utf8_concat(cv@.base + seq!['.'], rest_all);
                    lemma_byte_len_ascii(seq!['.']);
                    assert(content =~= cv@.base + seq!['.'] + rest_all);
                    if terminated {
                        lemma_encode_utf8_concat(content, seq!['!']);
                        lemma_byte_len_ascii(seq!['!']);
                        assert(s =~= content + seq!['!']);
                    }
                    lemma_byte_len_ascii(rest_all);
                    assert(byte_len(format_of(cv@)) <= nbytes);
                    assert(wf(cv@));
                    assert(parse_spec(s)->Ok_0 =~= cv@);
                }
                return Ok(cv);
            }
            proof {
                assert(seg_rest.skip((end - seg_start) as int + 1) =~= content.skip(
                    end as int + 1,
                ));
                if parse_counters(content.skip(end as int + 1)) is Ok {
                    let vs = parse_counters(content.skip(end as int + 1))->Ok_0;
                    assert(parse_counters(seg_rest) == Ok::<Seq<u32>, CounterParseError>(
                        seq![value] + vs,
                    ));
                    assert(counters_before + (seq![value] + vs) =~= counters@ + vs);
                }
            }
            seg_start = end + 1;
        }
    }

    /// Append a new clock to the end of the vector clock: a zero counter,
    /// costing two bytes, or the switch to immutability when the budget is
    /// spent.
    pub fn extend(&mut self)
        requires
            wf(old(self)@),
        ensures
            final(self)@ == extend_spec(old(self)@),
            wf(final(self)@),
            old(self)@.immutable ==> final(self)@ == old(self)@,
            length_exact(old(self)@) ==> length_exact(final(self)@),
    {
        proof {
            lemma_extend(self@);
            assert(dec_len(0) == 1);
        }
        if self.immutable {
            return ;
        }
        let proposed: usize = self.serialized_length + 2;
        if proposed > 127 {
            self.immutable = true;
            self.serialized_length = self.serialized_length + 1;
            return ;
        }
        self.vector.push(0);
        self.serialized_length = proposed;
    }

    /// Increment the latest clock in the vector clock. A counter ending in 9
    /// may need one more byte for its extra digit; when the budget cannot
    /// cover it the vector turns immutable and the counter stays unchanged.
    /// A counter already at `u32::MAX` is left untouched.
    pub fn increment(&mut self)
        requires
            wf(old(self)@),
        ensures
            final(self)@ == increment_spec(old(self)@),
            wf(final(self)@),
            old(self)@.immutable ==> final(self)@ == old(self)@,
            (!old(self)@.immutable && old(self)@.vector.last() % 10 != 9 ==> final(self)@.length
                == old(self)@.length),
            (length_exact(old(self)@) && (old(self)@.immutable || old(self)@.vector.last()
                == u32::MAX || old(self)@.vector.last() % 10 != 9 || dec_len(
                (old(self)@.vector.last() + 1) as nat,
            ) == dec_len(old(self)@.vector.last() as nat) + 1) ==> length_exact(final(self)@)),
    {
        proof {
            lemma_increment(self@);
        }
        if self.immutable {
            return ;
        }
        let last_index: usize = self.vector.len() - 1;
        let prev: u32 = self.vector[last_index];
        if prev == u32::MAX {
            return ;
        }
        if prev % 10 == 9 {
            if self.serialized_length < 127 {
                self.serialized_length = self.serialized_length + 1;
            } else {
                self.immutable = true;
                self.serialized_length = self.serialized_length + 1;
                return ;
            }
        }
        self.vector[last_index] = prev + 1;
    }

    /// Transform the vector clock in a unique, near-monotonic way, for
    /// situations where increment cannot guarantee uniqueness. The drawn
    /// timestamp and entropy are whatever the clock and the random source
    /// gave; everything after the draw follows [`spin_spec`], so the vector
    /// stays well formed and within its 128-byte budget whatever came back.
    pub fn spin(&mut self, params: SpinParams)
        requires
            wf(old(self)@),
        ensures
            (exists|ticks: u64, entropy: Seq<u8>|
                entropy.len() == spec_entropy_bytes(params.spin_entropy) && final(self)@
                    == #[trigger] spin_spec(old(self)@, ticks, entropy, params)),
            wf(final(self)@),
            old(self)@.immutable ==> final(self)@ == old(self)@,
            byte_len(format_of(final(self)@)) <= 128,
            length_exact(old(self)@) ==> length_exact(final(self)@),
    {
        if self.immutable {
            proof {
                let witness = Seq::<u8>::new(
                    spec_entropy_bytes(params.spin_entropy) as nat,
                    |i: int| 0u8,
                );
                assert(spin_spec(self@, 0, witness, params) == self@);
            }
            return ;
        }
        let entropy: Vec<u8> = generate_entropy(params.spin_entropy);
        let ticks: u64 = current_ticks();
        self.spin_with(ticks, &entropy, params);
    }

    /// Apply a spin for a given timestamp and entropy draw: shift the
    /// timestamp by the configured interval, fold in the entropy bytes, mask
    /// the composite to the configured width, then append its low 32 bits,
    /// its high 32 bits when the width goes past 32, and a fresh zero. The
    /// first append that would break the budget turns the vector immutable
    /// and drops the rest of the call.
    pub fn spin_with(&mut self, ticks: u64, entropy: &Vec<u8>, params: SpinParams)
        requires
            wf(old(self)@),
            entropy@.len() == spec_entropy_bytes(params.spin_entropy),
        ensures
            final(self)@ == spin_spec(old(self)@, ticks, entropy@, params),
            wf(final(self)@),
            old(self)@.immutable ==> final(self)@ == old(self)@,
            byte_len(format_of(final(self)@)) <= 128,
            length_exact(old(self)@) ==> length_exact(final(self)@),
    {
        proof {
            lemma_spin(self@, ticks, entropy@, params);
        }
        if self.immutable {
            return ;
        }
        let dropped: u64 = ticks >> ticks_to_drop(params.spin_counter_interval);
        let mut value: u64 = dropped;
        let mut i: usize = 0;
        proof {
            assert(entropy@.skip(0) =~= entropy@);
        }
        while i < entropy.len()
            invariant
                i <= entropy@.len(),
                or_entropy(dropped, entropy@) == or_entropy(value, entropy@.skip(i as int)),
            decreases entropy@.len() - i,
        {
            let b: u8 = entropy[i];
            proof {
                assert(entropy@.skip(i as int)[0] == entropy@[i as int]);
                assert(entropy@.skip(i as int).drop_first() =~= entropy@.skip(i + 1));
            }
            value = (value << 8u64) | (b as u64);
            i = i + 1;
        }
        proof {
            assert(entropy@.skip(entropy@.len() as int) =~= Seq::<u8>::empty());
        }
        let bits: u64 = tick_periodicity_bits(params);
        if bits != 64 {
            proof {
                assert(1u64 << bits >= 1) by (bit_vector)
                    requires
                        bits < 64u64,
                ;
            }
            let mask: u64 = (1u64 << bits) - 1;
            value = value & mask;
        }
        proof {
            assert(value == spec_spin_value(ticks, entropy@, params));
            assert((value & 0xFFFF_FFFF) <= 0xFFFF_FFFF) by (bit_vector);
            assert((value >> 32u64) <= 0xFFFF_FFFF) by (bit_vector);
            assert(dec_len(0) == 1);
        }
        let first_32_bits: u32 = (value & 0xFFFF_FFFF) as u32;
        proof {
            lemma_dec_len_u32(first_32_bits as nat);
        }
        let proposed_extension_len: usize = serialized_length_of(first_32_bits) + 1;
        if self.serialized_length + proposed_extension_len > 127 {
            self.immutable = true;
            self.serialized_length = self.serialized_length + 1;
            return ;
        }
        self.serialized_length = self.serialized_length + proposed_extension_len;
        self.vector.push(first_32_bits);
        if bits > 32 {
            let end_32_bits: u32 = (value >> 32u64) as u32;
            proof {
                lemma_dec_len_u32(end_32_bits as nat);
            }
            let proposed_high_len: usize = serialized_length_of(end_32_bits) + 1;
            if self.serialized_length + proposed_high_len > 127 {
                self.immutable = true;
                self.serialized_length = self.serialized_length + 1;
                return ;
            }
            self.vector.push(end_32_bits);
            self.serialized_length = self.serialized_length + proposed_high_len;
        }
        if self.serialized_length + 2 > 127 {
            self.immutable = true;
            self.serialized_length = self.serialized_length + 1;
            return ;
        }
        self.vector.push(0);
        self.serialized_length = self.serialized_length + 2;
    }

    /// The string form: base, dot-joined counters, and the termination
    /// marker exactly when the vector is immutable.
    pub fn to_string(&self) -> (r: String)
        requires
            wf(self@),
        ensures
            r@ == format_of(self@),
            length_exact(self@) ==> byte_len(r@) == self@.length,
            byte_len(r@) <= 128,
    {
        let mut out: String = self.base.clone();
        proof {
            reveal_strlit(".");
            assert("."@ =~= seq!['.']);
            reveal_strlit("!");
            assert("!"@ =~= seq!['!']);
        }
        out.append(".");
        let first: u32 = self.vector[0];
        append_decimal(&mut out, first);
        proof {
            assert(self@.vector.take(1).len() == 1);
            assert(self@.vector.take(1)[0] == self@.vector[0]);
            assert(counters_chars(self@.vector.take(1)) == dec_digits(first as nat));
            assert(out@ =~= self@.base + seq!['.'] + counters_chars(self@.vector.take(1)));
        }
        let mut i: usize = 1;
        while i < self.vector.len()
            invariant
                1 <= i <= self.vector.len(),
                out@ == self@.base + seq!['.'] + counters_chars(self@.vector.take(i as int)),
            decreases self.vector.len() - i,
        {
            proof {
                reveal_strlit(".");
                assert("."@ =~= seq!['.']);
            }
            out.append(".");
            let c: u32 = self.vector[i];
            append_decimal(&mut out, c);
            proof {
                let v = self@.vector;
                assert(v.take(i + 1).drop_last() =~= v.take(i as int));
                assert(v.take(i + 1).last() == v[i as int]);
                assert(counters_chars(v.take(i + 1)) == counters_chars(v.take(i as int))
                    + seq!['.'] + dec_digits(v[i as int] as nat));
                assert(out@ =~= self@.base + seq!['.'] + counters_chars(v.take(i + 1)));
            }
            i = i + 1;
        }
        proof {
            assert(self@.vector.take(self@.vector.len() as int) =~= self@.vector);
        }
        if self.immutable {
            out.append("!");
        }
        proof {
            assert(out@ =~= format_of(self@));
        }
        out
    }

    /// The base identity.
    pub fn base(&self) -> (r: &str)
        ensures
            r@ == self@.base,
    {
        self.base.as_str()
    }

    /// The counters, in order.
    pub fn vector(&self) -> (r: &Vec<u32>)
        ensures
            r@ == self@.vector,
    {
        &self.vector
    }

    /// Whether the vector has reached its budget and rejects further
    /// mutation.
    pub fn is_immutable(&self) -> (r: bool)
        ensures
            r == self@.immutable,
    {
        self.immutable
    }

    /// The byte length the vector claims its string form has.
    pub fn serialized_length(&self) -> (r: usize)
        ensures
            r == self@.length,
    {
        self.serialized_length
    }
}

/// The time since the epoch in 100-nanosecond ticks. The value is whatever
/// the clock gave; a reading from before the epoch counts as zero and one
/// past the 64-bit range saturates.
fn current_ticks() -> u64 {
    let now: std::time::SystemTime = std::time::SystemTime::now();
    match now.duration_since(unix_epoch()) {
        Ok(elapsed) => {
            let nanos: u128 = elapsed.as_nanos();
            let ticks: u128 = nanos / 100;
            if ticks > 0xFFFF_FFFF_FFFF_FFFFu128 {
                u64::MAX
            } else {
                ticks as u64
            }
        },
        Err(_) => 0,
    }
}

/// An ASCII, dot-free character sequence: what a generated base looks like.
pub open spec fn is_ascii_chars_of_base(s: Seq<char>) -> bool {
    forall|i: int| 0 <= i < s.len() ==> '\0' <= #[trigger] s[i] <= '\u{7f}' && s[i] != '.'
}

impl Default for CorrelationVector {
    /// A fresh vector with a random identity.
    fn default() -> (r: Self)
        ensures
            r@.vector == seq![0u32],
            !r@.immutable,
            wf(r@),
            length_exact(r@),
    {
        Self::new()
    }
}

impl PartialEq for CorrelationVector {
    /// Two vectors are equal when all four parts agree.
    fn eq(&self, other: &Self) -> (r: bool) {
        let bases: bool = self.base == other.base;
        let vectors: bool = self.vector == other.vector;
        proof {
            if vectors {
                assert(self.vector@ =~= other.vector@);
            }
        }
        bases && vectors && self.immutable == other.immutable && self.serialized_length
            == other.serialized_length
    }
}

impl vstd::std_specs::cmp::PartialEqSpecImpl for CorrelationVector {
    open spec fn obeys_eq_spec() -> bool {
        true
    }

    open spec fn eq_spec(&self, other: &Self) -> bool {
        self@.base == other@.base && self@.vector == other@.vector && self@.immutable
            == other@.immutable && self@.length == other@.length
    }
}

} // verus!
