//! Configuration for the spin operation: how much of the timestamp is kept,
//! how many random bytes are mixed in, and the helpers that turn each choice
//! into a bit count.

use vstd::prelude::*;

use crate::trusted::random_byte;

verus! {

/// How many low bits of the 100-nanosecond timestamp are discarded.
#[derive(Debug, Clone, Copy)]
pub enum SpinCounterInterval {
    /// Drop 24 bits: the counter changes roughly every 1.67 seconds.
    Coarse,
    /// Drop 16 bits: the counter changes roughly every 6.5 milliseconds.
    Fine,
}

/// How many bits of the shifted timestamp are retained in the spin value.
#[derive(Debug, Clone, Copy)]
pub enum SpinCounterPeriodicity {
    /// Keep no timestamp bits.
    Zero,
    /// Keep 16 timestamp bits.
    Short,
    /// Keep 24 timestamp bits.
    Medium,
    /// Keep 32 timestamp bits.
    Long,
}

/// How many random bytes are mixed into the spin value.
#[derive(Debug, Clone, Copy)]
pub enum SpinEntropy {
    Zero,
    One,
    Two,
    Three,
    Four,
}

/// The three independently chosen options of a spin.
#[derive(Debug, Clone, Copy)]
pub struct SpinParams {
    pub spin_counter_interval: SpinCounterInterval,
    pub spin_counter_periodicity: SpinCounterPeriodicity,
    pub spin_entropy: SpinEntropy,
}

pub open spec fn spec_ticks_to_drop(interval: SpinCounterInterval) -> u64 {
    match interval {
        SpinCounterInterval::Coarse => 24,
        SpinCounterInterval::Fine => 16,
    }
}

pub open spec fn spec_entropy_bytes(entropy: SpinEntropy) -> u64 {
    match entropy {
        SpinEntropy::Zero => 0,
        SpinEntropy::One => 1,
        SpinEntropy::Two => 2,
        SpinEntropy::Three => 3,
        SpinEntropy::Four => 4,
    }
}

pub open spec fn spec_tick_periodicity_bits(params: SpinParams) -> int {
    (match params.spin_counter_periodicity {
        SpinCounterPeriodicity::Zero => 0int,
        SpinCounterPeriodicity::Short => 16int,
        SpinCounterPeriodicity::Medium => 24int,
        SpinCounterPeriodicity::Long => 32int,
    }) + spec_entropy_bytes(params.spin_entropy) * 8
}

pub fn ticks_to_drop(interval: SpinCounterInterval) -> (r: u64)
    ensures
        r == spec_ticks_to_drop(interval),
{
    match interval {
        SpinCounterInterval::Coarse => 24,
        SpinCounterInterval::Fine => 16,
    }
}

pub fn entropy_bytes(entropy: SpinEntropy) -> (r: u64)
    ensures
        r == spec_entropy_bytes(entropy),
{
    match entropy {
        SpinEntropy::Zero => 0,
        SpinEntropy::One => 1,
        SpinEntropy::Two => 2,
        SpinEntropy::Three => 3,
        SpinEntropy::Four => 4,
    }
}

/// The total width, in bits, of the spin value: the retained timestamp bits
/// plus eight bits for each entropy byte. At most 64.
pub fn tick_periodicity_bits(params: SpinParams) -> (r: u64)
    ensures
        r == spec_tick_periodicity_bits(params),
        r <= 64,
{
    let counter_bits: u64 = match params.spin_counter_periodicity {
        SpinCounterPeriodicity::Zero => 0,
        SpinCounterPeriodicity::Short => 16,
        SpinCounterPeriodicity::Medium => 24,
        SpinCounterPeriodicity::Long => 32,
    };
    counter_bits + entropy_bytes(params.spin_entropy) * 8
}

/// Draw the configured number of entropy bytes from the process random
/// source. Only the count is known; the values are whatever the source gave.
pub(crate) fn generate_entropy(entropy: SpinEntropy) -> (r: Vec<u8>)
    ensures
        r@.len() == spec_entropy_bytes(entropy),
{
    let bytes_to_generate: u64 = entropy_bytes(entropy);
    let mut result: Vec<u8> = Vec::new();
    let mut i: u64 = 0;
    while i < bytes_to_generate
        invariant
            i <= bytes_to_generate,
            result@.len() == i,
            bytes_to_generate == spec_entropy_bytes(entropy),
        decreases bytes_to_generate - i,
    {
        result.push(random_byte());
        i = i + 1;
    }
    result
}

} // verus!
