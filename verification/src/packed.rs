//! The packed stream of palette indices.
//!
//! A section stores one palette index per block, `bits` bits each, in 64-bit
//! words. A word holds as many whole entries as fit, lowest bits first; the
//! bits left over at its top are padding, and no entry continues into the
//! next word.

use vstd::prelude::*;
use vstd::arithmetic::div_mod::{
    lemma_div_denominator, lemma_div_is_ordered, lemma_fundamental_div_mod,
    lemma_fundamental_div_mod_converse, lemma_small_mod,
};
use vstd::arithmetic::power2::{pow2, lemma_pow2_adds, lemma_pow2_pos, lemma2_to64};
use vstd::bits::{
    low_bits_mask, lemma_u64_low_bits_mask_is_mod, lemma_u64_pow2_no_overflow,
    lemma_u64_shl_is_mul, lemma_u64_shr_is_div,
};
use crate::error::DecodeError;

verus! {

/// Bits in one word of the stream.
pub const WORD_BITS: u32 = 64;

/// The bit pattern of `word`, read as an unsigned number: the sign bit is
/// one more bit of the pattern.
pub open spec fn word_pattern(word: i64) -> nat {
    if word < 0 {
        (word + 0x1_0000_0000_0000_0000) as nat
    } else {
        word as nat
    }
}

/// The whole entries of `bits` bits that one word holds.
pub open spec fn entries_per_word(bits: nat) -> nat {
    64nat / bits
}

/// The entry at place `place` of a word with the pattern `pattern`: its
/// digit of that place in base `2^bits`.
pub open spec fn word_entry(pattern: nat, bits: nat, place: nat) -> nat {
    (pattern / pow2(place * bits)) % pow2(bits)
}

/// Whether `data` reaches as far as entry `slot`.
pub open spec fn holds_slot(data: Seq<i64>, bits: nat, slot: nat) -> bool {
    slot / entries_per_word(bits) < data.len()
}

/// Entry `slot` of the stream `data`.
pub open spec fn packed_index(data: Seq<i64>, bits: nat, slot: nat) -> nat
    recommends
        1 <= bits <= 64,
        holds_slot(data, bits, slot),
{
    let per_word = entries_per_word(bits);
    word_entry(word_pattern(data[(slot / per_word) as int]), bits, slot % per_word)
}

/// The words that `count` entries take.
pub open spec fn words_needed(bits: nat, count: nat) -> nat {
    if count == 0 {
        0
    } else {
        ((count - 1) as nat) / entries_per_word(bits) + 1
    }
}

/// Reads the entries of a stream one after the other.
pub struct IndexReader<'a> {
    data: &'a [i64],
    bits: u32,
    /// Index of the word that `current` was loaded from.
    word: usize,
    /// What is left of that word: its pattern, shifted right past the
    /// entries already taken.
    current: u64,
    /// Bits of that word not yet taken, padding included.
    remaining: u32,
}

impl<'a> IndexReader<'a> {
    /// The stream that is read.
    pub closed spec fn data(&self) -> Seq<i64> {
        self.data@
    }

    /// The width of one entry.
    pub closed spec fn bits(&self) -> nat {
        self.bits as nat
    }

    /// The entries taken so far, which is the slot of the next one.
    pub closed spec fn position(&self) -> nat {
        (self.word * entries_per_word(self.bits as nat) + (64 - self.remaining) / (
        self.bits as int)) as nat
    }

    /// The reader's state fits its stream.
    pub closed spec fn wf(&self) -> bool {
        &&& 1 <= self.bits <= 64
        &&& self.remaining <= 64
        &&& (64 - self.remaining) % (self.bits as int) == 0
        &&& self.word <= self.data@.len()
        &&& self.word == self.data@.len() ==> self.remaining == 64
        &&& self.word < self.data@.len() ==> self.current == word_pattern(
            self.data@[self.word as int],
        ) / pow2((64 - self.remaining) as nat)
    }

    /// A reader at the start of `data`, for entries of `bits` bits.
    pub fn new(data: &'a [i64], bits: u32) -> (r: Self)
        requires
            1 <= bits <= 64,
        ensures
            r.wf(),
            r.data() == data@,
            r.bits() == bits,
            r.position() == 0,
    {
        let current: u64 = if data.len() > 0 {
            pattern_of(data[0])
        } else {
            0
        };
        proof {
            lemma2_to64();
            lemma_small_mod(0, bits as nat);
            lemma_places(bits as nat, 64);
            assert(0int / (bits as int) == 0) by (nonlinear_arith)
                requires
                    bits >= 1,
            ;
        }
        let r = IndexReader { data, bits, word: 0, current, remaining: WORD_BITS };
        assert(pow2((64 - r.remaining) as nat) == 1);
        r
    }

    /// Takes the next entry. Where the stream has ended, nothing is taken.
    pub fn next_index(&mut self) -> (r: Result<u64, DecodeError>)
        requires
            old(self).wf(),
        ensures
            final(self).wf(),
            final(self).data() == old(self).data(),
            final(self).bits() == old(self).bits(),
            match r {
                Ok(index) => {
                    &&& holds_slot(old(self).data(), old(self).bits(), old(self).position())
                    &&& index == packed_index(
                        old(self).data(),
                        old(self).bits(),
                        old(self).position(),
                    )
                    &&& final(self).position() == old(self).position() + 1
                },
                Err(e) => {
                    &&& e == DecodeError::TruncatedData
                    &&& !holds_slot(old(self).data(), old(self).bits(), old(self).position())
                    &&& final(self).position() == old(self).position()
                },
            },
    {
        let len: usize = self.data.len();
        let ghost per_word = entries_per_word(self.bits as nat);
        let ghost start = self.position();
        proof {
            lemma_places(self.bits as nat, self.remaining as nat);
        }
        if self.remaining < self.bits {
            // The word is used up: what is left of it is padding.
            self.word = self.word + 1;
            self.remaining = WORD_BITS;
            if self.word < len {
                self.current = pattern_of(self.data[self.word]);
            }
            proof {
                lemma2_to64();
                lemma_small_mod(0, self.bits as nat);
                lemma_places(self.bits as nat, 64);
                assert(start == self.word * per_word) by (nonlinear_arith)
                    requires
                        start == (self.word - 1) * per_word + per_word,
                ;
            }
        }
        let ghost taken = ((64 - self.remaining) / (self.bits as int)) as nat;
        proof {
            assert(start == self.word * per_word + taken);
            assert(taken * self.bits == 64 - self.remaining);
            assert(taken < per_word);
            lemma_fundamental_div_mod_converse(
                start as int,
                per_word as int,
                self.word as int,
                taken as int,
            );
        }
        if self.word >= len {
            return Err(DecodeError::TruncatedData);
        }
        let ghost pattern = word_pattern(self.data@[self.word as int]);
        let ghost shift = (64 - self.remaining) as nat;
        let ghost width = self.bits as nat;
        let index: u64;
        let rest: u64;
        if self.bits >= WORD_BITS {
            proof {
                lemma2_to64();
                lemma_small_mod(self.current as nat, pow2(64));
                assert(pattern / pow2(64) == 0) by (nonlinear_arith)
                    requires
                        pattern < pow2(64),
                        pow2(64) > 0,
                ;
            }
            index = self.current;
            rest = 0;
        } else {
            proof {
                lemma_u64_pow2_no_overflow(width);
                lemma_u64_shl_is_mul(1, self.bits as u64);
                lemma_u64_low_bits_mask_is_mod(self.current, width);
                lemma_u64_shr_is_div(self.current, self.bits as u64);
                lemma_pow2_pos(shift);
                lemma_div_denominator(pattern as int, pow2(shift) as int, pow2(width) as int);
                lemma_pow2_adds(shift, width);
            }
            let mask: u64 = (1u64 << (self.bits as u64)) - 1;
            assert(mask == low_bits_mask(width));
            index = self.current & mask;
            rest = self.current >> (self.bits as u64);
        }
        self.current = rest;
        self.remaining = self.remaining - self.bits;
        proof {
            lemma_places(self.bits as nat, self.remaining as nat);
        }
        Ok(index)
    }
}

/// The bit pattern of `word`: the same 64 bits, read as unsigned whatever
/// the sign.
pub fn pattern_of(word: i64) -> (r: u64)
    ensures
        r == word_pattern(word),
{
    proof {
        lemma_word_pattern(word);
    }
    #[verifier::truncate]
    (word as u64)
}

/// The first `count` entries of `data`, `bits` bits each. `data` has to be
/// as long as they take, and may be longer.
pub fn unpack_indices(data: &[i64], bits: u32, count: usize) -> (r: Result<
    Vec<u64>,
    DecodeError,
>)
    requires
        1 <= bits <= 64,
    ensures
        match r {
            Ok(indices) => {
                &&& words_needed(bits as nat, count as nat) <= data@.len()
                &&& indices@.len() == count
                &&& forall|slot: int|
                    0 <= slot < count ==> indices@[slot] == packed_index(
                        data@,
                        bits as nat,
                        slot as nat,
                    )
            },
            Err(e) => {
                &&& e == DecodeError::TruncatedData
                &&& words_needed(bits as nat, count as nat) > data@.len()
            },
        },
{
    let mut reader = IndexReader::new(data, bits);
    let mut indices: Vec<u64> = Vec::new();
    let mut slot: usize = 0;
    while slot < count
        invariant
            1 <= bits <= 64,
            slot <= count,
            reader.wf(),
            reader.data() == data@,
            reader.bits() == bits,
            reader.position() == slot,
            indices@.len() == slot,
            words_needed(bits as nat, slot as nat) <= data@.len(),
            forall|k: int|
                0 <= k < slot ==> indices@[k] == packed_index(data@, bits as nat, k as nat),
        decreases count - slot,
    {
        proof {
            lemma_words_needed(bits as nat, slot as nat, count as nat, data@);
        }
        match reader.next_index() {
            Ok(index) => {
                indices.push(index);
            },
            Err(e) => {
                return Err(e);
            },
        }
        slot = slot + 1;
    }
    Ok(indices)
}

/// A stream reaches entry `slot` exactly when it has the words that the
/// entries up to and with `slot` take, and then more entries take no fewer
/// words.
pub proof fn lemma_words_needed(bits: nat, slot: nat, count: nat, data: Seq<i64>)
    requires
        1 <= bits <= 64,
        slot < count,
    ensures
        holds_slot(data, bits, slot) <==> words_needed(bits, slot + 1) <= data.len(),
        words_needed(bits, slot + 1) <= words_needed(bits, count),
{
    lemma_per_word(bits);
    lemma_div_is_ordered(slot as int, count - 1, entries_per_word(bits) as int);
}

/// A word holds at least one entry, and its entries take at most 64 bits.
pub proof fn lemma_per_word(bits: nat)
    requires
        1 <= bits <= 64,
    ensures
        1 <= entries_per_word(bits) <= 64,
        entries_per_word(bits) * bits <= 64,
        (entries_per_word(bits) + 1) * bits > 64,
{
    let per_word = entries_per_word(bits) as int;
    lemma_fundamental_div_mod(64, bits as int);
    assert(1 <= per_word <= 64 && per_word * bits <= 64 && (per_word + 1) * bits > 64)
        by (nonlinear_arith)
        requires
            64 == bits * per_word + 64int % (bits as int),
            0 <= 64int % (bits as int) < bits,
            1 <= bits <= 64,
    ;
}

/// Reinterpreting a word as unsigned gives its pattern.
proof fn lemma_word_pattern(word: i64)
    ensures
        word as u64 == word_pattern(word),
        word_pattern(word) < 0x1_0000_0000_0000_0000,
{
    assert(word >= 0 ==> word as u64 == word) by (bit_vector);
    assert(word < 0 ==> word as u64 == word + 0x1_0000_0000_0000_0000) by (bit_vector);
}

/// How the bits left in a word count the entries taken from it.
proof fn lemma_places(bits: nat, remaining: nat)
    requires
        1 <= bits <= 64,
        remaining <= 64,
        (64 - remaining) % (bits as int) == 0,
    ensures
        ({
            let taken = (64 - remaining) / (bits as int);
            let per_word = entries_per_word(bits);
            &&& 0 <= taken <= per_word
            &&& 1 <= per_word <= 64
            &&& taken * bits == 64 - remaining
            &&& remaining < bits <==> taken == per_word
            &&& remaining >= bits ==> (64 - (remaining - bits)) % (bits as int) == 0 && (64 - (
            remaining - bits)) / (bits as int) == taken + 1
        }),
{
    let taken = (64 - remaining) / (bits as int);
    let per_word = 64int / (bits as int);
    lemma_fundamental_div_mod(64 - remaining, bits as int);
    lemma_fundamental_div_mod(64, bits as int);
    assert(taken * bits == 64 - remaining) by (nonlinear_arith)
        requires
            64 - remaining == bits * taken + 0,
    ;
    assert(0 <= taken <= per_word && 1 <= per_word <= 64 && (remaining < bits <==> taken
        == per_word)) by (nonlinear_arith)
        requires
            taken * bits == 64 - remaining,
            64 == bits * per_word + 64int % (bits as int),
            0 <= 64int % (bits as int) < bits,
            1 <= bits <= 64,
            remaining <= 64,
    ;
    if remaining >= bits {
        assert(64 - (remaining - bits) == (taken + 1) * bits + 0) by (nonlinear_arith)
            requires
                taken * bits == 64 - remaining,
        ;
        lemma_fundamental_div_mod_converse(64 - (remaining - bits), bits as int, taken + 1, 0);
    }
}

} // verus!
