//! Packing palette indices, the inverse of reading them.
//!
//! The decoder never packs. The layout is stated here once more from the
//! writer's side, with the proof that what is packed is read back
//! unchanged.

use vstd::prelude::*;
use vstd::arithmetic::div_mod::{
    lemma_div_is_ordered, lemma_fundamental_div_mod, lemma_fundamental_div_mod_converse,
    lemma_mod_multiples_vanish, lemma_small_mod,
};
use vstd::arithmetic::power2::{
    pow2, lemma_pow2_adds, lemma_pow2_pos, lemma_pow2_strictly_increases, lemma2_to64,
};
use vstd::bits::{lemma_u64_pow2_no_overflow, lemma_u64_shl_is_mul};
use crate::packed::{
    entries_per_word, holds_slot, lemma_per_word, packed_index, word_entry, word_pattern,
    words_needed, WORD_BITS,
};

verus! {

/// The entry at `at` of `entries`, or zero past their end.
pub open spec fn entry_at(entries: Seq<u64>, at: int) -> nat {
    if 0 <= at < entries.len() {
        entries[at] as nat
    } else {
        0
    }
}

/// Whether every entry can be written in `bits` bits.
pub open spec fn fits(entries: Seq<u64>, bits: nat) -> bool {
    forall|i: int| 0 <= i < entries.len() ==> (#[trigger] entries[i]) < pow2(bits)
}

/// The pattern of a word that holds, at its lowest `places` places, the
/// entries from `start` on: each entry stands `bits` bits above the one
/// before it.
pub open spec fn word_of(entries: Seq<u64>, bits: nat, start: int, places: nat) -> nat
    decreases places,
{
    if places == 0 {
        0
    } else {
        let place = (places - 1) as nat;
        word_of(entries, bits, start, place) + entry_at(entries, start + place) * pow2(
            place * bits,
        )
    }
}

/// The word whose bit pattern is `pattern`.
pub open spec fn word_with_pattern(pattern: nat) -> i64 {
    if pattern < 0x8000_0000_0000_0000 {
        pattern as i64
    } else {
        (pattern - 0x1_0000_0000_0000_0000) as i64
    }
}

/// The stream that holds `entries` at `bits` bits each: as many words as
/// they take, each with as many entries as fit, the last one filled up
/// with zeros.
pub open spec fn packed(entries: Seq<u64>, bits: nat) -> Seq<i64> {
    Seq::new(
        words_needed(bits, entries.len()),
        |word: int|
            word_with_pattern(
                word_of(entries, bits, word * entries_per_word(bits), entries_per_word(bits)),
            ),
    )
}

/// A number below `p` with `e * p` added has `e` for its quotient by `p`,
/// and stays below `b * p` where `e` is below `b`.
proof fn lemma_top_digit(low: int, e: int, p: int, b: int)
    requires
        0 <= low < p,
        0 <= e < b,
    ensures
        (low + e * p) / p == e,
        ((low + e * p) / p) % b == e,
        0 <= low + e * p < b * p,
{
    lemma_fundamental_div_mod_converse(low + e * p, p, e, low);
    lemma_small_mod(e as nat, b as nat);
    assert(0 <= low + e * p < b * p) by (nonlinear_arith)
        requires
            0 <= low < p,
            0 <= e < b,
    ;
}

/// Adding a multiple of `p * b` to a number leaves its quotient by `p` the
/// same modulo `b`.
proof fn lemma_lower_digit(low: int, e: int, p: int, b: int, r: int)
    requires
        0 <= low,
        0 < p,
        0 < b,
    ensures
        ((low + e * (p * b * r)) / p) % b == (low / p) % b,
{
    let x = b * (e * r);
    lemma_fundamental_div_mod(low, p);
    assert(low + e * (p * b * r) == (low / p + x) * p + low % p) by (nonlinear_arith)
        requires
            low == p * (low / p) + low % p,
            x == b * (e * r),
    ;
    lemma_fundamental_div_mod_converse(low + e * (p * b * r), p, low / p + x, low % p);
    lemma_mod_multiples_vanish(e * r, low / p, b);
}

/// The weight of one place is `2^bits` times the weight of the place below.
proof fn lemma_place_weight(place: nat, bits: nat)
    ensures
        pow2((place + 1) * bits) == pow2(place * bits) * pow2(bits),
        pow2(place * bits) > 0,
        pow2(bits) > 0,
{
    assert((place + 1) * bits == place * bits + bits) by (nonlinear_arith);
    lemma_pow2_adds(place * bits, bits);
    lemma_pow2_pos(place * bits);
    lemma_pow2_pos(bits);
}

/// A word of `places` entries that fit stays below `2^(places * bits)`.
pub proof fn lemma_word_bound(entries: Seq<u64>, bits: nat, start: int, places: nat)
    requires
        fits(entries, bits),
    ensures
        word_of(entries, bits, start, places) < pow2(places * bits),
    decreases places,
{
    if places == 0 {
        lemma2_to64();
        assert(0 * bits == 0);
    } else {
        let place = (places - 1) as nat;
        lemma_word_bound(entries, bits, start, place);
        lemma_place_weight(place, bits);
        lemma_top_digit(
            word_of(entries, bits, start, place) as int,
            entry_at(entries, start + place) as int,
            pow2(place * bits) as int,
            pow2(bits) as int,
        );
        assert(pow2(bits) * pow2(place * bits) == pow2(place * bits) * pow2(bits))
            by (nonlinear_arith);
    }
}

/// Each place of a word of entries that fit holds its entry.
pub proof fn lemma_word_holds(
    entries: Seq<u64>,
    bits: nat,
    start: int,
    places: nat,
    place: nat,
)
    requires
        fits(entries, bits),
        place < places,
    ensures
        word_entry(word_of(entries, bits, start, places), bits, place) == entry_at(
            entries,
            start + place,
        ),
    decreases places,
{
    let top = (places - 1) as nat;
    let below = word_of(entries, bits, start, top);
    let entry = entry_at(entries, start + top);
    lemma_word_bound(entries, bits, start, top);
    lemma_place_weight(place, bits);
    if place == top {
        lemma_top_digit(below as int, entry as int, pow2(top * bits) as int, pow2(bits) as int);
    } else {
        lemma_word_holds(entries, bits, start, top, place);
        let rest = (top - place - 1) as nat;
        assert(top * bits == (place + 1) * bits + rest * bits) by (nonlinear_arith)
            requires
                top == place + 1 + rest,
        ;
        lemma_pow2_adds((place + 1) * bits, rest * bits);
        lemma_lower_digit(
            below as int,
            entry as int,
            pow2(place * bits) as int,
            pow2(bits) as int,
            pow2(rest * bits) as int,
        );
    }
}

/// A word with a given pattern has that pattern.
pub proof fn lemma_pattern_of_word(pattern: nat)
    requires
        pattern < 0x1_0000_0000_0000_0000,
    ensures
        word_pattern(word_with_pattern(pattern)) == pattern,
{
}

/// What is packed is read back: the stream that `entries` are packed into
/// reaches every one of them, and holds at each slot the entry that was
/// put there.
pub proof fn lemma_pack_unpack(entries: Seq<u64>, bits: nat, slot: int)
    requires
        1 <= bits <= 64,
        fits(entries, bits),
        0 <= slot < entries.len(),
    ensures
        holds_slot(packed(entries, bits), bits, slot as nat),
        packed_index(packed(entries, bits), bits, slot as nat) == entries[slot],
{
    let per_word = entries_per_word(bits);
    lemma_per_word(bits);
    let word = slot / (per_word as int);
    let place = (slot % (per_word as int)) as nat;
    lemma_fundamental_div_mod(slot, per_word as int);
    lemma_div_is_ordered(slot, entries.len() - 1, per_word as int);
    assert(0 <= word < words_needed(bits, entries.len()));
    let pattern = word_of(entries, bits, word * per_word, per_word);
    lemma_word_bound(entries, bits, word * per_word, per_word);
    lemma2_to64();
    if per_word * bits < 64 {
        lemma_pow2_strictly_increases(per_word * bits, 64);
    }
    lemma_pattern_of_word(pattern);
    lemma_word_holds(entries, bits, word * per_word, per_word, place);
    assert(word * per_word + place == slot) by (nonlinear_arith)
        requires
            slot == per_word * word + place,
    ;
}

/// A word of fewer places than entries are left holds them all; the places
/// past the last entry add nothing.
pub proof fn lemma_word_past_end(entries: Seq<u64>, bits: nat, start: int, places: nat, more: nat)
    requires
        places <= more,
        start + places >= entries.len(),
    ensures
        word_of(entries, bits, start, more) == word_of(entries, bits, start, places),
    decreases more - places,
{
    if places < more {
        lemma_word_past_end(entries, bits, start, places, (more - 1) as nat);
        assert(entry_at(entries, start + (more - 1)) * pow2(((more - 1) as nat) * bits) == 0)
            by (nonlinear_arith)
            requires
                entry_at(entries, start + (more - 1)) == 0,
        ;
    }
}

/// The word whose bit pattern is `pattern`.
fn word_from(pattern: u64) -> (r: i64)
    ensures
        r == word_with_pattern(pattern as nat),
{
    assert(pattern < 0x8000_0000_0000_0000 ==> pattern as i64 == pattern) by (bit_vector);
    assert(pattern >= 0x8000_0000_0000_0000 ==> pattern as i64 == pattern
        - 0x1_0000_0000_0000_0000) by (bit_vector);
    #[verifier::truncate]
    (pattern as i64)
}

/// The largest entry that `bits` bits can hold.
fn largest_entry(bits: u32) -> (r: u64)
    requires
        1 <= bits <= 64,
    ensures
        r == pow2(bits as nat) - 1,
{
    proof {
        lemma2_to64();
    }
    if bits >= WORD_BITS {
        u64::MAX
    } else {
        proof {
            lemma_u64_pow2_no_overflow(bits as nat);
            lemma_u64_shl_is_mul(1, bits as u64);
        }
        (1u64 << (bits as u64)) - 1
    }
}

/// Packs `indices` at `bits` bits each, or returns `None` where one of
/// them does not fit into `bits` bits.
pub fn pack_indices(indices: &[u64], bits: u32) -> (r: Option<Vec<i64>>)
    requires
        1 <= bits <= 64,
    ensures
        match r {
            Some(words) => fits(indices@, bits as nat) && words@ == packed(indices@, bits as nat),
            None => !fits(indices@, bits as nat),
        },
{
    let ghost width = bits as nat;
    proof {
        lemma_per_word(width);
    }
    let len: usize = indices.len();
    let per_word: usize = (WORD_BITS / bits) as usize;
    let largest: u64 = largest_entry(bits);
    let needed: usize = if len == 0 {
        0
    } else {
        (len - 1) / per_word + 1
    };
    let mut words: Vec<i64> = Vec::new();
    let mut word: usize = 0;
    while word < needed
        invariant
            1 <= bits <= 64,
            width == bits,
            len == indices@.len(),
            per_word == entries_per_word(width),
            1 <= per_word <= 64,
            per_word * width <= 64,
            largest == pow2(width) - 1,
            needed == words_needed(width, len as nat),
            word <= needed,
            words@.len() == word,
            forall|i: int| 0 <= i < len && i < word * per_word ==> (#[trigger] indices@[i]) < pow2(width),
            forall|w: int|
                0 <= w < word ==> (#[trigger] words@[w]) == word_with_pattern(
                    word_of(indices@, width, w * per_word, per_word as nat),
                ),
        decreases needed - word,
    {
        proof {
            lemma_fundamental_div_mod(len - 1, per_word as int);
            assert(word * per_word <= len - 1) by (nonlinear_arith)
                requires
                    word <= (len - 1) / (per_word as int),
                    len - 1 == per_word * ((len - 1) / (per_word as int)) + (len - 1) % (
                    per_word as int),
                    0 <= (len - 1) % (per_word as int),
                    per_word >= 1,
                    word >= 0,
            ;
        }
        let start: usize = word * per_word;
        let left: usize = len - start;
        let mut pattern: u64 = 0;
        let mut place: usize = 0;
        proof {
            lemma2_to64();
            assert(0 * width == 0);
        }
        while place < per_word && place < left
            invariant
                1 <= bits <= 64,
                width == bits,
                len == indices@.len(),
                1 <= per_word <= 64,
                per_word * width <= 64,
                largest == pow2(width) - 1,
                start + left == len,
                place <= per_word,
                place <= left,
                pattern == word_of(indices@, width, start as int, place as nat),
                pattern < pow2((place as nat) * width),
                forall|i: int| 0 <= i < start ==> (#[trigger] indices@[i]) < pow2(width),
                forall|i: int| start <= i < start + place ==> (#[trigger] indices@[i]) < pow2(width),
            decreases per_word - place,
        {
            let entry: u64 = indices[start + place];
            if entry > largest {
                return None;
            }
            proof {
                assert(place * bits < 64) by (nonlinear_arith)
                    requires
                        place + 1 <= per_word,
                        per_word * width <= 64,
                        width == bits,
                        width >= 1,
                ;
            }
            let shift: u32 = place as u32 * bits;
            proof {
                lemma_place_weight(place as nat, width);
                lemma_top_digit(
                    pattern as int,
                    entry as int,
                    pow2((place as nat) * width) as int,
                    pow2(width) as int,
                );
                assert(pow2(width) * pow2((place as nat) * width) == pow2((place as nat) * width) * pow2(width))
                    by (nonlinear_arith);
                assert((place + 1) * width <= per_word * width) by (nonlinear_arith)
                    requires
                        place + 1 <= per_word,
                ;
                assert(shift == place * width && shift < 64) by (nonlinear_arith)
                    requires
                        shift == place * bits,
                        width == bits,
                        (place + 1) * width <= 64,
                        width >= 1,
                ;
                lemma2_to64();
                if (place + 1) * width < 64 {
                    lemma_pow2_strictly_increases(((place + 1) * width) as nat, 64);
                }
                lemma_u64_shl_is_mul(entry, shift as u64);
            }
            pattern = pattern + (entry << (shift as u64));
            place = place + 1;
        }
        proof {
            if place < per_word {
                lemma_word_past_end(indices@, width, start as int, place as nat, per_word as nat);
            }
            assert((word + 1) * per_word == start + per_word) by (nonlinear_arith)
                requires
                    start == word * per_word,
            ;
        }
        words.push(word_from(pattern));
        word = word + 1;
    }
    proof {
        if len > 0 {
            lemma_fundamental_div_mod(len - 1, per_word as int);
            assert(needed * per_word >= len) by (nonlinear_arith)
                requires
                    needed == (len - 1) / (per_word as int) + 1,
                    len - 1 == per_word * ((len - 1) / (per_word as int)) + (len - 1) % (
                    per_word as int),
                    (len - 1) % (per_word as int) < per_word,
            ;
        }
        assert(words@ =~= packed(indices@, width));
    }
    Some(words)
}

} // verus!
