//! The checksum engine: computes the boot-ROM word-sum checksum of a
//! firmware image and patches it into the scheme's result slot.
//!
//! The boot ROM sums the leading `words_count` 32-bit little-endian words of
//! the image, modulo 2^32, and accepts the image only when the sum is zero.
//! The engine therefore sums every word of that region except the result
//! slot and stores the two's-complement negation of that sum in the slot.

use crate::registry::ProcessorChecksumInfo;
use vstd::arithmetic::div_mod::lemma_add_mod_noop;
use vstd::arithmetic::div_mod::lemma_basic_div;
use vstd::arithmetic::div_mod::lemma_div_denominator;
use vstd::arithmetic::div_mod::lemma_fundamental_div_mod;
use vstd::arithmetic::div_mod::lemma_mod_bound;
use vstd::arithmetic::div_mod::lemma_mod_multiples_vanish;
use vstd::arithmetic::div_mod::lemma_small_mod;
use vstd::arithmetic::div_mod::lemma_sub_mod_noop;
use vstd::prelude::*;

verus! {

/// Failure of a checksum run.
#[derive(Clone, Copy, Debug, PartialEq, Eq, Structural)]
pub enum ChecksumError {
    /// The resolved scheme defines no checksum region.
    UnsupportedScheme,
    /// The image ends before the checksum region does.
    Io,
}

/// The 32-bit little-endian word at word index `k` of the image.
pub open spec fn word_at(image: Seq<u8>, k: int) -> u32
    recommends
        0 <= k,
        4 * k + 4 <= image.len(),
{
    (image[4 * k] + image[4 * k + 1] * 0x100 + image[4 * k + 2] * 0x10000 + image[4 * k + 3]
        * 0x1000000) as u32
}

/// The first `n` 32-bit little-endian words of the image, in file order.
pub open spec fn words_of(image: Seq<u8>, n: int) -> Seq<u32> {
    Seq::new(n as nat, |k: int| word_at(image, k))
}

/// Sum, over the integers, of all words.
pub open spec fn sum_of_words(words: Seq<u32>) -> int
    decreases words.len(),
{
    if words.len() == 0 {
        0
    } else {
        sum_of_words(words.drop_last()) + words.last()
    }
}

/// Sum, over the integers, of all words except the one at index `slot`. A
/// slot outside the sequence excludes nothing, so the sum then covers every
/// word.
pub open spec fn sum_except(words: Seq<u32>, slot: int) -> int
    decreases words.len(),
{
    if words.len() == 0 {
        0
    } else if words.len() - 1 == slot {
        sum_except(words.drop_last(), slot)
    } else {
        sum_except(words.drop_last(), slot) + words.last()
    }
}

/// The checksum the boot ROM expects: the two's-complement negation, modulo
/// 2^32, of the word sum with the result slot excluded.
pub open spec fn checksum_of(words: Seq<u32>, slot: int) -> u32 {
    (((0 - sum_except(words, slot)) % 0x1_0000_0000) as u32)
}

impl ProcessorChecksumInfo {
    /// Computes the checksum of the image under this scheme: decodes the
    /// leading `words_count` little-endian words, sums all of them except
    /// the one at `resulting_word_position` with 32-bit wraparound, and
    /// returns the two's-complement negation of the sum. Fails with `Io`
    /// when the image is shorter than the checksum region. The scheme must
    /// define a checksum region; the image itself is never modified.
    pub fn compute_checksum(&self, image: &[u8]) -> (r: Result<u32, ChecksumError>)
        requires
            self.words_count is Some,
        ensures
            (match r {
                Ok(value) => {
                    &&& 4 * (self.words_count->0 as int) <= image@.len()
                    &&& value == checksum_of(
                        words_of(image@, self.words_count->0 as int),
                        self.resulting_word_position as int,
                    )
                },
                Err(e) => {
                    &&& e == ChecksumError::Io
                    &&& image@.len() < 4 * (self.words_count->0 as int)
                },
            }),
    {
        let n: usize = self.words_count.unwrap();
        let image_len = image.len();
        let region_len = match n.checked_mul(4) {
            Some(region_len) => region_len,
            None => {
                return Err(ChecksumError::Io);
            },
        };
        if image_len < region_len {
            return Err(ChecksumError::Io);
        }
        let slot = self.resulting_word_position;
        let mut checksum: u32 = 0;
        let mut i: usize = 0;
        while i < n
            invariant
                i <= n,
                4 * n <= usize::MAX,
                4 * n <= image@.len(),
                checksum == sum_except(words_of(image@, i as int), slot as int) % 0x1_0000_0000,
            decreases n - i,
        {
            let base = 4 * i;
            let b0 = image[base];
            let b1 = image[base + 1];
            let b2 = image[base + 2];
            let b3 = image[base + 3];
            let word = b0 as u32 + (b1 as u32) * 0x100 + (b2 as u32) * 0x10000 + (b3 as u32)
                * 0x1000000;
            proof {
                assert(word == word_at(image@, i as int));
                assert(words_of(image@, i as int + 1).drop_last() =~= words_of(image@, i as int));
            }
            if i != slot {
                proof {
                    let prior = sum_except(words_of(image@, i as int), slot as int);
                    lemma_small_mod(word as nat, 0x1_0000_0000);
                    lemma_add_mod_noop(prior, word as int, 0x1_0000_0000);
                    if checksum + word > u32::MAX {
                        lemma_mod_multiples_vanish(
                            1,
                            checksum + word - 0x1_0000_0000,
                            0x1_0000_0000,
                        );
                        lemma_small_mod((checksum + word - 0x1_0000_0000) as nat, 0x1_0000_0000);
                    } else {
                        lemma_small_mod((checksum + word) as nat, 0x1_0000_0000);
                    }
                }
                checksum = checksum.wrapping_add(word);
            }
            i += 1;
        }
        let value = 0u32.wrapping_sub(checksum);
        proof {
            let total = sum_except(words_of(image@, n as int), slot as int);
            lemma_sub_mod_noop(0, total, 0x1_0000_0000);
            lemma_small_mod(0, 0x1_0000_0000);
            lemma_mod_bound(total, 0x1_0000_0000);
            if checksum > 0 {
                lemma_mod_multiples_vanish(1, 0 - checksum, 0x1_0000_0000);
                lemma_small_mod((0x1_0000_0000 - checksum) as nat, 0x1_0000_0000);
            } else {
                lemma_small_mod(0, 0x1_0000_0000);
            }
        }
        Ok(value)
    }

    /// Writes `value` into the image at byte offset
    /// `4 * resulting_word_position`, little-endian, first extending the
    /// image with zero bytes when it ends before that offset — as a write
    /// through a file handle positioned past the end would. No other byte
    /// changes.
    pub fn apply_checksum(&self, image: &mut Vec<u8>, value: u32)
        requires
            4 * (self.resulting_word_position as int) + 4 <= usize::MAX,
        ensures
            final(image)@ == spec_patched(old(image)@, self.resulting_word_position as int, value),
    {
        let offset = 4 * self.resulting_word_position;
        let end = offset + 4;
        if image.len() < end {
            image.resize(end, 0u8);
        }
        image[offset] = (value % 0x100) as u8;
        image[offset + 1] = ((value / 0x100) % 0x100) as u8;
        image[offset + 2] = ((value / 0x10000) % 0x100) as u8;
        image[offset + 3] = ((value / 0x1000000) % 0x100) as u8;
        proof {
            assert(image@ =~= spec_patched(
                old(image)@,
                self.resulting_word_position as int,
                value,
            ));
        }
    }
}

/// The little-endian bytes of a 32-bit value, least significant first.
pub open spec fn le_bytes_of(value: u32) -> Seq<u8> {
    seq![
        (value % 0x100) as u8,
        ((value / 0x100) % 0x100) as u8,
        ((value / 0x10000) % 0x100) as u8,
        ((value / 0x1000000) % 0x100) as u8,
    ]
}

/// The image after `value` is patched into word slot `slot`: bytes
/// `4*slot .. 4*slot + 4` hold the value little-endian, every other byte is
/// unchanged, and an image that ended before the slot is zero-extended up to
/// it.
pub open spec fn spec_patched(image: Seq<u8>, slot: int, value: u32) -> Seq<u8> {
    let end = if image.len() >= 4 * slot + 4 {
        image.len() as int
    } else {
        4 * slot + 4
    };
    Seq::new(
        end as nat,
        |j: int|
            if 4 * slot <= j < 4 * slot + 4 {
                le_bytes_of(value)[j - 4 * slot]
            } else if j < image.len() {
                image[j]
            } else {
                0
            },
    )
}

/// A slot at or past the end of the sequence (or before its start) excludes
/// nothing: the sum then covers every word. This is the reading taken for
/// the families whose result slot equals their word count.
pub proof fn lemma_sum_except_outside(words: Seq<u32>, slot: int)
    requires
        slot < 0 || slot >= words.len(),
    ensures
        sum_except(words, slot) == sum_of_words(words),
    decreases words.len(),
{
    if words.len() > 0 {
        lemma_sum_except_outside(words.drop_last(), slot);
    }
}

/// Replacing the word at `slot` makes the full sum equal the sum with the
/// slot excluded plus the new value.
proof fn lemma_sum_of_update(words: Seq<u32>, slot: int, value: u32)
    requires
        0 <= slot < words.len(),
    ensures
        sum_of_words(words.update(slot, value)) == sum_except(words, slot) + value,
    decreases words.len(),
{
    let updated = words.update(slot, value);
    if slot == words.len() - 1 {
        assert(updated.drop_last() =~= words.drop_last());
        lemma_sum_except_outside(words.drop_last(), slot);
    } else {
        assert(updated.drop_last() =~= words.drop_last().update(slot, value));
        lemma_sum_of_update(words.drop_last(), slot, value);
    }
}

/// The boot ROM's validation invariant: installing the computed checksum
/// into the result slot makes the sum of all words of the checksum region
/// vanish modulo 2^32.
pub proof fn lemma_checksum_validates(words: Seq<u32>, slot: int)
    requires
        0 <= slot < words.len(),
    ensures
        sum_of_words(words.update(slot, checksum_of(words, slot))) % 0x1_0000_0000 == 0,
{
    let excluded = sum_except(words, slot);
    let value = checksum_of(words, slot);
    lemma_sum_of_update(words, slot, value);
    lemma_mod_bound(0 - excluded, 0x1_0000_0000);
    lemma_small_mod(value as nat, 0x1_0000_0000);
    lemma_add_mod_noop(excluded, 0 - excluded, 0x1_0000_0000);
    lemma_add_mod_noop(excluded, value as int, 0x1_0000_0000);
    lemma_small_mod(0, 0x1_0000_0000);
}

/// The little-endian byte decomposition of a 32-bit value reassembles to
/// that value.
pub proof fn lemma_le_bytes_reconstruct(value: u32)
    ensures
        le_bytes_of(value).len() == 4,
        le_bytes_of(value)[0] + le_bytes_of(value)[1] * 0x100 + le_bytes_of(value)[2] * 0x10000
            + le_bytes_of(value)[3] * 0x1000000 == value,
{
    let v = value as int;
    lemma_fundamental_div_mod(v, 0x100);
    lemma_fundamental_div_mod(v / 0x100, 0x100);
    lemma_fundamental_div_mod(v / 0x10000, 0x100);
    lemma_div_denominator(v, 0x100, 0x100);
    lemma_div_denominator(v, 0x10000, 0x100);
    assert(v / 0x1000000 < 0x100) by {
        lemma_div_denominator(v, 0x1000000, 0x100);
        lemma_basic_div(v, 0x100000000);
    }
    lemma_mod_bound(v / 0x1000000, 0x100);
    lemma_small_mod((v / 0x1000000) as nat, 0x100);
}

/// Patching the computed checksum of an image into a result slot inside the
/// checksum region makes the region's words sum to zero modulo 2^32, so the
/// boot ROM accepts the patched image.
pub proof fn lemma_patched_image_validates(image: Seq<u8>, n: int, slot: int)
    requires
        0 <= slot < n,
        4 * n <= image.len(),
    ensures
        sum_of_words(
            words_of(spec_patched(image, slot, checksum_of(words_of(image, n), slot)), n),
        ) % 0x1_0000_0000 == 0,
{
    let value = checksum_of(words_of(image, n), slot);
    let patched = spec_patched(image, slot, value);
    lemma_le_bytes_reconstruct(value);
    assert(word_at(patched, slot) == value);
    assert forall|k: int| 0 <= k < n && k != slot implies word_at(patched, k) == word_at(
        image,
        k,
    ) by {
        assert(patched[4 * k] == image[4 * k]);
        assert(patched[4 * k + 1] == image[4 * k + 1]);
        assert(patched[4 * k + 2] == image[4 * k + 2]);
        assert(patched[4 * k + 3] == image[4 * k + 3]);
    }
    assert(words_of(patched, n) =~= words_of(image, n).update(slot, value));
    lemma_checksum_validates(words_of(image, n), slot);
}

/// Word sums with a slot excluded agree whenever the two sequences agree
/// everywhere off that slot.
proof fn lemma_sum_except_congruent(words1: Seq<u32>, words2: Seq<u32>, slot: int)
    requires
        words1.len() == words2.len(),
        forall|k: int| 0 <= k < words1.len() && k != slot ==> words1[k] == words2[k],
    ensures
        sum_except(words1, slot) == sum_except(words2, slot),
    decreases words1.len(),
{
    if words1.len() > 0 {
        assert forall|k: int|
            0 <= k < words1.drop_last().len() && k != slot implies words1.drop_last()[k]
            == words2.drop_last()[k] by {
            assert(words1[k] == words2[k]);
        }
        lemma_sum_except_congruent(words1.drop_last(), words2.drop_last(), slot);
    }
}

/// The result slot's prior content never influences the checksum: two
/// images of one length that differ only within the slot's four bytes have
/// the same computed checksum.
pub proof fn lemma_slot_content_irrelevant(image1: Seq<u8>, image2: Seq<u8>, n: int, slot: int)
    requires
        image1.len() == image2.len(),
        0 <= n,
        0 <= slot,
        4 * n <= image1.len(),
        forall|j: int|
            0 <= j < image1.len() && !(4 * slot <= j < 4 * slot + 4) ==> image1[j] == image2[j],
    ensures
        checksum_of(words_of(image1, n), slot) == checksum_of(words_of(image2, n), slot),
{
    assert forall|k: int| 0 <= k < n && k != slot implies word_at(image1, k) == word_at(
        image2,
        k,
    ) by {
        assert(image1[4 * k] == image2[4 * k]);
        assert(image1[4 * k + 1] == image2[4 * k + 1]);
        assert(image1[4 * k + 2] == image2[4 * k + 2]);
        assert(image1[4 * k + 3] == image2[4 * k + 3]);
    }
    assert forall|k: int|
        0 <= k < words_of(image1, n).len() && k != slot implies words_of(image1, n)[k] == words_of(
        image2,
        n,
    )[k] by {}
    lemma_sum_except_congruent(words_of(image1, n), words_of(image2, n), slot);
}

/// One full checksum run on an in-memory image: computes the checksum under
/// the scheme and, unless `dry_run` is set, patches it into the result slot.
/// A scheme without a checksum region and a too-short image are reported as
/// errors with no byte touched; a dry run also leaves the image exactly as
/// it was while returning the very value a patching run would write.
pub fn process_image(info: &ProcessorChecksumInfo, image: &mut Vec<u8>, dry_run: bool) -> (r:
    Result<u32, ChecksumError>)
    requires
        4 * (info.resulting_word_position as int) + 4 <= usize::MAX,
    ensures
        (match info.words_count {
            None => {
                &&& r == Err::<u32, ChecksumError>(ChecksumError::UnsupportedScheme)
                &&& final(image)@ == old(image)@
            },
            Some(n) => {
                if old(image)@.len() < 4 * n {
                    &&& r == Err::<u32, ChecksumError>(ChecksumError::Io)
                    &&& final(image)@ == old(image)@
                } else {
                    let value = checksum_of(
                        words_of(old(image)@, n as int),
                        info.resulting_word_position as int,
                    );
                    &&& r == Ok::<u32, ChecksumError>(value)
                    &&& (dry_run ==> final(image)@ == old(image)@)
                    &&& (!dry_run ==> final(image)@ == spec_patched(
                        old(image)@,
                        info.resulting_word_position as int,
                        value,
                    ))
                }
            },
        }),
{
    if info.words_count.is_none() {
        return Err(ChecksumError::UnsupportedScheme);
    }
    let value = match info.compute_checksum(image.as_slice()) {
        Ok(value) => value,
        Err(e) => {
            return Err(e);
        },
    };
    if !dry_run {
        info.apply_checksum(image, value);
    }
    Ok(value)
}

} // verus!
