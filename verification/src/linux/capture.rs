//! Samples out of the buffers of a capture stream.

use vstd::prelude::*;

verus! {

/// The 32-bit word at a byte position, least significant byte first.
pub open spec fn word_at(bytes: Seq<u8>, at: int) -> int {
    bytes[at] + bytes[at + 1] * 0x100 + bytes[at + 2] * 0x1_0000 + bytes[at + 3] * 0x100_0000
}

/// The samples in `size` bytes from `offset` on: `None` where there is no whole sample, or the
/// bytes reach beyond the buffer. Bytes behind the last whole sample are left out.
pub open spec fn samples_at(bytes: Seq<u8>, offset: nat, size: nat) -> Option<Seq<int>> {
    if size < 4 || offset + size > bytes.len() {
        None
    } else {
        Some(Seq::new(size / 4, |i: int| word_at(bytes, offset + 4 * i)))
    }
}

/// Reads the samples of one buffer as bit patterns, in place of what `out` held, and says whether
/// there are any. `out` keeps its memory, so that one with enough of it is filled without
/// allocating.
pub fn read_samples(bytes: &[u8], offset: usize, size: usize, out: &mut Vec<u32>) -> (res: bool)
    ensures
        match samples_at(bytes@, offset as nat, size as nat) {
            Some(w) => res && final(out)@.len() == w.len() && forall|i: int|
                0 <= i < w.len() ==> #[trigger] final(out)@[i] == w[i],
            None => !res && final(out)@.len() == 0,
        },
{
    out.clear();
    let len: usize = bytes.len();
    if size == 0 {
        return false;
    }
    if offset > len || size > len - offset {
        return false;
    }
    let count: usize = size / 4;
    if count == 0 {
        return false;
    }
    let mut i: usize = 0;
    while i < count
        invariant
            count == size / 4,
            len == bytes@.len(),
            offset + size <= len,
            i <= count,
            out@.len() == i,
            forall|k: int| 0 <= k < i ==> #[trigger] out@[k] == word_at(bytes@, offset + 4 * k),
        decreases count - i,
    {
        let at: usize = offset + 4 * i;
        let word: u32 = bytes[at] as u32 + bytes[at + 1] as u32 * 0x100 + bytes[at + 2] as u32
            * 0x1_0000 + bytes[at + 3] as u32 * 0x100_0000;
        out.push(word);
        i = i + 1;
    }
    true
}

/// Every byte of a whole sample is its own: two words are equal only where their bytes are.
pub proof fn lemma_words_are_exact(a: Seq<u8>, b: Seq<u8>)
    requires
        a.len() == 4,
        b.len() == 4,
        word_at(a, 0) == word_at(b, 0),
    ensures
        a == b,
{
    lemma_bytes_of_word(a);
    lemma_bytes_of_word(b);
    assert(a =~= b);
}

/// The low byte of a number in base 0x100, and what is above it.
proof fn lemma_low_byte(low: int, above: int)
    requires
        0 <= low < 0x100,
    ensures
        (low + above * 0x100) % 0x100 == low,
        (low + above * 0x100) / 0x100 == above,
{
}

proof fn lemma_bytes_of_word(a: Seq<u8>)
    requires
        a.len() == 4,
    ensures
        a[0] == word_at(a, 0) % 0x100,
        a[1] == word_at(a, 0) / 0x100 % 0x100,
        a[2] == word_at(a, 0) / 0x100 / 0x100 % 0x100,
        a[3] == word_at(a, 0) / 0x100 / 0x100 / 0x100,
{
    let (b0, b1, b2, b3) = (a[0] as int, a[1] as int, a[2] as int, a[3] as int);
    let third = b2 + b3 * 0x100;
    let second = b1 + third * 0x100;
    assert(word_at(a, 0) == b0 + second * 0x100);
    lemma_low_byte(b0, second);
    lemma_low_byte(b1, third);
    lemma_low_byte(b2, b3);
}

/// A buffer has samples exactly where at least four bytes are told and all lie within it. There is
/// one for every four whole bytes, and each is made of its own four, the least first.
pub proof fn lemma_samples_of_a_buffer(bytes: Seq<u8>, offset: nat, size: nat, i: int)
    ensures
        samples_at(bytes, offset, size) is Some <==> size >= 4 && offset + size <= bytes.len(),
        samples_at(bytes, offset, size) matches Some(samples) ==> {
            &&& 4 * samples.len() <= size < 4 * samples.len() + 4
            &&& 0 <= i < samples.len() ==> {
                &&& samples[i] % 0x100 == bytes[offset + 4 * i]
                &&& samples[i] / 0x100 % 0x100 == bytes[offset + 4 * i + 1]
                &&& samples[i] / 0x1_0000 % 0x100 == bytes[offset + 4 * i + 2]
                &&& samples[i] / 0x100_0000 == bytes[offset + 4 * i + 3]
            }
        },
{
    if let Some(samples) = samples_at(bytes, offset, size) {
        if 0 <= i < samples.len() {
            let at = offset + 4 * i;
            let own = seq![bytes[at], bytes[at + 1], bytes[at + 2], bytes[at + 3]];
            assert(word_at(own, 0) == word_at(bytes, at));
            lemma_bytes_of_word(own);
            assert(samples[i] == word_at(own, 0));
        }
    }
}

} // verus!
