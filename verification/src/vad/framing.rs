//! Cutting a stream of samples into frames of fixed length.

use vstd::prelude::*;
use vstd::arithmetic::div_mod::{
    lemma_fundamental_div_mod, lemma_fundamental_div_mod_converse, lemma_mod_bound,
};

verus! {

/// How many samples of `s` fill whole frames.
pub open spec fn framed_len(s: Seq<u32>, frame: nat) -> int {
    (s.len() / frame) * frame as int
}

/// The samples that fill whole frames.
pub open spec fn framed(s: Seq<u32>, frame: nat) -> Seq<u32> {
    s.subrange(0, framed_len(s, frame))
}

/// The samples left over behind the last whole frame.
pub open spec fn leftover(s: Seq<u32>, frame: nat) -> Seq<u32> {
    s.subrange(framed_len(s, frame), s.len() as int)
}

/// The `i`-th frame.
pub open spec fn frame_at(s: Seq<u32>, frame: nat, i: int) -> Seq<u32> {
    s.subrange(i * frame, (i + 1) * frame)
}

/// The whole frames lie within the stream, and less than a frame is left over.
pub proof fn lemma_framed_len(s: Seq<u32>, frame: nat)
    requires
        frame > 0,
    ensures
        0 <= framed_len(s, frame) <= s.len(),
        s.len() - framed_len(s, frame) < frame,
        framed(s, frame) + leftover(s, frame) == s,
{
    lemma_fundamental_div_mod(s.len() as int, frame as int);
    lemma_mod_bound(s.len() as int, frame as int);
    assert(framed_len(s, frame) == frame * (s.len() as int / frame as int)) by (nonlinear_arith)
        requires
            framed_len(s, frame) == (s.len() as int / frame as int) * frame as int,
    ;
    assert(framed_len(s, frame) >= 0) by (nonlinear_arith)
        requires
            framed_len(s, frame) == (s.len() as int / frame as int) * frame as int,
            s.len() as int / frame as int >= 0,
            frame > 0,
    ;
    assert(framed(s, frame) + leftover(s, frame) =~= s);
}

/// Frame `i` lies within the stream exactly where `i` is under the number of whole frames.
pub proof fn lemma_frame_within(s: Seq<u32>, frame: nat, i: int)
    requires
        frame > 0,
        0 <= i < s.len() / frame,
    ensures
        0 <= i * frame,
        i * frame + frame == (i + 1) * frame,
        (i + 1) * frame <= framed_len(s, frame) <= s.len(),
{
    lemma_framed_len(s, frame);
    assert((i + 1) * frame <= (s.len() / frame) * frame as int) by (nonlinear_arith)
        requires
            i + 1 <= s.len() / frame,
            frame > 0,
    ;
    assert(i * frame + frame == (i + 1) * frame && i * frame >= 0) by (nonlinear_arith)
        requires
            i >= 0,
            frame > 0,
    ;
}

/// Cutting a stream in two anywhere changes nothing: the whole frames of the first part, then
/// those of its leftover joined with the second part, are the whole frames of the stream, and
/// the same samples are left over.
pub proof fn lemma_framing_splits(a: Seq<u32>, b: Seq<u32>, frame: nat)
    requires
        frame > 0,
    ensures
        framed(a + b, frame) == framed(a, frame) + framed(leftover(a, frame) + b, frame),
        leftover(a + b, frame) == leftover(leftover(a, frame) + b, frame),
        (a + b).len() / frame == a.len() / frame + (leftover(a, frame) + b).len() / frame,
{
    let rest = leftover(a, frame) + b;
    let n = a.len() / frame;
    lemma_framed_len(a, frame);
    lemma_framed_len(rest, frame);
    lemma_framed_len(a + b, frame);
    assert((a + b).len() == framed_len(a, frame) + rest.len());
    let m = rest.len() / frame;
    let left = rest.len() - framed_len(rest, frame);
    assert((a + b).len() == (n + m) * frame + left) by (nonlinear_arith)
        requires
            (a + b).len() == n * frame + rest.len(),
            rest.len() == m * frame + left,
    ;
    lemma_fundamental_div_mod_converse(
        (a + b).len() as int,
        frame as int,
        (n + m) as int,
        left as int,
    );
    assert(framed_len(a + b, frame) == framed_len(a, frame) + framed_len(rest, frame))
        by (nonlinear_arith)
        requires
            framed_len(a + b, frame) == (n + m) * frame,
            framed_len(a, frame) == n * frame,
            framed_len(rest, frame) == m * frame,
    ;
    assert(a + b =~= framed(a, frame) + rest);
    assert(framed(a + b, frame) =~= framed(a, frame) + framed(rest, frame));
    assert(leftover(a + b, frame) =~= leftover(rest, frame));
}

/// A copy of the samples from `from` up to `to`.
pub fn copy_range(s: &[u32], from: usize, to: usize) -> (res: Vec<u32>)
    requires
        from <= to <= s@.len(),
    ensures
        res@ == s@.subrange(from as int, to as int),
{
    let mut out: Vec<u32> = Vec::new();
    let mut i: usize = from;
    while i < to
        invariant
            from <= i <= to <= s@.len(),
            out@ == s@.subrange(from as int, i as int),
        decreases to - i,
    {
        proof {
            assert(s@.subrange(from as int, i + 1) =~= s@.subrange(from as int, i as int).push(
                s@[i as int],
            ));
        }
        out.push(s[i]);
        i = i + 1;
    }
    out
}

/// Appends samples.
pub fn append(to: &mut Vec<u32>, samples: &[u32])
    ensures
        final(to)@ == old(to)@ + samples@,
{
    let mut i: usize = 0;
    let ghost before = to@;
    while i < samples.len()
        invariant
            i <= samples@.len(),
            to@ == before + samples@.take(i as int),
        decreases samples@.len() - i,
    {
        proof {
            assert(samples@.take(i + 1) =~= samples@.take(i as int).push(samples@[i as int]));
            assert((before + samples@.take(i as int)).push(samples@[i as int]) =~= before
                + samples@.take(i + 1));
        }
        to.push(samples[i]);
        i = i + 1;
    }
    assert(samples@.take(samples@.len() as int) =~= samples@);
}

/// The whole frames of a stream, each on its own.
pub fn frames(s: &[u32], frame: usize) -> (res: Vec<Vec<u32>>)
    requires
        frame > 0,
    ensures
        res@.len() == s@.len() / frame as nat,
        forall|i: int|
            0 <= i < res@.len() ==> (#[trigger] res@[i])@ == frame_at(s@, frame as nat, i),
{
    let len: usize = s.len();
    let count: usize = len / frame;
    let mut out: Vec<Vec<u32>> = Vec::new();
    let mut i: usize = 0;
    let mut at: usize = 0;
    while i < count
        invariant
            frame > 0,
            len == s@.len(),
            count == s@.len() / frame as nat,
            i <= count,
            at == i * frame,
            out@.len() == i,
            forall|k: int|
                0 <= k < i ==> (#[trigger] out@[k])@ == frame_at(s@, frame as nat, k),
        decreases count - i,
    {
        proof {
            lemma_frame_within(s@, frame as nat, i as int);
        }
        out.push(copy_range(s, at, at + frame));
        at = at + frame;
        i = i + 1;
    }
    out
}

/// Drops the whole frames, keeping the leftover.
pub fn keep_leftover(s: &mut Vec<u32>, frame: usize)
    requires
        frame > 0,
    ensures
        final(s)@ == leftover(old(s)@, frame as nat),
{
    let len: usize = s.len();
    proof {
        lemma_framed_len(s@, frame as nat);
        lemma_fundamental_div_mod(len as int, frame as int);
        assert(frame * (len as int / frame as int) == (len as int / frame as int) * frame as int)
            by (nonlinear_arith);
    }
    let whole: usize = len - len % frame;
    let rest: Vec<u32> = copy_range(s.as_slice(), whole, len);
    *s = rest;
}

/// Whole frames in the order of the samples: frame `i` holds the samples from `i * frame` on, all
/// frames together hold a whole number of them, and what is left over are the samples behind.
pub proof fn lemma_frames_hold_samples(s: Seq<u32>, frame: nat, i: int, k: int)
    requires
        frame > 0,
        0 <= i < s.len() / frame,
        0 <= k < frame,
    ensures
        frame_at(s, frame, i).len() == frame,
        frame_at(s, frame, i)[k] == s[i * frame + k],
        framed(s, frame).len() == (s.len() / frame) * frame,
        forall|j: int|
            0 <= j < framed(s, frame).len() ==> #[trigger] framed(s, frame)[j] == s[j],
        leftover(s, frame).len() < frame,
        leftover(s, frame).len() + framed(s, frame).len() == s.len(),
        forall|j: int|
            0 <= j < leftover(s, frame).len() ==> #[trigger] leftover(s, frame)[j]
                == s[framed(s, frame).len() + j],
{
    lemma_framed_len(s, frame);
    lemma_frame_within(s, frame, i);
}

/// Samples that do not fill a frame are all left over.
pub proof fn lemma_short_is_left_over(s: Seq<u32>, frame: nat)
    requires
        s.len() < frame,
    ensures
        leftover(s, frame) == s,
        framed(s, frame).len() == 0,
{
    lemma_fundamental_div_mod_converse(s.len() as int, frame as int, 0, s.len() as int);
    assert(leftover(s, frame) =~= s);
}

} // verus!
