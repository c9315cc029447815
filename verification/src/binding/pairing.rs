//! Pairing of the chunks of the two outputs by their times.

use vstd::prelude::*;

use crate::binding::chunk::{PrimaryView, SecondaryView};

verus! {

/// Width of the window in which chunks of the two outputs are paired (ns).
pub const PAIR_WINDOW_NS: i64 = 60_000_000;

/// Length of a chunk (ns).
pub const CHUNK_SPAN_NS: i64 = 20_000_000;

/// The larger of two numbers.
pub open spec fn later(a: int, b: int) -> int {
    if a < b {
        b
    } else {
        a
    }
}

/// How many secondary chunks at the front are too old for a primary chunk.
pub open spec fn stale(pts: int, secondaries: Seq<SecondaryView>) -> nat
    decreases secondaries.len(),
{
    if secondaries.len() > 0 && secondaries[0].meta.pts_ns < pts - PAIR_WINDOW_NS / 2 {
        1 + stale(pts, secondaries.skip(1))
    } else {
        0
    }
}

/// Whether a secondary chunk is in the window of a primary chunk.
pub open spec fn in_window(pts: int, secondary: SecondaryView) -> bool {
    pts - PAIR_WINDOW_NS / 2 <= secondary.meta.pts_ns < pts + CHUNK_SPAN_NS + PAIR_WINDOW_NS / 2
}

/// The partner of a primary chunk, if there is one, and the secondary chunks that are left.
pub open spec fn partner(pts: int, secondaries: Seq<SecondaryView>) -> (
    Option<SecondaryView>,
    Seq<SecondaryView>,
) {
    let rest = secondaries.skip(stale(pts, secondaries) as int);
    if rest.len() > 0 && in_window(pts, rest[0]) {
        (Some(rest[0]), rest.skip(1))
    } else {
        (None, rest)
    }
}

/// All primary chunks with their partners, in order, and the secondary chunks that are left.
pub open spec fn paired(primaries: Seq<PrimaryView>, secondaries: Seq<SecondaryView>) -> (
    Seq<PrimaryView>,
    Seq<SecondaryView>,
)
    decreases primaries.len(),
{
    if primaries.len() == 0 {
        (Seq::empty(), secondaries)
    } else {
        let (found, rest) = partner(primaries[0].meta.pts_ns, secondaries);
        let (others, left) = paired(primaries.skip(1), rest);
        (seq![PrimaryView { secondary: found, ..primaries[0] }] + others, left)
    }
}

/// The latest time of what was delivered, starting from an earlier one.
pub open spec fn latest(start: int, chunks: Seq<PrimaryView>) -> int
    decreases chunks.len(),
{
    if chunks.len() == 0 {
        start
    } else {
        latest(later(chunks[0].meta.pts_ns, start), chunks.skip(1))
    }
}

/// A chunk that is too old does not change the partner.
pub(crate) proof fn lemma_partner_skips(pts: int, secondaries: Seq<SecondaryView>)
    requires
        secondaries.len() > 0,
        secondaries[0].meta.pts_ns < pts - PAIR_WINDOW_NS / 2,
    ensures
        partner(pts, secondaries) == partner(pts, secondaries.skip(1)),
{
    let rest = secondaries.skip(1);
    let n = stale(pts, rest);
    lemma_stale(pts, rest);
    assert(stale(pts, secondaries) == 1 + n);
    assert(rest.skip(n as int) =~= secondaries.skip(1 + n as int));
}

/// The chunks that are too old are at the front, and the one behind them is not too old.
proof fn lemma_stale(pts: int, secondaries: Seq<SecondaryView>)
    ensures
        stale(pts, secondaries) <= secondaries.len(),
        forall|i: int|
            0 <= i < stale(pts, secondaries) ==> (#[trigger] secondaries[i]).meta.pts_ns < pts
                - PAIR_WINDOW_NS / 2,
        stale(pts, secondaries) < secondaries.len() ==> secondaries[stale(
            pts,
            secondaries,
        ) as int].meta.pts_ns >= pts - PAIR_WINDOW_NS / 2,
    decreases secondaries.len(),
{
    if secondaries.len() > 0 && secondaries[0].meta.pts_ns < pts - PAIR_WINDOW_NS / 2 {
        let rest = secondaries.skip(1);
        lemma_stale(pts, rest);
        assert forall|i: int| 0 <= i < stale(pts, secondaries) implies (
        #[trigger] secondaries[i]).meta.pts_ns < pts - PAIR_WINDOW_NS / 2 by {
            if i > 0 {
                assert(secondaries[i] == rest[i - 1]);
            }
        }
    }
}

/// Every primary chunk is delivered once, in order and unchanged but for its partner, and a
/// partner is always in its window.
pub proof fn lemma_every_primary_once(primaries: Seq<PrimaryView>, secondaries: Seq<SecondaryView>)
    ensures
        paired(primaries, secondaries).0.len() == primaries.len(),
        forall|i: int|
            0 <= i < primaries.len() ==> {
                let out = #[trigger] paired(primaries, secondaries).0[i];
                &&& out == PrimaryView { secondary: out.secondary, ..primaries[i] }
                &&& out.secondary matches Some(s) ==> in_window(primaries[i].meta.pts_ns, s)
            },
    decreases primaries.len(),
{
    if primaries.len() > 0 {
        let (found, rest) = partner(primaries[0].meta.pts_ns, secondaries);
        let more = primaries.skip(1);
        lemma_every_primary_once(more, rest);
        assert forall|i: int| 0 <= i < primaries.len() implies {
            let out = #[trigger] paired(primaries, secondaries).0[i];
            &&& out == PrimaryView { secondary: out.secondary, ..primaries[i] }
            &&& out.secondary matches Some(s) ==> in_window(primaries[i].meta.pts_ns, s)
        } by {
            if i > 0 {
                assert(paired(primaries, secondaries).0[i] == paired(more, rest).0[i - 1]);
                assert(primaries[i] == more[i - 1]);
            }
        }
    }
}

/// Secondary chunks are delivered in the order in which they came, each at most once, and those
/// that are left are the newest: `from[i]` tells which one went with the `i`-th primary chunk.
pub proof fn lemma_partners_in_order(
    primaries: Seq<PrimaryView>,
    secondaries: Seq<SecondaryView>,
) -> (from: Seq<int>)
    ensures
        from.len() == primaries.len(),
        paired(primaries, secondaries).1.len() <= secondaries.len(),
        paired(primaries, secondaries).1 == secondaries.skip(
            secondaries.len() - paired(primaries, secondaries).1.len(),
        ),
        forall|i: int|
            0 <= i < primaries.len() && paired(primaries, secondaries).0[i].secondary is Some ==> {
                &&& 0 <= #[trigger] from[i] < secondaries.len() - paired(
                    primaries,
                    secondaries,
                ).1.len()
                &&& paired(primaries, secondaries).0[i].secondary == Some(secondaries[from[i]])
            },
        forall|i: int, j: int|
            0 <= i < j < primaries.len() && paired(primaries, secondaries).0[i].secondary is Some
                && paired(primaries, secondaries).0[j].secondary is Some ==> #[trigger] from[i]
                < #[trigger] from[j],
    decreases primaries.len(),
{
    if primaries.len() == 0 {
        assert(secondaries.skip(0) =~= secondaries);
        Seq::empty()
    } else {
        let pts = primaries[0].meta.pts_ns;
        let (found, rest) = partner(pts, secondaries);
        let more = primaries.skip(1);
        lemma_stale(pts, secondaries);
        let n = stale(pts, secondaries) as int;
        let gone = if found is Some {
            n + 1
        } else {
            n
        };
        assert(rest =~= secondaries.skip(gone));
        let others = lemma_partners_in_order(more, rest);
        lemma_every_primary_once(more, rest);
        let from = seq![n] + Seq::new(others.len(), |i: int| others[i] + gone);
        let left = paired(more, rest).1;
        assert(paired(primaries, secondaries).1 == left);
        assert(left =~= secondaries.skip(secondaries.len() - left.len()));
        assert forall|i: int|
            0 <= i < primaries.len() && paired(primaries, secondaries).0[i].secondary is Some implies {
            &&& 0 <= #[trigger] from[i] < secondaries.len() - left.len()
            &&& paired(primaries, secondaries).0[i].secondary == Some(secondaries[from[i]])
        } by {
            if i > 0 {
                assert(from[i] == others[i - 1] + gone);
                assert(paired(primaries, secondaries).0[i] == paired(more, rest).0[i - 1]);
            }
        }
        assert forall|i: int, j: int|
            0 <= i < j < primaries.len() && paired(primaries, secondaries).0[i].secondary is Some
                && paired(primaries, secondaries).0[j].secondary is Some implies #[trigger] from[i]
            < #[trigger] from[j] by {
            assert(from[j] == others[j - 1] + gone);
            assert(paired(primaries, secondaries).0[j] == paired(more, rest).0[j - 1]);
            if i > 0 {
                assert(from[i] == others[i - 1] + gone);
                assert(paired(primaries, secondaries).0[i] == paired(more, rest).0[i - 1]);
            }
        }
        from
    }
}

/// The outputs never drift apart for good: where the secondary chunks that wait are in the order
/// of their times, a primary chunk gets the first one in its window, whatever was lost before.
pub proof fn lemma_window_always_pairs(pts: int, secondaries: Seq<SecondaryView>, k: int)
    requires
        0 <= k < secondaries.len(),
        in_window(pts, secondaries[k]),
        forall|i: int, j: int|
            0 <= i <= j < secondaries.len() ==> (#[trigger] secondaries[i]).meta.pts_ns <= (
            #[trigger] secondaries[j]).meta.pts_ns,
        forall|i: int| 0 <= i < k ==> !in_window(pts, #[trigger] secondaries[i]),
    ensures
        partner(pts, secondaries).0 == Some(secondaries[k]),
        partner(pts, secondaries).1 == secondaries.skip(k + 1),
{
    lemma_stale(pts, secondaries);
    let n = stale(pts, secondaries) as int;
    assert(n == k) by {
        if n < k {
            assert(secondaries[n].meta.pts_ns <= secondaries[k].meta.pts_ns);
            assert(in_window(pts, secondaries[n]));
        }
        if n > k {
            assert(secondaries[k].meta.pts_ns < pts - PAIR_WINDOW_NS / 2);
        }
    }
    assert(secondaries.skip(n).skip(1) =~= secondaries.skip(k + 1));
}

/// The latest time is none before the start and none before a time that was delivered.
pub proof fn lemma_latest(start: int, chunks: Seq<PrimaryView>)
    ensures
        latest(start, chunks) >= start,
        forall|i: int|
            0 <= i < chunks.len() ==> latest(start, chunks) >= (
            #[trigger] chunks[i]).meta.pts_ns,
    decreases chunks.len(),
{
    if chunks.len() > 0 {
        let rest = chunks.skip(1);
        lemma_latest(later(chunks[0].meta.pts_ns, start), rest);
        assert forall|i: int| 0 <= i < chunks.len() implies latest(start, chunks) >= (
        #[trigger] chunks[i]).meta.pts_ns by {
            if i > 0 {
                assert(chunks[i] == rest[i - 1]);
            }
        }
    }
}

/// A secondary chunk is in the window of a primary chunk from 30 ms before its time up to, but
/// not at, 50 ms behind it.
pub proof fn lemma_window(pts: int, secondary: SecondaryView)
    ensures
        in_window(pts, secondary) <==> pts - 30_000_000 <= secondary.meta.pts_ns < pts
            + 50_000_000,
{
}

/// What becomes of the secondary chunks at a primary chunk, in whatever order they are: those at
/// the front that are more than 30 ms older are dropped, `n` of them. The next one is the partner
/// where it is less than 50 ms newer; else it stays, as do all behind it.
pub proof fn lemma_partner(pts: int, secondaries: Seq<SecondaryView>) -> (n: int)
    ensures
        0 <= n <= secondaries.len(),
        forall|i: int|
            0 <= i < n ==> (#[trigger] secondaries[i]).meta.pts_ns < pts - 30_000_000,
        n < secondaries.len() ==> secondaries[n].meta.pts_ns >= pts - 30_000_000,
        n < secondaries.len() && secondaries[n].meta.pts_ns < pts + 50_000_000 ==> partner(
            pts,
            secondaries,
        ) == (Some(secondaries[n]), secondaries.skip(n + 1)),
        n < secondaries.len() && secondaries[n].meta.pts_ns >= pts + 50_000_000 ==> partner(
            pts,
            secondaries,
        ) == (None::<SecondaryView>, secondaries.skip(n)),
        n == secondaries.len() ==> partner(pts, secondaries) == (
            None::<SecondaryView>,
            Seq::<SecondaryView>::empty(),
        ),
{
    lemma_stale(pts, secondaries);
    let n = stale(pts, secondaries) as int;
    if n < secondaries.len() {
        assert(secondaries.skip(n).skip(1) =~= secondaries.skip(n + 1));
    } else {
        assert(secondaries.skip(n) =~= Seq::<SecondaryView>::empty());
    }
    n
}

/// Primary chunks find their partners one after the other, each among what the one before left.
pub proof fn lemma_pairing_in_turn(primaries: Seq<PrimaryView>, secondaries: Seq<SecondaryView>)
    ensures
        primaries.len() == 0 ==> paired(primaries, secondaries) == (
            Seq::<PrimaryView>::empty(),
            secondaries,
        ),
        primaries.len() > 0 ==> {
            let all = paired(primaries, secondaries);
            let first = partner(primaries[0].meta.pts_ns, secondaries);
            let others = paired(primaries.skip(1), first.1);
            &&& all.0.len() == 1 + others.0.len()
            &&& all.0[0].secondary == first.0
            &&& all.0[0].meta == primaries[0].meta
            &&& all.0[0].data == primaries[0].data
            &&& all.0[0].events == primaries[0].events
            &&& all.0.skip(1) == others.0
            &&& all.1 == others.1
        },
{
    if primaries.len() > 0 {
        let all = paired(primaries, secondaries);
        let first = partner(primaries[0].meta.pts_ns, secondaries);
        let others = paired(primaries.skip(1), first.1);
        assert(all.0.skip(1) =~= others.0);
    }
}

/// The latest time is the start or a time that was delivered.
pub proof fn lemma_latest_was_delivered(start: int, chunks: Seq<PrimaryView>)
    ensures
        latest(start, chunks) == start || exists|i: int|
            0 <= i < chunks.len() && latest(start, chunks) == (#[trigger] chunks[i]).meta.pts_ns,
    decreases chunks.len(),
{
    if chunks.len() > 0 {
        let rest = chunks.skip(1);
        let from = later(chunks[0].meta.pts_ns, start);
        lemma_latest_was_delivered(from, rest);
        if latest(start, chunks) != from {
            let i = choose|i: int|
                0 <= i < rest.len() && latest(from, rest) == (#[trigger] rest[i]).meta.pts_ns;
            assert(chunks[i + 1] == rest[i]);
        } else if from != start {
            assert(latest(start, chunks) == chunks[0].meta.pts_ns);
        }
    }
}

} // verus!
