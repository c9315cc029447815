//! The tap chain: process tap, private aggregate device, I/O procedure, start.
//!
//! Building it alternates system calls and decisions. The calls are made by the caller, which
//! hands each answer to the chain; the chain says whether it goes on, and what is to be undone
//! where it does not.

use vstd::prelude::*;

use crate::macos::status::{map_os_status, status_error, FALLBACK_FORMAT, NO_ERR};
use crate::types::{Error, ErrorView};

verus! {

/// What a tap records.
#[derive(Debug)]
pub enum TapKind {
    /// Only these process objects, mixed down.
    IncludeProcesses(Vec<u32>),
    /// The default output but for these process objects.
    ExcludeProcesses(Vec<u32>),
    /// One output device but for these process objects.
    ExcludeProcessesOnDevice {
        /// The process objects left out.
        ids: Vec<u32>,
        /// The unique identifier of the device.
        device_uid: String,
    },
}

/// What a tap records, its lists and texts as sequences.
pub enum TapView {
    /// Only these process objects, mixed down.
    IncludeProcesses(Seq<u32>),
    /// The default output but for these process objects.
    ExcludeProcesses(Seq<u32>),
    /// One output device but for these process objects.
    ExcludeProcessesOnDevice {
        /// The process objects left out.
        ids: Seq<u32>,
        /// The unique identifier of the device.
        device_uid: Seq<char>,
    },
}

impl View for TapKind {
    type V = TapView;

    open spec fn view(&self) -> TapView {
        match self {
            TapKind::IncludeProcesses(ids) => TapView::IncludeProcesses(ids@),
            TapKind::ExcludeProcesses(ids) => TapView::ExcludeProcesses(ids@),
            TapKind::ExcludeProcessesOnDevice { ids, device_uid } => {
                TapView::ExcludeProcessesOnDevice { ids: ids@, device_uid: device_uid@ }
            },
        }
    }
}

impl TapKind {
    /// The display name of the tap and its device.
    pub fn label(&self) -> (res: &'static str)
        ensures
            res@ == match self@ {
                TapView::IncludeProcesses(_) => "flexaudio-process-tap"@,
                TapView::ExcludeProcesses(_) => "flexaudio-system-tap"@,
                TapView::ExcludeProcessesOnDevice { .. } => "flexaudio-system-device-tap"@,
            },
    {
        match self {
            TapKind::IncludeProcesses(_) => "flexaudio-process-tap",
            TapKind::ExcludeProcesses(_) => "flexaudio-system-tap",
            TapKind::ExcludeProcessesOnDevice { .. } => "flexaudio-system-device-tap",
        }
    }
}

/// A step that undoes a part of the chain.
#[derive(Clone, Copy, Debug, PartialEq, Eq, Structural)]
pub enum Undo {
    /// Stop the aggregate device.
    Stop(u32),
    /// Destroy the I/O procedure of the aggregate device.
    DestroyIoProc(u32),
    /// Destroy the aggregate device.
    DestroyAggregate(u32),
    /// Destroy the tap.
    DestroyTap(u32),
}

/// How far the chain is built.
#[derive(Clone, Copy, Debug, PartialEq, Eq, Structural)]
pub enum TapChain {
    /// Nothing yet; the tap is next.
    Empty,
    /// The tap is there; its format is next.
    Tapped {
        /// The tap.
        tap: u32,
    },
    /// The format can be read; the aggregate device is next.
    Checked {
        /// The tap.
        tap: u32,
    },
    /// The aggregate device is there; the I/O procedure is next.
    Aggregated {
        /// The tap.
        tap: u32,
        /// The aggregate device.
        aggregate: u32,
    },
    /// The I/O procedure is there; starting is next.
    Attached {
        /// The tap.
        tap: u32,
        /// The aggregate device.
        aggregate: u32,
    },
    /// It runs.
    Running {
        /// The tap.
        tap: u32,
        /// The aggregate device.
        aggregate: u32,
    },
}

/// An answer to the system call that is next.
#[derive(Debug)]
pub enum Answer {
    /// Creating the tap: status and tap.
    Tap(i32, u32),
    /// Whether the format of the tap is floating point, where it can be read.
    Float(Option<bool>),
    /// Creating the aggregate device: status and device.
    Aggregate(i32, u32),
    /// Creating the I/O procedure: status and whether there is one.
    IoProc(i32, bool),
    /// Starting: status.
    Start(i32),
}

/// Why the chain could not be built, and what is to be undone in order.
#[derive(Debug)]
pub struct BuildFailure {
    /// The error.
    pub error: Error,
    /// The steps that undo what is there.
    pub undo: Vec<Undo>,
}

impl TapChain {
    /// What is to be undone, the latest part first.
    pub open spec fn undo_steps(self) -> Seq<Undo> {
        match self {
            TapChain::Empty => Seq::empty(),
            TapChain::Tapped { tap } => seq![Undo::DestroyTap(tap)],
            TapChain::Checked { tap } => seq![Undo::DestroyTap(tap)],
            TapChain::Aggregated { tap, aggregate } => seq![
                Undo::DestroyAggregate(aggregate),
                Undo::DestroyTap(tap),
            ],
            TapChain::Attached { tap, aggregate } => seq![
                Undo::DestroyIoProc(aggregate),
                Undo::DestroyAggregate(aggregate),
                Undo::DestroyTap(tap),
            ],
            TapChain::Running { tap, aggregate } => seq![
                Undo::Stop(aggregate),
                Undo::DestroyIoProc(aggregate),
                Undo::DestroyAggregate(aggregate),
                Undo::DestroyTap(tap),
            ],
        }
    }

    /// Whether an answer is one to the call that is next.
    pub open spec fn expects(self, answer: Answer) -> bool {
        match (self, answer) {
            (TapChain::Empty, Answer::Tap(_, _)) => true,
            (TapChain::Tapped { .. }, Answer::Float(_)) => true,
            (TapChain::Checked { .. }, Answer::Aggregate(_, _)) => true,
            (TapChain::Aggregated { .. }, Answer::IoProc(_, _)) => true,
            (TapChain::Attached { .. }, Answer::Start(_)) => true,
            _ => false,
        }
    }

    /// The chain after an answer, or the error.
    pub open spec fn built(self, answer: Answer) -> Result<TapChain, ErrorView> {
        match (self, answer) {
            (TapChain::Empty, Answer::Tap(status, tap)) => if status != 0 {
                Err(status_error("AudioHardwareCreateProcessTap"@, status))
            } else if tap == 0 {
                Err(
                    ErrorView::Backend("AudioHardwareCreateProcessTap returned null tap id"@),
                )
            } else {
                Ok(TapChain::Tapped { tap })
            },
            (TapChain::Tapped { tap }, Answer::Float(float)) => if float == Some(false) {
                Err(
                    ErrorView::Backend(
                        "tap format is not float (kAudioFormatFlagIsFloat unset); IOProc reads f32"@,
                    ),
                )
            } else {
                Ok(TapChain::Checked { tap })
            },
            (TapChain::Checked { tap }, Answer::Aggregate(status, aggregate)) => if status != 0 {
                Err(status_error("AudioHardwareCreateAggregateDevice"@, status))
            } else if aggregate == 0 {
                Err(
                    ErrorView::Backend(
                        "AudioHardwareCreateAggregateDevice returned null device id"@,
                    ),
                )
            } else {
                Ok(TapChain::Aggregated { tap, aggregate })
            },
            (TapChain::Aggregated { tap, aggregate }, Answer::IoProc(status, there)) => if status
                != 0 || !there {
                Err(status_error("AudioDeviceCreateIOProcIDWithBlock"@, status))
            } else {
                Ok(TapChain::Attached { tap, aggregate })
            },
            (TapChain::Attached { tap, aggregate }, Answer::Start(status)) => if status != 0 {
                Err(status_error("AudioDeviceStart"@, status))
            } else {
                Ok(TapChain::Running { tap, aggregate })
            },
            _ => Ok(self),
        }
    }

    /// What is to be undone, the latest part first.
    pub fn teardown(&self) -> (res: Vec<Undo>)
        ensures
            res@ == self.undo_steps(),
    {
        let mut steps: Vec<Undo> = Vec::new();
        match *self {
            TapChain::Empty => {},
            TapChain::Tapped { tap } => {
                steps.push(Undo::DestroyTap(tap));
            },
            TapChain::Checked { tap } => {
                steps.push(Undo::DestroyTap(tap));
            },
            TapChain::Aggregated { tap, aggregate } => {
                steps.push(Undo::DestroyAggregate(aggregate));
                steps.push(Undo::DestroyTap(tap));
            },
            TapChain::Attached { tap, aggregate } => {
                steps.push(Undo::DestroyIoProc(aggregate));
                steps.push(Undo::DestroyAggregate(aggregate));
                steps.push(Undo::DestroyTap(tap));
            },
            TapChain::Running { tap, aggregate } => {
                steps.push(Undo::Stop(aggregate));
                steps.push(Undo::DestroyIoProc(aggregate));
                steps.push(Undo::DestroyAggregate(aggregate));
                steps.push(Undo::DestroyTap(tap));
            },
        }
        assert(steps@ =~= self.undo_steps());
        steps
    }

    /// Takes the answer to the call that is next. Where the chain cannot go on, everything that
    /// is there is to be undone.
    pub fn advance(self, answer: Answer) -> (res: Result<TapChain, BuildFailure>)
        requires
            self.expects(answer),
        ensures
            match (self.built(answer), res) {
                (Ok(w), Ok(g)) => g == w,
                (Err(w), Err(g)) => g.error@ == w && g.undo@ == self.undo_steps(),
                _ => false,
            },
    {
        match (self, answer) {
            (TapChain::Empty, Answer::Tap(status, tap)) => {
                if status != NO_ERR {
                    Err(self.failed(map_os_status("AudioHardwareCreateProcessTap", status)))
                } else if tap == 0 {
                    Err(
                        self.failed(
                            Error::Backend(
                                "AudioHardwareCreateProcessTap returned null tap id".to_owned(),
                            ),
                        ),
                    )
                } else {
                    Ok(TapChain::Tapped { tap })
                }
            },
            (TapChain::Tapped { tap }, Answer::Float(float)) => {
                if let Some(false) = float {
                    Err(
                        self.failed(
                            Error::Backend(
                                "tap format is not float (kAudioFormatFlagIsFloat unset); IOProc reads f32".to_owned(),
                            ),
                        ),
                    )
                } else {
                    Ok(TapChain::Checked { tap })
                }
            },
            (TapChain::Checked { tap }, Answer::Aggregate(status, aggregate)) => {
                if status != NO_ERR {
                    Err(
                        self.failed(map_os_status("AudioHardwareCreateAggregateDevice", status)),
                    )
                } else if aggregate == 0 {
                    Err(
                        self.failed(
                            Error::Backend(
                                "AudioHardwareCreateAggregateDevice returned null device id".to_owned(),
                            ),
                        ),
                    )
                } else {
                    Ok(TapChain::Aggregated { tap, aggregate })
                }
            },
            (TapChain::Aggregated { tap, aggregate }, Answer::IoProc(status, there)) => {
                if status != NO_ERR || !there {
                    Err(
                        self.failed(map_os_status("AudioDeviceCreateIOProcIDWithBlock", status)),
                    )
                } else {
                    Ok(TapChain::Attached { tap, aggregate })
                }
            },
            (TapChain::Attached { tap, aggregate }, Answer::Start(status)) => {
                if status != NO_ERR {
                    Err(self.failed(map_os_status("AudioDeviceStart", status)))
                } else {
                    Ok(TapChain::Running { tap, aggregate })
                }
            },
            (chain, _) => Ok(chain),
        }
    }

    fn failed(&self, error: Error) -> (res: BuildFailure)
        ensures
            res.error@ == error@,
            res.undo@ == self.undo_steps(),
    {
        BuildFailure { error, undo: self.teardown() }
    }
}

/// The part of the chain that a step undoes, by its place in the order in which the parts are
/// built.
pub open spec fn place(u: Undo) -> int {
    match u {
        Undo::DestroyTap(_) => 0,
        Undo::DestroyAggregate(_) => 1,
        Undo::DestroyIoProc(_) => 2,
        Undo::Stop(_) => 3,
    }
}

/// Undoing goes in the reverse order of building, and undoes every part once.
pub proof fn lemma_undone_in_reverse(chain: TapChain, i: int)
    requires
        0 <= i < chain.undo_steps().len(),
    ensures
        place(chain.undo_steps()[i]) == chain.undo_steps().len() - 1 - i,
{
}

/// Every answer that lets the chain go on adds one part or checks it: what is there already is
/// kept, and is still undone last.
pub proof fn lemma_building_keeps_parts(chain: TapChain, answer: Answer, i: int)
    requires
        chain.expects(answer),
        chain.built(answer) is Ok,
        0 <= i < chain.undo_steps().len(),
    ensures
        ({
            let next = (chain.built(answer)->Ok_0).undo_steps();
            let now = chain.undo_steps();
            &&& next.len() >= now.len()
            &&& next[next.len() - now.len() + i] == now[i]
        }),
{
}

// ---------------------------------------------------------------------------
// Formats and buffers
// ---------------------------------------------------------------------------

/// The format of a tap, `None` where the rate or the channels are 0. The channels are taken in
/// 16 bits.
pub fn tap_native_format(rate: u32, channels: u32) -> (res: Option<(u32, u16)>)
    ensures
        res == if rate == 0 || channels % 0x1_0000 == 0 {
            None
        } else {
            Some((rate, (channels % 0x1_0000) as u16))
        },
{
    let low: u16 = (channels % 0x1_0000) as u16;
    if rate == 0 || low == 0 {
        None
    } else {
        Some((rate, low))
    }
}

/// Whether format flags say that samples are floating point: the lowest bit.
pub fn format_is_float(flags: u32) -> (res: bool)
    ensures
        res == (flags % 2 == 1),
{
    flags % 2 == 1
}

/// Room for samples of about 100 ms, in the format of the tap or else the fallback.
pub fn scratch_len(native: Option<(u32, u16)>) -> (res: u64)
    ensures
        ({
            let (rate, channels) = match native {
                Some(f) => f,
                None => (48_000u32, 2u16),
            };
            res == (if rate / 10 == 0 {
                1
            } else {
                (rate / 10) as int
            }) * (if channels == 0 {
                1
            } else {
                channels as int
            })
        }),
{
    let (rate, channels): (u32, u16) = match native {
        Some(f) => f,
        None => FALLBACK_FORMAT,
    };
    let frames: u64 = if rate / 10 == 0 {
        1
    } else {
        (rate / 10) as u64
    };
    let width: u64 = if channels == 0 {
        1
    } else {
        channels as u64
    };
    assert(frames * width <= 429_496_729 * 0xffff) by (nonlinear_arith)
        requires
            frames <= 429_496_729,
            width <= 0xffff,
    ;
    frames * width
}

/// The least number of whole samples in any of the buffers, which are all there.
pub open spec fn least_len(planes: Seq<Option<Vec<u32>>>) -> nat
    decreases planes.len(),
{
    if planes.len() == 0 {
        0
    } else if planes.len() == 1 {
        planes[0]->0@.len()
    } else {
        let rest = least_len(planes.drop_last());
        let last = planes.last()->0@.len();
        if last < rest {
            last
        } else {
            rest
        }
    }
}

/// The interleaved samples of the buffers of one callback.
///
/// A single buffer is interleaved already. Of several, each holds one channel, and the shortest
/// sets the number of frames. Nothing comes of no buffers, of a missing one, or of no frames.
pub open spec fn interleaved(planes: Seq<Option<Vec<u32>>>) -> Option<Seq<u32>> {
    if planes.len() == 0 || (exists|i: int|
        0 <= i < planes.len() && #[trigger] planes[i] is None) {
        None
    } else if least_len(planes) == 0 {
        None
    } else if planes.len() == 1 {
        Some(planes[0]->0@)
    } else {
        Some(
            Seq::new(
                least_len(planes) * planes.len(),
                |i: int| planes[i % planes.len() as int]->0@[i / planes.len() as int],
            ),
        )
    }
}

proof fn lemma_least_len(planes: Seq<Option<Vec<u32>>>, i: int)
    requires
        0 <= i < planes.len(),
    ensures
        least_len(planes) <= planes[i]->0@.len(),
    decreases planes.len(),
{
    if planes.len() > 1 {
        if i < planes.len() - 1 {
            lemma_least_len(planes.drop_last(), i);
            assert(planes.drop_last()[i] == planes[i]);
        }
    }
}

/// Interleaves the buffers of one callback, each given as its samples or as missing, in place of
/// what `out` held, and says whether there are any samples. `out` keeps its memory, so that one
/// with enough of it is filled without allocating.
pub fn interleave(planes: &Vec<Option<Vec<u32>>>, out: &mut Vec<u32>) -> (res: bool)
    ensures
        match interleaved(planes@) {
            Some(w) => res && final(out)@ == w,
            None => !res && final(out)@.len() == 0,
        },
{
    out.clear();
    let channels: usize = planes.len();
    if channels == 0 {
        return false;
    }
    let mut least: usize = 0;
    let mut i: usize = 0;
    while i < channels
        invariant
            channels == planes@.len(),
            i <= channels,
            out@.len() == 0,
            forall|k: int| 0 <= k < i ==> #[trigger] planes@[k] is Some,
            i > 0 ==> least == least_len(planes@.take(i as int)),
        decreases channels - i,
    {
        match &planes[i] {
            None => {
                return false;
            },
            Some(p) => {
                proof {
                    let longer = planes@.take(i + 1);
                    assert(longer.drop_last() =~= planes@.take(i as int));
                    assert(longer.last() == planes@[i as int]);
                }
                if i == 0 || p.len() < least {
                    least = p.len();
                }
            },
        }
        i = i + 1;
    }
    assert(planes@.take(channels as int) =~= planes@);
    if least == 0 {
        return false;
    }
    if channels == 1 {
        if let Some(p) = &planes[0] {
            let mut k: usize = 0;
            while k < p.len()
                invariant
                    k <= p@.len(),
                    out@ == p@.take(k as int),
                decreases p@.len() - k,
            {
                assert(p@.take(k + 1) =~= p@.take(k as int).push(p@[k as int]));
                out.push(p[k]);
                k = k + 1;
            }
            assert(p@.take(p@.len() as int) =~= p@);
        }
        return true;
    }
    let ghost whole = interleaved(planes@)->0;
    let mut frame: usize = 0;
    while frame < least
        invariant
            channels == planes@.len(),
            channels > 1,
            least == least_len(planes@),
            forall|k: int| 0 <= k < channels ==> #[trigger] planes@[k] is Some,
            frame <= least,
            whole.len() == least * channels,
            whole == Seq::new(
                least_len(planes@) * planes@.len(),
                |i: int| planes@[i % planes@.len() as int]->0@[i / planes@.len() as int],
            ),
            out@ == whole.take(frame * channels),
            out@.len() == frame * channels,
        decreases least - frame,
    {
        let mut ch: usize = 0;
        proof {
            assert((frame + 1) * channels <= least * channels) by (nonlinear_arith)
                requires
                    frame + 1 <= least,
            ;
            assert((frame + 1) * channels == frame * channels + channels) by (nonlinear_arith);
        }
        while ch < channels
            invariant
                channels == planes@.len(),
                channels > 1,
                least == least_len(planes@),
                forall|k: int| 0 <= k < channels ==> #[trigger] planes@[k] is Some,
                frame < least,
                ch <= channels,
                frame * channels + channels <= whole.len(),
                whole == Seq::new(
                    least_len(planes@) * planes@.len(),
                    |i: int| planes@[i % planes@.len() as int]->0@[i / planes@.len() as int],
                ),
                out@ == whole.take(frame * channels + ch),
                out@.len() == frame * channels + ch,
            decreases channels - ch,
        {
            if let Some(p) = &planes[ch] {
                proof {
                    lemma_least_len(planes@, ch as int);
                    let at = frame * channels + ch;
                    vstd::arithmetic::div_mod::lemma_fundamental_div_mod_converse(
                        at,
                        channels as int,
                        frame as int,
                        ch as int,
                    );
                    assert(whole[at] == p@[frame as int]);
                    assert(whole.take(at + 1) =~= whole.take(at).push(whole[at]));
                }
                out.push(p[frame]);
            }
            ch = ch + 1;
        }
        frame = frame + 1;
    }
    assert(whole.take(least * channels) =~= whole);
    true
}

/// In interleaved audio, sample `c` of frame `f` is sample `f` of channel `c`.
pub proof fn lemma_frames_hold_channels(planes: Seq<Option<Vec<u32>>>, f: int, c: int)
    requires
        interleaved(planes) is Some,
        planes.len() > 1,
        0 <= f < least_len(planes),
        0 <= c < planes.len(),
    ensures
        f * planes.len() + c < interleaved(planes)->0.len(),
        interleaved(planes)->0[f * planes.len() + c] == planes[c]->0@[f],
{
    let n = planes.len() as int;
    assert(0 <= f * n + c < least_len(planes) * n) by (nonlinear_arith)
        requires
            0 <= f < least_len(planes),
            0 <= c < n,
    ;
    vstd::arithmetic::div_mod::lemma_fundamental_div_mod_converse(f * n + c, n, f, c);
}

/// Which answers build the chain on. Each call must succeed and give an object; a format that
/// cannot be read is taken as floating point, and only one that is read as another ends it. The
/// parts that are there are kept.
pub proof fn lemma_what_builds_on(
    tap: u32,
    aggregate: u32,
    status: i32,
    float: Option<bool>,
    there: bool,
)
    ensures
        TapChain::Empty.built(Answer::Tap(status, tap)) is Ok <==> status == 0 && tap != 0,
        status == 0 && tap != 0 ==> TapChain::Empty.built(Answer::Tap(status, tap))->Ok_0 == (
        TapChain::Tapped { tap }),
        (TapChain::Tapped { tap }).built(Answer::Float(float)) is Ok <==> float != Some(false),
        float != Some(false) ==> (TapChain::Tapped { tap }).built(Answer::Float(float))->Ok_0 == (
        TapChain::Checked { tap }),
        (TapChain::Checked { tap }).built(Answer::Aggregate(status, aggregate)) is Ok <==> status == 0
            && aggregate != 0,
        status == 0 && aggregate != 0 ==> (TapChain::Checked { tap }).built(
            Answer::Aggregate(status, aggregate),
        )->Ok_0 == (TapChain::Aggregated { tap, aggregate }),
        (TapChain::Aggregated { tap, aggregate }).built(Answer::IoProc(status, there)) is Ok <==> status
            == 0 && there,
        status == 0 && there ==> (TapChain::Aggregated { tap, aggregate }).built(
            Answer::IoProc(status, there),
        )->Ok_0 == (TapChain::Attached { tap, aggregate }),
        (TapChain::Attached { tap, aggregate }).built(Answer::Start(status)) is Ok <==> status == 0,
        status == 0 ==> (TapChain::Attached { tap, aggregate }).built(Answer::Start(status))->Ok_0
            == (TapChain::Running { tap, aggregate }),
{
}

/// What is said where the chain is not built on: the call and its status, or what was missing.
pub proof fn lemma_what_ends_the_chain(tap: u32, aggregate: u32, status: i32, there: bool)
    ensures
        status != 0 ==> TapChain::Empty.built(Answer::Tap(status, tap)) == Err::<
            TapChain,
            ErrorView,
        >(status_error("AudioHardwareCreateProcessTap"@, status)),
        TapChain::Empty.built(Answer::Tap(0, 0)) == Err::<TapChain, ErrorView>(
            ErrorView::Backend("AudioHardwareCreateProcessTap returned null tap id"@),
        ),
        (TapChain::Tapped { tap }).built(Answer::Float(Some(false))) == Err::<TapChain, ErrorView>(
            ErrorView::Backend(
                "tap format is not float (kAudioFormatFlagIsFloat unset); IOProc reads f32"@,
            ),
        ),
        status != 0 ==> (TapChain::Checked { tap }).built(Answer::Aggregate(status, aggregate))
            == Err::<TapChain, ErrorView>(
            status_error("AudioHardwareCreateAggregateDevice"@, status),
        ),
        (TapChain::Checked { tap }).built(Answer::Aggregate(0, 0)) == Err::<TapChain, ErrorView>(
            ErrorView::Backend("AudioHardwareCreateAggregateDevice returned null device id"@),
        ),
        status != 0 || !there ==> (TapChain::Aggregated { tap, aggregate }).built(
            Answer::IoProc(status, there),
        ) == Err::<TapChain, ErrorView>(
            status_error("AudioDeviceCreateIOProcIDWithBlock"@, status),
        ),
        status != 0 ==> (TapChain::Attached { tap, aggregate }).built(Answer::Start(status)) == Err::<
            TapChain,
            ErrorView,
        >(status_error("AudioDeviceStart"@, status)),
{
}

/// What there is to undo at each stage: the objects that the chain holds, each by its own step.
pub proof fn lemma_what_is_undone(tap: u32, aggregate: u32)
    ensures
        TapChain::Empty.undo_steps().len() == 0,
        (TapChain::Tapped { tap }).undo_steps() == seq![Undo::DestroyTap(tap)],
        (TapChain::Checked { tap }).undo_steps() == seq![Undo::DestroyTap(tap)],
        (TapChain::Aggregated { tap, aggregate }).undo_steps().len() == 2,
        (TapChain::Attached { tap, aggregate }).undo_steps().len() == 3,
        (TapChain::Running { tap, aggregate }).undo_steps().len() == 4,
        (TapChain::Running { tap, aggregate }).undo_steps()[0] == Undo::Stop(aggregate),
        (TapChain::Running { tap, aggregate }).undo_steps()[1] == Undo::DestroyIoProc(aggregate),
        (TapChain::Running { tap, aggregate }).undo_steps()[2] == Undo::DestroyAggregate(aggregate),
        (TapChain::Running { tap, aggregate }).undo_steps()[3] == Undo::DestroyTap(tap),
        (TapChain::Attached { tap, aggregate }).undo_steps() == (TapChain::Running {
            tap,
            aggregate,
        }).undo_steps().skip(1),
        (TapChain::Aggregated { tap, aggregate }).undo_steps() == (TapChain::Running {
            tap,
            aggregate,
        }).undo_steps().skip(2),
{
    let all = (TapChain::Running { tap, aggregate }).undo_steps();
    assert((TapChain::Attached { tap, aggregate }).undo_steps() =~= all.skip(1));
    assert((TapChain::Aggregated { tap, aggregate }).undo_steps() =~= all.skip(2));
}

/// Buffers give samples exactly where there are some, none is missing and none is empty. A single
/// one is taken whole. Of several, all frames that every buffer has are taken, and no more.
pub proof fn lemma_which_buffers_give_samples(planes: Seq<Option<Vec<u32>>>)
    ensures
        interleaved(planes) is Some <==> planes.len() > 0 && forall|i: int|
            0 <= i < planes.len() ==> (#[trigger] planes[i]) is Some && planes[i]->0@.len() > 0,
        interleaved(planes) is Some && planes.len() == 1 ==> interleaved(planes)->0
            == planes[0]->0@,
        interleaved(planes) is Some && planes.len() > 1 ==> {
            &&& interleaved(planes)->0.len() == least_len(planes) * planes.len()
            &&& forall|i: int|
                0 <= i < planes.len() ==> least_len(planes) <= (#[trigger] planes[i])->0@.len()
            &&& exists|i: int|
                0 <= i < planes.len() && least_len(planes) == (#[trigger] planes[i])->0@.len()
        },
{
    if planes.len() > 0 {
        assert forall|i: int| 0 <= i < planes.len() implies least_len(planes) <= (
        #[trigger] planes[i])->0@.len() by {
            lemma_least_len(planes, i);
        }
        let k = lemma_least_is_some_length(planes);
        assert(least_len(planes) == planes[k]->0@.len());
        if forall|i: int|
            0 <= i < planes.len() ==> (#[trigger] planes[i]) is Some && planes[i]->0@.len() > 0 {
            assert(planes[k] is Some);
        }
    }
}

proof fn lemma_least_is_some_length(planes: Seq<Option<Vec<u32>>>) -> (k: int)
    requires
        planes.len() > 0,
    ensures
        0 <= k < planes.len(),
        least_len(planes) == planes[k]->0@.len(),
    decreases planes.len(),
{
    if planes.len() == 1 {
        0
    } else {
        let less = planes.drop_last();
        let k = lemma_least_is_some_length(less);
        assert(less[k] == planes[k]);
        if planes.last()->0@.len() < least_len(less) {
            planes.len() - 1
        } else {
            k
        }
    }
}

} // verus!
