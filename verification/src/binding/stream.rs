//! Commands for a running stream, and the order in which its thread works.

use vstd::prelude::*;

use crate::backend::FlagLifecycle;
use crate::binding::convert::{kind_of, JsNativeFormat};
use crate::binding::errors::{NapiError, Status};
use crate::binding::options::{
    build_config, config_refusal, mode_of, opens, OpenOptions, StreamConfig,
};
use crate::binding::stop::FlexStream;
use crate::level::{Level, ZERO_BITS};
use crate::text::{join, opt};

verus! {

/// A command for the thread that owns the stream.
#[derive(Debug)]
pub enum BridgeCmd {
    /// Records another source; the outcome is reported.
    Switch(StreamConfig),
    /// Stops delivery for a while.
    Pause,
    /// Starts delivery again.
    Resume,
    /// Changes the gain.
    SetGain(Level),
    /// Reports how the stream is.
    Query,
    /// Ends the speech that is open.
    FlushVad,
}

/// How a stream is.
#[derive(Clone, Copy, Debug, PartialEq, Eq, Structural)]
pub struct StreamSnapshot {
    /// Whether delivery is stopped for a while.
    pub is_paused: bool,
    /// The gain.
    pub gain: Level,
    /// Sample rate of the backend.
    pub native_sample_rate: u32,
    /// Channels of the backend.
    pub native_channels: u16,
    /// How many chunks were dropped.
    pub dropped_chunks: u64,
}

/// The message for a stream that was stopped.
pub open spec fn already_stopped() -> Seq<char> {
    "stream already stopped"@
}

/// The message for a thread that does not take a command.
pub open spec fn not_running() -> Seq<char> {
    "bridge thread is not running"@
}

/// The message for a thread that ended before it answered.
pub open spec fn no_answer() -> Seq<char> {
    "bridge thread dropped before responding"@
}

/// Whether a gain can be used: it is finite and not negative.
pub open spec fn usable_gain(gain: Level) -> bool {
    gain.finite() && !gain.lt(Level { bits: ZERO_BITS })
}

/// A command was sent: it fails where the thread did not take it.
pub fn sent(taken: bool) -> (res: Result<(), NapiError>)
    ensures
        if taken {
            res is Ok
        } else {
            res matches Err(e) && e.is(Status::GenericFailure, not_running())
        },
{
    if taken {
        Ok(())
    } else {
        Err(NapiError::new(Status::GenericFailure, "bridge thread is not running"))
    }
}

/// A switch was sent: what the thread answered, if it did.
pub fn switched(answer: Option<Result<(), String>>) -> (res: Result<(), NapiError>)
    ensures
        match answer {
            Some(Ok(_)) => res is Ok,
            Some(Err(m)) => res matches Err(e) && e.is(Status::GenericFailure, m@),
            None => res matches Err(e) && e.is(Status::GenericFailure, no_answer()),
        },
{
    match answer {
        Some(Ok(())) => Ok(()),
        Some(Err(m)) => Err(NapiError { status: Status::GenericFailure, reason: m }),
        None => Err(
            NapiError::new(Status::GenericFailure, "bridge thread dropped before responding"),
        ),
    }
}

/// A query was sent: what the thread answered, if it did.
fn queried(answer: Option<StreamSnapshot>) -> (res: Result<StreamSnapshot, NapiError>)
    ensures
        match answer {
            Some(s) => res == Ok::<StreamSnapshot, NapiError>(s),
            None => res matches Err(e) && e.is(Status::GenericFailure, no_answer()),
        },
{
    match answer {
        Some(s) => Ok(s),
        None => Err(
            NapiError::new(Status::GenericFailure, "bridge thread dropped before responding"),
        ),
    }
}

impl<W> FlexStream<W> {
    /// The command, if commands are taken.
    fn command(&self, cmd: BridgeCmd) -> (res: Result<BridgeCmd, NapiError>)
        ensures
            if self@.open {
                res == Ok::<BridgeCmd, NapiError>(cmd)
            } else {
                res matches Err(e) && e.is(Status::GenericFailure, already_stopped())
            },
    {
        if self.is_open() {
            Ok(cmd)
        } else {
            Err(NapiError::new(Status::GenericFailure, "stream already stopped"))
        }
    }

    /// Records another source. The options are read first, then comes the state of the stream.
    pub fn switch_source(&self, options: &OpenOptions) -> (res: Result<BridgeCmd, NapiError>)
        ensures
            match config_refusal(*options) {
                Some(reason) => res matches Err(e) && e.is(Status::InvalidArg, reason),
                None => if self@.open {
                    res matches Ok(BridgeCmd::Switch(c)) && opens(
                        c,
                        *options,
                        kind_of(options.kind@)->0,
                        mode_of(opt(options.mode))->0,
                    )
                } else {
                    res matches Err(e) && e.is(Status::GenericFailure, already_stopped())
                },
            },
    {
        match build_config(options) {
            Ok(config) => self.command(BridgeCmd::Switch(config)),
            Err(e) => Err(e),
        }
    }

    /// Stops delivery for a while.
    pub fn pause(&self) -> (res: Result<BridgeCmd, NapiError>)
        ensures
            if self@.open {
                res == Ok::<BridgeCmd, NapiError>(BridgeCmd::Pause)
            } else {
                res matches Err(e) && e.is(Status::GenericFailure, already_stopped())
            },
    {
        self.command(BridgeCmd::Pause)
    }

    /// Starts delivery again.
    pub fn resume(&self) -> (res: Result<BridgeCmd, NapiError>)
        ensures
            if self@.open {
                res == Ok::<BridgeCmd, NapiError>(BridgeCmd::Resume)
            } else {
                res matches Err(e) && e.is(Status::GenericFailure, already_stopped())
            },
    {
        self.command(BridgeCmd::Resume)
    }

    /// Ends the speech that is open.
    pub fn flush_vad(&self) -> (res: Result<BridgeCmd, NapiError>)
        ensures
            if self@.open {
                res == Ok::<BridgeCmd, NapiError>(BridgeCmd::FlushVad)
            } else {
                res matches Err(e) && e.is(Status::GenericFailure, already_stopped())
            },
    {
        self.command(BridgeCmd::FlushVad)
    }

    /// Changes the gain, `shown` being its decimal form. The value is looked at first, then comes
    /// the state of the stream.
    pub fn set_gain(&self, gain: Level, shown: &str) -> (res: Result<BridgeCmd, NapiError>)
        ensures
            if !usable_gain(gain) {
                res matches Err(e) && e.is(
                    Status::InvalidArg,
                    "gain must be finite and >= 0.0, got "@ + shown@,
                )
            } else if self@.open {
                res == Ok::<BridgeCmd, NapiError>(BridgeCmd::SetGain(gain))
            } else {
                res matches Err(e) && e.is(Status::GenericFailure, already_stopped())
            },
    {
        if !gain.is_finite() || gain.below(Level { bits: ZERO_BITS }) {
            return Err(
                NapiError {
                    status: Status::InvalidArg,
                    reason: join("gain must be finite and >= 0.0, got ", shown),
                },
            );
        }
        self.command(BridgeCmd::SetGain(gain))
    }

    /// Asks how the stream is. The answer is read by [`FlexStream::is_paused`],
    /// [`FlexStream::gain`], [`FlexStream::native_format`] and [`FlexStream::dropped_chunks`].
    pub fn query_snapshot(&self) -> (res: Result<BridgeCmd, NapiError>)
        ensures
            if self@.open {
                res == Ok::<BridgeCmd, NapiError>(BridgeCmd::Query)
            } else {
                res matches Err(e) && e.is(Status::GenericFailure, already_stopped())
            },
    {
        self.command(BridgeCmd::Query)
    }

    /// Whether delivery is stopped for a while, as the thread answered.
    pub fn is_paused(answer: Option<StreamSnapshot>) -> (res: Result<bool, NapiError>)
        ensures
            match answer {
                Some(s) => res == Ok::<bool, NapiError>(s.is_paused),
                None => res matches Err(e) && e.is(Status::GenericFailure, no_answer()),
            },
    {
        match queried(answer) {
            Ok(s) => Ok(s.is_paused),
            Err(e) => Err(e),
        }
    }

    /// The gain, as the thread answered.
    pub fn gain(answer: Option<StreamSnapshot>) -> (res: Result<Level, NapiError>)
        ensures
            match answer {
                Some(s) => res == Ok::<Level, NapiError>(s.gain),
                None => res matches Err(e) && e.is(Status::GenericFailure, no_answer()),
            },
    {
        match queried(answer) {
            Ok(s) => Ok(s.gain),
            Err(e) => Err(e),
        }
    }

    /// The format of the backend, as the thread answered.
    pub fn native_format(answer: Option<StreamSnapshot>) -> (res: Result<
        JsNativeFormat,
        NapiError,
    >)
        ensures
            match answer {
                Some(s) => res == Ok::<JsNativeFormat, NapiError>(
                    JsNativeFormat {
                        sample_rate: s.native_sample_rate,
                        channels: s.native_channels,
                    },
                ),
                None => res matches Err(e) && e.is(Status::GenericFailure, no_answer()),
            },
    {
        match queried(answer) {
            Ok(s) => Ok(
                JsNativeFormat { sample_rate: s.native_sample_rate, channels: s.native_channels },
            ),
            Err(e) => Err(e),
        }
    }

    /// How many chunks were dropped, as the thread answered.
    pub fn dropped_chunks(answer: Option<StreamSnapshot>) -> (res: Result<u64, NapiError>)
        ensures
            match answer {
                Some(s) => res == Ok::<u64, NapiError>(s.dropped_chunks),
                None => res matches Err(e) && e.is(Status::GenericFailure, no_answer()),
            },
    {
        match queried(answer) {
            Ok(s) => Ok(s.dropped_chunks),
            Err(e) => Err(e),
        }
    }
}

/// The watch of devices as the script holds it.
#[derive(Clone, Copy, Debug, PartialEq, Eq, Structural)]
pub struct DeviceWatcherHandle {
    /// The life cycle of its thread.
    pub life: FlagLifecycle,
}

impl DeviceWatcherHandle {
    /// A watch whose thread has just been started.
    pub fn spawn() -> (res: DeviceWatcherHandle)
        ensures
            res.life == (FlagLifecycle { thread: true, stop_flag: false }),
    {
        DeviceWatcherHandle { life: FlagLifecycle { thread: true, stop_flag: false } }
    }

    /// Stops the watch; tells whether the thread has to be joined. A second stop does nothing.
    pub fn stop(&mut self) -> (res: bool)
        ensures
            final(self).life == (FlagLifecycle { thread: false, stop_flag: true }),
            res == old(self).life.thread,
    {
        self.life.stop()
    }
}

// ---------------------------------------------------------------------------
// The thread
// ---------------------------------------------------------------------------

/// What the thread of a stream does.
#[derive(Clone, Copy, Debug, PartialEq, Eq, Structural)]
pub enum BridgeStep {
    /// Looks whether it was asked to end.
    Check,
    /// Carries out the commands that came.
    Commands,
    /// Takes in the primary chunks that came.
    Primaries,
    /// Takes in the secondary chunks that came.
    Secondaries,
    /// Delivers the pairs.
    Deliver,
    /// Reports events.
    Events,
    /// Sleeps.
    Sleep,
    /// Takes in the primary chunks that are left before the stop.
    LeftPrimaries,
    /// Takes in the secondary chunks that are left before the stop.
    LeftSecondaries,
    /// Delivers what was left before the stop.
    DeliverLeft,
    /// Stops the stream, which pushes out the end of the audio.
    StopStream,
    /// Takes in the primary chunks of the end of the audio.
    TailPrimaries,
    /// Takes in the secondary chunks of the end of the audio.
    TailSecondaries,
    /// Delivers the end of the audio.
    DeliverTail,
    /// Delivers the terminator.
    Terminate,
    /// Gives the end signal.
    Post,
    /// Has ended.
    Done,
}

/// What comes next, `asked` telling whether the thread was asked to end.
pub open spec fn next_step(step: BridgeStep, asked: bool) -> BridgeStep {
    match step {
        BridgeStep::Check => if asked {
            BridgeStep::LeftPrimaries
        } else {
            BridgeStep::Commands
        },
        BridgeStep::Commands => BridgeStep::Primaries,
        BridgeStep::Primaries => BridgeStep::Secondaries,
        BridgeStep::Secondaries => BridgeStep::Deliver,
        BridgeStep::Deliver => BridgeStep::Events,
        BridgeStep::Events => BridgeStep::Sleep,
        BridgeStep::Sleep => BridgeStep::Check,
        BridgeStep::LeftPrimaries => BridgeStep::LeftSecondaries,
        BridgeStep::LeftSecondaries => BridgeStep::DeliverLeft,
        BridgeStep::DeliverLeft => BridgeStep::StopStream,
        BridgeStep::StopStream => BridgeStep::TailPrimaries,
        BridgeStep::TailPrimaries => BridgeStep::TailSecondaries,
        BridgeStep::TailSecondaries => BridgeStep::DeliverTail,
        BridgeStep::DeliverTail => BridgeStep::Terminate,
        BridgeStep::Terminate => BridgeStep::Post,
        BridgeStep::Post => BridgeStep::Done,
        BridgeStep::Done => BridgeStep::Done,
    }
}

/// How many steps are left at most once the thread was asked to end.
pub open spec fn steps_left(step: BridgeStep) -> nat {
    match step {
        BridgeStep::Commands => 16,
        BridgeStep::Primaries => 15,
        BridgeStep::Secondaries => 14,
        BridgeStep::Deliver => 13,
        BridgeStep::Events => 12,
        BridgeStep::Sleep => 11,
        BridgeStep::Check => 10,
        BridgeStep::LeftPrimaries => 9,
        BridgeStep::LeftSecondaries => 8,
        BridgeStep::DeliverLeft => 7,
        BridgeStep::StopStream => 6,
        BridgeStep::TailPrimaries => 5,
        BridgeStep::TailSecondaries => 4,
        BridgeStep::DeliverTail => 3,
        BridgeStep::Terminate => 2,
        BridgeStep::Post => 1,
        BridgeStep::Done => 0,
    }
}

impl BridgeStep {
    /// What comes next, `asked` telling whether the thread was asked to end.
    pub fn next(self, asked: bool) -> (res: BridgeStep)
        ensures
            res == next_step(self, asked),
    {
        match self {
            BridgeStep::Check => if asked {
                BridgeStep::LeftPrimaries
            } else {
                BridgeStep::Commands
            },
            BridgeStep::Commands => BridgeStep::Primaries,
            BridgeStep::Primaries => BridgeStep::Secondaries,
            BridgeStep::Secondaries => BridgeStep::Deliver,
            BridgeStep::Deliver => BridgeStep::Events,
            BridgeStep::Events => BridgeStep::Sleep,
            BridgeStep::Sleep => BridgeStep::Check,
            BridgeStep::LeftPrimaries => BridgeStep::LeftSecondaries,
            BridgeStep::LeftSecondaries => BridgeStep::DeliverLeft,
            BridgeStep::DeliverLeft => BridgeStep::StopStream,
            BridgeStep::StopStream => BridgeStep::TailPrimaries,
            BridgeStep::TailPrimaries => BridgeStep::TailSecondaries,
            BridgeStep::TailSecondaries => BridgeStep::DeliverTail,
            BridgeStep::DeliverTail => BridgeStep::Terminate,
            BridgeStep::Terminate => BridgeStep::Post,
            BridgeStep::Post => BridgeStep::Done,
            BridgeStep::Done => BridgeStep::Done,
        }
    }
}

/// Once asked to end, the thread comes to its end, one step nearer each time.
pub proof fn lemma_thread_ends(step: BridgeStep)
    requires
        step != BridgeStep::Done,
    ensures
        steps_left(next_step(step, true)) == steps_left(step) - 1,
{
}

/// The end signal comes right behind the terminator, the terminator right behind the end of the
/// audio, and the end of the audio behind the stop of the stream; none of them comes before the
/// thread was asked to end.
pub proof fn lemma_order_of_the_end(step: BridgeStep, asked: bool)
    ensures
        next_step(step, asked) == BridgeStep::Post ==> step == BridgeStep::Terminate,
        next_step(step, asked) == BridgeStep::Terminate ==> step == BridgeStep::DeliverTail,
        next_step(step, asked) == BridgeStep::StopStream ==> step == BridgeStep::DeliverLeft,
        steps_left(next_step(step, asked)) < 10 && steps_left(step) >= 10 ==> asked,
        steps_left(step) < 10 ==> steps_left(next_step(step, asked)) < 10,
{
}

/// A gain can be used exactly where its pattern is that of a positive finite number or of either
/// zero.
pub proof fn lemma_which_gains_are_usable(gain: Level)
    ensures
        usable_gain(gain) <==> gain.bits < 0x7f80_0000 || gain.bits == 0x8000_0000,
{
}

/// One round of the thread, and its way to the end once it was asked to: only the check looks at
/// whether it was, and each other step has one step before it.
pub proof fn lemma_rounds_of_the_thread(asked: bool)
    ensures
        next_step(BridgeStep::Check, false) == BridgeStep::Commands,
        next_step(BridgeStep::Check, true) == BridgeStep::LeftPrimaries,
        forall|step: BridgeStep|
            #![trigger next_step(step, asked)]
            step != BridgeStep::Check ==> next_step(step, asked) == next_step(step, !asked),
        forall|step: BridgeStep|
            #![trigger next_step(step, asked)]
            next_step(step, asked) == BridgeStep::Primaries <==> step == BridgeStep::Commands,
        forall|step: BridgeStep|
            #![trigger next_step(step, asked)]
            next_step(step, asked) == BridgeStep::Secondaries <==> step == BridgeStep::Primaries,
        forall|step: BridgeStep|
            #![trigger next_step(step, asked)]
            next_step(step, asked) == BridgeStep::Deliver <==> step == BridgeStep::Secondaries,
        forall|step: BridgeStep|
            #![trigger next_step(step, asked)]
            next_step(step, asked) == BridgeStep::Events <==> step == BridgeStep::Deliver,
        forall|step: BridgeStep|
            #![trigger next_step(step, asked)]
            next_step(step, asked) == BridgeStep::Sleep <==> step == BridgeStep::Events,
        forall|step: BridgeStep|
            #![trigger next_step(step, asked)]
            next_step(step, asked) == BridgeStep::Check <==> step == BridgeStep::Sleep,
        forall|step: BridgeStep|
            #![trigger next_step(step, asked)]
            next_step(step, asked) == BridgeStep::LeftSecondaries <==> step
                == BridgeStep::LeftPrimaries,
        forall|step: BridgeStep|
            #![trigger next_step(step, asked)]
            next_step(step, asked) == BridgeStep::DeliverLeft <==> step
                == BridgeStep::LeftSecondaries,
        forall|step: BridgeStep|
            #![trigger next_step(step, asked)]
            next_step(step, asked) == BridgeStep::StopStream <==> step == BridgeStep::DeliverLeft,
        forall|step: BridgeStep|
            #![trigger next_step(step, asked)]
            next_step(step, asked) == BridgeStep::TailPrimaries <==> step == BridgeStep::StopStream,
        forall|step: BridgeStep|
            #![trigger next_step(step, asked)]
            next_step(step, asked) == BridgeStep::TailSecondaries <==> step
                == BridgeStep::TailPrimaries,
        forall|step: BridgeStep|
            #![trigger next_step(step, asked)]
            next_step(step, asked) == BridgeStep::DeliverTail <==> step
                == BridgeStep::TailSecondaries,
        forall|step: BridgeStep|
            #![trigger next_step(step, asked)]
            next_step(step, asked) == BridgeStep::Terminate <==> step == BridgeStep::DeliverTail,
        forall|step: BridgeStep|
            #![trigger next_step(step, asked)]
            next_step(step, asked) == BridgeStep::Post <==> step == BridgeStep::Terminate,
{
}

/// What is said of a stream that cannot be asked.
pub proof fn lemma_what_is_said()
    ensures
        already_stopped() == "stream already stopped"@,
        not_running() == "bridge thread is not running"@,
        no_answer() == "bridge thread dropped before responding"@,
{
}

} // verus!
