//! Capture of the audio of a process: activation, format, start and stop.

use vstd::prelude::*;

use crate::backend::{FlagLifecycle, Ready};
use crate::text::signed_decimal;
use crate::types::{Error, ErrorView, ProcessMode};
use crate::windows::common::{
    activation_error, hr_error, map_hr, map_process_activation_err, WAVE_FORMAT_IEEE_FLOAT,
};
use crate::windows::version::ensure_process_loopback_supported;

verus! {

/// The sample rate of process loopback.
pub const NATIVE_RATE: u32 = 48_000;

/// The channels of process loopback.
pub const NATIVE_CHANNELS: u16 = 2;

/// How long activation is waited for (ms).
pub const ACTIVATION_TIMEOUT_MS: u32 = 5_000;

/// A wave format.
#[derive(Clone, Copy, Debug, PartialEq, Eq, Structural)]
pub struct WaveFormat {
    /// Format tag.
    pub tag: u16,
    /// Channels.
    pub channels: u16,
    /// Sample rate.
    pub rate: u32,
    /// Bytes per second.
    pub bytes_per_second: u32,
    /// Bytes in one frame.
    pub block_align: u16,
    /// Bits in one sample.
    pub bits: u16,
    /// Size of the extension.
    pub extension: u16,
}

/// The format of process loopback: floating point, stereo, 48 kHz.
pub fn fixed_process_format() -> (res: WaveFormat)
    ensures
        res.tag == 3,
        res.channels == 2,
        res.rate == 48_000,
        res.bits == 32,
        res.block_align == res.channels * res.bits / 8,
        res.bytes_per_second == res.rate * res.block_align,
        res.extension == 0,
{
    WaveFormat {
        tag: WAVE_FORMAT_IEEE_FLOAT,
        channels: NATIVE_CHANNELS,
        rate: NATIVE_RATE,
        bytes_per_second: NATIVE_RATE * 8,
        block_align: 8,
        bits: 32,
        extension: 0,
    }
}

/// The mode of process loopback: 0 to record the process tree, 1 to leave it out.
pub fn loopback_mode(mode: ProcessMode) -> (res: u32)
    ensures
        res == match mode {
            ProcessMode::Include => 0u32,
            ProcessMode::Exclude => 1u32,
        },
{
    match mode {
        ProcessMode::Include => 0,
        ProcessMode::Exclude => 1,
    }
}

/// A failed system call: its result code and the text of the system for it.
#[derive(Debug)]
pub struct HrFailure {
    /// The result code.
    pub code: i32,
    /// The text.
    pub shown: String,
}

/// How far the setup of process loopback is.
#[derive(Clone, Copy, Debug, PartialEq, Eq, Structural)]
pub enum Setup {
    /// The build is to be checked.
    Version,
    /// The completion event is to be created.
    Event,
    /// Activation is to be begun.
    Activate,
    /// Activation is under way.
    Wait,
    /// The result is to be fetched.
    Fetch,
    /// The interface is to be taken from the result.
    Take,
    /// The interface is to be cast to that of an audio client.
    Cast,
    /// The client is there, and can be initialised.
    Ready,
}

/// What the step that is due gave.
#[derive(Debug)]
pub enum SetupEvent {
    /// The build, or the status where it could not be had.
    Build(Result<u32, i32>),
    /// Creating the event, activating, fetching the result or casting: done or failed.
    Call(Result<(), HrFailure>),
    /// Whether completion was signalled in time.
    Signalled(bool),
    /// Fetching the result: whether the activation itself succeeded, and whether it gave an
    /// interface.
    Result(Result<(), HrFailure>, bool),
}

impl Setup {
    /// Whether what was given is what is due.
    pub open spec fn expects(self, event: SetupEvent) -> bool {
        match (self, event) {
            (Setup::Version, SetupEvent::Build(_)) => true,
            (Setup::Event, SetupEvent::Call(_)) => true,
            (Setup::Activate, SetupEvent::Call(_)) => true,
            (Setup::Wait, SetupEvent::Signalled(_)) => true,
            (Setup::Fetch, SetupEvent::Call(_)) => true,
            (Setup::Take, SetupEvent::Result(_, _)) => true,
            (Setup::Cast, SetupEvent::Call(_)) => true,
            _ => false,
        }
    }

    /// The step after what was given, or the error.
    pub open spec fn after(self, event: SetupEvent) -> Result<Setup, ErrorView> {
        match (self, event) {
            (Setup::Version, SetupEvent::Build(Ok(b))) => if b >= 20_348 {
                Ok(Setup::Event)
            } else {
                Err(ErrorView::UnsupportedOsVersion)
            },
            (Setup::Version, SetupEvent::Build(Err(status))) => Err(
                ErrorView::Backend(
                    "RtlGetVersion failed (NTSTATUS "@ + signed_decimal(status as int) + ")"@,
                ),
            ),
            (Setup::Event, SetupEvent::Call(Ok(_))) => Ok(Setup::Activate),
            (Setup::Event, SetupEvent::Call(Err(f))) => Err(
                hr_error("CreateEventW(activation done)"@, f.code, f.shown@),
            ),
            (Setup::Activate, SetupEvent::Call(Ok(_))) => Ok(Setup::Wait),
            (Setup::Activate, SetupEvent::Call(Err(f))) => Err(
                activation_error("ActivateAudioInterfaceAsync"@, f.code, f.shown@),
            ),
            (Setup::Wait, SetupEvent::Signalled(in_time)) => if in_time {
                Ok(Setup::Fetch)
            } else {
                Err(ErrorView::Backend("process loopback activation timed out"@))
            },
            (Setup::Fetch, SetupEvent::Call(Ok(_))) => Ok(Setup::Take),
            (Setup::Fetch, SetupEvent::Call(Err(f))) => Err(
                hr_error("GetActivateResult"@, f.code, f.shown@),
            ),
            (Setup::Take, SetupEvent::Result(Err(f), _)) => Err(
                activation_error("activation result HRESULT"@, f.code, f.shown@),
            ),
            (Setup::Take, SetupEvent::Result(Ok(_), there)) => if there {
                Ok(Setup::Cast)
            } else {
                Err(ErrorView::Backend("activation returned null interface"@))
            },
            (Setup::Cast, SetupEvent::Call(Ok(_))) => Ok(Setup::Ready),
            (Setup::Cast, SetupEvent::Call(Err(f))) => Err(
                hr_error(
                    "cast activated IUnknown to IAudioClient"@,
                    f.code,
                    f.shown@,
                ),
            ),
            _ => Ok(self),
        }
    }

    /// Takes what the step that is due gave.
    pub fn advance(self, event: SetupEvent) -> (res: Result<Setup, Error>)
        requires
            self.expects(event),
        ensures
            match (self.after(event), res) {
                (Ok(w), Ok(g)) => g == w,
                (Err(w), Err(g)) => g@ == w,
                _ => false,
            },
    {
        match (self, event) {
            (Setup::Version, SetupEvent::Build(build)) => {
                match ensure_process_loopback_supported(build) {
                    Ok(_) => Ok(Setup::Event),
                    Err(e) => Err(e),
                }
            },
            (Setup::Event, SetupEvent::Call(Ok(_))) => Ok(Setup::Activate),
            (Setup::Event, SetupEvent::Call(Err(f))) => Err(
                map_hr("CreateEventW(activation done)", f.code, f.shown.as_str()),
            ),
            (Setup::Activate, SetupEvent::Call(Ok(_))) => Ok(Setup::Wait),
            (Setup::Activate, SetupEvent::Call(Err(f))) => Err(
                map_process_activation_err(
                    "ActivateAudioInterfaceAsync",
                    f.code,
                    f.shown.as_str(),
                ),
            ),
            (Setup::Wait, SetupEvent::Signalled(in_time)) => {
                if in_time {
                    Ok(Setup::Fetch)
                } else {
                    Err(Error::Backend("process loopback activation timed out".to_owned()))
                }
            },
            (Setup::Fetch, SetupEvent::Call(Ok(_))) => Ok(Setup::Take),
            (Setup::Fetch, SetupEvent::Call(Err(f))) => Err(
                map_hr("GetActivateResult", f.code, f.shown.as_str()),
            ),
            (Setup::Take, SetupEvent::Result(Err(f), _)) => Err(
                map_process_activation_err(
                    "activation result HRESULT",
                    f.code,
                    f.shown.as_str(),
                ),
            ),
            (Setup::Take, SetupEvent::Result(Ok(_), there)) => {
                if there {
                    Ok(Setup::Cast)
                } else {
                    Err(Error::Backend("activation returned null interface".to_owned()))
                }
            },
            (Setup::Cast, SetupEvent::Call(Ok(_))) => Ok(Setup::Ready),
            (Setup::Cast, SetupEvent::Call(Err(f))) => Err(
                map_hr(
                    "cast activated IUnknown to IAudioClient",
                    f.code,
                    f.shown.as_str(),
                ),
            ),
            (step, _) => Ok(step),
        }
    }

    /// Whether the completion event is held, and is to be closed where the setup ends here.
    pub fn holds_event(&self) -> (res: bool)
        ensures
            res == (*self == Setup::Activate || *self == Setup::Wait),
    {
        match self {
            Setup::Activate => true,
            Setup::Wait => true,
            _ => false,
        }
    }
}

/// Where the initialisation of a loopback client fails.
#[derive(Clone, Copy, Debug, PartialEq, Eq, Structural)]
pub enum InitStep {
    /// Initialising the client.
    Initialize,
    /// Creating its event.
    CreateEvent,
    /// Attaching the event.
    SetEvent,
    /// Getting its capture service.
    GetService,
}

/// The error where a step of the initialisation of a loopback client fails.
pub open spec fn init_error(step: InitStep, f: HrFailure) -> ErrorView {
    match step {
        InitStep::Initialize => hr_error("IAudioClient::Initialize"@, f.code, f.shown@),
        InitStep::CreateEvent => hr_error("CreateEventW"@, f.code, f.shown@),
        InitStep::SetEvent => hr_error("IAudioClient::SetEventHandle"@, f.code, f.shown@),
        InitStep::GetService => hr_error(
            "IAudioClient::GetService(IAudioCaptureClient)"@,
            f.code,
            f.shown@,
        ),
    }
}

/// The error where a step fails, and whether the event is to be closed: it is there from the
/// third step on.
pub fn init_failure(step: InitStep, f: &HrFailure) -> (res: (Error, bool))
    ensures
        res.0@ == init_error(step, *f),
        res.1 == (step == InitStep::SetEvent || step == InitStep::GetService),
{
    match step {
        InitStep::Initialize => (
            map_hr("IAudioClient::Initialize", f.code, f.shown.as_str()),
            false,
        ),
        InitStep::CreateEvent => (map_hr("CreateEventW", f.code, f.shown.as_str()), false),
        InitStep::SetEvent => (
            map_hr("IAudioClient::SetEventHandle", f.code, f.shown.as_str()),
            true,
        ),
        InitStep::GetService => (
            map_hr(
                "IAudioClient::GetService(IAudioCaptureClient)",
                f.code,
                f.shown.as_str(),
            ),
            true,
        ),
    }
}

/// Records the audio of a process tree, or all but that.
#[derive(Debug)]
pub struct WasapiProcessBackend {
    target_pid: u32,
    mode: ProcessMode,
    life: FlagLifecycle,
    native: (u32, u16),
}

impl WasapiProcessBackend {
    /// The target process.
    pub closed spec fn spec_target_pid(&self) -> u32 {
        self.target_pid
    }

    /// How it is treated.
    pub closed spec fn spec_mode(&self) -> ProcessMode {
        self.mode
    }

    /// Whether it runs.
    pub closed spec fn life(&self) -> FlagLifecycle {
        self.life
    }

    /// The format that is reported.
    pub closed spec fn spec_native(&self) -> (u32, u16) {
        self.native
    }

    /// A backend that was not started.
    pub fn new(target_pid: u32, mode: ProcessMode) -> (res: WasapiProcessBackend)
        ensures
            res.spec_target_pid() == target_pid,
            res.spec_mode() == mode,
            res.life() == (FlagLifecycle { thread: false, stop_flag: false }),
            res.spec_native() == (48_000u32, 2u16),
    {
        WasapiProcessBackend {
            target_pid,
            mode,
            life: FlagLifecycle::new(),
            native: (NATIVE_RATE, NATIVE_CHANNELS),
        }
    }

    /// The target process.
    pub fn target_pid(&self) -> (res: u32)
        ensures
            res == self.spec_target_pid(),
    {
        self.target_pid
    }

    /// How the target is treated.
    pub fn mode(&self) -> (res: ProcessMode)
        ensures
            res == self.spec_mode(),
    {
        self.mode
    }

    /// The format that is reported: rate and channels.
    pub fn native_format(&self) -> (res: (u32, u16))
        ensures
            res == self.spec_native(),
    {
        self.native
    }

    /// Decides a start: whether to start a thread.
    pub fn decide_start(&self) -> (res: bool)
        ensures
            res == !self.life().thread,
    {
        !self.life.thread
    }

    /// Settles a start.
    pub fn settle_start(&mut self, ready: Ready<Error>) -> (res: Result<(), Error>)
        requires
            !old(self).life().thread,
        ensures
            final(self).life().thread == (ready is Running),
            !final(self).life().stop_flag,
            final(self).spec_target_pid() == old(self).spec_target_pid(),
            final(self).spec_mode() == old(self).spec_mode(),
            final(self).spec_native() == old(self).spec_native(),
            match ready {
                Ready::Running => res is Ok,
                Ready::Failed(m) => res matches Err(e) && e@ == m@,
                Ready::Vanished => res matches Err(e) && e@ == ErrorView::Backend(
                    "wasapi process thread exited before reporting readiness"@,
                ),
                Ready::NotSpawned(m) => res matches Err(e) && e@ == ErrorView::Backend(
                    "spawn wasapi process thread: "@ + m@,
                ),
            },
    {
        self.life.settle(
            ready,
            "spawn wasapi process thread: ",
            "wasapi process thread exited before reporting readiness",
        )
    }

    /// Stops, however often it is called. Says whether a thread is to be waited for.
    pub fn stop(&mut self) -> (res: bool)
        ensures
            final(self).life() == (FlagLifecycle { thread: false, stop_flag: true }),
            final(self).spec_target_pid() == old(self).spec_target_pid(),
            final(self).spec_mode() == old(self).spec_mode(),
            final(self).spec_native() == old(self).spec_native(),
            res == old(self).life().thread,
    {
        self.life.stop()
    }
}

/// Only a system that refuses the activation itself, or whose build is too old, counts as
/// unsupported.
pub proof fn lemma_unsupported_means_old(step: Setup, event: SetupEvent)
    requires
        step.expects(event),
        step.after(event) == Err::<Setup, ErrorView>(ErrorView::UnsupportedOsVersion),
    ensures
        step == Setup::Version || step == Setup::Activate || step == Setup::Take,
{
}

/// The setup goes on step by step, each time what is due succeeds: the build is new enough, the
/// calls succeed, completion is signalled in time and the result holds an interface.
pub proof fn lemma_setup_goes_on(step: Setup, event: SetupEvent)
    requires
        step.expects(event),
    ensures
        step.after(event) is Ok <==> match event {
            SetupEvent::Build(build) => build is Ok && build->Ok_0 >= 20_348,
            SetupEvent::Call(call) => call is Ok,
            SetupEvent::Signalled(in_time) => in_time,
            SetupEvent::Result(call, there) => call is Ok && there,
        },
        step.after(event) matches Ok(next) ==> {
            &&& step == Setup::Version <==> next == Setup::Event
            &&& step == Setup::Event <==> next == Setup::Activate
            &&& step == Setup::Activate <==> next == Setup::Wait
            &&& step == Setup::Wait <==> next == Setup::Fetch
            &&& step == Setup::Fetch <==> next == Setup::Take
            &&& step == Setup::Take <==> next == Setup::Cast
            &&& step == Setup::Cast <==> next == Setup::Ready
        },
{
}

/// What is said where the setup ends: a call that fails is named, and a system that is too old is
/// told where activating is what fails.
pub proof fn lemma_setup_ends(f: HrFailure, build: u32, status: i32, there: bool)
    ensures
        build < 20_348 ==> Setup::Version.after(SetupEvent::Build(Ok(build))) == Err::<
            Setup,
            ErrorView,
        >(ErrorView::UnsupportedOsVersion),
        Setup::Version.after(SetupEvent::Build(Err(status))) == Err::<Setup, ErrorView>(
            ErrorView::Backend(
                "RtlGetVersion failed (NTSTATUS "@ + signed_decimal(status as int) + ")"@,
            ),
        ),
        Setup::Event.after(SetupEvent::Call(Err(f))) == Err::<Setup, ErrorView>(
            hr_error("CreateEventW(activation done)"@, f.code, f.shown@),
        ),
        Setup::Activate.after(SetupEvent::Call(Err(f))) == Err::<Setup, ErrorView>(
            activation_error("ActivateAudioInterfaceAsync"@, f.code, f.shown@),
        ),
        Setup::Wait.after(SetupEvent::Signalled(false)) == Err::<Setup, ErrorView>(
            ErrorView::Backend("process loopback activation timed out"@),
        ),
        Setup::Fetch.after(SetupEvent::Call(Err(f))) == Err::<Setup, ErrorView>(
            hr_error("GetActivateResult"@, f.code, f.shown@),
        ),
        Setup::Take.after(SetupEvent::Result(Err(f), there)) == Err::<Setup, ErrorView>(
            activation_error("activation result HRESULT"@, f.code, f.shown@),
        ),
        Setup::Take.after(SetupEvent::Result(Ok(()), false)) == Err::<Setup, ErrorView>(
            ErrorView::Backend("activation returned null interface"@),
        ),
        Setup::Cast.after(SetupEvent::Call(Err(f))) == Err::<Setup, ErrorView>(
            hr_error("cast activated IUnknown to IAudioClient"@, f.code, f.shown@),
        ),
{
}

/// A step of the initialisation that fails is named.
pub proof fn lemma_initialisation_ends(f: HrFailure)
    ensures
        init_error(InitStep::Initialize, f) == hr_error(
            "IAudioClient::Initialize"@,
            f.code,
            f.shown@,
        ),
        init_error(InitStep::CreateEvent, f) == hr_error("CreateEventW"@, f.code, f.shown@),
        init_error(InitStep::SetEvent, f) == hr_error(
            "IAudioClient::SetEventHandle"@,
            f.code,
            f.shown@,
        ),
        init_error(InitStep::GetService, f) == hr_error(
            "IAudioClient::GetService(IAudioCaptureClient)"@,
            f.code,
            f.shown@,
        ),
{
}

} // verus!
