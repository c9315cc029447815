//! The capture backends: what starting them decides.

use vstd::prelude::*;

use crate::backend::{FlagLifecycle, Ready};
use crate::macos::status::FALLBACK_FORMAT;
use crate::macos::tap::{TapKind, TapView};
use crate::macos::version::{ensure_process_tap_supported, not_before};
use crate::text::opt;
use crate::types::{Error, ErrorView, ProcessMode};

verus! {

/// What has to be asked before a tap can be chosen.
#[derive(Debug)]
pub enum TapQuestion {
    /// Nothing.
    Nothing,
    /// The process object of this process.
    OwnObject,
    /// The unique identifier of an output of this name.
    DeviceUid(String),
}

/// The answer to what was asked.
#[derive(Debug)]
pub enum TapAnswer {
    /// Nothing was asked.
    Nothing,
    /// The process object of this process, 0 where it has none.
    OwnObject(Result<u32, Error>),
    /// The unique identifier of the output, `None` where there is no such output.
    DeviceUid(Result<Option<String>, Error>),
}

/// Records system audio.
#[derive(Debug)]
pub struct MacSystemBackend {
    exclude_self: bool,
    device_id: Option<String>,
    life: FlagLifecycle,
    native: (u32, u16),
}

impl MacSystemBackend {
    /// Whether the own playback is left out.
    pub closed spec fn spec_exclude_self(&self) -> bool {
        self.exclude_self
    }

    /// The name of the output that is recorded.
    pub closed spec fn spec_device_id(&self) -> Option<Seq<char>> {
        opt(self.device_id)
    }

    /// Whether it runs.
    pub closed spec fn life(&self) -> FlagLifecycle {
        self.life
    }

    /// The format that is reported.
    pub closed spec fn spec_native(&self) -> (u32, u16) {
        self.native
    }

    /// A backend that was not started.
    pub fn new(exclude_self: bool, device_id: Option<String>) -> (res: MacSystemBackend)
        ensures
            res.spec_exclude_self() == exclude_self,
            res.spec_device_id() == opt(device_id),
            res.life() == (FlagLifecycle { thread: false, stop_flag: false }),
            res.spec_native() == (48_000u32, 2u16),
    {
        MacSystemBackend {
            exclude_self,
            device_id,
            life: FlagLifecycle::new(),
            native: FALLBACK_FORMAT,
        }
    }

    /// The format that is reported before the tap is there: rate and channels.
    pub fn native_format(&self) -> (res: (u32, u16))
        ensures
            res == self.spec_native(),
    {
        self.native
    }

    /// Decides a start on a version of macOS: `None` where it runs already, else what has to be
    /// asked. A version without process taps is refused.
    pub fn decide_start(&self, version: (i64, i64)) -> (res: Result<Option<TapQuestion>, Error>)
        ensures
            if self.life().thread {
                res matches Ok(None)
            } else if !not_before(version.0 as int, version.1 as int, 14, 4) {
                res matches Err(e) && e@ == ErrorView::UnsupportedOsVersion
            } else {
                res matches Ok(Some(q)) && match q {
                    TapQuestion::OwnObject => self.spec_exclude_self(),
                    TapQuestion::DeviceUid(name) => !self.spec_exclude_self()
                        && self.spec_device_id() == Some(name@),
                    TapQuestion::Nothing => !self.spec_exclude_self()
                        && self.spec_device_id() is None,
                }
            },
    {
        if self.life.thread {
            return Ok(None);
        }
        match ensure_process_tap_supported(version.0, version.1) {
            Err(e) => {
                return Err(e);
            },
            Ok(_) => {},
        }
        if self.exclude_self {
            return Ok(Some(TapQuestion::OwnObject));
        }
        match &self.device_id {
            Some(name) => Ok(Some(TapQuestion::DeviceUid(name.as_str().to_owned()))),
            None => Ok(Some(TapQuestion::Nothing)),
        }
    }

    /// Settles a start.
    pub fn settle_start(&mut self, ready: Ready<Error>) -> (res: Result<(), Error>)
        requires
            !old(self).life().thread,
        ensures
            final(self).life().thread == (ready is Running),
            !final(self).life().stop_flag,
            final(self).spec_exclude_self() == old(self).spec_exclude_self(),
            final(self).spec_device_id() == old(self).spec_device_id(),
            final(self).spec_native() == old(self).spec_native(),
            match ready {
                Ready::Running => res is Ok,
                Ready::Failed(m) => res matches Err(e) && e@ == m@,
                Ready::Vanished => res matches Err(e) && e@ == ErrorView::Backend(
                    "macos system thread exited before reporting readiness"@,
                ),
                Ready::NotSpawned(m) => res matches Err(e) && e@ == ErrorView::Backend(
                    "spawn macos system thread: "@ + m@,
                ),
            },
    {
        self.life.settle(
            ready,
            "spawn macos system thread: ",
            "macos system thread exited before reporting readiness",
        )
    }

    /// Stops, however often it is called. Says whether a thread is to be waited for.
    pub fn stop(&mut self) -> (res: bool)
        ensures
            final(self).life() == (FlagLifecycle { thread: false, stop_flag: true }),
            final(self).spec_exclude_self() == old(self).spec_exclude_self(),
            final(self).spec_device_id() == old(self).spec_device_id(),
            final(self).spec_native() == old(self).spec_native(),
            res == old(self).life().thread,
    {
        self.life.stop()
    }
}

/// Chooses the tap for system audio.
///
/// The own process is left out only where it has a process object: one that is silent has none,
/// and then there is nothing to leave out. A named output that is not there is not found.
pub fn system_tap(answer: TapAnswer) -> (res: Result<TapKind, Error>)
    ensures
        match answer {
            TapAnswer::Nothing => res matches Ok(k) && k@ == TapView::ExcludeProcesses(
                Seq::empty(),
            ),
            TapAnswer::OwnObject(Ok(id)) => res matches Ok(k) && k@ == if id == 0 {
                TapView::ExcludeProcesses(Seq::empty())
            } else {
                TapView::ExcludeProcesses(seq![id])
            },
            TapAnswer::OwnObject(Err(w)) => res matches Err(e) && e@ == w@,
            TapAnswer::DeviceUid(Ok(Some(uid))) => res matches Ok(k) && k@ == (
            TapView::ExcludeProcessesOnDevice { ids: Seq::empty(), device_uid: uid@ }),
            TapAnswer::DeviceUid(Ok(None)) => res matches Err(e) && e@
                == ErrorView::DeviceNotFound,
            TapAnswer::DeviceUid(Err(w)) => res matches Err(e) && e@ == w@,
        },
{
    match answer {
        TapAnswer::Nothing => Ok(TapKind::ExcludeProcesses(Vec::new())),
        TapAnswer::OwnObject(Ok(id)) => {
            let mut ids: Vec<u32> = Vec::new();
            if id != 0 {
                ids.push(id);
                assert(ids@ =~= seq![id]);
            }
            Ok(TapKind::ExcludeProcesses(ids))
        },
        TapAnswer::OwnObject(Err(e)) => Err(e),
        TapAnswer::DeviceUid(Ok(Some(uid))) => Ok(
            TapKind::ExcludeProcessesOnDevice { ids: Vec::new(), device_uid: uid },
        ),
        TapAnswer::DeviceUid(Ok(None)) => Err(Error::DeviceNotFound),
        TapAnswer::DeviceUid(Err(e)) => Err(e),
    }
}

/// Records the audio of a process, or all but that.
#[derive(Debug)]
pub struct MacProcessBackend {
    target_pid: u32,
    mode: ProcessMode,
    life: FlagLifecycle,
    native: (u32, u16),
}

impl MacProcessBackend {
    /// The target process.
    pub closed spec fn spec_target_pid(&self) -> u32 {
        self.target_pid
    }

    /// How it is treated.
    pub closed spec fn spec_mode(&self) -> ProcessMode {
        self.mode
    }

    /// Whether it runs.
    pub closed spec fn life(&self) -> FlagLifecycle {
        self.life
    }

    /// The format that is reported.
    pub closed spec fn spec_native(&self) -> (u32, u16) {
        self.native
    }

    /// A backend that was not started.
    pub fn new(target_pid: u32, mode: ProcessMode) -> (res: MacProcessBackend)
        ensures
            res.spec_target_pid() == target_pid,
            res.spec_mode() == mode,
            res.life() == (FlagLifecycle { thread: false, stop_flag: false }),
            res.spec_native() == (48_000u32, 2u16),
    {
        MacProcessBackend { target_pid, mode, life: FlagLifecycle::new(), native: FALLBACK_FORMAT }
    }

    /// The target process.
    pub fn target_pid(&self) -> (res: u32)
        ensures
            res == self.spec_target_pid(),
    {
        self.target_pid
    }

    /// How the target is treated.
    pub fn mode(&self) -> (res: ProcessMode)
        ensures
            res == self.spec_mode(),
    {
        self.mode
    }

    /// The format that is reported before the tap is there: rate and channels.
    pub fn native_format(&self) -> (res: (u32, u16))
        ensures
            res == self.spec_native(),
    {
        self.native
    }

    /// Decides a start on a version of macOS: whether to start a thread. A version without
    /// process taps is refused.
    pub fn decide_start(&self, version: (i64, i64)) -> (res: Result<bool, Error>)
        ensures
            if self.life().thread {
                res matches Ok(go) && !go
            } else if !not_before(version.0 as int, version.1 as int, 14, 4) {
                res matches Err(e) && e@ == ErrorView::UnsupportedOsVersion
            } else {
                res matches Ok(go) && go
            },
    {
        if self.life.thread {
            return Ok(false);
        }
        match ensure_process_tap_supported(version.0, version.1) {
            Err(e) => Err(e),
            Ok(_) => Ok(true),
        }
    }

    /// Chooses the tap, given the process object of the target. Without one, the target is
    /// silent or absent and is not found.
    pub fn process_tap(&self, object: Result<u32, Error>) -> (res: Result<TapKind, Error>)
        ensures
            match object {
                Err(w) => res matches Err(e) && e@ == w@,
                Ok(id) => if id == 0 {
                    res matches Err(e) && e@ == ErrorView::DeviceNotFound
                } else {
                    res matches Ok(k) && k@ == match self.spec_mode() {
                        ProcessMode::Include => TapView::IncludeProcesses(seq![id]),
                        ProcessMode::Exclude => TapView::ExcludeProcesses(seq![id]),
                    }
                },
            },
    {
        match object {
            Err(e) => Err(e),
            Ok(id) => {
                if id == 0 {
                    return Err(Error::DeviceNotFound);
                }
                let mut ids: Vec<u32> = Vec::new();
                ids.push(id);
                assert(ids@ =~= seq![id]);
                match self.mode {
                    ProcessMode::Include => Ok(TapKind::IncludeProcesses(ids)),
                    ProcessMode::Exclude => Ok(TapKind::ExcludeProcesses(ids)),
                }
            },
        }
    }

    /// Settles a start.
    pub fn settle_start(&mut self, ready: Ready<Error>) -> (res: Result<(), Error>)
        requires
            !old(self).life().thread,
        ensures
            final(self).life().thread == (ready is Running),
            !final(self).life().stop_flag,
            final(self).spec_target_pid() == old(self).spec_target_pid(),
            final(self).spec_mode() == old(self).spec_mode(),
            final(self).spec_native() == old(self).spec_native(),
            match ready {
                Ready::Running => res is Ok,
                Ready::Failed(m) => res matches Err(e) && e@ == m@,
                Ready::Vanished => res matches Err(e) && e@ == ErrorView::Backend(
                    "macos process thread exited before reporting readiness"@,
                ),
                Ready::NotSpawned(m) => res matches Err(e) && e@ == ErrorView::Backend(
                    "spawn macos process thread: "@ + m@,
                ),
            },
    {
        self.life.settle(
            ready,
            "spawn macos process thread: ",
            "macos process thread exited before reporting readiness",
        )
    }

    /// Stops, however often it is called. Says whether a thread is to be waited for.
    pub fn stop(&mut self) -> (res: bool)
        ensures
            final(self).life() == (FlagLifecycle { thread: false, stop_flag: true }),
            final(self).spec_target_pid() == old(self).spec_target_pid(),
            final(self).spec_mode() == old(self).spec_mode(),
            final(self).spec_native() == old(self).spec_native(),
            res == old(self).life().thread,
    {
        self.life.stop()
    }
}

/// The process object of a process, as the system answers.
pub fn translate_answer(status: i32, object: u32) -> (res: Result<u32, Error>)
    ensures
        if status == 0 {
            res == Ok::<u32, Error>(object)
        } else {
            res matches Err(e) && e@ == crate::macos::status::status_error(
                "AudioObjectGetPropertyData(TranslatePIDToProcessObject)"@,
                status,
            )
        },
{
    if status != crate::macos::status::NO_ERR {
        Err(
            crate::macos::status::map_os_status(
                "AudioObjectGetPropertyData(TranslatePIDToProcessObject)",
                status,
            ),
        )
    } else {
        Ok(object)
    }
}

} // verus!
