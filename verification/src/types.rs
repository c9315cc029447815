//! Types shared by the backends and the bindings.

use vstd::prelude::*;

use crate::text::opt;

verus! {

/// What a stream records.
#[derive(Clone, Copy, Debug, PartialEq, Eq, Structural)]
pub enum SourceKind {
    /// A microphone.
    Mic,
    /// The system audio output.
    SystemLoopback,
    /// The audio output of a process.
    ProcessLoopback,
    /// Microphone and system audio, mixed.
    Mix,
}

/// How a target process is treated.
#[derive(Clone, Copy, Debug, PartialEq, Eq, Structural)]
pub enum ProcessMode {
    /// Record only the target.
    Include,
    /// Record everything but the target.
    Exclude,
}

/// What went wrong in capture.
#[derive(Debug, PartialEq, Eq)]
pub enum Error {
    /// The device is not there.
    DeviceNotFound,
    /// Access was denied.
    PermissionDenied,
    /// The operating system is too old.
    UnsupportedOsVersion,
    /// The backend failed, with the reason.
    Backend(String),
}

/// An error with its reason as characters.
pub enum ErrorView {
    /// The device is not there.
    DeviceNotFound,
    /// Access was denied.
    PermissionDenied,
    /// The operating system is too old.
    UnsupportedOsVersion,
    /// The backend failed, with the reason.
    Backend(Seq<char>),
}

impl View for Error {
    type V = ErrorView;

    open spec fn view(&self) -> ErrorView {
        match self {
            Error::DeviceNotFound => ErrorView::DeviceNotFound,
            Error::PermissionDenied => ErrorView::PermissionDenied,
            Error::UnsupportedOsVersion => ErrorView::UnsupportedOsVersion,
            Error::Backend(m) => ErrorView::Backend(m@),
        }
    }
}

/// A device.
#[derive(Debug, PartialEq, Eq)]
pub struct DeviceInfo {
    /// Stable identifier.
    pub id: String,
    /// Display name.
    pub name: String,
    /// What recording it gives.
    pub source_kind: SourceKind,
    /// Sample rate (Hz).
    pub sample_rate: u32,
    /// Number of channels.
    pub channels: u16,
    /// Whether an output is recorded.
    pub is_loopback: bool,
    /// Whether it is the default of its kind.
    pub is_default: bool,
}

/// A device with its texts as characters.
pub struct DeviceView {
    /// Stable identifier.
    pub id: Seq<char>,
    /// Display name.
    pub name: Seq<char>,
    /// What recording it gives.
    pub source_kind: SourceKind,
    /// Sample rate (Hz).
    pub sample_rate: u32,
    /// Number of channels.
    pub channels: u16,
    /// Whether an output is recorded.
    pub is_loopback: bool,
    /// Whether it is the default of its kind.
    pub is_default: bool,
}

impl View for DeviceInfo {
    type V = DeviceView;

    open spec fn view(&self) -> DeviceView {
        DeviceView {
            id: self.id@,
            name: self.name@,
            source_kind: self.source_kind,
            sample_rate: self.sample_rate,
            channels: self.channels,
            is_loopback: self.is_loopback,
            is_default: self.is_default,
        }
    }
}

impl DeviceInfo {
    /// The same device once more.
    pub fn copy(&self) -> (res: DeviceInfo)
        ensures
            res@ == self@,
    {
        DeviceInfo {
            id: self.id.as_str().to_owned(),
            name: self.name.as_str().to_owned(),
            source_kind: self.source_kind,
            sample_rate: self.sample_rate,
            channels: self.channels,
            is_loopback: self.is_loopback,
            is_default: self.is_default,
        }
    }
}

/// The devices with their texts as characters.
pub open spec fn devices_view(v: Seq<DeviceInfo>) -> Seq<DeviceView> {
    v.map_values(|d: DeviceInfo| d@)
}

/// A change among the devices.
#[derive(Debug, PartialEq, Eq)]
pub enum DeviceEvent {
    /// A device came.
    Added(DeviceInfo),
    /// A device went.
    Removed {
        /// Its identifier.
        id: String,
    },
    /// Another device became the default.
    DefaultChanged {
        /// Of which kind.
        kind: SourceKind,
        /// The identifier of the new default.
        id: String,
    },
    /// A change of a kind that is not known.
    Other,
}

/// A change among the devices, its texts as characters.
pub enum DeviceEventView {
    /// A device came.
    Added(DeviceView),
    /// A device went.
    Removed {
        /// Its identifier.
        id: Seq<char>,
    },
    /// Another device became the default.
    DefaultChanged {
        /// Of which kind.
        kind: SourceKind,
        /// The identifier of the new default.
        id: Seq<char>,
    },
    /// A change of a kind that is not known.
    Other,
}

impl View for DeviceEvent {
    type V = DeviceEventView;

    open spec fn view(&self) -> DeviceEventView {
        match self {
            DeviceEvent::Added(info) => DeviceEventView::Added(info@),
            DeviceEvent::Removed { id } => DeviceEventView::Removed { id: id@ },
            DeviceEvent::Other => DeviceEventView::Other,
            DeviceEvent::DefaultChanged { kind, id } => DeviceEventView::DefaultChanged {
                kind: *kind,
                id: id@,
            },
        }
    }
}

/// A process whose audio can be recorded.
#[derive(Debug, PartialEq, Eq)]
pub struct ProcessInfo {
    /// Its identifier.
    pub pid: u32,
    /// Display name, empty where there is none.
    pub name: String,
    /// Name of its executable.
    pub executable: Option<String>,
    /// Bundle identifier.
    pub bundle_id: Option<String>,
    /// Whether it plays now, where that is known.
    pub is_output_active: Option<bool>,
}

/// A process with its texts as characters.
pub struct ProcessView {
    /// Its identifier.
    pub pid: u32,
    /// Display name, empty where there is none.
    pub name: Seq<char>,
    /// Name of its executable.
    pub executable: Option<Seq<char>>,
    /// Bundle identifier.
    pub bundle_id: Option<Seq<char>>,
    /// Whether it plays now, where that is known.
    pub is_output_active: Option<bool>,
}

impl View for ProcessInfo {
    type V = ProcessView;

    open spec fn view(&self) -> ProcessView {
        ProcessView {
            pid: self.pid,
            name: self.name@,
            executable: opt(self.executable),
            bundle_id: opt(self.bundle_id),
            is_output_active: self.is_output_active,
        }
    }
}

/// The processes with their texts as characters.
pub open spec fn processes_view(v: Seq<ProcessInfo>) -> Seq<ProcessView> {
    v.map_values(|p: ProcessInfo| p@)
}

} // verus!
