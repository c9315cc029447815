//! Result codes, the mix format, and what the capture loop does with a packet.

use vstd::prelude::*;

use crate::text::{decimal, join, join3, to_decimal};
use crate::types::{Error, ErrorView};

verus! {

/// Access denied (0x80070005).
pub const E_ACCESSDENIED: i32 = -2147024891;

/// The device is in exclusive use (0x8889000A).
pub const AUDCLNT_E_DEVICE_IN_USE: i32 = -2004287478;

/// Exclusive mode is not allowed (0x8889000E).
pub const AUDCLNT_E_EXCLUSIVE_MODE_NOT_ALLOWED: i32 = -2004287474;

/// The device has gone (0x88890004).
pub const AUDCLNT_E_DEVICE_INVALIDATED: i32 = -2004287484;

/// Not found (0x80070490).
pub const E_NOTFOUND: i32 = -2147023728;

/// Not implemented (0x80004001).
pub const E_NOTIMPL: i32 = -2147467263;

/// No such interface (0x80004002).
pub const E_NOINTERFACE: i32 = -2147467262;

/// The kinds of error that a result code can stand for.
pub open spec fn hr_class(code: i32) -> Option<ErrorView> {
    if code == E_ACCESSDENIED || code == AUDCLNT_E_DEVICE_IN_USE || code
        == AUDCLNT_E_EXCLUSIVE_MODE_NOT_ALLOWED {
        Some(ErrorView::PermissionDenied)
    } else if code == AUDCLNT_E_DEVICE_INVALIDATED || code == E_NOTFOUND {
        Some(ErrorView::DeviceNotFound)
    } else {
        None
    }
}

/// The kind of error that a result code stands for, `None` where it is none of them.
pub fn classify_hr(code: i32) -> (res: Option<Error>)
    ensures
        match (hr_class(code), res) {
            (Some(w), Some(g)) => g@ == w,
            (None, None) => true,
            _ => false,
        },
{
    if code == E_ACCESSDENIED || code == AUDCLNT_E_DEVICE_IN_USE || code
        == AUDCLNT_E_EXCLUSIVE_MODE_NOT_ALLOWED {
        Some(Error::PermissionDenied)
    } else if code == AUDCLNT_E_DEVICE_INVALIDATED || code == E_NOTFOUND {
        Some(Error::DeviceNotFound)
    } else {
        None
    }
}

/// The error for a result code, with the call that gave it and the text of the system for it.
pub open spec fn hr_error(ctx: Seq<char>, code: i32, shown: Seq<char>) -> ErrorView {
    match hr_class(code) {
        Some(e) => e,
        None => ErrorView::Backend(ctx + ": "@ + shown),
    }
}

/// Turns a result code into an error.
pub fn map_hr(ctx: &str, code: i32, shown: &str) -> (res: Error)
    ensures
        res@ == hr_error(ctx@, code, shown@),
{
    match classify_hr(code) {
        Some(e) => e,
        None => Error::Backend(join3(ctx, ": ", shown)),
    }
}

/// The error for a result code of activating process loopback: a system without it is too old.
pub open spec fn activation_error(ctx: Seq<char>, code: i32, shown: Seq<char>) -> ErrorView {
    if code == E_NOTIMPL || code == E_NOINTERFACE {
        ErrorView::UnsupportedOsVersion
    } else {
        hr_error(ctx, code, shown)
    }
}

/// Turns a result code of activating process loopback into an error.
pub fn map_process_activation_err(ctx: &str, code: i32, shown: &str) -> (res: Error)
    ensures
        res@ == activation_error(ctx@, code, shown@),
{
    if code == E_NOTIMPL || code == E_NOINTERFACE {
        Error::UnsupportedOsVersion
    } else {
        map_hr(ctx, code, shown)
    }
}

/// A result code that is too old a system, and one that has a kind, are never the same.
pub proof fn lemma_activation_keeps_classes(ctx: Seq<char>, code: i32, shown: Seq<char>)
    requires
        hr_class(code) is Some,
    ensures
        Some(activation_error(ctx, code, shown)) == hr_class(code),
{
}

// ---------------------------------------------------------------------------
// Mix format
// ---------------------------------------------------------------------------

/// Format tag of floating point samples.
pub const WAVE_FORMAT_IEEE_FLOAT: u16 = 3;

/// Format tag of an extended format.
pub const WAVE_FORMAT_EXTENSIBLE: u16 = 0xfffe;

/// Size of the extension of an extended format.
pub const EXTENSION_SIZE: u16 = 22;

/// Identifier of floating point samples in the extension
/// (`00000003-0000-0010-8000-00aa00389b71`).
pub const KSDATAFORMAT_SUBTYPE_IEEE_FLOAT: u128 = 0x00000003_0000_0010_8000_00aa00389b71;

/// The fields of a mix format that are looked at.
#[derive(Clone, Copy, Debug, PartialEq, Eq, Structural)]
pub struct MixFormat {
    /// Format tag.
    pub tag: u16,
    /// Sample rate.
    pub rate: u32,
    /// Channels.
    pub channels: u16,
    /// Bits of a sample.
    pub bits: u16,
    /// Size of the extension.
    pub extension: u16,
    /// Identifier of the sample format in the extension, where that is there.
    pub subformat: u128,
}

/// Whether samples are floating point.
pub open spec fn is_float(f: MixFormat) -> bool {
    f.tag == WAVE_FORMAT_IEEE_FLOAT || (f.tag == WAVE_FORMAT_EXTENSIBLE && f.extension
        >= EXTENSION_SIZE && f.subformat == KSDATAFORMAT_SUBTYPE_IEEE_FLOAT)
}

/// The rate and channels of a mix format. A missing one, and one whose samples are not floating
/// point, is an error.
pub open spec fn mix_format(format: Option<MixFormat>) -> Result<(u32, u16), ErrorView> {
    match format {
        None => Err(ErrorView::Backend("GetMixFormat returned null format"@)),
        Some(f) => if is_float(f) {
            Ok((f.rate, f.channels))
        } else {
            Err(
                ErrorView::Backend(
                    "unsupported mix format (not IEEE float): tag="@ + decimal(f.tag as nat)
                        + " bits="@ + decimal(f.bits as nat),
                ),
            )
        },
    }
}

/// Reads the rate and channels of a mix format.
pub fn parse_mix_format(format: Option<MixFormat>) -> (res: Result<(u32, u16), Error>)
    ensures
        match (mix_format(format), res) {
            (Ok(w), Ok(g)) => g == w,
            (Err(w), Err(g)) => g@ == w,
            _ => false,
        },
{
    let f: MixFormat = match format {
        Some(f) => f,
        None => {
            return Err(Error::Backend("GetMixFormat returned null format".to_owned()));
        },
    };
    let float: bool = if f.tag == WAVE_FORMAT_IEEE_FLOAT {
        true
    } else if f.tag == WAVE_FORMAT_EXTENSIBLE {
        f.extension >= EXTENSION_SIZE && f.subformat == KSDATAFORMAT_SUBTYPE_IEEE_FLOAT
    } else {
        false
    };
    if !float {
        let mut m: String = join(
            "unsupported mix format (not IEEE float): tag=",
            to_decimal(f.tag as u64).as_str(),
        );
        m.append(" bits=");
        m.append(to_decimal(f.bits as u64).as_str());
        return Err(Error::Backend(m));
    }
    Ok((f.rate, f.channels))
}

// ---------------------------------------------------------------------------
// Capture loop
// ---------------------------------------------------------------------------

/// Whether COM is to be taken down at the end of the thread: only where this thread set it up,
/// which is what a result code that is not negative says.
pub fn uninit_on_drop(hr: i32) -> (res: bool)
    ensures
        res == (hr >= 0),
{
    hr >= 0
}

/// Samples in one packet. No channels count as one.
pub open spec fn packet_len(frames: u32, channels: u16) -> int {
    frames * (if channels == 0 {
        1
    } else {
        channels as int
    })
}

/// What is done with a packet.
#[derive(Clone, Copy, Debug, PartialEq, Eq, Structural)]
pub enum Packet {
    /// Nothing is passed on.
    Skip,
    /// So many zeros are passed on.
    Silence(u64),
    /// So many samples are passed on as they are.
    Samples(u64),
}

/// Decides what is done with a packet: a silent one is zeros whatever its data, and one without
/// data or samples is skipped.
pub fn decide_packet(frames: u32, channels: u16, silent: bool, has_data: bool) -> (res: Packet)
    ensures
        res == if packet_len(frames, channels) == 0 || (!silent && !has_data) {
            Packet::Skip
        } else if silent {
            Packet::Silence(packet_len(frames, channels) as u64)
        } else {
            Packet::Samples(packet_len(frames, channels) as u64)
        },
{
    let width: u64 = if channels == 0 {
        1
    } else {
        channels as u64
    };
    assert(frames * width <= 0xffff_ffff * 0xffff) by (nonlinear_arith)
        requires
            frames <= 0xffff_ffff,
            width <= 0xffff,
    ;
    assert(frames as u64 * width == packet_len(frames, channels));
    let n: u64 = frames as u64 * width;
    if n == 0 || (!silent && !has_data) {
        Packet::Skip
    } else if silent {
        Packet::Silence(n)
    } else {
        Packet::Samples(n)
    }
}

/// What the capture loop does next.
#[derive(Clone, Copy, Debug, PartialEq, Eq, Structural)]
pub enum LoopStep {
    /// Take the packet that is there.
    Take,
    /// Wait for the next event.
    Wait,
    /// Stop capturing.
    Stop,
}

/// Decides what follows the size of the next packet: `None` where it could not be had, as when
/// the device has gone, and then capturing stops.
pub fn after_packet_size(size: Option<u32>) -> (res: LoopStep)
    ensures
        res == match size {
            None => LoopStep::Stop,
            Some(n) => if n == 0 {
                LoopStep::Wait
            } else {
                LoopStep::Take
            },
        },
{
    match size {
        None => LoopStep::Stop,
        Some(n) => {
            if n == 0 {
                LoopStep::Wait
            } else {
                LoopStep::Take
            }
        },
    }
}

/// Which result codes are told apart: five of them have a kind, and every other is a failure that
/// names the call. Activating process loopback tells two more, of a system that is too old.
pub proof fn lemma_meaning_of_result_codes(ctx: Seq<char>, code: i32, shown: Seq<char>)
    ensures
        ({
            let denied = code == -2147024891 || code == -2004287478 || code == -2004287474;
            let lost = code == -2004287484 || code == -2147023728;
            let old = code == -2147467263 || code == -2147467262;
            &&& denied ==> hr_class(code) == Some(ErrorView::PermissionDenied)
            &&& lost ==> hr_class(code) == Some(ErrorView::DeviceNotFound)
            &&& hr_class(code) is None <==> !denied && !lost
            &&& denied ==> hr_error(ctx, code, shown) == ErrorView::PermissionDenied
            &&& lost ==> hr_error(ctx, code, shown) == ErrorView::DeviceNotFound
            &&& !denied && !lost ==> hr_error(ctx, code, shown) == ErrorView::Backend(
                ctx + ": "@ + shown,
            )
            &&& old ==> activation_error(ctx, code, shown) == ErrorView::UnsupportedOsVersion
            &&& !old ==> activation_error(ctx, code, shown) == hr_error(ctx, code, shown)
        }),
{
}

/// Samples are floating point exactly where the tag says so, or an extension that is all there
/// does. Only such a format gives a rate and channels, and those are its own.
pub proof fn lemma_which_formats_are_read(f: MixFormat)
    ensures
        ({
            let float = f.tag == 3 || (f.tag == 0xfffe && f.extension >= 22 && f.subformat
                == 0x00000003_0000_0010_8000_00aa00389b71);
            &&& is_float(f) <==> float
            &&& float ==> mix_format(Some(f)) == Ok::<(u32, u16), ErrorView>((f.rate, f.channels))
            &&& !float ==> mix_format(Some(f)) == Err::<(u32, u16), ErrorView>(
                ErrorView::Backend(
                    "unsupported mix format (not IEEE float): tag="@ + decimal(f.tag as nat)
                        + " bits="@ + decimal(f.bits as nat),
                ),
            )
        }),
        mix_format(None) == Err::<(u32, u16), ErrorView>(
            ErrorView::Backend("GetMixFormat returned null format"@),
        ),
{
}

/// A packet has a sample for every frame and channel, and one for every frame where no channels
/// are told.
pub proof fn lemma_samples_in_a_packet(frames: u32, channels: u16)
    ensures
        packet_len(frames, 0) == frames,
        channels > 0 ==> packet_len(frames, channels) == frames * channels,
        packet_len(frames, channels) == 0 <==> frames == 0,
{
    assert(frames * 1 == frames) by (nonlinear_arith);
    if channels > 0 {
        assert((frames * channels == 0) <==> frames == 0) by (nonlinear_arith)
            requires
                channels > 0,
                frames >= 0,
        ;
    }
}

} // verus!
