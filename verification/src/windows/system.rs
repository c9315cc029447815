//! Capture of system audio: the endpoint, its format, and the listing of endpoints.

use vstd::prelude::*;

use crate::backend::{FlagLifecycle, Ready};
use crate::text::{is_text, opt, same};
use crate::types::{devices_view, DeviceInfo, DeviceView, Error, ErrorView, SourceKind};
use crate::windows::common::{
    hr_error, is_float, map_hr, mix_format, parse_mix_format, MixFormat,
};
use crate::windows::process::HrFailure;

verus! {

/// The format that is taken where none can be read: rate and channels.
pub const FALLBACK_FORMAT: (u32, u16) = (48_000, 2);

/// The format of process loopback: rate and channels.
pub const PROCESS_LOOPBACK_FORMAT: (u32, u16) = (48_000, 2);

/// What is known of an endpoint.
#[derive(Debug)]
pub struct EndpointFacts {
    /// Its display name, where it can be read and is not empty.
    pub name: Option<String>,
    /// Its mix format, where it can be read: rate and channels.
    pub format: Option<(u32, u16)>,
}

/// The display name as it counts: none where it is empty.
pub fn friendly_name(name: Option<String>) -> (res: Option<String>)
    ensures
        opt(res) == match opt(name) {
            Some(n) => if n.len() == 0 {
                None
            } else {
                Some(n)
            },
            None => None,
        },
{
    match name {
        Some(n) => {
            if n.as_str().is_empty() {
                None
            } else {
                Some(n)
            }
        },
        None => None,
    }
}

/// The first endpoint of a name from `from` on. An endpoint that cannot be had is `None`.
pub open spec fn endpoint_named(
    endpoints: Seq<Option<EndpointFacts>>,
    name: Seq<char>,
    from: int,
) -> Option<int>
    decreases endpoints.len() - from,
{
    if from >= endpoints.len() {
        None
    } else if endpoints[from] matches Some(f) && opt(f.name) == Some(name) {
        Some(from)
    } else {
        endpoint_named(endpoints, name, from + 1)
    }
}

/// Finds the endpoint to record: the first one of a name.
pub fn resolve_render_endpoint(endpoints: &Vec<Option<EndpointFacts>>, name: &str) -> (res: Result<
    usize,
    Error,
>)
    ensures
        match endpoint_named(endpoints@, name@, 0) {
            Some(w) => res matches Ok(g) && g == w && g < endpoints@.len(),
            None => res matches Err(e) && e@ == ErrorView::DeviceNotFound,
        },
{
    let mut i: usize = 0;
    while i < endpoints.len()
        invariant
            i <= endpoints@.len(),
            endpoint_named(endpoints@, name@, 0) == endpoint_named(endpoints@, name@, i as int),
        decreases endpoints@.len() - i,
    {
        if let Some(f) = &endpoints[i] {
            if let Some(n) = &f.name {
                if same(n.as_str(), name) {
                    return Ok(i);
                }
            }
        }
        i = i + 1;
    }
    Err(Error::DeviceNotFound)
}

/// The device for an endpoint: only one with a name is listed.
pub open spec fn device_of(f: Option<EndpointFacts>, default_name: Option<Seq<char>>) -> Option<
    DeviceView,
> {
    match f {
        Some(e) => match e.name {
            Some(n) => Some(
                DeviceView {
                    id: n@,
                    name: n@,
                    source_kind: SourceKind::SystemLoopback,
                    sample_rate: match e.format {
                        Some(x) => x.0,
                        None => 48_000,
                    },
                    channels: match e.format {
                        Some(x) => x.1,
                        None => 2,
                    },
                    is_loopback: true,
                    is_default: default_name == Some(n@),
                },
            ),
            None => None,
        },
        None => None,
    }
}

/// The devices that are listed, in order.
pub open spec fn listed(
    endpoints: Seq<Option<EndpointFacts>>,
    default_name: Option<Seq<char>>,
) -> Seq<DeviceView>
    decreases endpoints.len(),
{
    if endpoints.len() == 0 {
        Seq::empty()
    } else {
        let rest = listed(endpoints.drop_last(), default_name);
        match device_of(endpoints.last(), default_name) {
            Some(d) => rest.push(d),
            None => rest,
        }
    }
}

/// Lists the endpoints, given the name of the default one where it can be read.
pub fn list_output_devices(
    endpoints: &Vec<Option<EndpointFacts>>,
    default_name: &Option<String>,
) -> (res: Vec<DeviceInfo>)
    ensures
        devices_view(res@) == listed(endpoints@, opt(*default_name)),
{
    let mut out: Vec<DeviceInfo> = Vec::new();
    let mut i: usize = 0;
    assert(devices_view(out@) =~= Seq::<DeviceView>::empty());
    while i < endpoints.len()
        invariant
            i <= endpoints@.len(),
            devices_view(out@) == listed(endpoints@.take(i as int), opt(*default_name)),
        decreases endpoints@.len() - i,
    {
        proof {
            assert(endpoints@.take(i + 1).drop_last() =~= endpoints@.take(i as int));
            assert(endpoints@.take(i + 1).last() == endpoints@[i as int]);
        }
        if let Some(f) = &endpoints[i] {
            if let Some(n) = &f.name {
                let format: (u32, u16) = match f.format {
                    Some(x) => x,
                    None => FALLBACK_FORMAT,
                };
                let d: DeviceInfo = DeviceInfo {
                    id: n.as_str().to_owned(),
                    name: n.as_str().to_owned(),
                    source_kind: SourceKind::SystemLoopback,
                    sample_rate: format.0,
                    channels: format.1,
                    is_loopback: true,
                    is_default: is_text(default_name, n.as_str()),
                };
                proof {
                    assert(devices_view(out@.push(d)) =~= devices_view(out@).push(d@));
                }
                out.push(d);
            }
        }
        i = i + 1;
    }
    assert(endpoints@.take(endpoints@.len() as int) =~= endpoints@);
    out
}

// ---------------------------------------------------------------------------
// Setup
// ---------------------------------------------------------------------------

/// How far the setup of the loopback of an endpoint is.
#[derive(Clone, Copy, Debug, PartialEq, Eq, Structural)]
pub enum SystemSetup {
    /// The enumerator of endpoints is to be created.
    Enumerate,
    /// The endpoint is to be found.
    Resolve,
    /// Its client is to be activated.
    Activate,
    /// The mix format is to be had.
    Format,
    /// The mix format is to be checked.
    Check,
    /// The client is to be initialised.
    Initialize {
        /// The channels of the mix format.
        channels: u16,
    },
    /// The client can be started.
    Ready {
        /// The channels of the mix format.
        channels: u16,
    },
}

/// What the step that is due gave.
#[derive(Debug)]
pub enum SystemEvent {
    /// Creating the enumerator, activating the client or having the format: done or failed.
    Call(Result<(), HrFailure>),
    /// Finding the endpoint or initialising the client: done or failed.
    Settled(Result<(), Error>),
    /// The mix format, where it is there.
    Mix(Option<MixFormat>),
}

impl SystemSetup {
    /// Whether what was given is what is due.
    pub open spec fn expects(self, event: SystemEvent) -> bool {
        match (self, event) {
            (SystemSetup::Enumerate, SystemEvent::Call(_)) => true,
            (SystemSetup::Resolve, SystemEvent::Settled(_)) => true,
            (SystemSetup::Activate, SystemEvent::Call(_)) => true,
            (SystemSetup::Format, SystemEvent::Call(_)) => true,
            (SystemSetup::Check, SystemEvent::Mix(_)) => true,
            (SystemSetup::Initialize { .. }, SystemEvent::Settled(_)) => true,
            _ => false,
        }
    }

    /// The step after what was given, or the error.
    pub open spec fn after(self, event: SystemEvent) -> Result<SystemSetup, ErrorView> {
        match (self, event) {
            (SystemSetup::Enumerate, SystemEvent::Call(Ok(_))) => Ok(SystemSetup::Resolve),
            (SystemSetup::Enumerate, SystemEvent::Call(Err(f))) => Err(
                hr_error("CoCreateInstance(MMDeviceEnumerator)"@, f.code, f.shown@),
            ),
            (SystemSetup::Resolve, SystemEvent::Settled(Ok(_))) => Ok(SystemSetup::Activate),
            (SystemSetup::Resolve, SystemEvent::Settled(Err(e))) => Err(e@),
            (SystemSetup::Activate, SystemEvent::Call(Ok(_))) => Ok(SystemSetup::Format),
            (SystemSetup::Activate, SystemEvent::Call(Err(f))) => Err(
                hr_error("IMMDevice::Activate(IAudioClient)"@, f.code, f.shown@),
            ),
            (SystemSetup::Format, SystemEvent::Call(Ok(_))) => Ok(SystemSetup::Check),
            (SystemSetup::Format, SystemEvent::Call(Err(f))) => Err(
                hr_error("IAudioClient::GetMixFormat"@, f.code, f.shown@),
            ),
            (SystemSetup::Check, SystemEvent::Mix(format)) => match mix_format(format) {
                Ok(f) => Ok(SystemSetup::Initialize { channels: f.1 }),
                Err(e) => Err(e),
            },
            (SystemSetup::Initialize { channels }, SystemEvent::Settled(Ok(_))) => Ok(
                SystemSetup::Ready { channels },
            ),
            (SystemSetup::Initialize { .. }, SystemEvent::Settled(Err(e))) => Err(e@),
            _ => Ok(self),
        }
    }

    /// Takes what the step that is due gave.
    pub fn advance(self, event: SystemEvent) -> (res: Result<SystemSetup, Error>)
        requires
            self.expects(event),
        ensures
            match (self.after(event), res) {
                (Ok(w), Ok(g)) => g == w,
                (Err(w), Err(g)) => g@ == w,
                _ => false,
            },
    {
        match (self, event) {
            (SystemSetup::Enumerate, SystemEvent::Call(Ok(_))) => Ok(SystemSetup::Resolve),
            (SystemSetup::Enumerate, SystemEvent::Call(Err(f))) => Err(
                map_hr("CoCreateInstance(MMDeviceEnumerator)", f.code, f.shown.as_str()),
            ),
            (SystemSetup::Resolve, SystemEvent::Settled(Ok(_))) => Ok(SystemSetup::Activate),
            (SystemSetup::Resolve, SystemEvent::Settled(Err(e))) => Err(e),
            (SystemSetup::Activate, SystemEvent::Call(Ok(_))) => Ok(SystemSetup::Format),
            (SystemSetup::Activate, SystemEvent::Call(Err(f))) => Err(
                map_hr("IMMDevice::Activate(IAudioClient)", f.code, f.shown.as_str()),
            ),
            (SystemSetup::Format, SystemEvent::Call(Ok(_))) => Ok(SystemSetup::Check),
            (SystemSetup::Format, SystemEvent::Call(Err(f))) => Err(
                map_hr("IAudioClient::GetMixFormat", f.code, f.shown.as_str()),
            ),
            (SystemSetup::Check, SystemEvent::Mix(format)) => match parse_mix_format(format) {
                Ok(f) => Ok(SystemSetup::Initialize { channels: f.1 }),
                Err(e) => Err(e),
            },
            (SystemSetup::Initialize { channels }, SystemEvent::Settled(Ok(_))) => Ok(
                SystemSetup::Ready { channels },
            ),
            (SystemSetup::Initialize { .. }, SystemEvent::Settled(Err(e))) => Err(e),
            (step, _) => Ok(step),
        }
    }

    /// Whether the memory of the mix format is held, and is to be freed whatever comes next.
    pub fn holds_format(&self) -> (res: bool)
        ensures
            res == (*self is Check || *self is Initialize),
    {
        match self {
            SystemSetup::Check => true,
            SystemSetup::Initialize { .. } => true,
            _ => false,
        }
    }
}

/// Only a client with floating point samples is started, and the channels that are recorded are
/// those of its mix format.
pub proof fn lemma_only_float_is_recorded(format: Option<MixFormat>)
    ensures
        SystemSetup::Check.after(SystemEvent::Mix(format)) matches Ok(s) ==> {
            &&& format matches Some(f) && is_float(f) && s == (SystemSetup::Initialize {
                channels: f.channels,
            })
        },
{
}

/// Records system audio.
#[derive(Debug)]
pub struct WasapiSystemBackend {
    exclude_self: bool,
    device_id: Option<String>,
    life: FlagLifecycle,
    native: (u32, u16),
}

impl WasapiSystemBackend {
    /// Whether the own playback is left out.
    pub closed spec fn spec_exclude_self(&self) -> bool {
        self.exclude_self
    }

    /// The name of the endpoint that is recorded.
    pub closed spec fn spec_device_id(&self) -> Option<Seq<char>> {
        opt(self.device_id)
    }

    /// Whether it runs.
    pub closed spec fn life(&self) -> FlagLifecycle {
        self.life
    }

    /// The format that is reported.
    pub closed spec fn spec_native(&self) -> (u32, u16) {
        self.native
    }

    /// A backend that was not started. `mix_format` is the format of its endpoint where it can
    /// be read; without the own playback it is not looked at.
    pub fn new(
        exclude_self: bool,
        device_id: Option<String>,
        mix_format: Option<(u32, u16)>,
    ) -> (res: WasapiSystemBackend)
        ensures
            res.spec_exclude_self() == exclude_self,
            res.spec_device_id() == opt(device_id),
            res.life() == (FlagLifecycle { thread: false, stop_flag: false }),
            res.spec_native() == match mix_format {
                Some(f) => if exclude_self {
                    (48_000u32, 2u16)
                } else {
                    f
                },
                None => (48_000u32, 2u16),
            },
    {
        let native: (u32, u16) = if exclude_self {
            PROCESS_LOOPBACK_FORMAT
        } else {
            match mix_format {
                Some(f) => f,
                None => FALLBACK_FORMAT,
            }
        };
        WasapiSystemBackend { exclude_self, device_id, life: FlagLifecycle::new(), native }
    }

    /// The format that is reported: rate and channels.
    pub fn native_format(&self) -> (res: (u32, u16))
        ensures
            res == self.spec_native(),
    {
        self.native
    }

    /// Decides a start: whether to start a thread.
    pub fn decide_start(&self) -> (res: bool)
        ensures
            res == !self.life().thread,
    {
        !self.life.thread
    }

    /// The endpoint that the thread records, where it records one by name: without the own
    /// playback no endpoint is named.
    pub fn endpoint_name(&self) -> (res: Option<&str>)
        ensures
            crate::text::opt_str(res) == if self.spec_exclude_self() {
                None
            } else {
                self.spec_device_id()
            },
    {
        if self.exclude_self {
            return None;
        }
        match &self.device_id {
            Some(id) => Some(id.as_str()),
            None => None,
        }
    }

    /// Settles a start.
    pub fn settle_start(&mut self, ready: Ready<Error>) -> (res: Result<(), Error>)
        requires
            !old(self).life().thread,
        ensures
            final(self).life().thread == (ready is Running),
            !final(self).life().stop_flag,
            final(self).spec_exclude_self() == old(self).spec_exclude_self(),
            final(self).spec_device_id() == old(self).spec_device_id(),
            final(self).spec_native() == old(self).spec_native(),
            match ready {
                Ready::Running => res is Ok,
                Ready::Failed(m) => res matches Err(e) && e@ == m@,
                Ready::Vanished => res matches Err(e) && e@ == ErrorView::Backend(
                    "wasapi system thread exited before reporting readiness"@,
                ),
                Ready::NotSpawned(m) => res matches Err(e) && e@ == ErrorView::Backend(
                    "spawn wasapi system thread: "@ + m@,
                ),
            },
    {
        self.life.settle(
            ready,
            "spawn wasapi system thread: ",
            "wasapi system thread exited before reporting readiness",
        )
    }

    /// Stops, however often it is called. Says whether a thread is to be waited for.
    pub fn stop(&mut self) -> (res: bool)
        ensures
            final(self).life() == (FlagLifecycle { thread: false, stop_flag: true }),
            final(self).spec_exclude_self() == old(self).spec_exclude_self(),
            final(self).spec_device_id() == old(self).spec_device_id(),
            final(self).spec_native() == old(self).spec_native(),
            res == old(self).life().thread,
    {
        self.life.stop()
    }
}

/// Every endpoint that can be had and has a name is listed, once and in order, and nothing else is:
/// `at` tells which endpoint each entry is. It has the name of the endpoint as its identifier too,
/// the format of the endpoint, else 48000 Hz and two channels, and it is the default where its name
/// is that of the default one.
pub proof fn lemma_every_endpoint_is_listed(endpoints: Seq<Option<EndpointFacts>>, default_name: Option<Seq<char>>) -> (at: Seq<int>)
    ensures
        forall|i: int, j: int| 0 <= i < j < at.len() ==> (#[trigger] at[i]) < (#[trigger] at[j]),
        forall|k: int| #[trigger]
            at.contains(k) <==> 0 <= k < endpoints.len() && endpoints[k] is Some && endpoints[k]->0.name is Some,
        listed(endpoints, default_name).len() == at.len(),
        forall|i: int|
            0 <= i < at.len() ==> {
                let f = endpoints[at[i]];
                let d = #[trigger] listed(endpoints, default_name)[i];
                let e = f->0;
                &&& d.id == e.name->0@
                &&& d.name == e.name->0@
                &&& d.source_kind == SourceKind::SystemLoopback
                &&& d.is_loopback
                &&& e.format is Some ==> e.format == Some((d.sample_rate, d.channels))
                &&& e.format is None ==> d.sample_rate == 48_000 && d.channels == 2
                &&& d.is_default <==> default_name == Some(e.name->0@)
            },
    decreases endpoints.len(),
{
    if endpoints.len() == 0 {
        Seq::empty()
    } else {
        let less = endpoints.drop_last();
        let n: int = less.len() as int;
        let rest = lemma_every_endpoint_is_listed(less, default_name);
        let there = endpoints[n] is Some && endpoints[n]->0.name is Some;
        let at = if there {
            rest.push(n)
        } else {
            rest
        };
        assert forall|k: int| #[trigger] at.contains(k) <==> 0 <= k < endpoints.len() && endpoints[k] is Some && endpoints[k]->0.name is Some by {
            if 0 <= k < n {
                assert(less[k] == endpoints[k]);
            }
            assert(rest.contains(k) ==> 0 <= k < n);
            if rest.contains(k) {
                let x = choose|x: int| 0 <= x < rest.len() && rest[x] == k;
                assert(at[x] == k);
            }
            if at.contains(k) {
                let x = choose|x: int| 0 <= x < at.len() && at[x] == k;
                if x < rest.len() {
                    assert(rest[x] == k);
                }
            }
            if there {
                assert(at[rest.len() as int] == n);
            }
        }
        assert forall|i: int, j: int| 0 <= i < j < at.len() implies (#[trigger] at[i]) < (
        #[trigger] at[j]) by {
            assert(at[i] == rest[i]);
            assert(rest.contains(rest[i]));
            if j < rest.len() {
                assert(at[j] == rest[j]);
            }
        }
        assert(endpoints.last() == endpoints[n]);
        assert forall|i: int| 0 <= i < at.len() implies {
            let f = endpoints[at[i]];
            let d = #[trigger] listed(endpoints, default_name)[i];
                let e = f->0;
                &&& d.id == e.name->0@
                &&& d.name == e.name->0@
                &&& d.source_kind == SourceKind::SystemLoopback
                &&& d.is_loopback
                &&& e.format is Some ==> e.format == Some((d.sample_rate, d.channels))
                &&& e.format is None ==> d.sample_rate == 48_000 && d.channels == 2
                &&& d.is_default <==> default_name == Some(e.name->0@)
        } by {
            if i < rest.len() {
                assert(rest.contains(rest[i]));
                assert(listed(endpoints, default_name)[i] == listed(less, default_name)[i]);
                assert(at[i] == rest[i]);
                assert(endpoints[at[i]] == less[at[i]]);
            }
        }
        at
    }
}

/// The first endpoint of a name is the one that is found, and none is found where none has it.
pub proof fn lemma_first_endpoint_is_found(endpoints: Seq<Option<EndpointFacts>>, name: Seq<char>)
    ensures
        match endpoint_named(endpoints, name, 0) {
            Some(k) => {
                &&& 0 <= k < endpoints.len()
                &&& endpoints[k] is Some && endpoints[k]->0.name is Some
                    && endpoints[k]->0.name->0@ == name
                &&& forall|i: int|
                    0 <= i < k ==> !((#[trigger] endpoints[i]) is Some && endpoints[i]->0.name
                        is Some && endpoints[i]->0.name->0@ == name)
            },
            None => forall|i: int|
                0 <= i < endpoints.len() ==> !((#[trigger] endpoints[i]) is Some
                    && endpoints[i]->0.name is Some && endpoints[i]->0.name->0@ == name),
        },
{
    lemma_endpoint_from(endpoints, name, 0);
}

proof fn lemma_endpoint_from(endpoints: Seq<Option<EndpointFacts>>, name: Seq<char>, from: int)
    requires
        0 <= from,
    ensures
        match endpoint_named(endpoints, name, from) {
            Some(k) => {
                &&& from <= k < endpoints.len()
                &&& endpoints[k] is Some && endpoints[k]->0.name is Some
                    && endpoints[k]->0.name->0@ == name
                &&& forall|i: int|
                    from <= i < k ==> !((#[trigger] endpoints[i]) is Some && endpoints[i]->0.name
                        is Some && endpoints[i]->0.name->0@ == name)
            },
            None => forall|i: int|
                from <= i < endpoints.len() ==> !((#[trigger] endpoints[i]) is Some
                    && endpoints[i]->0.name is Some && endpoints[i]->0.name->0@ == name),
        },
    decreases endpoints.len() - from,
{
    if from < endpoints.len() {
        lemma_endpoint_from(endpoints, name, from + 1);
    }
}

/// The setup goes on step by step, each time what is due succeeds; the mix format must be there and
/// be of floating point samples, and its channels are kept.
pub proof fn lemma_system_setup_goes_on(step: SystemSetup, event: SystemEvent)
    requires
        step.expects(event),
    ensures
        step.after(event) is Ok <==> match event {
            SystemEvent::Call(call) => call is Ok,
            SystemEvent::Settled(done) => done is Ok,
            SystemEvent::Mix(format) => format is Some && is_float(format->0),
        },
        step.after(event) matches Ok(next) ==> {
            &&& step is Enumerate <==> next is Resolve
            &&& step is Resolve <==> next is Activate
            &&& step is Activate <==> next is Format
            &&& step is Format <==> next is Check
            &&& step is Check <==> next is Initialize
            &&& step is Initialize <==> next is Ready
        },
        step.after(event) is Ok ==> (step matches SystemSetup::Initialize { channels }
            ==> step.after(event)->Ok_0 == (SystemSetup::Ready { channels })),
        step.after(event) is Ok ==> (event matches SystemEvent::Mix(format) ==> step.after(
            event,
        )->Ok_0 == (SystemSetup::Initialize { channels: format->0.channels })),
{
}

/// What is said where the setup ends: a call that fails is named, and an error that was settled
/// elsewhere is handed on.
pub proof fn lemma_system_setup_ends(f: HrFailure, e: Error, channels: u16, format: MixFormat)
    ensures
        SystemSetup::Enumerate.after(SystemEvent::Call(Err(f))) == Err::<SystemSetup, ErrorView>(
            hr_error("CoCreateInstance(MMDeviceEnumerator)"@, f.code, f.shown@),
        ),
        SystemSetup::Resolve.after(SystemEvent::Settled(Err(e))) == Err::<SystemSetup, ErrorView>(
            e@,
        ),
        SystemSetup::Activate.after(SystemEvent::Call(Err(f))) == Err::<SystemSetup, ErrorView>(
            hr_error("IMMDevice::Activate(IAudioClient)"@, f.code, f.shown@),
        ),
        SystemSetup::Format.after(SystemEvent::Call(Err(f))) == Err::<SystemSetup, ErrorView>(
            hr_error("IAudioClient::GetMixFormat"@, f.code, f.shown@),
        ),
        (SystemSetup::Initialize { channels }).after(SystemEvent::Settled(Err(e))) == Err::<
            SystemSetup,
            ErrorView,
        >(e@),
        SystemSetup::Check.after(SystemEvent::Mix(None)) == Err::<SystemSetup, ErrorView>(
            ErrorView::Backend("GetMixFormat returned null format"@),
        ),
        !is_float(format) ==> SystemSetup::Check.after(SystemEvent::Mix(Some(format))) == Err::<
            SystemSetup,
            ErrorView,
        >(
            ErrorView::Backend(
                "unsupported mix format (not IEEE float): tag="@ + crate::text::decimal(
                    format.tag as nat,
                ) + " bits="@ + crate::text::decimal(format.bits as nat),
            ),
        ),
{
}

} // verus!
