//! Listing of output devices, and finding the one of a name.

use vstd::prelude::*;

use crate::macos::status::{
    map_os_status, status_error, BAD_PROPERTY_SIZE, FALLBACK_FORMAT, NO_ERR,
};
use crate::text::{copy_opt, opt, same};
use crate::types::{devices_view, DeviceInfo, DeviceView, Error, SourceKind};

verus! {

/// Property of the system object that lists all devices (`dev#`).
pub const PROPERTY_DEVICES: u32 = 0x64657623;

/// How often a list is read at most.
pub const MAX_ATTEMPTS: u32 = 4;

/// What an attempt to read a list comes to.
#[derive(Debug)]
pub enum Attempt {
    /// The reading is over.
    Done(Result<Vec<u32>, i32>),
    /// The list changed meanwhile: read again.
    Again,
}

/// Settles one attempt to read a list, the first being number 1: only where the size changed
/// meanwhile is it read again, four times in all.
pub fn settle_attempt(attempt: u32, outcome: Result<Vec<u32>, i32>) -> (res: Attempt)
    ensures
        match res {
            Attempt::Again => outcome == Err::<Vec<u32>, i32>(BAD_PROPERTY_SIZE) && attempt
                < MAX_ATTEMPTS,
            Attempt::Done(r) => r == outcome && !(outcome == Err::<Vec<u32>, i32>(
                BAD_PROPERTY_SIZE,
            ) && attempt < MAX_ATTEMPTS),
        },
{
    match outcome {
        Ok(ids) => Attempt::Done(Ok(ids)),
        Err(status) => {
            if status == BAD_PROPERTY_SIZE && attempt < MAX_ATTEMPTS {
                Attempt::Again
            } else {
                Attempt::Done(Err(status))
            }
        },
    }
}

/// How many objects fit a size in bytes.
pub fn object_count(size: u32) -> (res: usize)
    ensures
        res == size / 4,
{
    size as usize / 4
}

/// The objects that were written, of those that there was room for.
pub fn written_objects(ids: Vec<u32>, written_bytes: u32) -> (res: Vec<u32>)
    ensures
        res@ == if written_bytes / 4 < ids@.len() {
            ids@.take(written_bytes as int / 4)
        } else {
            ids@
        },
{
    let mut kept: Vec<u32> = ids;
    let count: usize = object_count(written_bytes);
    if count < kept.len() {
        kept.truncate(count);
    }
    assert(kept@ =~= if written_bytes / 4 < ids@.len() {
        ids@.take(written_bytes as int / 4)
    } else {
        ids@
    });
    kept
}

/// All devices, as a reader of system object lists finds them. A failure to read is an error,
/// and no empty list.
pub fn all_device_ids<F: Fn(u32) -> Result<Vec<u32>, i32>>(reader: F) -> (res: Result<
    Vec<u32>,
    Error,
>)
    requires
        call_requires(reader, (PROPERTY_DEVICES,)),
    ensures
        exists|raw: Result<Vec<u32>, i32>|
            call_ensures(reader, (PROPERTY_DEVICES,), raw) && match raw {
                Ok(ids) => res == Ok::<Vec<u32>, Error>(ids),
                Err(status) => res matches Err(e) && e@ == status_error(
                    "AudioObjectGetPropertyData(Devices)"@,
                    status,
                ),
            },
{
    match reader(PROPERTY_DEVICES) {
        Ok(ids) => Ok(ids),
        Err(status) => Err(map_os_status("AudioObjectGetPropertyData(Devices)", status)),
    }
}

/// What is known of a device.
#[derive(Debug)]
pub struct DeviceFacts {
    /// Its identifier.
    pub id: u32,
    /// Whether it has an output stream.
    pub is_output: bool,
    /// Its name, where it can be read.
    pub name: Option<String>,
    /// Its unique identifier, where it can be read.
    pub uid: Option<String>,
    /// Its sample rate, where it can be read.
    pub sample_rate: Option<u32>,
    /// Its channels, where they can be read.
    pub channels: Option<u16>,
}

/// Whether a device has an output stream, given the answer to the size of its stream list.
pub fn is_output_device(status: i32, size: u32) -> (res: bool)
    ensures
        res == (status == 0 && size > 0),
{
    status == NO_ERR && size > 0
}

/// The default output device, 0 where it cannot be read.
pub fn default_output_device(status: i32, device: u32) -> (res: u32)
    ensures
        res == if status != 0 {
            0
        } else {
            device
        },
{
    if status != NO_ERR {
        0
    } else {
        device
    }
}

/// The sum of channel counts.
pub open spec fn total(counts: Seq<u32>) -> nat
    decreases counts.len(),
{
    if counts.len() == 0 {
        0
    } else {
        total(counts.drop_last()) + counts.last() as nat
    }
}

proof fn lemma_total_grows(counts: Seq<u32>, k: int)
    requires
        0 <= k <= counts.len(),
    ensures
        total(counts.take(k)) <= total(counts),
    decreases counts.len() - k,
{
    if k == counts.len() {
        assert(counts.take(k) =~= counts);
    } else {
        lemma_total_grows(counts, k + 1);
        assert(counts.take(k + 1).drop_last() =~= counts.take(k));
    }
}

/// The channels of a device: the sum over its buffers, at most what 16 bits hold, `None` where
/// there are none.
pub fn device_channels(counts: &Vec<u32>) -> (res: Option<u16>)
    requires
        total(counts@) <= u32::MAX,
    ensures
        res == if total(counts@) == 0 {
            None
        } else if total(counts@) > u16::MAX {
            Some(u16::MAX)
        } else {
            Some(total(counts@) as u16)
        },
{
    let mut sum: u32 = 0;
    let mut i: usize = 0;
    while i < counts.len()
        invariant
            i <= counts@.len(),
            total(counts@) <= u32::MAX,
            sum == total(counts@.take(i as int)),
        decreases counts@.len() - i,
    {
        proof {
            assert(counts@.take(i + 1).drop_last() =~= counts@.take(i as int));
            lemma_total_grows(counts@, i + 1);
        }
        sum = sum + counts[i];
        i = i + 1;
    }
    assert(counts@.take(counts@.len() as int) =~= counts@);
    if sum == 0 {
        None
    } else if sum > 0xffff {
        Some(0xffff)
    } else {
        Some(sum as u16)
    }
}

/// The device for what is known of it: only an output with a name is listed.
pub open spec fn device_of(f: DeviceFacts, default_id: u32) -> Option<DeviceView> {
    match f.name {
        Some(name) => if f.is_output {
            Some(
                DeviceView {
                    id: name@,
                    name: name@,
                    source_kind: SourceKind::SystemLoopback,
                    sample_rate: match f.sample_rate {
                        Some(r) => r,
                        None => 48_000,
                    },
                    channels: match f.channels {
                        Some(c) => c,
                        None => 2,
                    },
                    is_loopback: true,
                    is_default: f.id == default_id && default_id != 0,
                },
            )
        } else {
            None
        },
        None => None,
    }
}

/// The devices that are listed, in order.
pub open spec fn listed(facts: Seq<DeviceFacts>, default_id: u32) -> Seq<DeviceView>
    decreases facts.len(),
{
    if facts.len() == 0 {
        Seq::empty()
    } else {
        let rest = listed(facts.drop_last(), default_id);
        match device_of(facts.last(), default_id) {
            Some(d) => rest.push(d),
            None => rest,
        }
    }
}

/// Lists the output devices.
pub fn list_output_devices(facts: &Vec<DeviceFacts>, default_id: u32) -> (res: Vec<DeviceInfo>)
    ensures
        devices_view(res@) == listed(facts@, default_id),
{
    let mut out: Vec<DeviceInfo> = Vec::new();
    let mut i: usize = 0;
    assert(devices_view(out@) =~= Seq::<DeviceView>::empty());
    while i < facts.len()
        invariant
            i <= facts@.len(),
            devices_view(out@) == listed(facts@.take(i as int), default_id),
        decreases facts@.len() - i,
    {
        let f: &DeviceFacts = &facts[i];
        proof {
            assert(facts@.take(i + 1).drop_last() =~= facts@.take(i as int));
            assert(facts@.take(i + 1).last() == f);
        }
        if f.is_output {
            if let Some(name) = &f.name {
                let d: DeviceInfo = DeviceInfo {
                    id: name.as_str().to_owned(),
                    name: name.as_str().to_owned(),
                    source_kind: SourceKind::SystemLoopback,
                    sample_rate: match f.sample_rate {
                        Some(r) => r,
                        None => FALLBACK_FORMAT.0,
                    },
                    channels: match f.channels {
                        Some(c) => c,
                        None => FALLBACK_FORMAT.1,
                    },
                    is_loopback: true,
                    is_default: f.id == default_id && default_id != 0,
                };
                proof {
                    assert(devices_view(out@.push(d)) =~= devices_view(out@).push(d@));
                }
                out.push(d);
            }
        }
        i = i + 1;
    }
    assert(facts@.take(facts@.len() as int) =~= facts@);
    out
}

/// Whether a device is an output of a name.
pub open spec fn is_named(f: DeviceFacts, name: Seq<char>) -> bool {
    f.is_output && opt(f.name) == Some(name)
}

/// The unique identifier of the first output of a name, `None` where there is no such output or
/// its identifier cannot be read.
pub open spec fn uid_of(facts: Seq<DeviceFacts>, name: Seq<char>, from: int) -> Option<Seq<char>>
    decreases facts.len() - from,
{
    if from >= facts.len() {
        None
    } else if is_named(facts[from], name) {
        opt(facts[from].uid)
    } else {
        uid_of(facts, name, from + 1)
    }
}

/// Finds the unique identifier of the first output of a name.
pub fn uid_for_device_name(facts: &Vec<DeviceFacts>, name: &str) -> (res: Option<String>)
    ensures
        opt(res) == uid_of(facts@, name@, 0),
{
    let mut i: usize = 0;
    while i < facts.len()
        invariant
            i <= facts@.len(),
            uid_of(facts@, name@, 0) == uid_of(facts@, name@, i as int),
        decreases facts@.len() - i,
    {
        let f: &DeviceFacts = &facts[i];
        let named: bool = match &f.name {
            Some(n) => same(n.as_str(), name),
            None => false,
        };
        if f.is_output && named {
            return copy_opt(&f.uid);
        }
        i = i + 1;
    }
    None
}

/// Every device that is listed is an output under its name, and only a device with an identifier
/// can be the default.
pub proof fn lemma_listed_are_outputs(facts: Seq<DeviceFacts>, default_id: u32, i: int)
    requires
        0 <= i < listed(facts, default_id).len(),
    ensures
        ({
            let d = listed(facts, default_id)[i];
            &&& d.source_kind == SourceKind::SystemLoopback
            &&& d.is_loopback
            &&& d.id == d.name
            &&& d.is_default ==> default_id != 0
        }),
    decreases facts.len(),
{
    if i < listed(facts.drop_last(), default_id).len() {
        lemma_listed_are_outputs(facts.drop_last(), default_id, i);
    }
}

/// Every output with a name is listed, once and in order, and nothing else is: `at` tells which
/// device each entry is. It has the name of the device as its identifier too, the rate and the
/// channels of the device, else 48000 and 2, and it is the default where the device is.
pub proof fn lemma_outputs_are_listed(facts: Seq<DeviceFacts>, default_id: u32) -> (at: Seq<int>)
    ensures
        forall|i: int, j: int| 0 <= i < j < at.len() ==> (#[trigger] at[i]) < (#[trigger] at[j]),
        forall|k: int| #[trigger]
            at.contains(k) <==> 0 <= k < facts.len() && facts[k].is_output && facts[k].name is Some,
        listed(facts, default_id).len() == at.len(),
        forall|i: int|
            0 <= i < at.len() ==> {
                let f = facts[at[i]];
                let d = #[trigger] listed(facts, default_id)[i];
                &&& d.id == f.name->0@
                &&& d.name == f.name->0@
                &&& d.source_kind == SourceKind::SystemLoopback
                &&& d.is_loopback
                &&& f.sample_rate is Some ==> d.sample_rate == f.sample_rate->0
                &&& f.sample_rate is None ==> d.sample_rate == 48_000
                &&& f.channels is Some ==> d.channels == f.channels->0
                &&& f.channels is None ==> d.channels == 2
                &&& d.is_default <==> f.id == default_id && f.id != 0
            },
    decreases facts.len(),
{
    if facts.len() == 0 {
        Seq::empty()
    } else {
        let less = facts.drop_last();
        let n: int = less.len() as int;
        let rest = lemma_outputs_are_listed(less, default_id);
        let there = facts[n].is_output && facts[n].name is Some;
        let at = if there {
            rest.push(n)
        } else {
            rest
        };
        assert forall|k: int| #[trigger] at.contains(k) <==> 0 <= k < facts.len() && facts[k].is_output && facts[k].name is Some by {
            if 0 <= k < n {
                assert(less[k] == facts[k]);
            }
            assert(rest.contains(k) ==> 0 <= k < n);
            if rest.contains(k) {
                let x = choose|x: int| 0 <= x < rest.len() && rest[x] == k;
                assert(at[x] == k);
            }
            if at.contains(k) {
                let x = choose|x: int| 0 <= x < at.len() && at[x] == k;
                if x < rest.len() {
                    assert(rest[x] == k);
                }
            }
            if there {
                assert(at[rest.len() as int] == n);
            }
        }
        assert forall|i: int, j: int| 0 <= i < j < at.len() implies (#[trigger] at[i]) < (
        #[trigger] at[j]) by {
            assert(at[i] == rest[i]);
            assert(rest.contains(rest[i]));
            if j < rest.len() {
                assert(at[j] == rest[j]);
            }
        }
        assert(facts.last() == facts[n]);
        assert forall|i: int| 0 <= i < at.len() implies {
            let f = facts[at[i]];
            let d = #[trigger] listed(facts, default_id)[i];
                &&& d.id == f.name->0@
                &&& d.name == f.name->0@
                &&& d.source_kind == SourceKind::SystemLoopback
                &&& d.is_loopback
                &&& f.sample_rate is Some ==> d.sample_rate == f.sample_rate->0
                &&& f.sample_rate is None ==> d.sample_rate == 48_000
                &&& f.channels is Some ==> d.channels == f.channels->0
                &&& f.channels is None ==> d.channels == 2
                &&& d.is_default <==> f.id == default_id && f.id != 0
        } by {
            if i < rest.len() {
                assert(rest.contains(rest[i]));
                assert(listed(facts, default_id)[i] == listed(less, default_id)[i]);
                assert(at[i] == rest[i]);
                assert(facts[at[i]] == less[at[i]]);
            }
        }
        at
    }
}

/// The first output of a name counts, and only that: where its identifier cannot be read there is
/// none, whatever comes behind it.
pub proof fn lemma_first_of_a_name_counts(facts: Seq<DeviceFacts>, name: Seq<char>, k: int)
    ensures
        0 <= k < facts.len() && facts[k].is_output && facts[k].name is Some && facts[k].name->0@
            == name && (forall|i: int|
            0 <= i < k ==> !((#[trigger] facts[i]).is_output && facts[i].name is Some
                && facts[i].name->0@ == name)) ==> uid_of(facts, name, 0) == opt(facts[k].uid),
        (forall|i: int|
            0 <= i < facts.len() ==> !((#[trigger] facts[i]).is_output && facts[i].name is Some
                && facts[i].name->0@ == name)) ==> uid_of(facts, name, 0) is None,
{
    if 0 <= k < facts.len() && facts[k].is_output && facts[k].name is Some && facts[k].name->0@
        == name && (forall|i: int|
        0 <= i < k ==> !((#[trigger] facts[i]).is_output && facts[i].name is Some
            && facts[i].name->0@ == name)) {
        lemma_skips_other_names(facts, name, 0, k);
    }
    if forall|i: int|
        0 <= i < facts.len() ==> !((#[trigger] facts[i]).is_output && facts[i].name is Some
            && facts[i].name->0@ == name) {
        lemma_skips_other_names(facts, name, 0, facts.len() as int);
    }
}

proof fn lemma_skips_other_names(facts: Seq<DeviceFacts>, name: Seq<char>, from: int, k: int)
    requires
        0 <= from <= k <= facts.len(),
        forall|i: int|
            0 <= i < k ==> !((#[trigger] facts[i]).is_output && facts[i].name is Some
                && facts[i].name->0@ == name),
    ensures
        uid_of(facts, name, from) == uid_of(facts, name, k),
    decreases k - from,
{
    if from < k {
        assert(!is_named(facts[from], name));
        lemma_skips_other_names(facts, name, from + 1, k);
    }
}

/// The channels of a device are those of all its buffers together.
pub proof fn lemma_total_of_buffers(counts: Seq<u32>, more: u32)
    ensures
        total(Seq::empty()) == 0,
        total(counts.push(more)) == total(counts) + more,
{
    assert(counts.push(more).drop_last() =~= counts);
}

} // verus!
