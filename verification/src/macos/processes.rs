//! Listing of processes known to Core Audio.

use vstd::prelude::*;

use crate::macos::status::{map_os_status, status_error, NO_ERR};
use crate::macos::version::{ensure_process_tap_supported, not_before};
use crate::text::{copy_opt, executable_basename, last_component, opt};
use crate::types::{processes_view, Error, ErrorView, ProcessInfo, ProcessView};

verus! {

/// Room for the path of an executable (bytes).
pub const PATH_CAPACITY: usize = 4096;

/// What is known of a process object.
#[derive(Debug)]
pub struct ProcessFacts {
    /// Its process, where it can be read.
    pub pid: Option<i32>,
    /// Its bundle identifier, where it has one.
    pub bundle_id: Option<String>,
    /// Whether its output runs, 0 for no, where it can be read.
    pub running_output: Option<u32>,
    /// The path of its executable, where it can be read.
    pub path: Option<String>,
}

/// The value of a property of `want` bytes: only a successful answer of that size counts.
pub fn read_scalar(status: i32, size: u32, want: u32, value: u32) -> (res: Option<u32>)
    ensures
        res == if status == 0 && size == want {
            Some(value)
        } else {
            None
        },
{
    if status != NO_ERR || size != want {
        None
    } else {
        Some(value)
    }
}

/// The length of a path that was written, `None` where none was.
pub fn path_len(written: i32) -> (res: Option<usize>)
    ensures
        res == if written <= 0 {
            None
        } else if written as usize > PATH_CAPACITY {
            Some(PATH_CAPACITY)
        } else {
            Some(written as usize)
        },
{
    if written <= 0 {
        return None;
    }
    let n: usize = written as usize;
    if n > PATH_CAPACITY {
        Some(PATH_CAPACITY)
    } else {
        Some(n)
    }
}

/// The name of the executable of a process.
pub open spec fn executable_of(f: ProcessFacts) -> Option<Seq<char>> {
    match f.path {
        Some(p) => if last_component(p@).len() > 0 {
            Some(last_component(p@))
        } else {
            None
        },
        None => None,
    }
}

/// The process for what is known of an object: one with a positive process number.
pub open spec fn process_of(f: ProcessFacts) -> Option<ProcessView> {
    match f.pid {
        Some(pid) => if pid > 0 {
            Some(
                ProcessView {
                    pid: pid as u32,
                    name: match executable_of(f) {
                        Some(n) => n,
                        None => Seq::empty(),
                    },
                    executable: executable_of(f),
                    bundle_id: opt(f.bundle_id),
                    is_output_active: match f.running_output {
                        Some(v) => Some(v != 0),
                        None => None,
                    },
                },
            )
        } else {
            None
        },
        None => None,
    }
}

/// The processes that are listed, in order.
pub open spec fn listed(facts: Seq<ProcessFacts>) -> Seq<ProcessView>
    decreases facts.len(),
{
    if facts.len() == 0 {
        Seq::empty()
    } else {
        let rest = listed(facts.drop_last());
        match process_of(facts.last()) {
            Some(p) => rest.push(p),
            None => rest,
        }
    }
}

/// Lists the processes on a version of macOS, given what reading the objects gave.
///
/// A version without process taps is refused before anything else; a list that cannot be read is
/// an error.
pub fn list_processes(
    version: (i64, i64),
    objects: &Result<Vec<ProcessFacts>, i32>,
) -> (res: Result<Vec<ProcessInfo>, Error>)
    ensures
        if !not_before(version.0 as int, version.1 as int, 14, 4) {
            res matches Err(e) && e@ == ErrorView::UnsupportedOsVersion
        } else {
            match *objects {
                Ok(facts) => res matches Ok(v) && processes_view(v@) == listed(facts@),
                Err(status) => res matches Err(e) && e@ == status_error(
                    "AudioObjectGetPropertyData(ProcessObjectList)"@,
                    status,
                ),
            }
        },
{
    match ensure_process_tap_supported(version.0, version.1) {
        Err(e) => {
            return Err(e);
        },
        Ok(_) => {},
    }
    let facts: &Vec<ProcessFacts> = match objects {
        Ok(f) => f,
        Err(status) => {
            return Err(
                map_os_status("AudioObjectGetPropertyData(ProcessObjectList)", *status),
            );
        },
    };
    let mut out: Vec<ProcessInfo> = Vec::new();
    let mut i: usize = 0;
    assert(processes_view(out@) =~= Seq::<ProcessView>::empty());
    while i < facts.len()
        invariant
            i <= facts@.len(),
            processes_view(out@) == listed(facts@.take(i as int)),
        decreases facts@.len() - i,
    {
        let f: &ProcessFacts = &facts[i];
        proof {
            assert(facts@.take(i + 1).drop_last() =~= facts@.take(i as int));
            assert(facts@.take(i + 1).last() == f);
        }
        if let Some(pid) = f.pid {
            if pid > 0 {
                let executable: Option<String> = match &f.path {
                    Some(p) => executable_basename(p.as_str()),
                    None => None,
                };
                let name: String = match &executable {
                    Some(n) => n.as_str().to_owned(),
                    None => String::new(),
                };
                let p: ProcessInfo = ProcessInfo {
                    pid: pid as u32,
                    name,
                    executable,
                    bundle_id: copy_opt(&f.bundle_id),
                    is_output_active: match f.running_output {
                        Some(v) => Some(v != 0),
                        None => None,
                    },
                };
                proof {
                    assert(p@.name =~= process_of(*f)->0.name);
                    assert(p@ == process_of(*f)->0);
                    assert(processes_view(out@.push(p)) =~= processes_view(out@).push(p@));
                }
                out.push(p);
            }
        }
        i = i + 1;
    }
    assert(facts@.take(facts@.len() as int) =~= facts@);
    Ok(out)
}

/// No process is listed without a number.
pub proof fn lemma_listed_have_numbers(facts: Seq<ProcessFacts>, i: int)
    requires
        0 <= i < listed(facts).len(),
    ensures
        listed(facts)[i].pid != 0,
    decreases facts.len(),
{
    if i < listed(facts.drop_last()).len() {
        lemma_listed_have_numbers(facts.drop_last(), i);
    }
}

/// Every object with a positive process is listed, once and in order, and nothing else is: `at`
/// tells which object each entry is. It has the process and the bundle of the object, the last
/// component of its path as name and executable, where that is there, and it plays where any of
/// its outputs runs.
pub proof fn lemma_every_process_is_listed(facts: Seq<ProcessFacts>) -> (at: Seq<int>)
    ensures
        forall|i: int, j: int| 0 <= i < j < at.len() ==> (#[trigger] at[i]) < (#[trigger] at[j]),
        forall|k: int| #[trigger]
            at.contains(k) <==> 0 <= k < facts.len() && facts[k].pid is Some && facts[k].pid->0 > 0,
        listed(facts).len() == at.len(),
        forall|i: int|
            0 <= i < at.len() ==> {
                let f = facts[at[i]];
                let d = #[trigger] listed(facts)[i];
                let path = f.path->0@;
                &&& d.pid == f.pid->0
                &&& f.path is None || last_component(path).len() == 0 ==> d.name.len() == 0
                    && d.executable is None
                &&& f.path is Some && last_component(path).len() > 0 ==> d.name == last_component(
                    path,
                ) && d.executable == Some(last_component(path))
                &&& d.bundle_id == opt(f.bundle_id)
                &&& f.running_output is None ==> d.is_output_active is None
                &&& f.running_output is Some ==> d.is_output_active == Some(
                    f.running_output->0 != 0,
                )
            },
    decreases facts.len(),
{
    if facts.len() == 0 {
        Seq::empty()
    } else {
        let less = facts.drop_last();
        let n: int = less.len() as int;
        let rest = lemma_every_process_is_listed(less);
        let there = facts[n].pid is Some && facts[n].pid->0 > 0;
        let at = if there {
            rest.push(n)
        } else {
            rest
        };
        assert forall|k: int| #[trigger] at.contains(k) <==> 0 <= k < facts.len() && facts[k].pid is Some && facts[k].pid->0 > 0 by {
            if 0 <= k < n {
                assert(less[k] == facts[k]);
            }
            assert(rest.contains(k) ==> 0 <= k < n);
            if rest.contains(k) {
                let x = choose|x: int| 0 <= x < rest.len() && rest[x] == k;
                assert(at[x] == k);
            }
            if at.contains(k) {
                let x = choose|x: int| 0 <= x < at.len() && at[x] == k;
                if x < rest.len() {
                    assert(rest[x] == k);
                }
            }
            if there {
                assert(at[rest.len() as int] == n);
            }
        }
        assert forall|i: int, j: int| 0 <= i < j < at.len() implies (#[trigger] at[i]) < (
        #[trigger] at[j]) by {
            assert(at[i] == rest[i]);
            assert(rest.contains(rest[i]));
            if j < rest.len() {
                assert(at[j] == rest[j]);
            }
        }
        assert(facts.last() == facts[n]);
        assert forall|i: int| 0 <= i < at.len() implies {
            let f = facts[at[i]];
            let d = #[trigger] listed(facts)[i];
                let path = f.path->0@;
                &&& d.pid == f.pid->0
                &&& f.path is None || last_component(path).len() == 0 ==> d.name.len() == 0
                    && d.executable is None
                &&& f.path is Some && last_component(path).len() > 0 ==> d.name == last_component(
                    path,
                ) && d.executable == Some(last_component(path))
                &&& d.bundle_id == opt(f.bundle_id)
                &&& f.running_output is None ==> d.is_output_active is None
                &&& f.running_output is Some ==> d.is_output_active == Some(
                    f.running_output->0 != 0,
                )
        } by {
            if i < rest.len() {
                assert(rest.contains(rest[i]));
                assert(listed(facts)[i] == listed(less)[i]);
                assert(at[i] == rest[i]);
                assert(facts[at[i]] == less[at[i]]);
            }
        }
        at
    }
}

} // verus!
