//! Listing of processes that have an audio session.

use vstd::prelude::*;

use crate::text::{chars_of, executable_basename, last_component, opt, signed_decimal};
use crate::types::{Error, ErrorView, ProcessInfo, ProcessView};
use crate::windows::version::ensure_process_loopback_supported;

verus! {

/// The state of a session.
#[derive(Clone, Copy, Debug, PartialEq, Eq, Structural)]
pub enum SessionState {
    /// It does not play.
    Inactive,
    /// It plays.
    Active,
    /// It is over.
    Expired,
}

/// What is known of a session; `None` where it cannot be read.
#[derive(Clone, Copy, Debug, PartialEq, Eq, Structural)]
pub struct SessionFacts {
    /// Whether the session itself can be read.
    pub readable: bool,
    /// Whether it is the session of system sounds.
    pub system_sounds: bool,
    /// Its process.
    pub pid: Option<u32>,
    /// Its state.
    pub state: Option<SessionState>,
}

/// A session that is listed.
#[derive(Clone, Copy, Debug, PartialEq, Eq, Structural)]
pub struct SessionRecord {
    /// Its process.
    pub pid: u32,
    /// Whether it plays, where that is known.
    pub active: Option<bool>,
}

/// The session that is listed: not that of system sounds, not one that is over, and one with a
/// process.
pub open spec fn session_of(f: SessionFacts) -> Option<SessionRecord> {
    if !f.readable || f.system_sounds || f.pid is None || f.pid == Some(0u32) || f.state == Some(
        SessionState::Expired,
    ) {
        None
    } else {
        Some(
            SessionRecord {
                pid: f.pid->0,
                active: match f.state {
                    Some(s) => Some(s == SessionState::Active),
                    None => None,
                },
            },
        )
    }
}

/// Reads one session.
pub fn read_session(f: &SessionFacts) -> (res: Option<SessionRecord>)
    ensures
        res == session_of(*f),
{
    if !f.readable || f.system_sounds {
        return None;
    }
    let pid: u32 = match f.pid {
        Some(p) => p,
        None => {
            return None;
        },
    };
    if pid == 0 {
        return None;
    }
    let active: Option<bool> = match f.state {
        Some(SessionState::Expired) => {
            return None;
        },
        Some(SessionState::Active) => Some(true),
        Some(SessionState::Inactive) => Some(false),
        None => None,
    };
    Some(SessionRecord { pid, active })
}

/// What an endpoint gave: its sessions, or why they could not be read.
#[derive(Debug)]
pub enum Endpoint {
    /// Its sessions.
    Sessions(Vec<SessionFacts>),
    /// The error.
    Failed(Error),
}

/// The sessions of one endpoint that are listed, in order.
pub open spec fn sessions_of(facts: Seq<SessionFacts>) -> Seq<SessionRecord>
    decreases facts.len(),
{
    if facts.len() == 0 {
        Seq::empty()
    } else {
        let rest = sessions_of(facts.drop_last());
        match session_of(facts.last()) {
            Some(r) => rest.push(r),
            None => rest,
        }
    }
}

/// The sessions of all endpoints that could be read, in order.
pub open spec fn all_sessions(endpoints: Seq<Endpoint>) -> Seq<SessionRecord>
    decreases endpoints.len(),
{
    if endpoints.len() == 0 {
        Seq::empty()
    } else {
        let rest = all_sessions(endpoints.drop_last());
        match endpoints.last() {
            Endpoint::Sessions(facts) => rest + sessions_of(facts@),
            Endpoint::Failed(_) => rest,
        }
    }
}

/// Whether there are endpoints and none of them could be read.
pub open spec fn all_failed(endpoints: Seq<Endpoint>) -> bool {
    endpoints.len() > 0 && forall|i: int|
        0 <= i < endpoints.len() ==> #[trigger] endpoints[i] is Failed
}

/// Collects the sessions of all endpoints. Where there are endpoints and none could be read, the
/// last error is given.
pub fn collect_sessions(endpoints: Vec<Endpoint>) -> (res: Result<Vec<SessionRecord>, Error>)
    ensures
        if all_failed(endpoints@) {
            res matches Err(e) && endpoints@.last() matches Endpoint::Failed(w) && e@ == w@
        } else {
            res matches Ok(v) && v@ == all_sessions(endpoints@)
        },
{
    let mut out: Vec<SessionRecord> = Vec::new();
    let mut any_read: bool = false;
    let mut i: usize = 0;
    while i < endpoints.len()
        invariant
            i <= endpoints@.len(),
            out@ == all_sessions(endpoints@.take(i as int)),
            any_read == exists|k: int| 0 <= k < i && !(#[trigger] endpoints@[k] is Failed),
        decreases endpoints@.len() - i,
    {
        proof {
            assert(endpoints@.take(i + 1).drop_last() =~= endpoints@.take(i as int));
            assert(endpoints@.take(i + 1).last() == endpoints@[i as int]);
        }
        match &endpoints[i] {
            Endpoint::Sessions(facts) => {
                assert(!(endpoints@[i as int] is Failed));
                any_read = true;
                let ghost before = out@;
                let mut k: usize = 0;
                assert(before + sessions_of(facts@.take(0)) =~= before);
                while k < facts.len()
                    invariant
                        k <= facts@.len(),
                        out@ == before + sessions_of(facts@.take(k as int)),
                    decreases facts@.len() - k,
                {
                    proof {
                        assert(facts@.take(k + 1).drop_last() =~= facts@.take(k as int));
                        assert(facts@.take(k + 1).last() == facts@[k as int]);
                    }
                    if let Some(r) = read_session(&facts[k]) {
                        out.push(r);
                    }
                    assert(out@ =~= before + sessions_of(facts@.take(k + 1)));
                    k = k + 1;
                }
                assert(facts@.take(facts@.len() as int) =~= facts@);
            },
            Endpoint::Failed(_) => {},
        }
        i = i + 1;
    }
    assert(endpoints@.take(endpoints@.len() as int) =~= endpoints@);
    if endpoints.len() > 0 && !any_read {
        let mut rest: Vec<Endpoint> = endpoints;
        if let Some(Endpoint::Failed(e)) = rest.pop() {
            assert(all_failed(endpoints@));
            return Err(e);
        }
    }
    Ok(out)
}

/// A letter in lower case, where it is an ASCII capital.
pub open spec fn lower(c: char) -> char {
    if 'A' <= c <= 'Z' {
        (c as u32 + 32) as char
    } else {
        c
    }
}

/// Whether a text ends in `.exe`, in capitals or not.
pub open spec fn ends_in_exe(s: Seq<char>) -> bool {
    &&& s.len() >= 4
    &&& s[s.len() - 4] == '.'
    &&& lower(s[s.len() - 3]) == 'e'
    &&& lower(s[s.len() - 2]) == 'x'
    &&& lower(s[s.len() - 1]) == 'e'
}

/// The display name for the name of an executable: without `.exe`, unless that is all of it.
pub open spec fn stem(s: Seq<char>) -> Seq<char> {
    if s.len() > 4 && ends_in_exe(s) {
        s.take(s.len() - 4)
    } else {
        s
    }
}

/// The display name for the name of an executable.
pub fn display_stem(executable: &str) -> (res: String)
    ensures
        res@ == stem(executable@),
{
    let cs: Vec<char> = chars_of(executable);
    let n: usize = cs.len();
    if n > 4 {
        let a: char = cs[n - 4];
        let b: char = cs[n - 3];
        let c: char = cs[n - 2];
        let d: char = cs[n - 1];
        assert(forall|x: char| lower(x) == 'e' <==> x == 'e' || x == 'E');
        assert(forall|x: char| lower(x) == 'x' <==> x == 'x' || x == 'X');
        if a == '.' && (b == 'e' || b == 'E') && (c == 'x' || c == 'X') && (d == 'e' || d == 'E') {
            let s: &str = executable.substring_char(0, n - 4);
            assert(s@ =~= executable@.take(n - 4));
            return s.to_owned();
        }
    }
    executable.to_owned()
}

/// The name of an executable, from its path.
pub open spec fn executable_of(path: Option<Seq<char>>) -> Option<Seq<char>> {
    match path {
        Some(p) => if last_component(p).len() > 0 {
            Some(last_component(p))
        } else {
            None
        },
        None => None,
    }
}

/// The process for a session and the path of its executable.
pub open spec fn process_of(r: SessionRecord, path: Option<Seq<char>>) -> ProcessView {
    ProcessView {
        pid: r.pid,
        name: match executable_of(path) {
            Some(n) => stem(n),
            None => Seq::empty(),
        },
        executable: executable_of(path),
        bundle_id: None,
        is_output_active: r.active,
    }
}

/// Makes the process for a session.
pub fn make_process(r: &SessionRecord, path: Option<&str>) -> (res: ProcessInfo)
    ensures
        res@ == process_of(*r, crate::text::opt_str(path)),
{
    let executable: Option<String> = match path {
        Some(p) => executable_basename(p),
        None => None,
    };
    let name: String = match &executable {
        Some(n) => display_stem(n.as_str()),
        None => String::new(),
    };
    let p: ProcessInfo = ProcessInfo {
        pid: r.pid,
        name,
        executable,
        bundle_id: None,
        is_output_active: r.active,
    };
    assert(p@.name =~= process_of(*r, crate::text::opt_str(path)).name);
    p
}

/// Lists the processes of a build, given what its endpoints gave. `path_of` looks up the path of
/// the executable of a process, where it can be read.
///
/// A build without process loopback, and one that cannot be had, is refused before anything else.
/// Only processes that are listed are looked up.
pub fn list_processes<F: Fn(u32) -> Option<String>>(
    build: Result<u32, i32>,
    endpoints: Vec<Endpoint>,
    path_of: F,
) -> (res: Result<Vec<ProcessInfo>, Error>)
    requires
        (build matches Ok(b) && b >= 20_348) && !all_failed(endpoints@) ==> forall|i: int|
            0 <= i < all_sessions(endpoints@).len() ==> call_requires(
                path_of,
                ((#[trigger] all_sessions(endpoints@)[i]).pid,),
            ),
    ensures
        match build {
            Err(status) => res matches Err(e) && e@ == ErrorView::Backend(
                "RtlGetVersion failed (NTSTATUS "@ + signed_decimal(status as int) + ")"@,
            ),
            Ok(b) => if b < 20_348 {
                res matches Err(e) && e@ == ErrorView::UnsupportedOsVersion
            } else if all_failed(endpoints@) {
                res matches Err(e) && endpoints@.last() matches Endpoint::Failed(w) && e@ == w@
            } else {
                &&& res is Ok
                &&& res->Ok_0@.len() == all_sessions(endpoints@).len()
                &&& forall|i: int|
                    0 <= i < res->Ok_0@.len() ==> looked_up(
                        path_of,
                        all_sessions(endpoints@)[i],
                        #[trigger] res->Ok_0@[i],
                    )
            },
        },
{
    match ensure_process_loopback_supported(build) {
        Err(e) => {
            return Err(e);
        },
        Ok(_) => {},
    }
    let sessions: Vec<SessionRecord> = match collect_sessions(endpoints) {
        Ok(v) => v,
        Err(e) => {
            return Err(e);
        },
    };
    let mut out: Vec<ProcessInfo> = Vec::new();
    let mut i: usize = 0;
    while i < sessions.len()
        invariant
            i <= sessions@.len(),
            out@.len() == i,
            forall|k: int|
                0 <= k < sessions@.len() ==> call_requires(
                    path_of,
                    ((#[trigger] sessions@[k]).pid,),
                ),
            forall|k: int| 0 <= k < i ==> looked_up(path_of, sessions@[k], #[trigger] out@[k]),
        decreases sessions@.len() - i,
    {
        let found: Option<String> = path_of(sessions[i].pid);
        let path: Option<&str> = match &found {
            Some(p) => Some(p.as_str()),
            None => None,
        };
        let p: ProcessInfo = make_process(&sessions[i], path);
        assert(looked_up(path_of, sessions@[i as int], p)) by {
            assert(call_ensures(path_of, (sessions@[i as int].pid,), found));
        }
        out.push(p);
        i = i + 1;
    }
    Ok(out)
}

/// Whether a process is that of a session, its executable at a path that was looked up for it.
pub open spec fn looked_up<F: Fn(u32) -> Option<String>>(
    path_of: F,
    r: SessionRecord,
    p: ProcessInfo,
) -> bool {
    exists|path: Option<String>| #[trigger]
        call_ensures(path_of, (r.pid,), path) && p@ == process_of(r, opt(path))
}

/// No session of process 0 and none that is over is listed.
pub proof fn lemma_sessions_have_processes(facts: Seq<SessionFacts>, i: int)
    requires
        0 <= i < sessions_of(facts).len(),
    ensures
        sessions_of(facts)[i].pid != 0,
    decreases facts.len(),
{
    if i < sessions_of(facts.drop_last()).len() {
        lemma_sessions_have_processes(facts.drop_last(), i);
    }
}

/// Every session that can be read, is none of system sounds, is not over and has a process other
/// than 0 is listed, once and in order, and nothing else is: `at` tells which session each entry
/// is. It has the process of the session, and plays where the session does, idle ones too.
pub proof fn lemma_every_session_is_listed(facts: Seq<SessionFacts>) -> (at: Seq<int>)
    ensures
        forall|i: int, j: int| 0 <= i < j < at.len() ==> (#[trigger] at[i]) < (#[trigger] at[j]),
        forall|k: int| #[trigger]
            at.contains(k) <==> 0 <= k < facts.len() && (facts[k].readable && !facts[k].system_sounds && facts[k].pid is Some && facts[k].pid != Some(0u32) && facts[k].state != Some(SessionState::Expired)),
        sessions_of(facts).len() == at.len(),
        forall|i: int|
            0 <= i < at.len() ==> {
                let f = facts[at[i]];
                let d = #[trigger] sessions_of(facts)[i];
                &&& d.pid == f.pid->0
                &&& f.state is None ==> d.active is None
                &&& f.state == Some(SessionState::Active) ==> d.active == Some(true)
                &&& f.state == Some(SessionState::Inactive) ==> d.active == Some(false)
            },
    decreases facts.len(),
{
    if facts.len() == 0 {
        Seq::empty()
    } else {
        let less = facts.drop_last();
        let n: int = less.len() as int;
        let rest = lemma_every_session_is_listed(less);
        let there = (facts[n].readable && !facts[n].system_sounds && facts[n].pid is Some && facts[n].pid != Some(0u32) && facts[n].state != Some(SessionState::Expired));
        let at = if there {
            rest.push(n)
        } else {
            rest
        };
        assert forall|k: int| #[trigger] at.contains(k) <==> 0 <= k < facts.len() && (facts[k].readable && !facts[k].system_sounds && facts[k].pid is Some && facts[k].pid != Some(0u32) && facts[k].state != Some(SessionState::Expired)) by {
            if 0 <= k < n {
                assert(less[k] == facts[k]);
            }
            assert(rest.contains(k) ==> 0 <= k < n);
            if rest.contains(k) {
                let x = choose|x: int| 0 <= x < rest.len() && rest[x] == k;
                assert(at[x] == k);
            }
            if at.contains(k) {
                let x = choose|x: int| 0 <= x < at.len() && at[x] == k;
                if x < rest.len() {
                    assert(rest[x] == k);
                }
            }
            if there {
                assert(at[rest.len() as int] == n);
            }
        }
        assert forall|i: int, j: int| 0 <= i < j < at.len() implies (#[trigger] at[i]) < (
        #[trigger] at[j]) by {
            assert(at[i] == rest[i]);
            assert(rest.contains(rest[i]));
            if j < rest.len() {
                assert(at[j] == rest[j]);
            }
        }
        assert(facts.last() == facts[n]);
        assert forall|i: int| 0 <= i < at.len() implies {
            let f = facts[at[i]];
            let d = #[trigger] sessions_of(facts)[i];
                &&& d.pid == f.pid->0
                &&& f.state is None ==> d.active is None
                &&& f.state == Some(SessionState::Active) ==> d.active == Some(true)
                &&& f.state == Some(SessionState::Inactive) ==> d.active == Some(false)
        } by {
            if i < rest.len() {
                assert(rest.contains(rest[i]));
                assert(sessions_of(facts)[i] == sessions_of(less)[i]);
                assert(at[i] == rest[i]);
                assert(facts[at[i]] == less[at[i]]);
            }
        }
        at
    }
}

/// The sessions of all endpoints are those of each that could be read, one endpoint after the
/// other.
pub proof fn lemma_sessions_of_all_endpoints(endpoints: Seq<Endpoint>, more: Endpoint)
    ensures
        all_sessions(Seq::empty()).len() == 0,
        more matches Endpoint::Sessions(facts) ==> all_sessions(endpoints.push(more))
            == all_sessions(endpoints) + sessions_of(facts@),
        more is Failed ==> all_sessions(endpoints.push(more)) == all_sessions(endpoints),
        all_failed(endpoints) <==> endpoints.len() > 0 && forall|i: int|
            0 <= i < endpoints.len() ==> (#[trigger] endpoints[i]) is Failed,
{
    assert(endpoints.push(more).drop_last() =~= endpoints);
}

/// Only an ending `.exe`, in capitals or not, is dropped from a name, and only where something
/// stands in front of it.
pub proof fn lemma_display_name(body: Seq<char>, e: char, x: char, f: char, other: Seq<char>)
    requires
        e == 'e' || e == 'E',
        x == 'x' || x == 'X',
        f == 'e' || f == 'E',
    ensures
        body.len() > 0 ==> stem(body + seq!['.', e, x, f]) == body,
        stem(seq!['.', e, x, f]) == seq!['.', e, x, f],
        other.len() < 4 || other[other.len() - 4] != '.' || (other[other.len() - 3] != 'e'
            && other[other.len() - 3] != 'E') || (other[other.len() - 2] != 'x' && other[other.len()
            - 2] != 'X') || (other[other.len() - 1] != 'e' && other[other.len() - 1] != 'E')
            ==> stem(other) == other,
{
    let whole = body + seq!['.', e, x, f];
    assert(forall|c: char| lower(c) == 'e' <==> c == 'e' || c == 'E');
    assert(forall|c: char| lower(c) == 'x' <==> c == 'x' || c == 'X');
    assert(whole.take(whole.len() - 4) =~= body);
}

/// The process of a session has its number and plays where the session does. Its executable is the
/// last component of its path, where that is there, and its name is that without `.exe`.
pub proof fn lemma_process_of_a_session(r: SessionRecord, path: Option<Seq<char>>)
    ensures
        ({
            let p = process_of(r, path);
            &&& p.pid == r.pid
            &&& p.is_output_active == r.active
            &&& p.bundle_id is None
            &&& path is None || last_component(path->0).len() == 0 ==> p.executable is None
                && p.name.len() == 0
            &&& path is Some && last_component(path->0).len() > 0 ==> p.executable == Some(
                last_component(path->0),
            ) && p.name == stem(last_component(path->0))
        }),
{
}

/// A process that was looked up is that of its session, its executable at some path that the lookup
/// gave for its number.
pub proof fn lemma_looked_up<F: Fn(u32) -> Option<String>>(
    path_of: F,
    r: SessionRecord,
    p: ProcessInfo,
)
    requires
        looked_up(path_of, r, p),
    ensures
        p.pid == r.pid,
        p.is_output_active == r.active,
        p.bundle_id is None,
        exists|path: Option<String>| #[trigger]
            call_ensures(path_of, (r.pid,), path) && p@.executable == executable_of(opt(path)),
{
    let path = choose|path: Option<String>| #[trigger]
        call_ensures(path_of, (r.pid,), path) && p@ == process_of(r, opt(path));
    assert(p@.executable == executable_of(opt(path)));
    assert(opt(p.bundle_id) is None);
}

} // verus!
