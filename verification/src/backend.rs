//! Life cycle of a capture backend: a thread that reports when it is ready, and is stopped and
//! joined.

use vstd::prelude::*;

use crate::text::join;
use crate::types::{Error, ErrorView};

verus! {

/// How the setup of a capture thread went.
#[derive(Debug)]
pub enum Ready<E> {
    /// It is set up and runs.
    Running,
    /// It could not be set up.
    Failed(E),
    /// It ended without a word.
    Vanished,
    /// It could not be started, with the reason.
    NotSpawned(String),
}

/// What stopping calls for.
#[derive(Clone, Copy, Debug, PartialEq, Eq, Structural)]
pub struct StopSteps {
    /// Tell the thread to stop.
    pub notify: bool,
    /// Wait for the thread.
    pub join: bool,
}

/// Whether a capture thread runs.
#[derive(Clone, Copy, Debug, PartialEq, Eq, Structural)]
pub struct Lifecycle {
    /// Whether it was started and not stopped.
    pub running: bool,
    /// Whether a thread is held.
    pub thread: bool,
    /// Whether there is a way to tell it to stop.
    pub notifier: bool,
}

impl Lifecycle {
    /// Not started.
    pub open spec fn idle() -> Lifecycle {
        Lifecycle { running: false, thread: false, notifier: false }
    }

    /// The state once the setup of the thread went as told.
    ///
    /// A start counts as running before its thread is spawned. Where the thread could not be
    /// spawned at all, that stays until the backend is stopped; a thread that came to nothing
    /// takes it back.
    pub open spec fn settled<E>(self, ready: Ready<E>) -> Lifecycle {
        match ready {
            Ready::Running => Lifecycle { running: true, thread: true, notifier: true },
            Ready::Failed(_) => Lifecycle { running: false, ..self },
            Ready::Vanished => Lifecycle { running: false, ..self },
            Ready::NotSpawned(_) => Lifecycle { running: true, ..self },
        }
    }

    /// A backend that was not started.
    pub fn new() -> (res: Lifecycle)
        ensures
            res == Lifecycle::idle(),
    {
        Lifecycle { running: false, thread: false, notifier: false }
    }

    /// Settles a start whose failures are texts.
    pub fn settle(&mut self, ready: Ready<String>, spawn_text: &str, vanished_text: &str) -> (res:
        Result<(), Error>)
        ensures
            *final(self) == old(self).settled(ready),
            match ready {
                Ready::Running => res is Ok,
                Ready::Failed(m) => res matches Err(e) && e@ == ErrorView::Backend(m@),
                Ready::Vanished => res matches Err(e) && e@ == ErrorView::Backend(
                    vanished_text@,
                ),
                Ready::NotSpawned(m) => res matches Err(e) && e@ == ErrorView::Backend(
                    spawn_text@ + m@,
                ),
            },
    {
        match ready {
            Ready::Running => {
                *self = Lifecycle { running: true, thread: true, notifier: true };
                Ok(())
            },
            Ready::Failed(m) => {
                self.running = false;
                Err(Error::Backend(m))
            },
            Ready::Vanished => {
                self.running = false;
                Err(Error::Backend(vanished_text.to_owned()))
            },
            Ready::NotSpawned(m) => {
                self.running = true;
                Err(Error::Backend(join(spawn_text, m.as_str())))
            },
        }
    }

    /// Stops: a running thread is told so, and a thread that is held is waited for.
    pub fn stop(&mut self) -> (res: StopSteps)
        ensures
            *final(self) == Lifecycle::idle(),
            res.notify == (old(self).running && old(self).notifier),
            res.join == old(self).thread,
    {
        let steps: StopSteps = StopSteps {
            notify: self.running && self.notifier,
            join: self.thread,
        };
        *self = Lifecycle { running: false, thread: false, notifier: false };
        steps
    }
}

/// The life cycle of a backend whose thread watches a flag, and that counts as running while it
/// holds a thread.
#[derive(Clone, Copy, Debug, PartialEq, Eq, Structural)]
pub struct FlagLifecycle {
    /// Whether a thread is held.
    pub thread: bool,
    /// Whether the thread is to stop.
    pub stop_flag: bool,
}

impl FlagLifecycle {
    /// A backend that was not started.
    pub fn new() -> (res: FlagLifecycle)
        ensures
            res == (FlagLifecycle { thread: false, stop_flag: false }),
    {
        FlagLifecycle { thread: false, stop_flag: false }
    }

    /// Settles a start.
    pub fn settle(&mut self, ready: Ready<Error>, spawn_text: &str, vanished_text: &str) -> (res:
        Result<(), Error>)
        requires
            !old(self).thread,
        ensures
            final(self).thread == (ready is Running),
            !final(self).stop_flag,
            match ready {
                Ready::Running => res is Ok,
                Ready::Failed(m) => res matches Err(e) && e@ == m@,
                Ready::Vanished => res matches Err(e) && e@ == ErrorView::Backend(
                    vanished_text@,
                ),
                Ready::NotSpawned(m) => res matches Err(e) && e@ == ErrorView::Backend(
                    spawn_text@ + m@,
                ),
            },
    {
        self.stop_flag = false;
        match ready {
            Ready::Running => {
                self.thread = true;
                Ok(())
            },
            Ready::Failed(e) => Err(e),
            Ready::Vanished => Err(Error::Backend(vanished_text.to_owned())),
            Ready::NotSpawned(m) => Err(Error::Backend(join(spawn_text, m.as_str()))),
        }
    }

    /// Stops: the flag is set, and a thread that is held is waited for. Says whether there is
    /// one.
    pub fn stop(&mut self) -> (res: bool)
        ensures
            *final(self) == (FlagLifecycle { thread: false, stop_flag: true }),
            res == old(self).thread,
    {
        let held: bool = self.thread;
        self.thread = false;
        self.stop_flag = true;
        held
    }
}

/// What a start leaves behind. A thread that runs is held and can be told to stop. One that came
/// to nothing leaves the backend stopped, and one that could not be spawned leaves it counting as
/// running; neither changes what is held.
pub proof fn lemma_what_a_start_leaves<E>(life: Lifecycle, failure: E, reason: String)
    ensures
        ({
            let ran = life.settled(Ready::<E>::Running);
            &&& ran.running && ran.thread && ran.notifier
        }),
        ({
            let failed = life.settled(Ready::Failed(failure));
            &&& !failed.running
            &&& failed.thread == life.thread && failed.notifier == life.notifier
        }),
        life.settled(Ready::<E>::Vanished) == life.settled(Ready::Failed(failure)),
        ({
            let unspawned = life.settled(Ready::<E>::NotSpawned(reason));
            &&& unspawned.running
            &&& unspawned.thread == life.thread && unspawned.notifier == life.notifier
        }),
        !Lifecycle::idle().running && !Lifecycle::idle().thread && !Lifecycle::idle().notifier,
{
}

} // verus!
