//! Stopping of a stream: who waits for it, and how the end signal gets to the script.

use vstd::prelude::*;

verus! {

// ---------------------------------------------------------------------------
// Waiting for the end
// ---------------------------------------------------------------------------

/// How far the stop of a stream has come.
#[derive(Debug)]
pub enum StopPhase<W> {
    /// The stream runs.
    Running,
    /// The stream is being stopped.
    Stopping {
        /// Who waits for it.
        waiters: Vec<W>,
    },
    /// The stream has stopped.
    Stopped,
}

/// How far the stop of a stream has come, with those who wait as a sequence.
pub enum Phase<W> {
    /// The stream runs.
    Running,
    /// The stream is being stopped.
    Stopping(Seq<W>),
    /// The stream has stopped.
    Stopped,
}

impl<W> View for StopPhase<W> {
    type V = Phase<W>;

    open spec fn view(&self) -> Phase<W> {
        match self {
            StopPhase::Running => Phase::Running,
            StopPhase::Stopping { waiters } => Phase::Stopping(waiters@),
            StopPhase::Stopped => Phase::Stopped,
        }
    }
}

impl<W> Phase<W> {
    /// Who waits.
    pub open spec fn waiting(self) -> Seq<W> {
        match self {
            Phase::Stopping(waiters) => waiters,
            _ => Seq::empty(),
        }
    }
}

impl<W> StopPhase<W> {
    /// Ends the stop and gives out those who waited, in the order in which they came.
    pub fn take_stop_waiters(&mut self) -> (res: Vec<W>)
        ensures
            final(self)@ == Phase::<W>::Stopped,
            res@ == old(self)@.waiting(),
    {
        let mut before: StopPhase<W> = StopPhase::Stopped;
        core::mem::swap(self, &mut before);
        match before {
            StopPhase::Stopping { waiters } => waiters,
            _ => Vec::new(),
        }
    }

    /// Whether the end signal has yet to be given.
    pub fn needs_flush(&self) -> (res: bool)
        ensures
            res == (self@ is Stopping),
    {
        match self {
            StopPhase::Stopping { .. } => true,
            _ => false,
        }
    }
}

// ---------------------------------------------------------------------------
// The stream as the script holds it
// ---------------------------------------------------------------------------

/// What a call of `stop` leads to.
#[derive(Debug)]
pub enum StopOutcome<W> {
    /// These are told at once, and the queue of chunks is let go.
    Resolve(Vec<W>),
    /// These are told at once, the queue of chunks is let go, and the thread is joined in the
    /// background.
    Reap(Vec<W>),
    /// A worker joins the thread and gives the end signal if the thread did not.
    Work,
    /// The caller waits for a stop that is under way.
    Wait,
}

impl<W> StopOutcome<W> {
    /// Who is told at once.
    pub open spec fn told(self) -> Seq<W> {
        match self {
            StopOutcome::Resolve(waiters) => waiters@,
            StopOutcome::Reap(waiters) => waiters@,
            _ => Seq::empty(),
        }
    }
}

/// The state of a stream as the script holds it.
pub struct Hold<W> {
    /// Whether the thread was asked to end.
    pub asked: bool,
    /// Whether the thread has yet to be joined.
    pub thread: bool,
    /// Whether commands are taken.
    pub open: bool,
    /// How far the stop has come.
    pub phase: Phase<W>,
}

impl<W> Hold<W> {
    /// At the start.
    pub open spec fn fresh() -> Hold<W> {
        Hold { asked: false, thread: true, open: true, phase: Phase::Running }
    }

    /// After a call of `stop`, `closed` telling whether the queue of chunks is closed.
    pub open spec fn stopped(self, waiter: W, closed: bool) -> Hold<W> {
        match self.phase {
            Phase::Stopped => self,
            Phase::Stopping(waiters) => Hold {
                phase: Phase::Stopping(waiters.push(waiter)),
                ..self
            },
            Phase::Running => Hold {
                asked: true,
                thread: false,
                open: false,
                phase: if self.thread && !closed {
                    Phase::Stopping(seq![waiter])
                } else {
                    Phase::Stopped
                },
            },
        }
    }

    /// Who is told at once by a call of `stop`.
    pub open spec fn told(self, waiter: W, closed: bool) -> Seq<W> {
        match self.phase {
            Phase::Stopped => seq![waiter],
            Phase::Stopping(_) => Seq::empty(),
            Phase::Running => if self.thread && !closed {
                Seq::empty()
            } else {
                seq![waiter]
            },
        }
    }

    /// After the end signal.
    pub open spec fn flushed(self) -> Hold<W> {
        Hold { phase: Phase::Stopped, ..self }
    }

    /// After the script let the stream go.
    pub open spec fn dropped(self) -> Hold<W> {
        Hold { asked: true, thread: false, open: false, ..self }
    }
}

/// A stream as the script holds it. `W` is how someone who waits for the stop is told.
#[derive(Debug)]
pub struct FlexStream<W> {
    stop_flag: bool,
    handle: bool,
    cmd_tx: bool,
    stop_phase: StopPhase<W>,
}

impl<W> View for FlexStream<W> {
    type V = Hold<W>;

    closed spec fn view(&self) -> Hold<W> {
        Hold {
            asked: self.stop_flag,
            thread: self.handle,
            open: self.cmd_tx,
            phase: self.stop_phase@,
        }
    }
}

impl<W> FlexStream<W> {
    /// A stream whose thread has just been started.
    pub fn spawn() -> (res: FlexStream<W>)
        ensures
            res@ == Hold::<W>::fresh(),
    {
        FlexStream { stop_flag: false, handle: true, cmd_tx: true, stop_phase: StopPhase::Running }
    }

    /// Whether commands are taken.
    pub fn is_open(&self) -> (res: bool)
        ensures
            res == self@.open,
    {
        self.cmd_tx
    }

    /// Whether the thread was asked to end.
    pub fn stop_requested(&self) -> (res: bool)
        ensures
            res == self@.asked,
    {
        self.stop_flag
    }

    /// Closes the commands and gives up the thread; tells whether it has to be joined.
    fn take_join_handle(&mut self) -> (res: bool)
        ensures
            final(self)@ == (Hold { thread: false, open: false, ..old(self)@ }),
            res == old(self)@.thread,
    {
        self.cmd_tx = false;
        let had: bool = self.handle;
        self.handle = false;
        had
    }

    /// Stops the stream. The caller is told when everything that was delivered before has reached
    /// the script; a second caller waits for the same, and after the end everyone is told at
    /// once. `chunk_closed` tells whether the queue of chunks is closed, so that nothing can
    /// reach the script any more.
    pub fn stop(&mut self, waiter: W, chunk_closed: bool) -> (res: StopOutcome<W>)
        ensures
            final(self)@ == old(self)@.stopped(waiter, chunk_closed),
            res.told() == old(self)@.told(waiter, chunk_closed),
            match old(self)@.phase {
                Phase::Stopped => res is Resolve,
                Phase::Stopping(_) => res is Wait,
                Phase::Running => if !old(self)@.thread {
                    res is Resolve
                } else if chunk_closed {
                    res is Reap
                } else {
                    res is Work
                },
            },
    {
        let mut before: StopPhase<W> = StopPhase::Stopped;
        core::mem::swap(&mut self.stop_phase, &mut before);
        match before {
            StopPhase::Stopped => {
                let mut now: Vec<W> = Vec::new();
                now.push(waiter);
                assert(now@ =~= seq![waiter]);
                StopOutcome::Resolve(now)
            },
            StopPhase::Stopping { waiters } => {
                let mut waiters: Vec<W> = waiters;
                waiters.push(waiter);
                self.stop_phase = StopPhase::Stopping { waiters };
                StopOutcome::Wait
            },
            StopPhase::Running => {
                let mut waiters: Vec<W> = Vec::new();
                waiters.push(waiter);
                assert(waiters@ =~= seq![waiter]);
                self.stop_phase = StopPhase::Stopping { waiters };
                self.stop_flag = true;
                let has_thread: bool = self.take_join_handle();
                if !has_thread {
                    StopOutcome::Resolve(self.stop_phase.take_stop_waiters())
                } else if chunk_closed {
                    StopOutcome::Reap(self.stop_phase.take_stop_waiters())
                } else {
                    StopOutcome::Work
                }
            },
        }
    }

    /// Whether the worker that joined the thread has to give the end signal.
    pub fn needs_flush(&self) -> (res: bool)
        ensures
            res == (self@.phase is Stopping),
    {
        self.stop_phase.needs_flush()
    }

    /// The end signal reached the script, or can no longer reach it: gives out those who waited.
    pub fn stop_flushed(&mut self) -> (res: Vec<W>)
        ensures
            final(self)@ == old(self)@.flushed(),
            res@ == old(self)@.phase.waiting(),
    {
        self.stop_phase.take_stop_waiters()
    }

    /// The script let the stream go: the thread is asked to end; tells whether it has to be joined
    /// in the background.
    pub fn release(&mut self) -> (res: bool)
        ensures
            final(self)@ == old(self)@.dropped(),
            res == old(self)@.thread,
    {
        self.stop_flag = true;
        self.take_join_handle()
    }
}

/// Nobody who calls `stop` is forgotten or told twice: whoever was waiting and the caller are
/// together those who are told now and those who wait on.
pub proof fn lemma_no_waiter_lost<W>(hold: Hold<W>, waiter: W, closed: bool)
    ensures
        hold.told(waiter, closed) + hold.stopped(waiter, closed).phase.waiting()
            == hold.phase.waiting().push(waiter),
        hold.flushed().phase.waiting().len() == 0,
{
    match hold.phase {
        Phase::Stopped => {
            assert(seq![waiter] + Seq::<W>::empty() =~= Seq::<W>::empty().push(waiter));
        },
        Phase::Stopping(waiters) => {
            assert(Seq::<W>::empty() + waiters.push(waiter) =~= waiters.push(waiter));
        },
        Phase::Running => {
            assert(seq![waiter] + Seq::<W>::empty() =~= Seq::<W>::empty().push(waiter));
            assert(Seq::<W>::empty() + seq![waiter] =~= Seq::<W>::empty().push(waiter));
        },
    }
}

/// A stream that was stopped once never takes commands again, and its thread is joined by one
/// party only.
pub proof fn lemma_stop_is_final<W>(hold: Hold<W>, waiter: W, closed: bool)
    requires
        hold.phase is Running || !hold.open && !hold.thread && hold.asked,
    ensures
        !hold.stopped(waiter, closed).open,
        !hold.stopped(waiter, closed).thread,
        hold.stopped(waiter, closed).asked,
        !(hold.stopped(waiter, closed).phase is Running),
        !(hold.flushed().phase is Running),
        hold.dropped().stopped(waiter, closed).open == false,
{
}

/// Where the stream has stopped, a further call changes nothing and its caller is told at once.
pub proof fn lemma_stop_again<W>(hold: Hold<W>, waiter: W, closed: bool)
    requires
        hold.phase is Stopped,
    ensures
        hold.stopped(waiter, closed) == hold,
        hold.told(waiter, closed) == seq![waiter],
{
}

// ---------------------------------------------------------------------------
// The end signal
// ---------------------------------------------------------------------------

/// How a queue of the script answered.
#[derive(Clone, Copy, Debug, PartialEq, Eq, Structural)]
pub enum CallStatus {
    /// It took the call.
    Accepted,
    /// It is being closed.
    Closing,
    /// It refused for another reason.
    Refused,
}

/// Where the end signal is tried.
#[derive(Clone, Copy, Debug, PartialEq, Eq, Structural)]
pub enum PostStep {
    /// The queue of chunks, without waiting.
    Chunk,
    /// The queue of chunks, waiting for room.
    ChunkBlocking,
    /// The queue for settling, without waiting.
    Settle,
    /// The queue for settling, waiting for room.
    SettleBlocking,
}

/// What follows an answer.
#[derive(Clone, Copy, Debug, PartialEq, Eq, Structural)]
pub enum PostNext {
    /// The signal is on its way.
    Done,
    /// It is tried there next.
    Try(PostStep),
    /// The script no longer runs, and those who wait are let go.
    Discard,
}

/// What follows an answer.
pub open spec fn next_post(step: PostStep, status: CallStatus) -> PostNext {
    if status == CallStatus::Accepted {
        PostNext::Done
    } else {
        match step {
            PostStep::Chunk => if status == CallStatus::Closing {
                PostNext::Try(PostStep::Settle)
            } else {
                PostNext::Try(PostStep::ChunkBlocking)
            },
            PostStep::ChunkBlocking => PostNext::Try(PostStep::Settle),
            PostStep::Settle => if status == CallStatus::Closing {
                PostNext::Discard
            } else {
                PostNext::Try(PostStep::SettleBlocking)
            },
            PostStep::SettleBlocking => PostNext::Discard,
        }
    }
}

/// Decides where the end signal is tried next. It starts on the queue of chunks, without waiting,
/// so that it comes behind everything that was delivered.
pub fn post_stop_flushed(step: PostStep, status: CallStatus) -> (res: PostNext)
    ensures
        res == next_post(step, status),
{
    match (step, status) {
        (_, CallStatus::Accepted) => PostNext::Done,
        (PostStep::Chunk, CallStatus::Closing) => PostNext::Try(PostStep::Settle),
        (PostStep::Chunk, CallStatus::Refused) => PostNext::Try(PostStep::ChunkBlocking),
        (PostStep::ChunkBlocking, _) => PostNext::Try(PostStep::Settle),
        (PostStep::Settle, CallStatus::Closing) => PostNext::Discard,
        (PostStep::Settle, CallStatus::Refused) => PostNext::Try(PostStep::SettleBlocking),
        (PostStep::SettleBlocking, _) => PostNext::Discard,
    }
}

/// How the whole posting ends, given what each queue would answer.
pub open spec fn posted(step: PostStep, answer: spec_fn(PostStep) -> CallStatus) -> PostNext
    decreases
            match step {
                PostStep::Chunk => 3int,
                PostStep::ChunkBlocking => 2int,
                PostStep::Settle => 1int,
                PostStep::SettleBlocking => 0int,
            },
{
    match next_post(step, answer(step)) {
        PostNext::Try(next) => posted(next, answer),
        end => end,
    }
}

/// The signal is given up only where every queue refuses it; a queue that would take it after
/// waiting is asked unless it is being closed.
pub proof fn lemma_signal_is_given(answer: spec_fn(PostStep) -> CallStatus)
    ensures
        posted(PostStep::Chunk, answer) is Done || posted(PostStep::Chunk, answer) is Discard,
        posted(PostStep::Chunk, answer) is Discard ==> {
            &&& answer(PostStep::Chunk) != CallStatus::Accepted
            &&& answer(PostStep::Settle) != CallStatus::Accepted
            &&& answer(PostStep::Chunk) == CallStatus::Closing || answer(PostStep::ChunkBlocking)
                != CallStatus::Accepted
            &&& answer(PostStep::Settle) == CallStatus::Closing || answer(PostStep::SettleBlocking)
                != CallStatus::Accepted
        },
{
    reveal_with_fuel(posted, 5);
}

/// The queue for settling, which could overtake what was delivered, is asked only where the queue
/// of chunks is being closed or refused even after waiting.
pub proof fn lemma_order_is_kept(step: PostStep, status: CallStatus)
    requires
        next_post(step, status) == PostNext::Try(PostStep::Settle),
    ensures
        step == PostStep::Chunk && status == CallStatus::Closing || step == PostStep::ChunkBlocking
            && status != CallStatus::Accepted,
{
}

/// Where the end signal goes next, by answer. A queue that takes it ends the matter. The queue of
/// chunks is asked once more, waiting, unless it is being closed, and so is the queue for
/// settling, which is next; behind that nothing is left.
pub proof fn lemma_where_the_signal_goes(step: PostStep, status: CallStatus)
    ensures
        next_post(step, status) is Done <==> status == CallStatus::Accepted,
        next_post(PostStep::Chunk, CallStatus::Refused) == PostNext::Try(PostStep::ChunkBlocking),
        next_post(PostStep::Chunk, CallStatus::Closing) == PostNext::Try(PostStep::Settle),
        status != CallStatus::Accepted ==> next_post(PostStep::ChunkBlocking, status)
            == PostNext::Try(PostStep::Settle),
        next_post(PostStep::Settle, CallStatus::Refused) == PostNext::Try(
            PostStep::SettleBlocking,
        ),
        next_post(PostStep::Settle, CallStatus::Closing) == PostNext::Discard,
        status != CallStatus::Accepted ==> next_post(PostStep::SettleBlocking, status)
            == PostNext::Discard,
{
}

/// The first call of `stop` ends a running stream: its caller waits where the thread still has to
/// be joined and the queue of chunks is open, and is told at once where not. A further caller
/// waits behind those who wait.
pub proof fn lemma_who_waits<W>(hold: Hold<W>, waiter: W, closed: bool)
    ensures
        hold.phase is Running && hold.thread && !closed ==> {
            &&& hold.stopped(waiter, closed).phase == Phase::Stopping(seq![waiter])
            &&& hold.told(waiter, closed).len() == 0
        },
        hold.phase is Running && (!hold.thread || closed) ==> {
            &&& hold.stopped(waiter, closed).phase is Stopped
            &&& hold.told(waiter, closed) == seq![waiter]
        },
        hold.phase is Stopping ==> {
            &&& hold.stopped(waiter, closed).phase == Phase::Stopping(
                hold.phase.waiting().push(waiter),
            )
            &&& hold.told(waiter, closed).len() == 0
            &&& hold.stopped(waiter, closed).asked == hold.asked
            &&& hold.stopped(waiter, closed).thread == hold.thread
            &&& hold.stopped(waiter, closed).open == hold.open
        },
        hold.flushed().phase is Stopped,
        hold.flushed().asked == hold.asked && hold.flushed().thread == hold.thread
            && hold.flushed().open == hold.open,
        hold.dropped().asked && !hold.dropped().thread && !hold.dropped().open
            && hold.dropped().phase == hold.phase,
        Hold::<W>::fresh().phase is Running && Hold::<W>::fresh().thread && Hold::<W>::fresh().open
            && !Hold::<W>::fresh().asked,
{
}

} // verus!
