//! Recording sessions: which device records into which process, and the
//! decisions of the start and stop protocols.
//!
//! The registry maps a device identifier to the handle of its recorder
//! process, at most one per device. Starting refuses a device that already
//! records. Stopping removes the session first, then signals the recorder and
//! polls it for at most `STOP_TIMEOUT_MS`, killing it when the deadline passes.
use vstd::prelude::*;
use crate::text::{chars_of, push_str, same_text, string_of, strings_view, trim_range, trimmed};

verus! {

/// How long a stop waits for the recorder to exit, from the first poll.
pub const STOP_TIMEOUT_MS: u64 = 5000;

/// The pause between two polls of the recorder.
pub const POLL_INTERVAL_MS: u64 = 100;

/// The active recording sessions, keyed by device identifier.
pub struct SessionRegistry<H> {
    sessions: Vec<(String, H)>,
}

impl<H> View for SessionRegistry<H> {
    type V = Map<Seq<char>, H>;

    closed spec fn view(&self) -> Map<Seq<char>, H> {
        Map::new(|k: Seq<char>| self.holds(k), |k: Seq<char>| self.sessions@[self.slot_of(k)].1)
    }
}

impl<H> SessionRegistry<H> {
    spec fn holds(&self, k: Seq<char>) -> bool {
        exists|i: int| 0 <= i < self.sessions@.len() && self.sessions@[i].0@ == k
    }

    spec fn slot_of(&self, k: Seq<char>) -> int {
        choose|i: int| 0 <= i < self.sessions@.len() && self.sessions@[i].0@ == k
    }

    /// No device has two sessions.
    pub closed spec fn wf(&self) -> bool {
        forall|i: int, j: int|
            0 <= i < self.sessions@.len() && 0 <= j < self.sessions@.len() && i != j
                ==> self.sessions@[i].0@ != self.sessions@[j].0@
    }

    proof fn lemma_slot(&self, i: int)
        requires
            self.wf(),
            0 <= i < self.sessions@.len(),
        ensures
            self@.contains_key(self.sessions@[i].0@),
            self.slot_of(self.sessions@[i].0@) == i,
            self@[self.sessions@[i].0@] == self.sessions@[i].1,
    {
        let k = self.sessions@[i].0@;
        assert(self.holds(k));
    }

    /// An empty registry.
    pub fn new() -> (r: Self)
        ensures
            r.wf(),
            r@ == Map::<Seq<char>, H>::empty(),
    {
        let r = SessionRegistry { sessions: Vec::new() };
        assert(r@ =~= Map::<Seq<char>, H>::empty());
        r
    }

    fn find(&self, device: &str) -> (r: Option<usize>)
        ensures
            r matches Some(i) ==> i < self.sessions@.len() && self.sessions@[i as int].0@
                == device@,
            r is None ==> !self.holds(device@),
    {
        let mut i: usize = 0;
        while i < self.sessions.len()
            invariant
                i <= self.sessions@.len(),
                forall|k: int| 0 <= k < i ==> self.sessions@[k].0@ != device@,
            decreases self.sessions@.len() - i,
        {
            if same_text(self.sessions[i].0.as_str(), device) {
                return Some(i);
            }
            i = i + 1;
        }
        None
    }

    /// Whether `device` has an active session.
    pub fn is_recording(&self, device: &str) -> (r: bool)
        requires
            self.wf(),
        ensures
            r == self@.contains_key(device@),
    {
        match self.find(device) {
            Some(i) => {
                proof {
                    self.lemma_slot(i as int);
                }
                true
            },
            None => false,
        }
    }

    /// Whether a recording may start on `device`: refused while one is active.
    pub fn check_start(&self, device: &str) -> (r: Result<(), SessionError>)
        requires
            self.wf(),
        ensures
            r is Err <==> self@.contains_key(device@),
            r matches Err(e) ==> e is AlreadyRecording,
    {
        if self.is_recording(device) {
            Err(SessionError::AlreadyRecording)
        } else {
            Ok(())
        }
    }

    /// Records that `device` now records into `handle`.
    pub fn register(&mut self, device: String, handle: H)
        requires
            old(self).wf(),
            !old(self)@.contains_key(device@),
        ensures
            final(self).wf(),
            final(self)@ == old(self)@.insert(device@, handle),
    {
        let ghost k = device@;
        let ghost h = handle;
        let ghost before = *self;
        let ghost n = self.sessions@.len();
        self.sessions.push((device, handle));
        proof {
            assert(!before.holds(k));
            assert forall|i: int, j: int|
                0 <= i < self.sessions@.len() && 0 <= j < self.sessions@.len() && i != j
                    implies self.sessions@[i].0@ != self.sessions@[j].0@ by {
                if i == n {
                    assert(before.sessions@[j] == self.sessions@[j]);
                } else if j == n {
                    assert(before.sessions@[i] == self.sessions@[i]);
                } else {
                    assert(before.sessions@[i] == self.sessions@[i]);
                    assert(before.sessions@[j] == self.sessions@[j]);
                }
            }
            assert forall|q: Seq<char>| #[trigger] self.holds(q) == (before.holds(q) || q == k) by {
                if before.holds(q) {
                    let i = choose|i: int|
                        0 <= i < before.sessions@.len() && before.sessions@[i].0@ == q;
                    assert(self.sessions@[i] == before.sessions@[i]);
                }
                if self.holds(q) && q != k {
                    let i = choose|i: int|
                        0 <= i < self.sessions@.len() && self.sessions@[i].0@ == q;
                    assert(i != n);
                    assert(self.sessions@[i] == before.sessions@[i]);
                }
                if q == k {
                    assert(self.sessions@[n as int].0@ == k);
                }
            }
            assert forall|q: Seq<char>| #[trigger] self.holds(q) implies self@[q] == old(
                self,
            )@.insert(k, h)[q] by {
                if q == k {
                    self.lemma_slot(n as int);
                } else {
                    let i = before.slot_of(q);
                    before.lemma_slot(i);
                    assert(self.sessions@[i] == before.sessions@[i]);
                    self.lemma_slot(i);
                }
            }
            assert(self@ =~= old(self)@.insert(k, h));
        }
    }

    /// Ends the session of `device`, handing back its handle if it had one.
    pub fn take(&mut self, device: &str) -> (r: Option<H>)
        requires
            old(self).wf(),
        ensures
            final(self).wf(),
            final(self)@ == old(self)@.remove(device@),
            r == (if old(self)@.contains_key(device@) {
                Some(old(self)@[device@])
            } else {
                None::<H>
            }),
    {
        let ghost before = *self;
        match self.find(device) {
            None => {
                proof {
                    assert(self@ =~= old(self)@.remove(device@));
                }
                None
            },
            Some(i) => {
                proof {
                    before.lemma_slot(i as int);
                }
                let ghost k = device@;
                let (_, h) = self.sessions.remove(i);
                proof {
                    let s = self.sessions@;
                    let b = before.sessions@;
                    assert forall|x: int| 0 <= x < s.len() implies #[trigger] s[x] == (if x < i {
                        b[x]
                    } else {
                        b[x + 1]
                    }) by {}
                    assert forall|x: int, y: int|
                        0 <= x < s.len() && 0 <= y < s.len() && x != y implies s[x].0@
                            != s[y].0@ by {
                        let bx = if x < i { x } else { x + 1 };
                        let by_ = if y < i { y } else { y + 1 };
                        assert(s[x] == b[bx]);
                        assert(s[y] == b[by_]);
                    }
                    assert forall|q: Seq<char>| #[trigger] self.holds(q) == (before.holds(q) && q
                        != k) by {
                        if self.holds(q) {
                            let x = choose|x: int| 0 <= x < s.len() && s[x].0@ == q;
                            let bx = if x < i { x } else { x + 1 };
                            assert(s[x] == b[bx]);
                            assert(bx != i);
                        }
                        if before.holds(q) && q != k {
                            let y = choose|y: int| 0 <= y < b.len() && b[y].0@ == q;
                            assert(y != i);
                            let x = if y < i { y } else { y - 1 };
                            assert(s[x] == b[y]);
                        }
                    }
                    assert forall|q: Seq<char>| #[trigger] self.holds(q) implies self@[q] == old(
                        self,
                    )@[q] by {
                        let x = self.slot_of(q);
                        self.lemma_slot(x);
                        let bx = if x < i { x } else { x + 1 };
                        assert(s[x] == b[bx]);
                        before.lemma_slot(bx);
                    }
                    assert(self@ =~= old(self)@.remove(k));
                }
                Some(h)
            },
        }
    }
}

/// Why a start or a stop failed.
#[derive(Debug)]
pub enum SessionError {
    /// The device already has an active session.
    AlreadyRecording,
    /// The recorder could not be launched, for the reason given.
    SpawnFailed(String),
    /// The stop signal was sent and the bridge tool failed, with this error output.
    SignalRefused(String),
    /// The bridge tool could not be run to send the stop signal.
    SignalNotSent(String),
    /// The state of the recorder could not be read.
    PollFailed(String),
    /// The recorder did not exit before the deadline and was killed.
    Timeout,
}

impl SessionError {
    pub open spec fn spec_message(&self) -> Seq<char> {
        match self {
            SessionError::AlreadyRecording => "Device is already recording"@,
            SessionError::SpawnFailed(r) => "Failed to spawn screenrecord: "@ + r@,
            SessionError::SignalRefused(e) => "Failed to stop screenrecord cleanly: "@ + trimmed(
                e@,
            ),
            SessionError::SignalNotSent(r) => "Failed to invoke stop command: "@ + r@,
            SessionError::PollFailed(r) => "Failed to poll screenrecord process: "@ + r@,
            SessionError::Timeout => "Timeout waiting for screenrecord process to exit"@,
        }
    }

    pub fn message(&self) -> (r: String)
        ensures
            r@ == self.spec_message(),
    {
        match self {
            SessionError::AlreadyRecording => String::from_str("Device is already recording"),
            SessionError::SpawnFailed(r) => {
                let mut m = chars_of("Failed to spawn screenrecord: ");
                push_str(&mut m, r.as_str());
                string_of(&m)
            },
            SessionError::SignalRefused(e) => {
                let mut m = chars_of("Failed to stop screenrecord cleanly: ");
                let err = chars_of(e.as_str());
                let mut t = trim_range(&err, 0, err.len());
                assert(err@.subrange(0, err@.len() as int) =~= e@);
                m.append(&mut t);
                string_of(&m)
            },
            SessionError::SignalNotSent(r) => {
                let mut m = chars_of("Failed to invoke stop command: ");
                push_str(&mut m, r.as_str());
                string_of(&m)
            },
            SessionError::PollFailed(r) => {
                let mut m = chars_of("Failed to poll screenrecord process: ");
                push_str(&mut m, r.as_str());
                string_of(&m)
            },
            SessionError::Timeout => String::from_str(
                "Timeout waiting for screenrecord process to exit",
            ),
        }
    }
}

/// The bridge tool's arguments that start recording `device` into `remote_path`.
pub fn start_args(device: &str, remote_path: &str) -> (r: Vec<String>)
    ensures
        strings_view(r@) == seq!["-s"@, device@, "shell"@, "screenrecord"@, remote_path@],
{
    let mut r: Vec<String> = Vec::new();
    r.push(String::from_str("-s"));
    r.push(String::from_str(device));
    r.push(String::from_str("shell"));
    r.push(String::from_str("screenrecord"));
    r.push(String::from_str(remote_path));
    assert(strings_view(r@) =~= seq!["-s"@, device@, "shell"@, "screenrecord"@, remote_path@]);
    r
}

/// The bridge tool's arguments that ask the recorder on `device` to stop.
pub fn stop_args(device: &str) -> (r: Vec<String>)
    ensures
        strings_view(r@) == seq![
            "-s"@,
            device@,
            "shell"@,
            "pkill"@,
            "-SIGINT"@,
            "screenrecord"@,
        ],
{
    let mut r: Vec<String> = Vec::new();
    r.push(String::from_str("-s"));
    r.push(String::from_str(device));
    r.push(String::from_str("shell"));
    r.push(String::from_str("pkill"));
    r.push(String::from_str("-SIGINT"));
    r.push(String::from_str("screenrecord"));
    assert(strings_view(r@) =~= seq![
        "-s"@,
        device@,
        "shell"@,
        "pkill"@,
        "-SIGINT"@,
        "screenrecord"@,
    ]);
    r
}

/// What became of the stop signal.
pub enum SignalOutcome {
    /// The bridge tool ran and succeeded.
    Delivered,
    /// The bridge tool ran and failed, with this error output.
    Refused { stderr: String },
    /// The bridge tool could not be run, for the reason given.
    NotSent { reason: String },
}

/// What one poll of the recorder found.
pub enum PollEvent {
    /// It has exited.
    Exited,
    /// It still runs.
    Running,
    /// Its state could not be read, for the reason given.
    PollFailed { reason: String },
}

/// What a stop does next.
pub enum StopAction {
    /// Wait `POLL_INTERVAL_MS`, then poll again.
    PollAgain,
    /// Kill the recorder, wait for it to exit, and fail with `SessionError::Timeout`.
    ForceKill,
    /// The stop is over, with this outcome.
    Finish(Result<(), SessionError>),
}

/// The outcome of a stop as far as the signal decides it.
pub open spec fn signal_result(signal: SignalOutcome) -> Result<(), SessionError> {
    match signal {
        SignalOutcome::Delivered => Ok(()),
        SignalOutcome::Refused { stderr } => Err(SessionError::SignalRefused(stderr)),
        SignalOutcome::NotSent { reason } => Err(SessionError::SignalNotSent(reason)),
    }
}

/// The next step of a stop, after the signal gave `signal` and a poll made
/// `elapsed_ms` after polling began found `event`.
pub open spec fn stop_step(signal: SignalOutcome, event: PollEvent, elapsed_ms: nat) -> StopAction {
    match event {
        PollEvent::Exited => StopAction::Finish(signal_result(signal)),
        PollEvent::Running => if elapsed_ms >= STOP_TIMEOUT_MS {
            StopAction::ForceKill
        } else {
            StopAction::PollAgain
        },
        PollEvent::PollFailed { reason } => StopAction::Finish(
            Err(SessionError::PollFailed(reason)),
        ),
    }
}

/// The outcome of a stop whose polls found `polls` (each with its time from
/// the start of polling), or `None` while it still polls.
pub open spec fn stop_run(signal: SignalOutcome, polls: Seq<(PollEvent, nat)>) -> Option<
    Result<(), SessionError>,
>
    decreases polls.len(),
{
    if polls.len() == 0 {
        None
    } else {
        match stop_step(signal, polls[0].0, polls[0].1) {
            StopAction::PollAgain => stop_run(signal, polls.drop_first()),
            StopAction::ForceKill => Some(Err(SessionError::Timeout)),
            StopAction::Finish(r) => Some(r),
        }
    }
}

fn copy_string(s: &String) -> (r: String)
    ensures
        r@ == s@,
{
    s.clone()
}

/// The outcome of a stop as far as the signal decides it; also the outcome of
/// a stop of a device that had no session.
pub fn stop_result(signal: &SignalOutcome) -> (r: Result<(), SessionError>)
    ensures
        match (r, signal_result(*signal)) {
            (Ok(_), Ok(_)) => true,
            (Err(SessionError::SignalRefused(a)), Err(SessionError::SignalRefused(b))) => a@
                == b@,
            (Err(SessionError::SignalNotSent(a)), Err(SessionError::SignalNotSent(b))) => a@
                == b@,
            _ => false,
        },
{
    match signal {
        SignalOutcome::Delivered => Ok(()),
        SignalOutcome::Refused { stderr } => Err(SessionError::SignalRefused(copy_string(stderr))),
        SignalOutcome::NotSent { reason } => Err(SessionError::SignalNotSent(copy_string(reason))),
    }
}

/// Decides the next step of a stop, as `stop_step` describes it.
pub fn next_stop_action(signal: &SignalOutcome, event: PollEvent, elapsed_ms: u64) -> (r:
    StopAction)
    ensures
        match (r, stop_step(*signal, event, elapsed_ms as nat)) {
            (StopAction::PollAgain, StopAction::PollAgain) => true,
            (StopAction::ForceKill, StopAction::ForceKill) => true,
            (StopAction::Finish(Ok(_)), StopAction::Finish(Ok(_))) => true,
            (
                StopAction::Finish(Err(SessionError::SignalRefused(a))),
                StopAction::Finish(Err(SessionError::SignalRefused(b))),
            ) => a@ == b@,
            (
                StopAction::Finish(Err(SessionError::SignalNotSent(a))),
                StopAction::Finish(Err(SessionError::SignalNotSent(b))),
            ) => a@ == b@,
            (
                StopAction::Finish(Err(SessionError::PollFailed(a))),
                StopAction::Finish(Err(SessionError::PollFailed(b))),
            ) => a@ == b@,
            _ => false,
        },
{
    match event {
        PollEvent::Exited => StopAction::Finish(stop_result(signal)),
        PollEvent::Running => if elapsed_ms >= STOP_TIMEOUT_MS {
            StopAction::ForceKill
        } else {
            StopAction::PollAgain
        },
        PollEvent::PollFailed { reason } => StopAction::Finish(
            Err(SessionError::PollFailed(reason)),
        ),
    }
}

/// A recorder that keeps running is never reported as stopped: a stop whose
/// every poll finds it running, the last one at or after the deadline, ends in
/// a forced kill and a timeout; and while every poll finds it running, no stop
/// succeeds, whatever the signal gave.
pub proof fn lemma_stop_never_silent(signal: SignalOutcome, polls: Seq<(PollEvent, nat)>)
    requires
        forall|k: int| 0 <= k < polls.len() ==> #[trigger] polls[k].0 is Running,
    ensures
        !(stop_run(signal, polls) matches Some(Ok(_))),
        polls.len() > 0 && polls.last().1 >= STOP_TIMEOUT_MS ==> stop_run(signal, polls) == Some(
            Err::<(), SessionError>(SessionError::Timeout),
        ),
    decreases polls.len(),
{
    if polls.len() > 0 {
        assert(polls[0].0 is Running);
        let rest = polls.drop_first();
        assert forall|k: int| 0 <= k < rest.len() implies #[trigger] rest[k].0 is Running by {
            assert(rest[k] == polls[k + 1]);
        }
        lemma_stop_never_silent(signal, rest);
        if rest.len() > 0 {
            assert(rest.last() == polls.last());
        }
    }
}

/// A device records into one process at most: once `register` has given
/// `device` a session, `check_start` refuses it (its result is an error
/// exactly when the device has a session), and the session held is the one
/// registered first.
pub proof fn lemma_one_session_per_device<H>(
    reg: SessionRegistry<H>,
    device: Seq<char>,
    handle: H,
)
    requires
        reg.wf(),
        !reg@.contains_key(device),
    ensures
        reg@.insert(device, handle).contains_key(device),
        reg@.insert(device, handle)[device] == handle,
{
}

} // verus!
