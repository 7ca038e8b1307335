//! The turns of the monitor: when to sample, when to start the sampler anew, when to stop.

use crate::snapshot::Snapshot;
use crate::soc::SocInfo;
use crate::state;
use crate::state::{App, Args, Sample};
use crate::text;
use vstd::prelude::*;

verus! {

/// A key of the keyboard.
#[derive(Debug, Clone, Copy, PartialEq, Eq, Structural)]
pub enum Key {
    Char(char),
    Esc,
    Other,
}

/// What happened to a key.
#[derive(Debug, Clone, Copy, PartialEq, Eq, Structural)]
pub struct KeyStroke {
    pub key: Key,
    /// Whether the control key was held.
    pub control: bool,
    /// Whether the key went down, rather than up or on repeat.
    pub pressed: bool,
}

/// Whether a key stroke ends the monitor: `q`, escape, or `c` with control.
pub open spec fn is_quit(stroke: KeyStroke) -> bool {
    stroke.pressed && (stroke.key == Key::Char('q') || stroke.key == Key::Esc || (stroke.key
        == Key::Char('c') && stroke.control))
}

/// Whether a key stroke ends the monitor.
pub fn quits(stroke: KeyStroke) -> (r: bool)
    ensures
        r == is_quit(stroke),
{
    let ctrl_c: bool = stroke.control && match stroke.key {
        Key::Char(c) => c == 'c',
        _ => false,
    };
    stroke.pressed && (ctrl_c || match stroke.key {
        Key::Char(c) => c == 'q',
        Key::Esc => true,
        Key::Other => false,
    })
}

/// What to do while the first sample is awaited.
#[derive(Debug, Clone, Copy, PartialEq, Eq, Structural)]
pub enum WaitStep {
    /// A sample is there.
    Take,
    /// The time is up.
    GiveUp,
    /// Look again after a pause.
    Pause,
}

/// For how many seconds the first sample is awaited.
pub const FIRST_SAMPLE_SECS: u64 = 30;

/// What to do after `waited_secs` full seconds, given whether a sample is there.
pub fn wait_for_first_snapshot(found: bool, waited_secs: u64) -> (r: WaitStep)
    ensures
        r == WaitStep::Take <==> found,
        r == WaitStep::GiveUp <==> !found && waited_secs >= FIRST_SAMPLE_SECS,
        r == WaitStep::Pause <==> !found && waited_secs < FIRST_SAMPLE_SECS,
{
    if found {
        WaitStep::Take
    } else if waited_secs >= FIRST_SAMPLE_SECS {
        WaitStep::GiveUp
    } else {
        WaitStep::Pause
    }
}

/// The milliseconds between samples, at least a second.
pub open spec fn sampling_millis(interval_secs: u64) -> nat {
    if interval_secs > 1 {
        interval_secs as nat * 1000
    } else {
        1000
    }
}

/// The characters of each of the texts.
pub open spec fn texts(strings: Seq<String>) -> Seq<Seq<char>> {
    strings.map_values(|s: String| s@)
}

/// What `sudo` is asked to run: the sampler at low priority, writing property lists to a file.
pub open spec fn sampler_command(output_path: Seq<char>, interval_secs: u64) -> Seq<Seq<char>> {
    seq![
        "nice"@,
        "-n"@,
        "10"@,
        "powermetrics"@,
        "--samplers"@,
        "cpu_power,gpu_power,thermal"@,
        "-o"@,
        output_path,
        "-f"@,
        "plist"@,
        "-i"@,
        text::numeral(sampling_millis(interval_secs)),
    ]
}

/// The arguments for `sudo` that start the sampler.
pub fn powermetrics_args(output_path: &str, interval_secs: u64) -> (r: Vec<String>)
    requires
        sampling_millis(interval_secs) <= u64::MAX,
    ensures
        texts(r@) == sampler_command(output_path@, interval_secs),
{
    let millis: u64 = if interval_secs > 1 {
        interval_secs * 1000
    } else {
        1000
    };
    let args: Vec<String> = vec![
        "nice".to_owned(),
        "-n".to_owned(),
        "10".to_owned(),
        "powermetrics".to_owned(),
        "--samplers".to_owned(),
        "cpu_power,gpu_power,thermal".to_owned(),
        "-o".to_owned(),
        output_path.to_owned(),
        "-f".to_owned(),
        "plist".to_owned(),
        "-i".to_owned(),
        text::decimal(millis),
    ];
    assert(texts(args@) =~= sampler_command(output_path@, interval_secs));
    args
}

/// What a turn asks for.
#[derive(Debug, Clone, Copy, PartialEq, Eq, Structural)]
pub enum Turn {
    /// It is too early for another sample.
    Idle,
    /// Start the sampler anew and await its first sample.
    Restart,
    /// Look for another sample.
    Poll,
}

/// A monitor that has taken in its first sample.
#[derive(Debug)]
pub struct Session {
    pub app: App,
    /// How many samples were taken in since the sampler was started.
    pub refresh_count: u64,
}

impl Session {
    /// Whether there is a last sample, nothing holds more entries than it keeps, and no more
    /// samples were taken in than the sampler is allowed before it is started anew.
    pub open spec fn well_formed(self) -> bool {
        &&& self.app.last_snapshot is Some
        &&& self.app.well_formed()
        &&& self.app.args.max_count > 0 ==> self.refresh_count <= self.app.args.max_count
    }

    /// The timestamp of the last sample.
    pub open spec fn latest(self) -> Seq<char> {
        self.app.last_snapshot->0.timestamp@
    }

    /// Whether the sampler has given all the samples that it is allowed.
    pub open spec fn exhausted(self) -> bool {
        self.app.args.max_count > 0 && self.refresh_count >= self.app.args.max_count
    }

    /// Starts with the first sample.
    pub fn start(args: Args, soc: SocInfo, first: Sample) -> (r: Session)
        ensures
            r.well_formed(),
            r.refresh_count == 0,
            r.app.args == args,
            r.app.soc == soc,
            r.app.last_snapshot == Some(first.snapshot),
            r.app.memory == first.memory,
            r.app.has_taken_in(seq![first]),
    {
        let mut app: App = App::new(args, soc);
        let ghost empty = app;
        app.apply_snapshot(first);
        proof {
            state::law_state_of_all_samples(empty, app, Seq::empty(), first);
            assert(Seq::<Sample>::empty().push(first) =~= seq![first]);
        }
        Session { app, refresh_count: 0 }
    }

    /// What to do when `elapsed_secs` full seconds have passed since the last refresh.
    pub fn next_turn(&self, elapsed_secs: u64) -> (r: Turn)
        ensures
            r == Turn::Idle <==> elapsed_secs < self.app.args.period(),
            r == Turn::Restart <==> elapsed_secs >= self.app.args.period() && self.exhausted(),
            r == Turn::Poll <==> elapsed_secs >= self.app.args.period() && !self.exhausted(),
    {
        if elapsed_secs < self.app.args.seconds() {
            Turn::Idle
        } else if self.app.args.max_count > 0 && self.refresh_count >= self.app.args.max_count {
            Turn::Restart
        } else {
            Turn::Poll
        }
    }

    /// Takes in the first sample of a sampler that was started anew.
    pub fn restarted(&mut self, first: Sample)
        ensures
            final(self).refresh_count == 0,
            state::is_applied(old(self).app, final(self).app, first),
            old(self).well_formed() ==> final(self).well_formed(),
    {
        self.app.apply_snapshot(first);
        self.refresh_count = 0;
    }

    /// Whether a snapshot is later than the last sample.
    pub fn is_news(&self, snapshot: &Snapshot) -> (r: bool)
        requires
            self.well_formed(),
        ensures
            r == text::comes_before(self.latest(), snapshot.timestamp@),
    {
        match &self.app.last_snapshot {
            Some(last) => text::is_before(last.timestamp.as_str(), snapshot.timestamp.as_str()),
            None => false,
        }
    }

    /// Takes in what a poll found: a sample later than the last one counts as a refresh, anything
    /// else changes nothing.
    pub fn polled(&mut self, next: Option<Sample>)
        requires
            old(self).well_formed(),
            !old(self).exhausted(),
            old(self).refresh_count < u64::MAX,
        ensures
            final(self).well_formed(),
            is_polled(*old(self), *final(self), next),
    {
        match next {
            Some(sample) => {
                if self.is_news(&sample.snapshot) {
                    self.app.apply_snapshot(sample);
                    self.refresh_count = self.refresh_count + 1;
                }
            },
            None => {},
        }
    }
}

/// Whether `after` is `before` with what a poll found taken in: a sample later than the last one
/// counts as a refresh, anything else changes nothing.
pub open spec fn is_polled(before: Session, after: Session, next: Option<Sample>) -> bool {
    match next {
        Some(sample) => if text::comes_before(before.latest(), sample.snapshot.timestamp@) {
            &&& after.refresh_count == before.refresh_count + 1
            &&& state::is_applied(before.app, after.app, sample)
        } else {
            after == before
        },
        None => after == before,
    }
}

/// Whether each state of a run came from the one before it by a poll.
pub open spec fn is_run(states: Seq<Session>, found: Seq<Option<Sample>>) -> bool {
    &&& states.len() == found.len() + 1
    &&& forall|i: int|
        0 <= i < found.len() ==> is_polled(states[i], states[i + 1], #[trigger] found[i])
}

/// How many of the polls of a run were refreshes.
pub open spec fn refreshes(states: Seq<Session>, polls: nat) -> nat
    decreases polls,
{
    if polls == 0 {
        0
    } else if states[polls as int].latest() == states[polls - 1].latest() {
        refreshes(states, (polls - 1) as nat)
    } else {
        refreshes(states, (polls - 1) as nat) + 1
    }
}

/// Over a run of polls time never goes back: a later state shows the same sample as an earlier
/// one or a later sample. The refresh count goes up by one for each new sample shown.
pub proof fn law_polls_move_forward(
    states: Seq<Session>,
    found: Seq<Option<Sample>>,
    earlier: int,
    later: int,
)
    requires
        is_run(states, found),
        0 <= earlier <= later < states.len(),
    ensures
        states[earlier].latest() == states[later].latest() || text::comes_before(
            states[earlier].latest(),
            states[later].latest(),
        ),
        states[later].refresh_count == states[0].refresh_count + refreshes(states, later as nat),
        states[later].app.args == states[0].app.args,
    decreases later,
{
    if later > 0 {
        let i = later - 1;
        assert(is_polled(states[i], states[i + 1], found[i]));
        law_polls_move_forward(
            states,
            found,
            if earlier < later {
                earlier
            } else {
                i
            },
            i,
        );
        text::law_text_order(
            states[earlier].latest(),
            states[i].latest(),
            states[later].latest(),
        );
        text::law_text_order(
            states[i].latest(),
            states[later].latest(),
            states[later].latest(),
        );
    }
}

/// The sampler is started anew after as many refreshes as it is allowed, and not before: after a
/// run of polls that began with a fresh sampler, the next due turn is a restart exactly where the
/// run had that many refreshes. Without a limit it never is.
pub proof fn law_restart_after_max_count(states: Seq<Session>, found: Seq<Option<Sample>>)
    requires
        is_run(states, found),
        states[0].refresh_count == 0,
    ensures
        states.last().exhausted() <==> {
            &&& states[0].app.args.max_count > 0
            &&& refreshes(states, found.len()) >= states[0].app.args.max_count
        },
{
    law_polls_move_forward(states, found, 0, found.len() as int);
}

/// Only a key that goes down ends the monitor: `q` and escape whatever is held with them, and `c`
/// where control is held. No other key does.
pub proof fn law_keys_that_quit(control: bool, key: Key)
    ensures
        !is_quit(KeyStroke { key, control, pressed: false }),
        is_quit(KeyStroke { key: Key::Char('q'), control, pressed: true }),
        is_quit(KeyStroke { key: Key::Esc, control, pressed: true }),
        is_quit(KeyStroke { key: Key::Char('c'), control, pressed: true }) == control,
        key != Key::Char('q') && key != Key::Esc && key != Key::Char('c') ==> !is_quit(
            KeyStroke { key, control, pressed: true },
        ),
{
}

/// A poll takes in a sample exactly where it is later than the last one; then that sample is the
/// last one and is counted, and otherwise nothing changes.
pub proof fn law_poll_takes_in_news(before: Session, after: Session, sample: Sample)
    requires
        is_polled(before, after, Some(sample)),
    ensures
        text::comes_before(before.latest(), sample.snapshot.timestamp@) ==> {
            &&& after.app.last_snapshot == Some(sample.snapshot)
            &&& after.app.memory == sample.memory
            &&& after.refresh_count == before.refresh_count + 1
            &&& after.app.args == before.app.args
            &&& after.app.soc == before.app.soc
        },
        !text::comes_before(before.latest(), sample.snapshot.timestamp@) ==> after == before,
{
}

} // verus!
