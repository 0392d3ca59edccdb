use vstd::prelude::*;
use crate::event::{RawEvent, ChangeEvent, normalize, changed_path, kind_spec};
use crate::target::{WatchTarget, TargetView, views, settle, startup_spec, plan_spec, lemma_source_refused_is_fatal,
    lemma_optional_targets_tolerated, kept};

verus! {

/// How many channel errors in a row the loop tolerates before it gives up.
pub const MAX_CHANNEL_ERRORS: u64 = 5;

/// How long the loop waits after each channel error, times the number of
/// errors in a row.
pub const BACKOFF_STEP_MS: u64 = 200;

/// A message taken from the event channel.
pub enum Received {
    Event(RawEvent),
    /// The channel reported an error instead of an event.
    ChannelError,
}

/// The two states of the dispatch loop.
pub enum LoopState {
    /// Blocked waiting for the next message.
    Listening,
    /// The rebuild callback is running.
    RunningCallback,
}

/// What the loop does with a message.
pub enum Action {
    /// Run the callback once with this change.
    Invoke(ChangeEvent),
    /// Nothing to do: listen again.
    Ignore,
    /// Report the channel error, wait this many milliseconds, listen again.
    Retry(u64),
    /// Too many channel errors in a row: report and stop listening.
    GiveUp,
}

/// The decisions of the dispatch loop.
pub struct Dispatcher {
    pub state: LoopState,
    /// Channel errors received since the last event.
    pub errors_in_row: u64,
}

impl Dispatcher {
    /// The loop once every required target is registered: listening, with no
    /// error seen.
    pub fn start() -> (r: Dispatcher)
        ensures
            r.state is Listening,
            r.errors_in_row == 0,
    {
        Dispatcher { state: LoopState::Listening, errors_in_row: 0 }
    }

    /// Decides what to do with a message received while listening.
    pub fn receive(&mut self, msg: Received) -> (a: Action)
        requires
            old(self).state is Listening,
            old(self).errors_in_row < MAX_CHANNEL_ERRORS,
        ensures
            match msg {
                Received::Event(e) => {
                    &&& final(self).errors_in_row == 0
                    &&& match changed_path(e) {
                        Some(p) => a matches Action::Invoke(c) && c.path@ == p && c.kind == kind_spec(e)
                            && final(self).state is RunningCallback,
                        None => a is Ignore && final(self).state is Listening,
                    }
                },
                Received::ChannelError => {
                    &&& final(self).state is Listening
                    &&& final(self).errors_in_row == old(self).errors_in_row + 1
                    &&& if old(self).errors_in_row + 1 >= MAX_CHANNEL_ERRORS {
                        a is GiveUp
                    } else {
                        a == Action::Retry((BACKOFF_STEP_MS * (old(self).errors_in_row + 1)) as u64)
                    }
                },
            },
    {
        match msg {
            Received::Event(e) => {
                self.errors_in_row = 0;
                match normalize(e) {
                    Some(c) => {
                        self.state = LoopState::RunningCallback;
                        Action::Invoke(c)
                    },
                    None => Action::Ignore,
                }
            },
            Received::ChannelError => {
                self.errors_in_row = self.errors_in_row + 1;
                if self.errors_in_row >= MAX_CHANNEL_ERRORS {
                    Action::GiveUp
                } else {
                    Action::Retry(BACKOFF_STEP_MS * self.errors_in_row)
                }
            },
        }
    }

    /// The callback has returned: listen again.
    pub fn callback_done(&mut self)
        requires
            old(self).state is RunningCallback,
        ensures
            final(self).state is Listening,
            final(self).errors_in_row == old(self).errors_in_row,
    {
        self.state = LoopState::Listening;
    }
}

pub open spec fn strs(v: Seq<String>) -> Seq<Seq<char>> {
    v.map_values(|s: String| s@)
}

/// The paths that the callback is run with, in order, when the loop takes the
/// messages `msgs` after `errors` channel errors in a row. The loop stops at
/// the channel error that makes `MAX_CHANNEL_ERRORS` in a row.
pub open spec fn run_spec(msgs: Seq<Received>, errors: nat) -> Seq<Seq<char>>
    decreases msgs.len(),
{
    if msgs.len() == 0 {
        seq![]
    } else {
        match msgs[0] {
            Received::Event(e) => match changed_path(e) {
                Some(p) => seq![p] + run_spec(msgs.skip(1), 0),
                None => run_spec(msgs.skip(1), 0),
            },
            Received::ChannelError => if errors + 1 >= MAX_CHANNEL_ERRORS {
                seq![]
            } else {
                run_spec(msgs.skip(1), errors + 1)
            },
        }
    }
}

/// Runs the loop's decisions over a finite run of messages and returns the
/// path of each callback invocation, in order.
pub fn replay(msgs: Vec<Received>) -> (r: Vec<String>)
    ensures
        strs(r@) == run_spec(msgs@, 0),
{
    let ghost all = msgs@;
    let mut rest = msgs;
    let mut d = Dispatcher::start();
    let mut out: Vec<String> = Vec::new();
    assert(strs(out@) =~= Seq::<Seq<char>>::empty());
    assert(all.skip(0) =~= all);
    while rest.len() > 0
        invariant
            all == msgs@,
            d.state is Listening,
            d.errors_in_row < MAX_CHANNEL_ERRORS,
            strs(out@) + run_spec(rest@, d.errors_in_row as nat) == run_spec(all, 0),
        decreases rest.len(),
    {
        let ghost before = rest@;
        let ghost errors = d.errors_in_row as nat;
        let ghost before_out = out@;
        let msg = rest.remove(0);
        proof {
            assert(rest@ =~= before.skip(1));
        }
        match d.receive(msg) {
            Action::Invoke(c) => {
                out.push(c.path);
                d.callback_done();
                proof {
                    assert(strs(out@) =~= strs(before_out) + seq![c.path@]);
                }
            },
            Action::GiveUp => {
                proof {
                    assert(before[0] is ChannelError);
                    assert(run_spec(before, errors) == Seq::<Seq<char>>::empty());
                    assert(strs(out@) + Seq::<Seq<char>>::empty() =~= strs(out@));
                }
                return out;
            },
            _ => {},
        }
        proof {
            assert(strs(out@) + run_spec(rest@, d.errors_in_row as nat) =~= strs(before_out) + run_spec(before, errors));
        }
    }
    assert(strs(out@) + Seq::<Seq<char>>::empty() =~= strs(out@));
    out
}

/// Each message leads to at most one run of the callback: a burst that the
/// watcher has coalesced into one event is rebuilt at most once.
pub proof fn lemma_at_most_one_call_per_message(msgs: Seq<Received>, errors: nat)
    ensures
        run_spec(msgs, errors).len() <= msgs.len(),
    decreases msgs.len(),
{
    if msgs.len() > 0 {
        lemma_at_most_one_call_per_message(msgs.skip(1), 0);
        lemma_at_most_one_call_per_message(msgs.skip(1), errors + 1);
    }
}

/// Messages that carry no relevant event (ignored kinds, channel errors) never
/// run the callback.
pub proof fn lemma_ignored_events_never_dispatch(msgs: Seq<Received>, errors: nat)
    requires
        forall|i: int| 0 <= i < msgs.len() ==> (#[trigger] msgs[i] matches Received::Event(e) ==> changed_path(e) is None),
    ensures
        run_spec(msgs, errors) == Seq::<Seq<char>>::empty(),
    decreases msgs.len(),
{
    if msgs.len() > 0 {
        let rest = msgs.skip(1);
        assert forall|i: int| 0 <= i < rest.len() implies (#[trigger] rest[i] matches Received::Event(e) ==> changed_path(e) is None) by {
            assert(rest[i] == msgs[i + 1]);
        }
        assert(msgs[0] matches Received::Event(e) ==> changed_path(e) is None);
        lemma_ignored_events_never_dispatch(rest, 0);
        lemma_ignored_events_never_dispatch(rest, errors + 1);
    }
}

/// A rename runs the callback exactly once, with the new name.
pub proof fn lemma_rename_dispatches_destination(from: String, to: String, errors: nat)
    ensures
        run_spec(seq![Received::Event(RawEvent::Rename(from, to))], errors) == seq![to@],
{
    let msgs = seq![Received::Event(RawEvent::Rename(from, to))];
    assert(msgs.skip(1) =~= Seq::<Received>::empty());
    assert(run_spec(msgs.skip(1), 0) == Seq::<Seq<char>>::empty());
    assert(seq![to@] + Seq::<Seq<char>>::empty() =~= seq![to@]);
}

/// A whole session over finite inputs: startup over `plan` with the given
/// registration outcomes, then, if it succeeded, the loop over `msgs`. The
/// result is the path that stopped startup, or the active targets and the
/// path of each callback run.
pub open spec fn session_spec(plan: Seq<TargetView>, outcomes: Seq<bool>, msgs: Seq<Received>) -> Result<(Seq<TargetView>, Seq<Seq<char>>), Seq<char>> {
    match startup_spec(plan, outcomes) {
        Ok(active) => Ok((active, run_spec(msgs, 0))),
        Err(p) => Err(p),
    }
}

/// Runs a whole session over finite inputs; see `session_spec`.
pub fn session(plan: &Vec<WatchTarget>, outcomes: &Vec<bool>, msgs: Vec<Received>) -> (r: Result<(Vec<WatchTarget>, Vec<String>), String>)
    requires
        outcomes@.len() == plan@.len(),
    ensures
        match r {
            Ok((active, calls)) => session_spec(views(plan@), outcomes@, msgs@) == Ok::<(Seq<TargetView>, Seq<Seq<char>>), Seq<char>>((views(active@), strs(calls@))),
            Err(p) => session_spec(views(plan@), outcomes@, msgs@) == Err::<(Seq<TargetView>, Seq<Seq<char>>), Seq<char>>(p@),
        },
{
    match settle(plan, outcomes) {
        Ok(active) => {
            let calls = replay(msgs);
            Ok((active, calls))
        },
        Err(p) => Err(p),
    }
}

/// If the source directory cannot be registered, the session stops at startup
/// with its path and the callback never runs, whatever messages would follow.
pub proof fn lemma_source_refused_never_calls_back(
    source: Seq<char>,
    theme: Option<Seq<char>>,
    root: Seq<char>,
    outcomes: Seq<bool>,
    msgs: Seq<Received>,
)
    requires
        outcomes.len() == plan_spec(source, theme, root).len(),
        !outcomes[0],
    ensures
        session_spec(plan_spec(source, theme, root), outcomes, msgs) == Err::<(Seq<TargetView>, Seq<Seq<char>>), Seq<char>>(source),
{
    lemma_source_refused_is_fatal(source, theme, root, outcomes);
}

/// If the source directory is registered, the session gets past startup and
/// listens whatever became of the theme directory and the configuration
/// files: the source directory and every other registered target are active.
pub proof fn lemma_optional_absence_still_listens(
    source: Seq<char>,
    theme: Option<Seq<char>>,
    root: Seq<char>,
    outcomes: Seq<bool>,
    msgs: Seq<Received>,
)
    requires
        outcomes.len() == plan_spec(source, theme, root).len(),
        outcomes[0],
    ensures
        session_spec(plan_spec(source, theme, root), outcomes, msgs) == Ok::<(Seq<TargetView>, Seq<Seq<char>>), Seq<char>>(
            (kept(plan_spec(source, theme, root), outcomes), run_spec(msgs, 0)),
        ),
        kept(plan_spec(source, theme, root), outcomes)[0] == (source, true, true),
{
    lemma_optional_targets_tolerated(source, theme, root, outcomes);
}

} // verus!
