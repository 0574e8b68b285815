//! The join-announcement pipeline, as a machine that the caller drives.
//!
//! The caller hands in each console line; the machine answers with the next
//! outside step to take (ask the ignore list, list the subscribed channels,
//! send the announcement to one channel) and is handed the outcome of that
//! step in turn, until it answers `Await` (wait for the next line) or `Done`.
//! Join detection, cooldowns, the fail-closed ignore policy and the
//! one-attempt-per-channel fan-out are all decided here.
use vstd::prelude::*;
use vstd::string::{StringExecFns, StringSliceAdditionalSpecFns};
use crate::classify::{join_name, player_joined_catch};
use crate::presence::{record_step, PlayerPresenceLog};
use crate::sql::PlayerJoinServerChannel;

verus! {

/// The cooldown between two announcements of one player, in seconds.
pub const PLAYER_ANNOUNCE_COOLDOWN: u64 = 600;

/// The text sent to every subscribed channel when `name` joins.
pub open spec fn announcement_text(name: Seq<char>) -> Seq<char> {
    name + " just joined the server!"@
}

pub fn announcement(player_name: &str) -> (r: String)
    ensures
        r@ == announcement_text(player_name@),
{
    let mut text = player_name.to_owned();
    text.append(" just joined the server!");
    text
}

/// A store (ignore list or subscriptions) could not answer.
#[derive(Clone, Debug)]
pub struct LookupError {
    pub message: String,
}

/// A channel did not take an announcement.
#[derive(Debug)]
pub struct DeliveryError {
    pub message: String,
}

/// One attempt to announce in one channel.
#[derive(Debug)]
pub struct Delivery {
    pub target: PlayerJoinServerChannel,
    pub outcome: Result<(), DeliveryError>,
}

/// The attempts of one fan-out, one per subscribed channel, in the order
/// in which the channels were listed.
#[derive(Debug)]
pub struct FanoutReport {
    pub deliveries: Vec<Delivery>,
}

/// The channels whose attempt failed, in order.
pub open spec fn failed_of(ds: Seq<Delivery>) -> Seq<PlayerJoinServerChannel>
    decreases ds.len(),
{
    if ds.len() == 0 {
        Seq::empty()
    } else if ds.last().outcome is Err {
        failed_of(ds.drop_last()).push(ds.last().target)
    } else {
        failed_of(ds.drop_last())
    }
}

/// The channels whose attempt succeeded, in order.
pub open spec fn succeeded_of(ds: Seq<Delivery>) -> Seq<PlayerJoinServerChannel>
    decreases ds.len(),
{
    if ds.len() == 0 {
        Seq::empty()
    } else if ds.last().outcome is Ok {
        succeeded_of(ds.drop_last()).push(ds.last().target)
    } else {
        succeeded_of(ds.drop_last())
    }
}

impl FanoutReport {
    pub fn failed_targets(&self) -> (r: Vec<PlayerJoinServerChannel>)
        ensures
            r@ == failed_of(self.deliveries@),
    {
        let mut r: Vec<PlayerJoinServerChannel> = Vec::new();
        let mut i: usize = 0;
        while i < self.deliveries.len()
            invariant
                i <= self.deliveries@.len(),
                r@ == failed_of(self.deliveries@.subrange(0, i as int)),
            decreases self.deliveries@.len() - i,
        {
            proof {
                assert(self.deliveries@.subrange(0, i + 1).drop_last() =~= self.deliveries@.subrange(
                    0,
                    i as int,
                ));
            }
            if self.deliveries[i].outcome.is_err() {
                r.push(self.deliveries[i].target);
            }
            i = i + 1;
        }
        proof {
            assert(self.deliveries@.subrange(0, i as int) =~= self.deliveries@);
        }
        r
    }

    pub fn succeeded_targets(&self) -> (r: Vec<PlayerJoinServerChannel>)
        ensures
            r@ == succeeded_of(self.deliveries@),
    {
        let mut r: Vec<PlayerJoinServerChannel> = Vec::new();
        let mut i: usize = 0;
        while i < self.deliveries.len()
            invariant
                i <= self.deliveries@.len(),
                r@ == succeeded_of(self.deliveries@.subrange(0, i as int)),
            decreases self.deliveries@.len() - i,
        {
            proof {
                assert(self.deliveries@.subrange(0, i + 1).drop_last() =~= self.deliveries@.subrange(
                    0,
                    i as int,
                ));
            }
            if self.deliveries[i].outcome.is_ok() {
                r.push(self.deliveries[i].target);
            }
            i = i + 1;
        }
        proof {
            assert(self.deliveries@.subrange(0, i as int) =~= self.deliveries@);
        }
        r
    }
}

} // verus!

verus! {

/// The next outside step that the pump asks of its caller.
#[derive(Debug)]
pub enum Action {
    /// Wait for the next console line.
    Await,
    /// Ask the ignore list whether joins of this player go unannounced.
    CheckIgnore(String),
    /// List the subscribed channels.
    FetchTargets,
    /// Send this text to this channel.
    Deliver(PlayerJoinServerChannel, String),
    /// The fan-out is over; every listed channel was tried once.
    Done(FanoutReport),
}

impl Action {
    pub open spec fn is_check_ignore_of(&self, name: Seq<char>) -> bool {
        match self {
            Action::CheckIgnore(n) => n@ == name,
            _ => false,
        }
    }

    pub open spec fn is_deliver_of(&self, target: PlayerJoinServerChannel, text: Seq<char>) -> bool {
        match self {
            Action::Deliver(t, m) => *t == target && m@ == text,
            _ => false,
        }
    }

    pub open spec fn is_done_with(&self, deliveries: Seq<Delivery>) -> bool {
        match self {
            Action::Done(report) => report.deliveries@ == deliveries,
            _ => false,
        }
    }
}

/// Where the pump stands between two calls.
pub enum Phase {
    /// Waiting for a line.
    Idle,
    /// Waiting for the ignore list's answer about this name.
    IgnoreCheck(Seq<char>),
    /// Waiting for the list of channels, to announce this name.
    Fetching(Seq<char>),
    /// Announcing this text to these channels; these attempts are made.
    FanningOut(Seq<char>, Seq<PlayerJoinServerChannel>, Seq<Delivery>),
}

enum Stage {
    Idle,
    IgnoreCheck(String),
    Fetching(String),
    FanningOut(String, Vec<PlayerJoinServerChannel>, Vec<Delivery>),
}

/// One pass of the pipeline per console line, in arrival order.
pub struct StreamPump {
    presence: PlayerPresenceLog,
    cooldown: u64,
    stage: Stage,
}

impl StreamPump {
    pub closed spec fn phase(&self) -> Phase {
        match self.stage {
            Stage::Idle => Phase::Idle,
            Stage::IgnoreCheck(n) => Phase::IgnoreCheck(n@),
            Stage::Fetching(n) => Phase::Fetching(n@),
            Stage::FanningOut(m, ts, ds) => Phase::FanningOut(m@, ts@, ds@),
        }
    }

    /// The cooldown records of announced players.
    pub closed spec fn records(&self) -> Map<Seq<char>, u64> {
        self.presence.records()
    }

    /// Announcements since the last sweep of dead records.
    pub closed spec fn joins(&self) -> nat {
        self.presence.joins()
    }

    pub closed spec fn cooldown(&self) -> u64 {
        self.cooldown
    }

    pub closed spec fn wf(&self) -> bool {
        &&& self.presence.wf()
        &&& match self.stage {
            Stage::FanningOut(_, ts, ds) => ds@.len() < ts@.len(),
            _ => true,
        }
    }

    /// A pump with no records, waiting for its first line; `cooldown` is in
    /// seconds.
    pub fn new(cooldown: u64) -> (r: Self)
        ensures
            r.wf(),
            r.phase() == Phase::Idle,
            r.records() == Map::<Seq<char>, u64>::empty(),
            r.joins() == 0,
            r.cooldown() == cooldown,
    {
        StreamPump { presence: PlayerPresenceLog::new(), cooldown, stage: Stage::Idle }
    }

    /// How many cooldown records are stored, live or dead.
    pub fn presence_len(&self) -> (r: usize)
        requires
            self.wf(),
        ensures
            r == self.records().len(),
    {
        self.presence.len()
    }

    /// A console line arrives at `now`. A join line whose player is not
    /// cooling down is recorded and leads to the ignore-list check; any other
    /// line changes nothing. Lines are only taken while the pump is idle.
    pub fn on_line(&mut self, line: &str, now: u64) -> (r: Action)
        requires
            old(self).wf(),
        ensures
            final(self).wf(),
            final(self).cooldown() == old(self).cooldown(),
            !(old(self).phase() is Idle) || join_name(line.spec_bytes()) is None ==> {
                &&& r is Await
                &&& final(self).phase() == old(self).phase()
                &&& final(self).records() == old(self).records()
                &&& final(self).joins() == old(self).joins()
            },
            old(self).phase() is Idle && join_name(line.spec_bytes()) is Some ==> ({
                let name = vstd::utf8::decode_utf8(join_name(line.spec_bytes())->0);
                let step = record_step(
                    old(self).records(),
                    old(self).joins(),
                    name,
                    now,
                    old(self).cooldown(),
                );
                &&& final(self).records() == step.0
                &&& final(self).joins() == step.1
                &&& if step.2 {
                    final(self).phase() == Phase::IgnoreCheck(name) && r.is_check_ignore_of(name)
                } else {
                    final(self).phase() is Idle && r is Await
                }
            }),
    {
        if !matches!(self.stage, Stage::Idle) {
            return Action::Await;
        }
        match player_joined_catch(line) {
            None => Action::Await,
            Some(found) => {
                proof {
                    vstd::utf8::encode_utf8_decode_utf8(found@);
                }
                let name = found.to_owned();
                if self.presence.new_player(name.clone(), now, self.cooldown) {
                    self.stage = Stage::IgnoreCheck(name.clone());
                    Action::CheckIgnore(name)
                } else {
                    Action::Await
                }
            },
        }
    }

    /// The ignore list answers. Only a clear "not ignored" goes on to the
    /// channel list; an ignored player or a failed lookup ends the pass.
    pub fn on_ignore_lookup(&mut self, lookup: Result<bool, LookupError>) -> (r: Action)
        requires
            old(self).wf(),
        ensures
            final(self).wf(),
            final(self).cooldown() == old(self).cooldown(),
            final(self).records() == old(self).records(),
            final(self).joins() == old(self).joins(),
            match old(self).phase() {
                Phase::IgnoreCheck(name) => if lookup matches Ok(false) {
                    final(self).phase() == Phase::Fetching(name) && r is FetchTargets
                } else {
                    final(self).phase() is Idle && r is Await
                },
                _ => final(self).phase() == old(self).phase() && r is Await,
            },
    {
        let mut stage = Stage::Idle;
        std::mem::swap(&mut self.stage, &mut stage);
        match stage {
            Stage::IgnoreCheck(name) => {
                match lookup {
                    Ok(false) => {
                        self.stage = Stage::Fetching(name);
                        Action::FetchTargets
                    },
                    _ => Action::Await,
                }
            },
            other => {
                self.stage = other;
                Action::Await
            },
        }
    }

    /// The channel list arrives. An empty list ends the pass with an empty
    /// report; otherwise the announcement goes to the first channel. A failed
    /// lookup ends the pass.
    pub fn on_targets(&mut self, lookup: Result<Vec<PlayerJoinServerChannel>, LookupError>) -> (r:
        Action)
        requires
            old(self).wf(),
        ensures
            final(self).wf(),
            final(self).cooldown() == old(self).cooldown(),
            final(self).records() == old(self).records(),
            final(self).joins() == old(self).joins(),
            match old(self).phase() {
                Phase::Fetching(name) => match lookup {
                    Err(_) => final(self).phase() is Idle && r is Await,
                    Ok(ts) => if ts@.len() == 0 {
                        final(self).phase() is Idle && r.is_done_with(Seq::empty())
                    } else {
                        &&& final(self).phase() == Phase::FanningOut(
                            announcement_text(name),
                            ts@,
                            Seq::empty(),
                        )
                        &&& r.is_deliver_of(ts@[0], announcement_text(name))
                    },
                },
                _ => final(self).phase() == old(self).phase() && r is Await,
            },
    {
        let mut stage = Stage::Idle;
        std::mem::swap(&mut self.stage, &mut stage);
        match stage {
            Stage::Fetching(name) => {
                match lookup {
                    Err(_) => Action::Await,
                    Ok(targets) => {
                        if targets.len() == 0 {
                            return Action::Done(FanoutReport { deliveries: Vec::new() });
                        }
                        let text = announcement(name.as_str());
                        let first = targets[0];
                        self.stage = Stage::FanningOut(text.clone(), targets, Vec::new());
                        Action::Deliver(first, text)
                    },
                }
            },
            other => {
                self.stage = other;
                Action::Await
            },
        }
    }

    /// The outcome of the latest attempt arrives. It is recorded whatever it
    /// is, and the next channel is tried; after the last channel the report
    /// of all attempts is handed out.
    pub fn on_delivery(&mut self, outcome: Result<(), DeliveryError>) -> (r: Action)
        requires
            old(self).wf(),
        ensures
            final(self).wf(),
            final(self).cooldown() == old(self).cooldown(),
            final(self).records() == old(self).records(),
            final(self).joins() == old(self).joins(),
            match old(self).phase() {
                Phase::FanningOut(text, ts, ds) => {
                    let done = ds.push(Delivery { target: ts[ds.len() as int], outcome });
                    if done.len() == ts.len() {
                        final(self).phase() is Idle && r.is_done_with(done)
                    } else {
                        &&& final(self).phase() == Phase::FanningOut(text, ts, done)
                        &&& r.is_deliver_of(ts[done.len() as int], text)
                    }
                },
                _ => final(self).phase() == old(self).phase() && r is Await,
            },
    {
        let mut stage = Stage::Idle;
        std::mem::swap(&mut self.stage, &mut stage);
        match stage {
            Stage::FanningOut(text, targets, mut done) => {
                let target = targets[done.len()];
                done.push(Delivery { target, outcome });
                if done.len() == targets.len() {
                    Action::Done(FanoutReport { deliveries: done })
                } else {
                    let next = targets[done.len()];
                    let again = text.clone();
                    self.stage = Stage::FanningOut(text, targets, done);
                    Action::Deliver(next, again)
                }
            },
            other => {
                self.stage = other;
                Action::Await
            },
        }
    }
}

} // verus!

verus! {

/// One attempt per channel, in order: `outcomes[i]` is what `targets[i]` gave.
pub open spec fn attempts(
    targets: Seq<PlayerJoinServerChannel>,
    outcomes: Seq<Result<(), DeliveryError>>,
) -> Seq<Delivery> {
    Seq::new(targets.len(), |i: int| Delivery { target: targets[i], outcome: outcomes[i] })
}

/// A report marks as failed exactly the channels whose attempt failed, and
/// as succeeded exactly the others: a failure at one channel takes nothing
/// from the rest.
pub proof fn lemma_report_marks_exactly_failures(
    targets: Seq<PlayerJoinServerChannel>,
    outcomes: Seq<Result<(), DeliveryError>>,
)
    requires
        targets.len() == outcomes.len(),
    ensures
        forall|t: PlayerJoinServerChannel|
            failed_of(attempts(targets, outcomes)).contains(t) <==> exists|i: int|
                0 <= i < targets.len() && targets[i] == t && outcomes[i] is Err,
        forall|t: PlayerJoinServerChannel|
            succeeded_of(attempts(targets, outcomes)).contains(t) <==> exists|i: int|
                0 <= i < targets.len() && targets[i] == t && outcomes[i] is Ok,
        failed_of(attempts(targets, outcomes)).len() + succeeded_of(attempts(targets, outcomes)).len()
            == targets.len(),
    decreases targets.len(),
{
    if targets.len() > 0 {
        let n = targets.len() - 1;
        let pt = targets.drop_last();
        let po = outcomes.drop_last();
        lemma_report_marks_exactly_failures(pt, po);
        let ds = attempts(targets, outcomes);
        assert(ds.drop_last() =~= attempts(pt, po));
        assert forall|t: PlayerJoinServerChannel|
            failed_of(ds).contains(t) <==> exists|i: int|
                0 <= i < targets.len() && targets[i] == t && outcomes[i] is Err by {
            if exists|i: int| 0 <= i < targets.len() && targets[i] == t && outcomes[i] is Err {
                let i = choose|i: int|
                    0 <= i < targets.len() && targets[i] == t && outcomes[i] is Err;
                if i < n {
                    assert(pt[i] == t && po[i] is Err);
                    assert(failed_of(attempts(pt, po)).contains(t));
                    let k = choose|k: int|
                        0 <= k < failed_of(attempts(pt, po)).len()
                            && failed_of(attempts(pt, po))[k] == t;
                    assert(failed_of(ds)[k] == t);
                } else {
                    assert(failed_of(ds).last() == t);
                }
            }
            if failed_of(ds).contains(t) {
                let k = choose|k: int| 0 <= k < failed_of(ds).len() && failed_of(ds)[k] == t;
                if k < failed_of(attempts(pt, po)).len() {
                    assert(failed_of(attempts(pt, po)).contains(t));
                    let i = choose|i: int| 0 <= i < pt.len() && pt[i] == t && po[i] is Err;
                    assert(targets[i] == t && outcomes[i] is Err);
                } else {
                    assert(targets[n] == t && outcomes[n] is Err);
                }
            }
        }
        assert forall|t: PlayerJoinServerChannel|
            succeeded_of(ds).contains(t) <==> exists|i: int|
                0 <= i < targets.len() && targets[i] == t && outcomes[i] is Ok by {
            if exists|i: int| 0 <= i < targets.len() && targets[i] == t && outcomes[i] is Ok {
                let i = choose|i: int|
                    0 <= i < targets.len() && targets[i] == t && outcomes[i] is Ok;
                if i < n {
                    assert(pt[i] == t && po[i] is Ok);
                    assert(succeeded_of(attempts(pt, po)).contains(t));
                    let k = choose|k: int|
                        0 <= k < succeeded_of(attempts(pt, po)).len()
                            && succeeded_of(attempts(pt, po))[k] == t;
                    assert(succeeded_of(ds)[k] == t);
                } else {
                    assert(succeeded_of(ds).last() == t);
                }
            }
            if succeeded_of(ds).contains(t) {
                let k = choose|k: int| 0 <= k < succeeded_of(ds).len() && succeeded_of(ds)[k] == t;
                if k < succeeded_of(attempts(pt, po)).len() {
                    assert(succeeded_of(attempts(pt, po)).contains(t));
                    let i = choose|i: int| 0 <= i < pt.len() && pt[i] == t && po[i] is Ok;
                    assert(targets[i] == t && outcomes[i] is Ok);
                } else {
                    assert(targets[n] == t && outcomes[n] is Ok);
                }
            }
        }
    }
}

} // verus!
