//! The in-memory record of recent announcements: for each player name, the
//! time until which a new join of that name is not announced again.
//!
//! Times are whole seconds on one clock (the crate uses seconds since the
//! Unix epoch). Records whose expiry has passed are dead though they may
//! still be stored; a sweep removes them, run inline after every
//! `SWEEP_THRESHOLD` announcements.
use vstd::prelude::*;

verus! {

/// How many announcements are recorded between two sweeps of dead records.
pub const SWEEP_THRESHOLD: u8 = 50;

/// The time until which a name announced at `now` stays quiet; a time past
/// the end of the clock stays at its last second.
pub open spec fn expiry_after(now: u64, cooldown: u64) -> u64 {
    if now + cooldown <= u64::MAX {
        (now + cooldown) as u64
    } else {
        u64::MAX
    }
}

/// `name` was announced and its cooldown has not passed at `now`; a record
/// that expires exactly at `now` has passed.
pub open spec fn is_cooling(records: Map<Seq<char>, u64>, name: Seq<char>, now: u64) -> bool {
    records.contains_key(name) && now < records[name]
}

/// The records that are still alive at `now`.
pub open spec fn unexpired(records: Map<Seq<char>, u64>, now: u64) -> Map<Seq<char>, u64> {
    Map::new(|k: Seq<char>| records.contains_key(k) && now < records[k], |k: Seq<char>| records[k])
}

/// One join of `name` at `now`, from records and the count of announcements
/// since the last sweep: the records after it, the count after it, and
/// whether the join is announced.
///
/// A join is announced when the name is not cooling down. An announcement
/// adds one to the count; when the count reaches the threshold, the dead
/// records are swept and the count starts again from zero. The announced
/// name is then recorded until `expiry_after(now, cooldown)`. A join that is
/// not announced changes nothing.
pub open spec fn record_step(
    records: Map<Seq<char>, u64>,
    joins: nat,
    name: Seq<char>,
    now: u64,
    cooldown: u64,
) -> (Map<Seq<char>, u64>, nat, bool) {
    if is_cooling(records, name, now) {
        (records, joins, false)
    } else if joins + 1 >= SWEEP_THRESHOLD {
        (unexpired(records, now).insert(name, expiry_after(now, cooldown)), 0, true)
    } else {
        (records.insert(name, expiry_after(now, cooldown)), joins + 1, true)
    }
}

/// Names of recently announced players and when their cooldown ends.
pub struct PlayerPresenceLog {
    entries: Vec<(String, u64)>,
    joins_since_sweep: u8,
    recorded: Ghost<Map<Seq<char>, u64>>,
}

impl PlayerPresenceLog {
    /// The stored records, live and dead, by name.
    pub closed spec fn records(&self) -> Map<Seq<char>, u64> {
        self.recorded@
    }

    /// Announcements recorded since the last sweep.
    pub closed spec fn joins(&self) -> nat {
        self.joins_since_sweep as nat
    }

    pub closed spec fn wf(&self) -> bool {
        &&& self.joins_since_sweep < SWEEP_THRESHOLD
        &&& entries_match(self.entries@, self.recorded@)
    }

    pub fn new() -> (r: Self)
        ensures
            r.wf(),
            r.records() == Map::<Seq<char>, u64>::empty(),
            r.joins() == 0,
    {
        let r = PlayerPresenceLog {
            entries: Vec::new(),
            joins_since_sweep: 0,
            recorded: Ghost(Map::empty()),
        };
        proof {
            assert(r.recorded@.dom() =~= Set::<Seq<char>>::empty());
        }
        r
    }

    /// How many records are stored, live or dead.
    pub fn len(&self) -> (r: usize)
        requires
            self.wf(),
        ensures
            r == self.records().len(),
    {
        self.entries.len()
    }

    /// Whether a record that expires at `death_time` has passed at `now`.
    pub fn is_past(death_time: u64, now: u64) -> (r: bool)
        ensures
            r == (death_time <= now),
    {
        death_time <= now
    }

    /// Where the record of `name` is stored, if it is.
    fn find(&self, name: &String) -> (r: Option<usize>)
        requires
            self.wf(),
        ensures
            match r {
                Some(i) => i < self.entries@.len() && self.entries@[i as int].0@ == name@,
                None => !self.records().contains_key(name@),
            },
    {
        let mut i: usize = 0;
        while i < self.entries.len()
            invariant
                self.wf(),
                i <= self.entries@.len(),
                forall|j: int| 0 <= j < i ==> self.entries@[j].0@ != name@,
            decreases self.entries@.len() - i,
        {
            if self.entries[i].0 == *name {
                return Some(i);
            }
            i = i + 1;
        }
        None
    }

    /// Whether a join of `player_name` at `now` would be announced: its
    /// record is absent or has passed.
    pub fn is_record_expired(&self, player_name: &str, now: u64) -> (r: bool)
        requires
            self.wf(),
        ensures
            r == !is_cooling(self.records(), player_name@, now),
    {
        let key = player_name.to_owned();
        match self.find(&key) {
            None => true,
            Some(i) => {
                proof {
                    assert(self.records().contains_key(self.entries@[i as int].0@));
                }
                Self::is_past(self.entries[i].1, now)
            },
        }
    }

    /// Removes every record that has passed at `now`.
    pub fn cleanup(&mut self, now: u64)
        requires
            old(self).wf(),
        ensures
            final(self).wf(),
            final(self).records() == unexpired(old(self).records(), now),
            final(self).joins() == old(self).joins(),
    {
        let ghost before = self.recorded@;
        let mut kept: Vec<(String, u64)> = Vec::new();
        let ghost mut alive: Map<Seq<char>, u64> = Map::empty();
        proof {
            assert(alive.dom() =~= Set::<Seq<char>>::empty());
        }
        let n = self.entries.len();
        let mut i: usize = 0;
        while i < n
            invariant
                n == self.entries@.len(),
                i <= n,
                self.wf(),
                self.recorded@ == before,
                self.joins_since_sweep == old(self).joins_since_sweep,
                entries_match(kept@, alive),
                forall|k: Seq<char>|
                    #[trigger] alive.contains_key(k) <==> exists|j: int|
                        0 <= j < i && self.entries@[j].0@ == k && now < self.entries@[j].1,
                forall|k: Seq<char>| #[trigger] alive.contains_key(k) ==> alive[k] == before[k],
            decreases n - i,
        {
            let name = self.entries[i].0.clone();
            let expiry = self.entries[i].1;
            if now < expiry {
                proof {
                    assert(before.contains_key(self.entries@[i as int].0@));
                    if alive.contains_key(name@) {
                        let j = choose|j: int|
                            0 <= j < i && self.entries@[j].0@ == name@ && now
                                < self.entries@[j].1;
                        assert(self.entries@[j].0@ != self.entries@[i as int].0@);
                    }
                    lemma_entries_match_push(kept@, alive, (name, expiry));
                }
                kept.push((name, expiry));
                proof {
                    alive = alive.insert(name@, expiry);
                }
            }
            proof {
                assert forall|k: Seq<char>|
                    #[trigger] alive.contains_key(k) <==> exists|j: int|
                        0 <= j < i + 1 && self.entries@[j].0@ == k && now
                            < self.entries@[j].1 by {
                    if exists|j: int|
                        0 <= j < i + 1 && self.entries@[j].0@ == k && now < self.entries@[j].1 {
                        let j = choose|j: int|
                            0 <= j < i + 1 && self.entries@[j].0@ == k && now
                                < self.entries@[j].1;
                        if j < i {
                            assert(alive.contains_key(k));
                        }
                    }
                }
            }
            i = i + 1;
        }
        proof {
            assert forall|k: Seq<char>|
                #[trigger] alive.contains_key(k) == unexpired(before, now).contains_key(k) by {
                if before.contains_key(k) {
                    let j = choose|j: int| 0 <= j < n && self.entries@[j].0@ == k;
                    assert(before.contains_key(self.entries@[j].0@));
                }
                if alive.contains_key(k) {
                    let j = choose|j: int|
                        0 <= j < n && self.entries@[j].0@ == k && now < self.entries@[j].1;
                    assert(before.contains_key(self.entries@[j].0@));
                }
            }
            assert(alive =~= unexpired(before, now));
        }
        self.entries = kept;
        self.recorded = Ghost(alive);
    }

    /// A join of `player_name` at `join_time`: announced (true) when the
    /// name is not cooling down, and then recorded until `join_time` plus
    /// `live_time`; see [`record_step`], which also tells when the dead
    /// records are swept.
    pub fn new_player(&mut self, player_name: String, join_time: u64, live_time: u64) -> (r: bool)
        requires
            old(self).wf(),
        ensures
            final(self).wf(),
            (final(self).records(), final(self).joins(), r) == record_step(
                old(self).records(),
                old(self).joins(),
                player_name@,
                join_time,
                live_time,
            ),
    {
        if !self.is_record_expired(player_name.as_str(), join_time) {
            return false;
        }
        if self.joins_since_sweep + 1 >= SWEEP_THRESHOLD {
            self.cleanup(join_time);
            self.joins_since_sweep = 0;
        } else {
            self.joins_since_sweep = self.joins_since_sweep + 1;
        }
        let expiry: u64 = if live_time <= u64::MAX - join_time {
            join_time + live_time
        } else {
            u64::MAX
        };
        match self.find(&player_name) {
            Some(i) => {
                proof {
                    lemma_entries_match_update(
                        self.entries@,
                        self.recorded@,
                        i as int,
                        (player_name, expiry),
                    );
                    self.recorded@ = self.recorded@.insert(player_name@, expiry);
                }
                self.entries[i] = (player_name, expiry);
            },
            None => {
                proof {
                    lemma_entries_match_push(self.entries@, self.recorded@, (player_name, expiry));
                    self.recorded@ = self.recorded@.insert(player_name@, expiry);
                }
                self.entries.push((player_name, expiry));
            },
        }
        true
    }

    /// A join of `player_name` now, by the machine's clock; see
    /// [`Self::new_player`].
    pub fn new_player_now(&mut self, player_name: String, live_time: u64) -> (r: bool)
        requires
            old(self).wf(),
        ensures
            final(self).wf(),
            exists|now: u64|
                (final(self).records(), final(self).joins(), r) == record_step(
                    old(self).records(),
                    old(self).joins(),
                    player_name@,
                    now,
                    live_time,
                ),
    {
        let now = unix_now_secs();
        self.new_player(player_name, now, live_time)
    }
}

/// Relies on `std::time::SystemTime::now`: the machine's clock, read as
/// whole seconds since the Unix epoch (zero for a clock set before it).
/// Nothing is promised of the value.
#[verifier::external_body]
pub fn unix_now_secs() -> (r: u64) {
    std::time::SystemTime::now().duration_since(std::time::UNIX_EPOCH).map(|d| d.as_secs()).unwrap_or(0)
}

/// A name announced at `t` is not announced again by a join before `t`
/// plus the cooldown, and is announced again by a join at or after it.
pub proof fn lemma_cooldown_suppresses_then_expires(
    records: Map<Seq<char>, u64>,
    joins: nat,
    name: Seq<char>,
    cooldown: u64,
    t: u64,
    t_early: u64,
    t_late: u64,
)
    requires
        joins < SWEEP_THRESHOLD,
        !is_cooling(records, name, t),
        t + cooldown <= u64::MAX,
        t_early < t + cooldown,
        t_late >= t + cooldown,
    ensures
        ({
            let first = record_step(records, joins, name, t, cooldown);
            let second = record_step(first.0, first.1, name, t_early, cooldown);
            let third = record_step(second.0, second.1, name, t_late, cooldown);
            first.2 && !second.2 && third.2
        }),
{
}

/// The records and the announcement count after joins of `names[i]` at
/// `times[i]`, one after the other.
pub open spec fn replay(
    records: Map<Seq<char>, u64>,
    joins: nat,
    names: Seq<Seq<char>>,
    times: Seq<u64>,
    cooldown: u64,
) -> (Map<Seq<char>, u64>, nat)
    decreases names.len(),
{
    if names.len() == 0 {
        (records, joins)
    } else {
        let before = replay(records, joins, names.drop_last(), times.drop_last(), cooldown);
        let after = record_step(
            before.0,
            before.1,
            names.last(),
            times[names.len() - 1],
            cooldown,
        );
        (after.0, after.1)
    }
}

/// Joins of distinct names, none of whose records expires while they come,
/// leave one record per name, however many sweeps ran in between.
pub proof fn lemma_sweeps_keep_live_records(
    names: Seq<Seq<char>>,
    times: Seq<u64>,
    cooldown: u64,
)
    requires
        times.len() == names.len(),
        forall|i: int, j: int| 0 <= i < j < names.len() ==> names[i] != names[j],
        forall|i: int| 0 <= i < times.len() ==> times[i] + cooldown <= u64::MAX,
        forall|i: int, j: int|
            0 <= i < times.len() && 0 <= j < times.len() ==> times[j] < times[i] + cooldown,
    ensures
        ({
            let m = replay(Map::empty(), 0, names, times, cooldown).0;
            &&& m.dom() == names.to_set()
            &&& m.len() == names.len()
        }),
{
    lemma_replay_fresh_names(names, times, cooldown);
    let m = replay(Map::empty(), 0, names, times, cooldown).0;
    assert forall|k: Seq<char>| m.dom().contains(k) <==> names.to_set().contains(k) by {
        if m.contains_key(k) {
            let i = choose|i: int| 0 <= i < names.len() && names[i] == k;
            assert(names.contains(k));
        }
        if names.contains(k) {
            let i = choose|i: int| 0 <= i < names.len() && names[i] == k;
            assert(m.contains_key(names[i]));
        }
    }
    assert(m.dom() =~= names.to_set());
}

proof fn lemma_replay_fresh_names(names: Seq<Seq<char>>, times: Seq<u64>, cooldown: u64)
    requires
        times.len() == names.len(),
        forall|i: int, j: int| 0 <= i < j < names.len() ==> names[i] != names[j],
        forall|i: int| 0 <= i < times.len() ==> times[i] + cooldown <= u64::MAX,
        forall|i: int, j: int|
            0 <= i < times.len() && 0 <= j < times.len() ==> times[j] < times[i] + cooldown,
    ensures
        ({
            let r = replay(Map::empty(), 0, names, times, cooldown);
            &&& r.1 < SWEEP_THRESHOLD
            &&& r.0.dom().finite()
            &&& r.0.len() == names.len()
            &&& forall|i: int|
                0 <= i < names.len() ==> #[trigger] r.0.contains_key(names[i]) && r.0[names[i]]
                    == times[i] + cooldown
            &&& forall|k: Seq<char>|
                #[trigger] r.0.contains_key(k) ==> exists|i: int|
                    0 <= i < names.len() && names[i] == k
        }),
    decreases names.len(),
{
    if names.len() == 0 {
        assert(Map::<Seq<char>, u64>::empty().dom() =~= Set::<Seq<char>>::empty());
    } else {
        let n = names.len() - 1;
        let pn = names.drop_last();
        let pt = times.drop_last();
        lemma_replay_fresh_names(pn, pt, cooldown);
        let before = replay(Map::empty(), 0, pn, pt, cooldown);
        let m = before.0;
        let name = names[n];
        let now = times[n];
        assert(!m.contains_key(name)) by {
            if m.contains_key(name) {
                let i = choose|i: int| 0 <= i < pn.len() && pn[i] == name;
                assert(names[i] == names[n]);
            }
        }
        assert(unexpired(m, now) =~= m) by {
            assert forall|k: Seq<char>| m.contains_key(k) implies now < m[k] by {
                let i = choose|i: int| 0 <= i < pn.len() && pn[i] == k;
                assert(m.contains_key(pn[i]));
                assert(times[n] < times[i] + cooldown);
            }
        }
        let m2 = m.insert(name, expiry_after(now, cooldown));
        assert(m2.dom() =~= m.dom().insert(name));
        let r = replay(Map::empty(), 0, names, times, cooldown);
        assert(r.0 == m2);
        assert forall|i: int| 0 <= i < names.len() implies #[trigger] r.0.contains_key(names[i])
            && r.0[names[i]] == times[i] + cooldown by {
            if i < n {
                assert(m.contains_key(pn[i]));
                assert(names[i] != names[n]);
            }
        }
        assert forall|k: Seq<char>| #[trigger] r.0.contains_key(k) implies exists|i: int|
            0 <= i < names.len() && names[i] == k by {
            if k != name {
                assert(m.contains_key(k));
                let i = choose|i: int| 0 <= i < pn.len() && pn[i] == k;
                assert(names[i] == k);
            }
        }
    }
}

/// A sweep at `now` keeps exactly the records that expire after `now`.
pub proof fn lemma_sweep_counts_live_records(records: Map<Seq<char>, u64>, now: u64)
    requires
        records.dom().finite(),
    ensures
        unexpired(records, now).dom() == records.dom().filter(|k: Seq<char>| now < records[k]),
        unexpired(records, now).len() == records.dom().filter(|k: Seq<char>| now < records[k]).len(),
{
    assert(unexpired(records, now).dom() =~= records.dom().filter(|k: Seq<char>| now < records[k]));
}

/// Each entry is the record of its name, no name stands twice, and every
/// record has its entry.
pub open spec fn entries_match(entries: Seq<(String, u64)>, records: Map<Seq<char>, u64>) -> bool {
    &&& records.dom().finite()
    &&& records.dom().len() == entries.len()
    &&& forall|i: int|
        0 <= i < entries.len() ==> #[trigger] records.contains_key(entries[i].0@)
            && records[entries[i].0@] == entries[i].1
    &&& forall|i: int, j: int|
        0 <= i < j < entries.len() ==> #[trigger] entries[i].0@ != #[trigger] entries[j].0@
    &&& forall|k: Seq<char>|
        #[trigger] records.contains_key(k) ==> exists|i: int|
            0 <= i < entries.len() && entries[i].0@ == k
}

proof fn lemma_entries_match_push(
    entries: Seq<(String, u64)>,
    records: Map<Seq<char>, u64>,
    e: (String, u64),
)
    requires
        entries_match(entries, records),
        !records.contains_key(e.0@),
    ensures
        entries_match(entries.push(e), records.insert(e.0@, e.1)),
{
    let es = entries.push(e);
    let rs = records.insert(e.0@, e.1);
    assert(rs.dom() =~= records.dom().insert(e.0@));
    assert forall|i: int| 0 <= i < es.len() implies #[trigger] rs.contains_key(es[i].0@)
        && rs[es[i].0@] == es[i].1 by {
        if i < entries.len() {
            assert(records.contains_key(entries[i].0@));
        }
    }
    assert forall|i: int, j: int| 0 <= i < j < es.len() implies #[trigger] es[i].0@
        != #[trigger] es[j].0@ by {
        if j == entries.len() {
            assert(records.contains_key(entries[i].0@));
        }
    }
    assert forall|k: Seq<char>| #[trigger] rs.contains_key(k) implies exists|i: int|
        0 <= i < es.len() && es[i].0@ == k by {
        if k == e.0@ {
            assert(es[entries.len() as int].0@ == k);
        } else {
            assert(records.contains_key(k));
            let i = choose|i: int| 0 <= i < entries.len() && entries[i].0@ == k;
            assert(es[i].0@ == k);
        }
    }
}

proof fn lemma_entries_match_update(
    entries: Seq<(String, u64)>,
    records: Map<Seq<char>, u64>,
    at: int,
    e: (String, u64),
)
    requires
        entries_match(entries, records),
        0 <= at < entries.len(),
        entries[at].0@ == e.0@,
    ensures
        entries_match(entries.update(at, e), records.insert(e.0@, e.1)),
{
    let es = entries.update(at, e);
    let rs = records.insert(e.0@, e.1);
    assert(records.contains_key(entries[at].0@));
    assert(rs.dom() =~= records.dom());
    assert forall|i: int| 0 <= i < es.len() implies #[trigger] rs.contains_key(es[i].0@)
        && rs[es[i].0@] == es[i].1 by {
        if i != at {
            assert(records.contains_key(entries[i].0@));
            assert(entries[i].0@ != entries[at].0@) by {
                if i < at {
                } else {
                }
            }
        }
    }
    assert forall|i: int, j: int| 0 <= i < j < es.len() implies #[trigger] es[i].0@
        != #[trigger] es[j].0@ by {
        assert(entries[i].0@ != entries[j].0@);
    }
    assert forall|k: Seq<char>| #[trigger] rs.contains_key(k) implies exists|i: int|
        0 <= i < es.len() && es[i].0@ == k by {
        assert(records.contains_key(k));
        let i = choose|i: int| 0 <= i < entries.len() && entries[i].0@ == k;
        assert(es[i].0@ == k);
    }
}

} // verus!
