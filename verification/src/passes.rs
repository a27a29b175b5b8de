//! The search for a satellite's next passes over the observer.
//!
//! Times are whole seconds after the moment the search starts. The search
//! asks for one elevation reading at a time (is the satellite above the
//! horizon at second `t`?) and decides, from each answer, what to ask
//! next, until it reports ten passes or fails. It scans a week in steps of
//! a minute, then walks second by second back to where the pass rises and
//! forward to where it sets, and starts the next week-long scan ten
//! seconds after that.
use vstd::prelude::*;

verus! {

/// Minutes scanned for each pass: one week.
pub const SCAN_MINUTES: u32 = 10080;

/// Above-horizon minutes beyond which the satellite is taken to be
/// geostationary.
pub const GEOSTATIONARY_MINUTES: u32 = 8000;

/// Passes reported by a successful search.
pub const PASS_COUNT: usize = 10;

/// Seconds after a pass's end at which the next scan starts.
pub const PASS_GAP: i64 = 10;

/// One pass: the last second at or below the horizon before it, and the
/// first second at or below the horizon after it.
#[derive(PartialEq, Eq, Structural, Clone, Copy, Debug)]
pub struct PassWindow {
    pub start: i64,
    pub end: i64,
}

/// Where the search stands.
#[derive(PartialEq, Eq, Structural, Clone, Copy, Debug)]
pub enum Phase {
    /// Scanning minute `minute` of the week; `above` minutes so far were
    /// above the horizon, the first of them at `first_above`.
    Scan { minute: u32, above: u32, first_above: Option<i64> },
    /// Walking back from `first`, now at second `t`.
    Rising { first: i64, t: i64 },
    /// The pass rose at `start`; walking forward from `first`, now at
    /// second `t`.
    Setting { start: i64, first: i64, t: i64 },
    /// The search has reported its outcome.
    Finished,
}

/// A search in progress.
pub struct PassSearch {
    /// The second at which the current week-long scan started.
    pub origin: i64,
    /// The passes found so far, in order.
    pub passes: Vec<PassWindow>,
    pub phase: Phase,
}

/// What the search asks for next, or its outcome.
pub enum PassAction {
    /// An elevation reading at this second; the reading may be missing.
    Sample(i64),
    /// An elevation reading at this second at the edge of a pass; the
    /// reading must be there.
    Edge(i64),
    /// The passes found, or why none could be.
    Finish(Result<Vec<PassWindow>, String>),
}

/// `x`, held within the range of `i64`.
pub open spec fn clamp(x: int) -> int {
    if x > i64::MAX {
        i64::MAX as int
    } else if x < i64::MIN {
        i64::MIN as int
    } else {
        x
    }
}

/// The second sampled at minute `minute` of a scan that starts at `origin`.
pub open spec fn sample_time(origin: int, minute: int) -> int {
    clamp(origin + 60 * minute)
}

pub open spec fn missing_reading_message() -> Seq<char> {
    "failed to find elevation of satellite"@
}

pub open spec fn geostationary_message() -> Seq<char> {
    "satellite is likely geostationary, a pass cannot be found"@
}

pub open spec fn no_pass_message() -> Seq<char> {
    "no pass was found within the next week"@
}

/// The passes are in order: each starts no later than it ends, and each
/// ends at least the gap after the one before (within the range of `i64`).
pub open spec fn passes_in_order(passes: Seq<PassWindow>) -> bool {
    &&& forall|k: int| 0 <= k < passes.len() ==> #[trigger] passes[k].start <= passes[k].end
    &&& forall|k: int|
        0 <= k < passes.len() - 1 ==> clamp(#[trigger] passes[k].end + PASS_GAP) <= passes[k
            + 1].end
}

impl PassSearch {
    /// The second whose reading the search waits for.
    pub open spec fn pending(&self) -> int {
        match self.phase {
            Phase::Scan { minute, .. } => sample_time(self.origin as int, minute as int),
            Phase::Rising { t, .. } => t as int,
            Phase::Setting { t, .. } => t as int,
            Phase::Finished => 0,
        }
    }

    /// The action that asks for the pending reading.
    pub open spec fn asks_pending(&self, action: PassAction) -> bool {
        match self.phase {
            Phase::Scan { .. } => action matches PassAction::Sample(t) && t == self.pending(),
            Phase::Finished => false,
            _ => action matches PassAction::Edge(t) && t == self.pending(),
        }
    }

    /// The search's invariant.
    pub open spec fn wf(&self) -> bool {
        &&& self.passes@.len() <= PASS_COUNT
        &&& self.phase != Phase::Finished ==> self.passes@.len() < PASS_COUNT
        &&& passes_in_order(self.passes@)
        &&& self.phase != Phase::Finished && self.passes@.len() > 0 ==> self.origin == clamp(
            self.passes@.last().end + PASS_GAP,
        )
        &&& match self.phase {
            Phase::Scan { minute, above, first_above } => {
                &&& minute < SCAN_MINUTES
                &&& above <= minute
                &&& (first_above is Some) == (above > 0)
                &&& first_above matches Some(f) ==> self.origin <= f
            },
            Phase::Rising { first, t } => {
                &&& self.origin <= first
                &&& t <= first
            },
            Phase::Setting { start, first, t } => {
                &&& self.origin <= first
                &&& start <= first <= t
            },
            Phase::Finished => true,
        }
    }

    /// Whether the search waits for a reading at the edge of a pass.
    pub open spec fn at_edge(&self) -> bool {
        self.phase is Rising || self.phase is Setting
    }
}

/// The search stops with `message` as its error.
pub open spec fn fails_with(new: PassSearch, action: PassAction, message: Seq<char>) -> bool {
    &&& new.phase == Phase::Finished
    &&& action matches PassAction::Finish(Err(m)) && m@ == message
}

/// The search takes up `phase`, keeping its scan start and its passes, and
/// asks for the reading that phase waits for.
pub open spec fn moves_to(old: PassSearch, new: PassSearch, action: PassAction, phase: Phase) -> bool {
    &&& new.origin == old.origin
    &&& new.passes@ == old.passes@
    &&& new.phase == phase
    &&& new.asks_pending(action)
}

/// One step of the search: from `old`, on `reading` of the pending second,
/// to `new`, doing `action`.
pub open spec fn step(old: PassSearch, reading: Option<bool>, new: PassSearch, action: PassAction) -> bool {
    match old.phase {
        Phase::Scan { minute, above, first_above } => match reading {
            None => fails_with(new, action, missing_reading_message()),
            Some(up) => {
                let t = old.pending() as i64;
                let above2 = if up { (above + 1) as u32 } else { above };
                let first2 = if first_above is None && up { Some(t) } else { first_above };
                if minute + 1 < SCAN_MINUTES {
                    moves_to(
                        old,
                        new,
                        action,
                        Phase::Scan { minute: (minute + 1) as u32, above: above2, first_above: first2 },
                    )
                } else {
                    match first2 {
                        None => fails_with(new, action, no_pass_message()),
                        Some(f) => if above2 > GEOSTATIONARY_MINUTES {
                            fails_with(new, action, geostationary_message())
                        } else {
                            moves_to(old, new, action, Phase::Rising { first: f, t: f })
                        },
                    }
                }
            },
        },
        Phase::Rising { first, t } => if reading == Some(true) {
            moves_to(old, new, action, Phase::Rising { first, t: clamp(t - 1) as i64 })
        } else {
            moves_to(old, new, action, Phase::Setting { start: t, first, t: first })
        },
        Phase::Setting { start, first, t } => if reading == Some(true) {
            moves_to(old, new, action, Phase::Setting { start, first, t: clamp(t + 1) as i64 })
        } else {
            let found = old.passes@.push(PassWindow { start, end: t });
            if found.len() == PASS_COUNT {
                &&& new.phase == Phase::Finished
                &&& action matches PassAction::Finish(Ok(v)) && v@ == found
            } else {
                &&& new.origin == clamp(t + PASS_GAP)
                &&& new.passes@ == found
                &&& new.phase == Phase::Scan { minute: 0, above: 0, first_above: None }
                &&& new.asks_pending(action)
            }
        },
        Phase::Finished => false,
    }
}

fn clamped_add(a: i64, b: i64) -> (r: i64)
    ensures
        r == clamp(a + b),
{
    match a.checked_add(b) {
        Some(r) => r,
        None => if b > 0 {
            i64::MAX
        } else {
            i64::MIN
        },
    }
}

impl PassSearch {
    /// A new search and its first request: the reading at the start.
    pub fn start() -> (r: (PassSearch, PassAction))
        ensures
            r.0.wf(),
            r.0.origin == 0,
            r.0.passes@.len() == 0,
            r.0.phase == (Phase::Scan { minute: 0, above: 0, first_above: None }),
            r.0.asks_pending(r.1),
    {
        (
            PassSearch {
                origin: 0,
                passes: Vec::new(),
                phase: Phase::Scan { minute: 0, above: 0, first_above: None },
            },
            PassAction::Sample(0),
        )
    }

    /// Takes the reading of the pending second (`Some(true)` when the
    /// satellite is above the horizon there, `None` when no elevation could
    /// be had) and returns what to do next.
    pub fn advance(&mut self, reading: Option<bool>) -> (action: PassAction)
        requires
            old(self).wf(),
            old(self).phase != Phase::Finished,
            old(self).at_edge() ==> reading is Some,
        ensures
            final(self).wf(),
            step(*old(self), reading, *final(self), action),
            action matches PassAction::Finish(Ok(v)) ==> v@.len() == PASS_COUNT && passes_in_order(
                v@,
            ),
    {
        match self.phase {
            Phase::Scan { .. } => self.scan_reading(reading),
            Phase::Rising { .. } => self.rising_reading(reading == Some(true)),
            Phase::Setting { .. } => self.setting_reading(reading == Some(true)),
            Phase::Finished => PassAction::Finish(Ok(Vec::new())),
        }
    }

    fn scan_reading(&mut self, reading: Option<bool>) -> (action: PassAction)
        requires
            old(self).wf(),
            old(self).phase is Scan,
        ensures
            final(self).wf(),
            step(*old(self), reading, *final(self), action),
            !(action is Finish) || action matches PassAction::Finish(Err(_)),
    {
        let ghost old_self = *self;
        if let Phase::Scan { minute, above, first_above } = self.phase {
            let t = clamped_add(self.origin, 60 * minute as i64);
            match reading {
                None => {
                    self.phase = Phase::Finished;
                    PassAction::Finish(Err(String::from_str("failed to find elevation of satellite")))
                },
                Some(up) => {
                    let above2 = if up { above + 1 } else { above };
                    let first2 = if first_above.is_none() && up { Some(t) } else { first_above };
                    if minute + 1 < SCAN_MINUTES {
                        self.phase = Phase::Scan { minute: minute + 1, above: above2, first_above: first2 };
                        PassAction::Sample(clamped_add(self.origin, 60 * (minute + 1) as i64))
                    } else {
                        match first2 {
                            None => {
                                self.phase = Phase::Finished;
                                PassAction::Finish(Err(String::from_str("no pass was found within the next week")))
                            },
                            Some(f) => if above2 > GEOSTATIONARY_MINUTES {
                                self.phase = Phase::Finished;
                                PassAction::Finish(
                                    Err(String::from_str("satellite is likely geostationary, a pass cannot be found")),
                                )
                            } else {
                                self.phase = Phase::Rising { first: f, t: f };
                                PassAction::Edge(f)
                            },
                        }
                    }
                },
            }
        } else {
            PassAction::Finish(Ok(Vec::new()))
        }
    }

    fn rising_reading(&mut self, up: bool) -> (action: PassAction)
        requires
            old(self).wf(),
            old(self).phase is Rising,
        ensures
            final(self).wf(),
            step(*old(self), Some(up), *final(self), action),
            !(action is Finish),
    {
        if let Phase::Rising { first, t } = self.phase {
            if up {
                let t2 = clamped_add(t, -1);
                self.phase = Phase::Rising { first, t: t2 };
                PassAction::Edge(t2)
            } else {
                self.phase = Phase::Setting { start: t, first, t: first };
                PassAction::Edge(first)
            }
        } else {
            PassAction::Finish(Ok(Vec::new()))
        }
    }

    fn setting_reading(&mut self, up: bool) -> (action: PassAction)
        requires
            old(self).wf(),
            old(self).phase is Setting,
        ensures
            final(self).wf(),
            step(*old(self), Some(up), *final(self), action),
            action matches PassAction::Finish(Ok(v)) ==> v@.len() == PASS_COUNT && passes_in_order(
                v@,
            ),
    {
        if let Phase::Setting { start, first, t } = self.phase {
            if up {
                let t2 = clamped_add(t, 1);
                self.phase = Phase::Setting { start, first, t: t2 };
                PassAction::Edge(t2)
            } else {
                self.passes.push(PassWindow { start, end: t });
                if self.passes.len() == PASS_COUNT {
                    self.phase = Phase::Finished;
                    let found = self.passes.clone();
                    PassAction::Finish(Ok(found))
                } else {
                    self.origin = clamped_add(t, PASS_GAP);
                    self.phase = Phase::Scan { minute: 0, above: 0, first_above: None };
                    PassAction::Sample(self.origin)
                }
            }
        } else {
            PassAction::Finish(Ok(Vec::new()))
        }
    }
}


/// With `above` answering the readings, the pass rose just after a second
/// below the horizon, set at a second below it, and was above at every
/// second in between.
pub open spec fn pass_seen(p: PassWindow, above: spec_fn(int) -> bool) -> bool {
    &&& !above(p.start as int)
    &&& !above(p.end as int)
    &&& forall|s: int| p.start < s < p.end ==> #[trigger] above(s)
}

/// Every pass is as `pass_seen` says.
pub open spec fn passes_seen(passes: Seq<PassWindow>, above: spec_fn(int) -> bool) -> bool {
    forall|k: int| 0 <= k < passes.len() ==> pass_seen(#[trigger] passes[k], above)
}

/// The passes do not overlap: each rises strictly before it sets, and each
/// rises no earlier than the one before it set.
pub open spec fn passes_disjoint(passes: Seq<PassWindow>) -> bool {
    &&& forall|k: int| 0 <= k < passes.len() ==> #[trigger] passes[k].start < passes[k].end
    &&& forall|k: int|
        0 <= k < passes.len() - 1 ==> #[trigger] passes[k].end <= passes[k + 1].start
}

/// The second at which the scan that found pass `k` started: the start of
/// the search for the first pass, the gap after the previous pass's end for
/// the others.
pub open spec fn scan_start(passes: Seq<PassWindow>, k: int) -> int {
    if k == 0 {
        0
    } else {
        clamp(passes[k - 1].end + PASS_GAP)
    }
}

/// Every minute sampled from `origin` at a second before `t` was below the
/// horizon.
pub open spec fn below_before(origin: int, t: int, above: spec_fn(int) -> bool) -> bool {
    forall|m: int|
        0 <= m && sample_time(origin, m) < t ==> !#[trigger] above(sample_time(origin, m))
}

/// Pass `k` is the first pass its scan met: no minute sampled in that scan,
/// up to the second the pass rose, was above the horizon.
pub open spec fn pass_first_met(passes: Seq<PassWindow>, k: int, above: spec_fn(int) -> bool) -> bool {
    below_before(scan_start(passes, k), passes[k].start + 1, above)
}

/// Every pass is the first one its scan met: none is skipped.
pub open spec fn passes_first_met(passes: Seq<PassWindow>, above: spec_fn(int) -> bool) -> bool {
    forall|k: int| 0 <= k < passes.len() ==> #[trigger] pass_first_met(passes, k, above)
}

impl PassSearch {
    /// What the search knows when every reading it heard is `above` of
    /// the second it was asked for: its passes do not overlap, each is
    /// bounded by seconds below the horizon with every second inside it
    /// above, and the pass it is walking lies after the last one, with the
    /// seconds walked so far above the horizon.
    pub open spec fn agrees_with(&self, above: spec_fn(int) -> bool) -> bool {
        let n = self.passes@.len();
        let last_end = self.passes@.last().end;
        &&& passes_disjoint(self.passes@)
        &&& passes_seen(self.passes@, above)
        &&& passes_first_met(self.passes@, above)
        &&& n == 0 ==> self.origin == 0
        &&& match self.phase {
            Phase::Scan { minute, first_above, .. } => {
                &&& first_above is None ==> forall|m: int|
                    0 <= m < minute ==> !#[trigger] above(sample_time(self.origin as int, m))
                &&& first_above matches Some(fa) ==> {
                    &&& above(fa as int)
                    &&& n > 0 ==> last_end <= fa
                    &&& below_before(self.origin as int, fa as int, above)
                }
            },
            Phase::Rising { first, t } => {
                &&& below_before(self.origin as int, first as int, above)
                &&& above(first as int)
                &&& forall|s: int| t < s <= first ==> #[trigger] above(s)
                &&& n > 0 ==> last_end <= t
            },
            Phase::Setting { start, first, t } => {
                &&& below_before(self.origin as int, first as int, above)
                &&& !above(start as int)
                &&& above(first as int)
                &&& start < first <= t
                &&& forall|s: int| start < s < t ==> #[trigger] above(s)
                &&& n > 0 ==> last_end <= start
            },
            Phase::Finished => true,
        }
    }
}

/// A new search agrees with every way of answering its readings.
pub proof fn law_start_agrees(search: PassSearch, above: spec_fn(int) -> bool)
    requires
        search.origin == 0,
        search.passes@.len() == 0,
        search.phase == (Phase::Scan { minute: 0, above: 0, first_above: None }),
    ensures
        search.agrees_with(above),
{
}

/// When the elevation readings are a fixed answer for each second, the
/// passes the search finds never overlap: each rises strictly before it
/// sets, and each rises no earlier than the one before it set. Every step
/// of the search keeps what it knows of such answers, and a search that
/// finishes with passes finishes with passes that do not overlap.
pub proof fn law_step_agrees(
    old: PassSearch,
    reading: Option<bool>,
    new: PassSearch,
    action: PassAction,
    above: spec_fn(int) -> bool,
)
    requires
        old.wf(),
        old.phase != Phase::Finished,
        old.agrees_with(above),
        reading == Some(above(old.pending())),
        step(old, reading, new, action),
    ensures
        new.phase != Phase::Finished ==> new.agrees_with(above),
        action matches PassAction::Finish(Ok(v)) ==> {
            &&& passes_disjoint(v@)
            &&& passes_seen(v@, above)
            &&& passes_first_met(v@, above)
        },
        action matches PassAction::Finish(Err(e)) && e@ == no_pass_message() ==> forall|m: int|
            0 <= m < SCAN_MINUTES ==> !#[trigger] above(sample_time(old.origin as int, m)),
{
    let n = old.passes@.len();
    let last_end = old.passes@.last().end;
    if n > 0 {
        assert(pass_seen(old.passes@[n - 1], above));
        assert(!above(last_end as int));
    }
    match old.phase {
        Phase::Scan { minute, above: count, first_above } => {
            let t = old.pending() as i64;
            let o = old.origin as int;
            if n > 0 {
                assert(last_end <= old.origin);
                assert(last_end <= t);
            }
            if first_above is None {
                assert(below_before(o, t as int, above)) by {
                    assert forall|m: int| 0 <= m && sample_time(o, m) < t implies !#[trigger] above(
                        sample_time(o, m),
                    ) by {
                        if m >= minute {
                            assert(sample_time(o, m) >= sample_time(o, minute as int));
                        }
                    }
                }
            }
            reveal_strlit("no pass was found within the next week");
            reveal_strlit("satellite is likely geostationary, a pass cannot be found");
            assert(no_pass_message().len() != geostationary_message().len());
        },
        Phase::Rising { first, t } => {
            if reading == Some(true) {
                let t2 = clamp(t - 1) as i64;
                assert forall|s: int| t2 < s <= first implies #[trigger] above(s) by {
                    if s != t {
                        assert(t < s);
                    }
                }
                if n > 0 {
                    assert(last_end != t);
                }
            } else {
                assert(t != first);
            }
        },
        Phase::Setting { start, first, t } => {
            if reading == Some(true) {
                let t2 = clamp(t + 1) as i64;
                assert forall|s: int| start < s < t2 implies #[trigger] above(s) by {
                    if s != t {
                        assert(s < t);
                    }
                }
            } else {
                assert(t != first);
                let found = old.passes@.push(PassWindow { start, end: t });
                assert(passes_first_met(found, above)) by {
                    assert forall|k: int| 0 <= k < found.len() implies #[trigger] pass_first_met(
                        found,
                        k,
                        above,
                    ) by {
                        if k < n {
                            assert(found[k] == old.passes@[k]);
                            if k > 0 {
                                assert(found[k - 1] == old.passes@[k - 1]);
                            }
                            assert(scan_start(found, k) == scan_start(old.passes@, k));
                            assert(pass_first_met(old.passes@, k, above));
                        } else {
                            if n > 0 {
                                assert(found[n - 1] == old.passes@[n - 1]);
                            }
                            assert(scan_start(found, k) == old.origin);
                        }
                    }
                }
                assert(passes_disjoint(found)) by {
                    assert forall|k: int| 0 <= k < found.len() implies #[trigger] found[k].start
                        < found[k].end by {
                        if k < n {
                            assert(found[k] == old.passes@[k]);
                        }
                    }
                    assert forall|k: int| 0 <= k < found.len() - 1 implies #[trigger] found[k].end
                        <= found[k + 1].start by {
                        if k < n - 1 {
                            assert(found[k] == old.passes@[k]);
                            assert(found[k + 1] == old.passes@[k + 1]);
                        } else {
                            assert(found[k] == old.passes@[n - 1]);
                        }
                    }
                }
                assert(passes_seen(found, above)) by {
                    assert forall|k: int| 0 <= k < found.len() implies pass_seen(
                        #[trigger] found[k],
                        above,
                    ) by {
                        if k < n {
                            assert(found[k] == old.passes@[k]);
                        }
                    }
                }
                assert(found.last().end == t);
            }
        },
        Phase::Finished => {},
    }
}

} // verus!
