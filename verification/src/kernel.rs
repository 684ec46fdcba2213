//! The escape-time counter: how many steps of an orbit are taken before it
//! leaves the escape radius, up to a fixed cap.
//!
//! The arithmetic on the orbit's points is the caller's. Before each step the
//! caller tells the counter whether the current point lies outside the escape
//! radius; the counter decides whether another step is taken and keeps the
//! count. `get_iter_index` runs a whole count over a test and a step that the
//! caller hands in.

use vstd::prelude::*;

verus! {

/// The largest iteration count. An orbit that has not escaped after this many
/// steps is taken to belong to the filled set.
pub const CAP: u32 = 1000;

/// The state of a count, as a mathematical value.
pub struct CountState {
    /// The steps taken so far.
    pub count: nat,
    /// Whether the orbit was seen outside the escape radius.
    pub escaped: bool,
}

impl CountState {
    /// The state before the first observation.
    pub open spec fn initial() -> CountState {
        CountState { count: 0, escaped: false }
    }

    /// Whether another observation is wanted: the orbit has not escaped and
    /// the cap is not reached.
    pub open spec fn running(self) -> bool {
        !self.escaped && self.count < CAP
    }

    /// The state after one observation of the current point. A count that no
    /// longer runs ignores it; an escape ends the count where it stands; any
    /// other point is counted as one more step.
    pub open spec fn observe(self, outside: bool) -> CountState {
        if !self.running() {
            self
        } else if outside {
            CountState { count: self.count, escaped: true }
        } else {
            CountState { count: self.count + 1, escaped: false }
        }
    }

    /// The state after the observations of `orbit`, in order: `orbit[k]` says
    /// whether the point reached after `k` steps lies outside the escape
    /// radius.
    pub open spec fn feed(self, orbit: Seq<bool>) -> CountState
        decreases orbit.len(),
    {
        if orbit.len() == 0 {
            self
        } else {
            self.feed(orbit.drop_last()).observe(orbit.last())
        }
    }
}

/// A running escape-time count.
pub struct EscapeCounter {
    iter_index: u32,
    escaped: bool,
}

impl View for EscapeCounter {
    type V = CountState;

    closed spec fn view(&self) -> CountState {
        CountState { count: self.iter_index as nat, escaped: self.escaped }
    }
}

impl EscapeCounter {
    #[verifier::type_invariant]
    spec fn within_cap(self) -> bool {
        self.iter_index <= CAP
    }

    /// A count of no steps.
    pub fn new() -> (counter: EscapeCounter)
        ensures
            counter@ == CountState::initial(),
    {
        EscapeCounter { iter_index: 0, escaped: false }
    }

    /// Whether the caller owes another observation.
    pub fn is_running(&self) -> (running: bool)
        ensures
            running == self@.running(),
    {
        !self.escaped && self.iter_index < CAP
    }

    /// Takes the observation of the current point: `outside` says whether it
    /// lies outside the escape radius. Returns whether a step was counted, in
    /// which case the caller moves the orbit to its next point.
    pub fn observe(&mut self, outside: bool) -> (stepped: bool)
        ensures
            final(self)@ == old(self)@.observe(outside),
            stepped == (old(self)@.running() && !outside),
    {
        if self.escaped || self.iter_index >= CAP {
            false
        } else if outside {
            self.escaped = true;
            false
        } else {
            proof {
                use_type_invariant(&*self);
            }
            self.iter_index = self.iter_index + 1;
            true
        }
    }

    /// The steps counted so far.
    pub fn count(&self) -> (count: u32)
        ensures
            count == self@.count,
            count <= CAP,
    {
        proof {
            use_type_invariant(self);
        }
        self.iter_index
    }
}

/// Counts the steps of the orbit of `z` under `step` until a point lies
/// outside the escape radius, as `outside` tells, or `CAP` steps are taken.
/// Each point is tested before the step that leaves it, so a start outside
/// the radius has the count 0.
///
/// The count comes with the points `z = points[0], .., points[count]` that
/// `step` gave one after the other: none before the last was found outside,
/// and below the cap the last one was.
pub fn get_iter_index<Z, O: Fn(&Z) -> bool, S: Fn(Z) -> Z>(z: Z, outside: O, step: S) -> (count: u32)
    requires
        forall|point: &Z| outside.requires((point,)),
        forall|point: Z| step.requires((point,)),
    ensures
        count <= CAP,
        exists|points: Seq<Z>|
            {
                &&& points.len() == count + 1
                &&& points[0] == z
                &&& forall|k: int|
                    0 <= k < count ==> outside.ensures((&#[trigger] points[k],), false)
                        && step.ensures((points[k],), points[k + 1])
                &&& count == CAP || outside.ensures((&points[count as int],), true)
            },
{
    let mut counter = EscapeCounter::new();
    let mut z = z;
    let ghost start = z;
    let ghost mut points: Seq<Z> = seq![z];
    while counter.is_running()
        invariant
            forall|point: &Z| outside.requires((point,)),
            forall|point: Z| step.requires((point,)),
            counter@.count <= CAP,
            points.len() == counter@.count + 1,
            points[0] == start,
            points.last() == z,
            forall|k: int|
                0 <= k < counter@.count ==> outside.ensures((&#[trigger] points[k],), false)
                    && step.ensures((points[k],), points[k + 1]),
            counter@.escaped ==> outside.ensures((&z,), true),
        decreases CAP - counter@.count + if counter@.escaped { 0int } else { 1int },
    {
        let ghost before = points;
        let left = outside(&z);
        if counter.observe(left) {
            z = step(z);
            proof {
                points = before.push(z);
                assert forall|k: int| 0 <= k < counter@.count implies outside.ensures(
                    (&#[trigger] points[k],),
                    false,
                ) && step.ensures((points[k],), points[k + 1]) by {
                    if k + 1 < counter@.count {
                        assert(points[k] == before[k] && points[k + 1] == before[k + 1]);
                    } else {
                        assert(points[k] == before.last());
                    }
                }
            }
        }
    }
    counter.count()
}

/// What a count says of the orbit it was fed. The count is at most `CAP` and
/// at most the number of observations; no point before it lay outside the
/// escape radius; the count has escaped exactly when it stopped short of the
/// cap at a point that did lie outside; and it still runs exactly when every
/// observation was counted and the cap is not reached.
pub proof fn lemma_count_is_escape_time(orbit: Seq<bool>)
    ensures
        ({
            let end = CountState::initial().feed(orbit);
            &&& end.count <= CAP
            &&& end.count <= orbit.len()
            &&& forall|k: int| 0 <= k < end.count ==> !orbit[k]
            &&& end.escaped <==> (end.count < CAP && end.count < orbit.len()
                && orbit[end.count as int])
            &&& end.running() <==> (end.count == orbit.len() && end.count < CAP)
        }),
    decreases orbit.len(),
{
    if orbit.len() > 0 {
        let front = orbit.drop_last();
        lemma_count_is_escape_time(front);
        let before = CountState::initial().feed(front);
        let end = before.observe(orbit.last());
        assert(forall|k: int| 0 <= k < front.len() ==> front[k] == orbit[k]);
        assert forall|k: int| 0 <= k < end.count implies !orbit[k] by {
            if k < before.count {
                assert(!front[k]);
            }
        }
    }
}

/// An orbit whose starting point already lies outside the escape radius has
/// the count 0, whatever follows.
pub proof fn lemma_immediate_escape(orbit: Seq<bool>)
    requires
        orbit.len() > 0,
        orbit[0],
    ensures
        CountState::initial().feed(orbit).count == 0,
        CountState::initial().feed(orbit).escaped,
{
    lemma_count_is_escape_time(orbit);
}

/// An orbit that stays inside the escape radius for its first `CAP` points has
/// the count `CAP`, and is not marked as escaped.
pub proof fn lemma_bounded_orbit_reaches_cap(orbit: Seq<bool>)
    requires
        orbit.len() >= CAP,
        forall|k: int| 0 <= k < CAP ==> !orbit[k],
    ensures
        CountState::initial().feed(orbit).count == CAP,
        !CountState::initial().feed(orbit).escaped,
{
    lemma_count_is_escape_time(orbit);
}

} // verus!
