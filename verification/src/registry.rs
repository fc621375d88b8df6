//! The timer registry: a mapping from label to [`TimerState`], the [`Timer`]
//! operations on it, and the build variant with instrumentation compiled out.

use crate::clock::now_sample;
use crate::state::TimerState;
use vstd::prelude::*;

verus! {

/// Misuse of the registry, reported rather than silently swallowed.
#[derive(Debug, PartialEq, Eq)]
pub enum TimerError {
    /// `stop` named a label that was never started.
    UnknownTimer(String),
}

impl TimerError {
    /// The label the misuse named.
    pub fn label(&self) -> (r: &String)
        ensures
            self matches TimerError::UnknownTimer(l) && r@ == l@,
    {
        match self {
            TimerError::UnknownTimer(l) => l,
        }
    }
}

/// Whether some entry carries the label `k`.
pub open spec fn has_label(entries: Seq<(String, TimerState)>, k: Seq<char>) -> bool {
    exists|i: int| 0 <= i < entries.len() && (#[trigger] entries[i]).0@ == k
}

/// The position of the entry carrying the label `k`, where one exists.
pub open spec fn label_index(entries: Seq<(String, TimerState)>, k: Seq<char>) -> int {
    choose|i: int| 0 <= i < entries.len() && (#[trigger] entries[i]).0@ == k
}

/// The mapping a sequence of labelled entries stands for: each label keys the
/// state stored beside it.
pub open spec fn labels_to_states(entries: Seq<(String, TimerState)>) -> Map<
    Seq<char>,
    TimerState,
> {
    Map::new(|k: Seq<char>| has_label(entries, k), |k: Seq<char>| entries[label_index(entries, k)].1)
}

/// No two entries carry the same label.
pub open spec fn unique_labels(entries: Seq<(String, TimerState)>) -> bool {
    forall|i: int, j: int|
        0 <= i < j < entries.len() ==> (#[trigger] entries[i]).0@ != (#[trigger] entries[j]).0@
}

/// Among entries with distinct labels, the entry at any position is exactly
/// what the mapping associates with its label.
proof fn lemma_entry_in_map(entries: Seq<(String, TimerState)>, i: int)
    requires
        unique_labels(entries),
        0 <= i < entries.len(),
    ensures
        has_label(entries, entries[i].0@),
        labels_to_states(entries).contains_key(entries[i].0@),
        labels_to_states(entries)[entries[i].0@] == entries[i].1,
{
    let k = entries[i].0@;
    assert(0 <= i < entries.len() && entries[i].0@ == k);
    let j = label_index(entries, k);
    assert(0 <= j < entries.len() && entries[j].0@ == k);
    if i < j {
        assert(entries[i].0@ != entries[j].0@);
    } else if j < i {
        assert(entries[j].0@ != entries[i].0@);
    }
}

/// Replacing the entry at position `i` by one carrying the same label updates
/// the mapping at that label alone.
proof fn lemma_update_entry(entries: Seq<(String, TimerState)>, i: int, p: (String, TimerState))
    requires
        unique_labels(entries),
        0 <= i < entries.len(),
        p.0@ == entries[i].0@,
    ensures
        unique_labels(entries.update(i, p)),
        labels_to_states(entries.update(i, p)) == labels_to_states(entries).insert(
            entries[i].0@,
            p.1,
        ),
{
    let e2 = entries.update(i, p);
    let k0 = entries[i].0@;
    assert forall|x: int, y: int| 0 <= x < y < e2.len() implies (#[trigger] e2[x]).0@ != (
    #[trigger] e2[y]).0@ by {
        assert(entries[x].0@ != entries[y].0@);
        assert(e2[x].0@ == entries[x].0@);
        assert(e2[y].0@ == entries[y].0@);
    }
    assert forall|k: Seq<char>| has_label(e2, k) implies has_label(entries, k) by {
        let j = choose|j: int| 0 <= j < e2.len() && (#[trigger] e2[j]).0@ == k;
        assert(entries[j].0@ == e2[j].0@);
    }
    assert forall|k: Seq<char>| has_label(entries, k) implies has_label(e2, k) by {
        let j = choose|j: int| 0 <= j < entries.len() && (#[trigger] entries[j]).0@ == k;
        assert(e2[j].0@ == entries[j].0@);
    }
    lemma_entry_in_map(e2, i);
    assert(labels_to_states(e2)[k0] == p.1);
    assert forall|k: Seq<char>| k != k0 && has_label(entries, k) implies labels_to_states(e2)[k]
        == labels_to_states(entries)[k] by {
        let j2 = label_index(e2, k);
        assert(0 <= j2 < e2.len() && e2[j2].0@ == k);
        assert(j2 != i);
        assert(entries[j2].0@ == k);
        lemma_entry_in_map(entries, j2);
        lemma_entry_in_map(e2, j2);
    }
    assert(labels_to_states(e2) =~= labels_to_states(entries).insert(k0, p.1));
}

/// Appending an entry under a label not yet present adds exactly that label to
/// the mapping.
proof fn lemma_push_entry(entries: Seq<(String, TimerState)>, p: (String, TimerState))
    requires
        unique_labels(entries),
        !has_label(entries, p.0@),
    ensures
        unique_labels(entries.push(p)),
        labels_to_states(entries.push(p)) == labels_to_states(entries).insert(p.0@, p.1),
{
    let e2 = entries.push(p);
    let k0 = p.0@;
    assert forall|x: int, y: int| 0 <= x < y < e2.len() implies (#[trigger] e2[x]).0@ != (
    #[trigger] e2[y]).0@ by {
        if y < entries.len() {
            assert(entries[x].0@ != entries[y].0@);
        } else {
            assert(e2[y].0@ == k0);
            assert(e2[x] == entries[x]);
            assert(0 <= x < entries.len() && entries[x].0@ == e2[x].0@);
        }
    }
    assert(e2[entries.len() as int].0@ == k0);
    lemma_entry_in_map(e2, entries.len() as int);
    assert forall|k: Seq<char>| k != k0 && has_label(e2, k) implies has_label(entries, k) by {
        let j = choose|j: int| 0 <= j < e2.len() && (#[trigger] e2[j]).0@ == k;
        assert(j != entries.len());
        assert(entries[j].0@ == e2[j].0@);
    }
    assert forall|k: Seq<char>| has_label(entries, k) implies has_label(e2, k) by {
        let j = choose|j: int| 0 <= j < entries.len() && (#[trigger] entries[j]).0@ == k;
        assert(e2[j].0@ == entries[j].0@);
    }
    assert forall|k: Seq<char>| k != k0 && has_label(entries, k) implies labels_to_states(e2)[k]
        == labels_to_states(entries)[k] by {
        let j2 = label_index(e2, k);
        assert(0 <= j2 < e2.len() && e2[j2].0@ == k);
        assert(j2 != entries.len());
        assert(entries[j2].0@ == k);
        lemma_entry_in_map(entries, j2);
        lemma_entry_in_map(e2, j2);
    }
    assert(labels_to_states(e2) =~= labels_to_states(entries).insert(k0, p.1));
}

/// The operations every registry variant offers. The two implementations — the
/// accumulating [`BreezyTimer`] and the compiled-out [`DisabledTimer`] — take
/// byte-identical call syntax, so instrumentation sites need no conditional
/// clutter; which one a build uses decides whether anything is recorded.
pub trait Timer {
    /// Whether this build variant records anything at all.
    spec fn spec_enabled() -> bool;

    /// Validity of the registry's internal representation.
    spec fn inv(&self) -> bool;

    /// The label-to-state mapping this registry currently holds.
    spec fn timers(&self) -> Map<Seq<char>, TimerState>;

    /// Creates or re-arms the timer for `name`.
    ///
    /// A label not seen before gets a fresh entry with nothing accumulated; an
    /// existing entry has its resume point moved to the current clock sample,
    /// its accumulated total untouched. No other label's entry changes, so
    /// disjoint labels never interfere. Starting twice without an intervening
    /// stop merely moves the resume point forward.
    fn start(&mut self, name: &'static str)
        requires
            old(self).inv(),
        ensures
            final (self).inv(),
            !Self::spec_enabled() ==> final (self).timers() == old(self).timers(),
            Self::spec_enabled() ==> {
                &&& final (self).timers().dom() == old(self).timers().dom().insert(name@)
                &&& final (self).timers().contains_key(name@)
                &&& final (self).timers()[name@].total_ns() == (if old(self).timers().contains_key(
                    name@,
                ) {
                    old(self).timers()[name@].total_ns()
                } else {
                    0u64
                })
                &&& forall|k: Seq<char>|
                    k != name@ && #[trigger] old(self).timers().contains_key(k) ==> final (
                    self).timers()[k] == old(self).timers()[k]
            },
    ;

    /// Stops the timer for `name`, adding the just-completed interval to its
    /// accumulated total.
    ///
    /// Succeeds exactly when the label has an entry; on an unknown label the
    /// registry is left untouched and the misuse is reported as
    /// [`TimerError::UnknownTimer`]. On success the entry's total accumulates
    /// the interval up to the current clock sample — never decreasing — and no
    /// other label's entry changes.
    fn stop(&mut self, name: &'static str) -> (r: Result<(), TimerError>)
        requires
            old(self).inv(),
        ensures
            final (self).inv(),
            !Self::spec_enabled() ==> final (self).timers() == old(self).timers() && r is Ok,
            Self::spec_enabled() ==> {
                &&& (r is Ok <==> old(self).timers().contains_key(name@))
                &&& (r matches Err(e) ==> final (self).timers() == old(self).timers() && (
                e matches TimerError::UnknownTimer(l) && l@ == name@))
                &&& (old(self).timers().contains_key(name@) ==> {
                    &&& final (self).timers().dom() == old(self).timers().dom()
                    &&& final (self).timers()[name@].resume_ns() == old(self).timers()[name@].resume_ns()
                    &&& exists|up: crate::clock::ProcessSample|
                        final (self).timers()[name@].total_ns() == old(self).timers()[name@].accumulated_ns(
                            up,
                        )
                    &&& final (self).timers()[name@].total_ns() >= old(self).timers()[name@].total_ns()
                    &&& forall|k: Seq<char>|
                        k != name@ && #[trigger] old(self).timers().contains_key(k) ==> final (
                        self).timers()[k] == old(self).timers()[k]
                })
            },
    ;

    /// The accumulated total for `name`, in nanoseconds, or no data where the
    /// label was never started.
    ///
    /// A label that was started and stopped immediately reads back as zero
    /// nanoseconds with an entry; a label never started has no entry at all.
    fn elapsed(&self, name: &'static str) -> (r: Option<u64>)
        requires
            self.inv(),
        ensures
            r == (if self.timers().contains_key(name@) {
                Some(self.timers()[name@].total_ns())
            } else {
                None::<u64>
            }),
    ;

    /// An independent copy of the full label-to-state mapping, for inspection
    /// without holding a reference into the live registry.
    fn snapshot(&self) -> (r: Vec<(String, TimerState)>)
        requires
            self.inv(),
        ensures
            unique_labels(r@),
            labels_to_states(r@) == self.timers(),
    ;
}

/// Scans for the entry carrying `key`.
fn find_index(entries: &Vec<(String, TimerState)>, key: &String) -> (r: Option<usize>)
    ensures
        match r {
            Some(i) => 0 <= i < entries@.len() && entries@[i as int].0@ == key@,
            None => forall|j: int|
                0 <= j < entries@.len() ==> (#[trigger] entries@[j]).0@ != key@,
        },
{
    let mut i: usize = 0;
    while i < entries.len()
        invariant
            0 <= i <= entries@.len(),
            forall|j: int| 0 <= j < i ==> (#[trigger] entries@[j]).0@ != key@,
        decreases entries@.len() - i,
    {
        if entries[i].0 == *key {
            return Some(i);
        }
        i = i + 1;
    }
    None
}

/// The accumulating registry: owned by its caller, who passes it to every
/// instrumentation site. Entries are created lazily on first `start` and live
/// for the registry's lifetime.
pub struct BreezyTimer {
    entries: Vec<(String, TimerState)>,
}

impl BreezyTimer {
    /// An empty registry: no label holds data yet.
    pub fn new() -> (t: Self)
        ensures
            t.inv(),
            t.timers() == Map::<Seq<char>, TimerState>::empty(),
    {
        let t = BreezyTimer { entries: Vec::new() };
        proof {
            assert(t.timers() =~= Map::<Seq<char>, TimerState>::empty());
        }
        t
    }

    /// Whether `name` has an entry, that is, was started at least once.
    pub fn contains_key(&self, name: &'static str) -> (r: bool)
        requires
            self.inv(),
        ensures
            r == self.timers().contains_key(name@),
    {
        let key: String = name.to_owned();
        match find_index(&self.entries, &key) {
            Some(i) => {
                proof {
                    lemma_entry_in_map(self.entries@, i as int);
                }
                true
            },
            None => false,
        }
    }
}

impl Timer for BreezyTimer {
    open spec fn spec_enabled() -> bool {
        true
    }

    closed spec fn inv(&self) -> bool {
        unique_labels(self.entries@)
    }

    closed spec fn timers(&self) -> Map<Seq<char>, TimerState> {
        labels_to_states(self.entries@)
    }

    fn start(&mut self, name: &'static str) {
        let key: String = name.to_owned();
        match find_index(&self.entries, &key) {
            Some(i) => {
                let sample = now_sample();
                let mut st = self.entries[i].1;
                st.reset_time(sample);
                let k2 = self.entries[i].0.clone();
                let ghost olde = self.entries@;
                let ghost gp: (String, TimerState) = (k2, st);
                proof {
                    lemma_entry_in_map(olde, i as int);
                }
                self.entries[i] = (k2, st);
                proof {
                    lemma_update_entry(olde, i as int, gp);
                    assert(self.timers().dom() =~= old(self).timers().dom().insert(name@));
                }
            },
            None => {
                let st = TimerState::new();
                let ghost olde = self.entries@;
                let ghost gp: (String, TimerState) = (key, st);
                self.entries.push((key, st));
                proof {
                    lemma_push_entry(olde, gp);
                }
            },
        }
    }

    fn stop(&mut self, name: &'static str) -> (r: Result<(), TimerError>) {
        let before = now_sample();
        let key: String = name.to_owned();
        match find_index(&self.entries, &key) {
            Some(i) => {
                let mut st = self.entries[i].1;
                proof {
                    lemma_entry_in_map(self.entries@, i as int);
                }
                st.add_time(before);
                let k2 = self.entries[i].0.clone();
                let ghost olde = self.entries@;
                let ghost gp: (String, TimerState) = (k2, st);
                self.entries[i] = (k2, st);
                proof {
                    lemma_update_entry(olde, i as int, gp);
                    assert(self.timers().dom() =~= old(self).timers().dom());
                    assert(self.timers()[name@].total_ns() == old(self).timers()[name@].accumulated_ns(
                        before,
                    ));
                }
                Ok(())
            },
            None => Err(TimerError::UnknownTimer(key)),
        }
    }

    fn elapsed(&self, name: &'static str) -> (r: Option<u64>) {
        let key: String = name.to_owned();
        match find_index(&self.entries, &key) {
            Some(i) => {
                proof {
                    lemma_entry_in_map(self.entries@, i as int);
                }
                Some(self.entries[i].1.get_total_elapsed())
            },
            None => None,
        }
    }

    fn snapshot(&self) -> (r: Vec<(String, TimerState)>) {
        let mut out: Vec<(String, TimerState)> = Vec::new();
        let mut i: usize = 0;
        while i < self.entries.len()
            invariant
                0 <= i <= self.entries@.len(),
                out@.len() == i,
                forall|j: int| 0 <= j < i ==> out@[j] == self.entries@[j],
            decreases self.entries@.len() - i,
        {
            let k = self.entries[i].0.clone();
            let st = self.entries[i].1;
            out.push((k, st));
            i = i + 1;
        }
        proof {
            assert(out@ =~= self.entries@);
        }
        out
    }
}

/// The build variant with instrumentation compiled out: the same call sites
/// compile against it, record nothing, and cost nothing beyond the call
/// itself.
pub struct DisabledTimer;

impl DisabledTimer {
    /// The disabled registry; it will never hold data.
    pub fn new() -> (t: Self)
        ensures
            t.inv(),
            t.timers() == Map::<Seq<char>, TimerState>::empty(),
    {
        DisabledTimer
    }
}

impl Timer for DisabledTimer {
    open spec fn spec_enabled() -> bool {
        false
    }

    open spec fn inv(&self) -> bool {
        true
    }

    open spec fn timers(&self) -> Map<Seq<char>, TimerState> {
        Map::empty()
    }

    fn start(&mut self, name: &'static str) {
    }

    fn stop(&mut self, name: &'static str) -> (r: Result<(), TimerError>) {
        Ok(())
    }

    fn elapsed(&self, name: &'static str) -> (r: Option<u64>) {
        None
    }

    fn snapshot(&self) -> (r: Vec<(String, TimerState)>) {
        let out: Vec<(String, TimerState)> = Vec::new();
        proof {
            assert(labels_to_states(out@) =~= Map::<Seq<char>, TimerState>::empty());
        }
        out
    }
}

/// In the disabled build variant the registry never holds data: whatever calls
/// were made, every label reads back as "no data".
pub proof fn lemma_disabled_reports_no_data(t: DisabledTimer, label: Seq<char>)
    ensures
        t.timers() == Map::<Seq<char>, TimerState>::empty(),
        !t.timers().contains_key(label),
{
}

} // verus!
