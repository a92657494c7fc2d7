//! The current local day's summary per physical GPU: peak primary-partition
//! activity, peak memory occupancy and accumulated socket energy. The one
//! durable record; it rolls over with the local calendar day.
use vstd::prelude::*;
use crate::text::same_text;

verus! {

/// One GPU's day: peak activity in centi-percent, peak memory occupancy as
/// `(used, total)` bytes, and energy in raw counter counts.
#[derive(Debug, Clone, Copy, PartialEq, Eq)]
pub struct DayPeaks {
    pub activity_centipercent: Option<u64>,
    pub memory: Option<(u64, u64)>,
    pub energy_counts: Option<u64>,
}

/// A persistable day: its local date `YYYY-MM-DD` and, per GPU identifier,
/// its peaks.
#[derive(Debug)]
pub struct DailySummaryRecord {
    pub date: String,
    pub gpus: Vec<(String, DayPeaks)>,
}

/// The entries of a keyed list as a map; a later entry with the same key
/// replaces an earlier one.
pub open spec fn keyed<T>(s: Seq<(String, T)>) -> Map<Seq<char>, T>
    decreases s.len(),
{
    if s.len() == 0 {
        Map::empty()
    } else {
        keyed(s.drop_last()).insert(s.last().0@, s.last().1)
    }
}

/// No two entries share a key.
pub open spec fn distinct_keys<T>(s: Seq<(String, T)>) -> bool {
    forall|a: int, b: int| 0 <= a < b < s.len() ==> (#[trigger] s[a]).0@ != (#[trigger] s[b]).0@
}

/// Peaks with nothing observed.
pub open spec fn no_peaks() -> DayPeaks {
    DayPeaks { activity_centipercent: None, memory: None, energy_counts: None }
}

/// The day of GPU `id`, or nothing observed.
pub open spec fn day_of(days: Map<Seq<char>, DayPeaks>, id: Seq<char>) -> DayPeaks {
    if days.dom().contains(id) {
        days[id]
    } else {
        no_peaks()
    }
}

/// The days after observing an activity for `gpu`.
pub open spec fn days_after_activity(days: Map<Seq<char>, DayPeaks>, gpu: Seq<char>, centi: u64) -> Map<
    Seq<char>,
    DayPeaks,
> {
    let before = day_of(days, gpu);
    if beats_activity(before.activity_centipercent, centi) {
        days.insert(gpu, DayPeaks { activity_centipercent: Some(centi), ..before })
    } else {
        days
    }
}

/// The days after observing a memory occupancy `used / total` for `gpu`.
pub open spec fn days_after_memory(days: Map<Seq<char>, DayPeaks>, gpu: Seq<char>, used: u64, total: u64) -> Map<
    Seq<char>,
    DayPeaks,
> {
    let before = day_of(days, gpu);
    if beats_memory(before.memory, used, total) {
        days.insert(gpu, DayPeaks { memory: Some((used, total)), ..before })
    } else {
        days
    }
}

/// The days after one closed tick of `gpu`'s primary partition: its fresh
/// activity, then its fresh memory pair with a positive total, when present.
pub open spec fn day_observed(
    days: Map<Seq<char>, DayPeaks>,
    gpu: Seq<char>,
    activity: Option<u64>,
    memory: Option<(u64, u64)>,
) -> Map<Seq<char>, DayPeaks> {
    let with_activity = match activity {
        Some(c) => days_after_activity(days, gpu, c),
        None => days,
    };
    match memory {
        Some((u, t)) => if t > 0 {
            days_after_memory(with_activity, gpu, u, t)
        } else {
            with_activity
        },
        None => with_activity,
    }
}

/// Whether an activity beats the peak so far.
pub open spec fn beats_activity(peak: Option<u64>, centi: u64) -> bool {
    match peak {
        None => true,
        Some(p) => centi > p,
    }
}

/// Whether an occupancy `used / total` beats the peak so far.
pub open spec fn beats_memory(peak: Option<(u64, u64)>, used: u64, total: u64) -> bool {
    match peak {
        None => true,
        Some((pu, pt)) => used * pt > pu * total,
    }
}

/// The counts an energy reading adds after `baseline`: none without a
/// baseline, after a counter reset, or when the counter did not move.
pub open spec fn energy_delta(baseline: Option<u64>, raw: u64) -> Option<u64> {
    match baseline {
        Some(b) => if raw > b {
            Some((raw - b) as u64)
        } else {
            None
        },
        None => None,
    }
}

/// Energy counts after adding `delta`, saturating at `u64::MAX`.
pub open spec fn added_energy(energy: Option<u64>, delta: u64) -> u64 {
    let sum = match energy {
        Some(e) => e + delta,
        None => delta as int,
    };
    if sum > u64::MAX {
        u64::MAX
    } else {
        sum as u64
    }
}

/// A key is in the map exactly when some entry carries it.
proof fn lemma_keyed_dom<T>(s: Seq<(String, T)>, k: Seq<char>)
    ensures
        keyed(s).dom().contains(k) <==> exists|i: int| 0 <= i < s.len() && (#[trigger] s[i]).0@ == k,
    decreases s.len(),
{
    if s.len() > 0 {
        let d = s.drop_last();
        lemma_keyed_dom(d, k);
        if exists|i: int| 0 <= i < d.len() && (#[trigger] d[i]).0@ == k {
            let i = choose|i: int| 0 <= i < d.len() && (#[trigger] d[i]).0@ == k;
            assert(s[i] == d[i]);
        }
        if exists|i: int| 0 <= i < s.len() && (#[trigger] s[i]).0@ == k {
            let i = choose|i: int| 0 <= i < s.len() && (#[trigger] s[i]).0@ == k;
            if i < s.len() - 1 {
                assert(d[i] == s[i]);
            }
        }
    }
}

/// With distinct keys, each entry is the map's value at its key.
proof fn lemma_keyed_at<T>(s: Seq<(String, T)>, i: int)
    requires
        distinct_keys(s),
        0 <= i < s.len(),
    ensures
        keyed(s).dom().contains(s[i].0@),
        keyed(s)[s[i].0@] == s[i].1,
    decreases s.len(),
{
    if i < s.len() - 1 {
        let d = s.drop_last();
        assert(d[i] == s[i]);
        lemma_keyed_at(d, i);
        assert(s[i].0@ != s[s.len() - 1].0@);
    }
}

/// Replacing an entry under its own key updates the map at that key.
proof fn lemma_keyed_update<T>(s: Seq<(String, T)>, i: int, e: (String, T))
    requires
        distinct_keys(s),
        0 <= i < s.len(),
        e.0@ == s[i].0@,
    ensures
        keyed(s.update(i, e)) == keyed(s).insert(e.0@, e.1),
        distinct_keys(s.update(i, e)),
    decreases s.len(),
{
    let u = s.update(i, e);
    let d = s.drop_last();
    if i == s.len() - 1 {
        assert(u.drop_last() =~= d);
        assert(keyed(u) =~= keyed(s).insert(e.0@, e.1));
    } else {
        assert(u.drop_last() =~= d.update(i, e));
        lemma_keyed_update(d, i, e);
        assert(s[i].0@ != s[s.len() - 1].0@);
        assert(u.last() == s.last());
        assert(keyed(u) =~= keyed(s).insert(e.0@, e.1));
    }
    assert forall|a: int, b: int| 0 <= a < b < u.len() implies (#[trigger] u[a]).0@ != (#[trigger] u[b]).0@ by {
        assert(s[a].0@ != s[b].0@);
    }
}

/// The index of the entry with key `id`, if any.
fn find_key<T>(s: &Vec<(String, T)>, id: &str) -> (r: Option<usize>)
    ensures
        match r {
            Some(i) => i < s@.len() && s@[i as int].0@ == id@,
            None => forall|i: int| 0 <= i < s@.len() ==> (#[trigger] s@[i]).0@ != id@,
        },
{
    let mut i: usize = 0;
    while i < s.len()
        invariant
            i <= s@.len(),
            forall|j: int| 0 <= j < i ==> (#[trigger] s@[j]).0@ != id@,
        decreases s.len() - i,
    {
        if same_text(s[i].0.as_str(), id) {
            return Some(i);
        }
        i = i + 1;
    }
    None
}

/// Sets the entry of `id` to `v`, adding one when there is none.
fn upsert<T>(s: &mut Vec<(String, T)>, id: &str, v: T)
    requires
        distinct_keys(old(s)@),
    ensures
        distinct_keys(final(s)@),
        keyed(final(s)@) == keyed(old(s)@).insert(id@, v),
{
    match find_key(s, id) {
        Some(i) => {
            let key = id.to_owned();
            proof {
                lemma_keyed_update(s@, i as int, (key, v));
            }
            s.set(i, (key, v));
        },
        None => {
            let key = id.to_owned();
            let ghost before = s@;
            s.push((key, v));
            proof {
                assert(s@.drop_last() =~= before);
                assert forall|a: int, b: int| 0 <= a < b < s@.len() implies (#[trigger] s@[a]).0@
                    != (#[trigger] s@[b]).0@ by {
                    if b == s@.len() - 1 {
                        assert(before[a].0@ != id@);
                    } else {
                        assert(before[a].0@ != before[b].0@);
                    }
                }
            }
        },
    }
}

/// The entry of `id`, if any.
fn lookup<T: Copy>(s: &Vec<(String, T)>, id: &str) -> (r: Option<T>)
    requires
        distinct_keys(s@),
    ensures
        r == (if keyed(s@).dom().contains(id@) {
            Some(keyed(s@)[id@])
        } else {
            None::<T>
        }),
{
    proof {
        lemma_keyed_dom(s@, id@);
    }
    match find_key(s, id) {
        Some(i) => {
            proof {
                lemma_keyed_at(s@, i as int);
            }
            Some(s[i].1)
        },
        None => None,
    }
}

/// The day being accumulated.
pub struct DailyAccumulator {
    date: String,
    gpus: Vec<(String, DayPeaks)>,
    energy_raw: Vec<(String, u64)>,
    dirty: bool,
}

impl DailyAccumulator {
    /// The local date `YYYY-MM-DD` being accumulated.
    pub closed spec fn date(&self) -> Seq<char> {
        self.date@
    }

    /// Each GPU's peaks so far.
    pub closed spec fn days(&self) -> Map<Seq<char>, DayPeaks> {
        keyed(self.gpus@)
    }

    /// The last raw energy counter reading of each GPU.
    pub closed spec fn baselines(&self) -> Map<Seq<char>, u64> {
        keyed(self.energy_raw@)
    }

    /// Whether the summary changed since it was last taken.
    pub closed spec fn is_dirty(&self) -> bool {
        self.dirty
    }

    /// Every GPU appears once.
    #[verifier::type_invariant]
    spec fn keys_distinct(self) -> bool {
        distinct_keys(self.gpus@) && distinct_keys(self.energy_raw@)
    }

    /// Sets the peaks of `gpu`.
    fn set_day(&mut self, gpu: &str, peaks: DayPeaks)
        ensures
            final(self).days() == old(self).days().insert(gpu@, peaks),
            final(self).baselines() == old(self).baselines(),
            final(self).date() == old(self).date(),
            final(self).is_dirty() == old(self).is_dirty(),
    {
        proof {
            use_type_invariant(&*self);
        }
        let mut gpus: Vec<(String, DayPeaks)> = Vec::new();
        std::mem::swap(&mut gpus, &mut self.gpus);
        upsert(&mut gpus, gpu, peaks);
        self.gpus = gpus;
    }

    /// Sets the energy baseline of `gpu`.
    fn set_baseline(&mut self, gpu: &str, raw: u64)
        ensures
            final(self).baselines() == old(self).baselines().insert(gpu@, raw),
            final(self).days() == old(self).days(),
            final(self).date() == old(self).date(),
            final(self).is_dirty() == old(self).is_dirty(),
    {
        proof {
            use_type_invariant(&*self);
        }
        let mut raws: Vec<(String, u64)> = Vec::new();
        std::mem::swap(&mut raws, &mut self.energy_raw);
        upsert(&mut raws, gpu, raw);
        self.energy_raw = raws;
    }

    /// An empty, clean summary of `date`.
    pub fn new(date: String) -> (a: DailyAccumulator)
        ensures
            a.date() == date@,
            a.days() == Map::<Seq<char>, DayPeaks>::empty(),
            a.baselines() == Map::<Seq<char>, u64>::empty(),
            !a.is_dirty(),
    {
        DailyAccumulator { date, gpus: Vec::new(), energy_raw: Vec::new(), dirty: false }
    }

    /// Takes a persisted record's peaks when it is of the same day; a record
    /// of another day is discarded.
    pub fn seed(&mut self, record: &DailySummaryRecord)
        ensures
            record.date@ == old(self).date() ==> final(self).days() == keyed(record.gpus@),
            record.date@ != old(self).date() ==> final(self).days() == old(self).days(),
            final(self).date() == old(self).date(),
            final(self).baselines() == old(self).baselines(),
            final(self).is_dirty() == old(self).is_dirty(),
    {
        proof {
            use_type_invariant(&*self);
        }
        if !same_text(record.date.as_str(), self.date.as_str()) {
            return;
        }
        let mut gpus: Vec<(String, DayPeaks)> = Vec::new();
        let mut i: usize = 0;
        while i < record.gpus.len()
            invariant
                i <= record.gpus@.len(),
                distinct_keys(gpus@),
                keyed(gpus@) == keyed(record.gpus@.take(i as int)),
            decreases record.gpus.len() - i,
        {
            proof {
                assert(record.gpus@.take(i + 1).drop_last() =~= record.gpus@.take(i as int));
            }
            upsert(&mut gpus, record.gpus[i].0.as_str(), record.gpus[i].1);
            i = i + 1;
        }
        proof {
            assert(record.gpus@.take(record.gpus@.len() as int) =~= record.gpus@);
        }
        self.gpus = gpus;
    }

    /// Rolls to `date` when the local day changed, discarding the old day;
    /// returns whether it rolled.
    pub fn roll(&mut self, date: String) -> (rolled: bool)
        ensures
            rolled == (date@ != old(self).date()),
            rolled ==> final(self).date() == date@ && final(self).days() == Map::<
                Seq<char>,
                DayPeaks,
            >::empty() && final(self).baselines() == Map::<Seq<char>, u64>::empty()
                && final(self).is_dirty(),
            !rolled ==> final(self).date() == old(self).date() && final(self).days() == old(
                self,
            ).days() && final(self).baselines() == old(self).baselines() && final(self).is_dirty()
                == old(self).is_dirty(),
    {
        if same_text(date.as_str(), self.date.as_str()) {
            return false;
        }
        proof {
            use_type_invariant(&*self);
        }
        self.date = date;
        self.gpus = Vec::new();
        self.energy_raw = Vec::new();
        proof {
            use_type_invariant(&*self);
        }
        self.dirty = true;
        true
    }

    /// Records a fresh primary-partition activity (centi-percent): the day's
    /// peak rises to it.
    pub fn observe_activity(&mut self, gpu: &str, centi: u64)
        ensures
            ({
                let before = day_of(old(self).days(), gpu@);
                if beats_activity(before.activity_centipercent, centi) {
                    &&& final(self).days() == old(self).days().insert(
                        gpu@,
                        DayPeaks { activity_centipercent: Some(centi), ..before },
                    )
                    &&& final(self).is_dirty()
                } else {
                    &&& final(self).days() == old(self).days()
                    &&& final(self).is_dirty() == old(self).is_dirty()
                }
            }),
            final(self).date() == old(self).date(),
            final(self).baselines() == old(self).baselines(),
    {
        proof {
            use_type_invariant(&*self);
        }
        let before = match lookup(&self.gpus, gpu) {
            Some(p) => p,
            None => DayPeaks { activity_centipercent: None, memory: None, energy_counts: None },
        };
        let beats = match before.activity_centipercent {
            None => true,
            Some(p) => centi > p,
        };
        if beats {
            self.set_day(gpu, DayPeaks { activity_centipercent: Some(centi), ..before });
            proof {
                use_type_invariant(&*self);
            }
            self.dirty = true;
        }
    }

    /// Records a fresh primary-partition memory occupancy `used / total`:
    /// the day's peak rises to it.
    pub fn observe_memory(&mut self, gpu: &str, used: u64, total: u64)
        requires
            total > 0,
        ensures
            ({
                let before = day_of(old(self).days(), gpu@);
                if beats_memory(before.memory, used, total) {
                    &&& final(self).days() == old(self).days().insert(
                        gpu@,
                        DayPeaks { memory: Some((used, total)), ..before },
                    )
                    &&& final(self).is_dirty()
                } else {
                    &&& final(self).days() == old(self).days()
                    &&& final(self).is_dirty() == old(self).is_dirty()
                }
            }),
            final(self).date() == old(self).date(),
            final(self).baselines() == old(self).baselines(),
    {
        proof {
            use_type_invariant(&*self);
        }
        let before = match lookup(&self.gpus, gpu) {
            Some(p) => p,
            None => DayPeaks { activity_centipercent: None, memory: None, energy_counts: None },
        };
        let beats = match before.memory {
            None => true,
            Some((pu, pt)) => {
                let a: u128 = used as u128;
                let b: u128 = pt as u128;
                let c: u128 = pu as u128;
                let d: u128 = total as u128;
                assert(a * b <= 0xffff_ffff_ffff_ffffu128 * 0xffff_ffff_ffff_ffffu128) by (nonlinear_arith)
                    requires
                        a <= 0xffff_ffff_ffff_ffffu128,
                        b <= 0xffff_ffff_ffff_ffffu128,
                ;
                assert(c * d <= 0xffff_ffff_ffff_ffffu128 * 0xffff_ffff_ffff_ffffu128) by (nonlinear_arith)
                    requires
                        c <= 0xffff_ffff_ffff_ffffu128,
                        d <= 0xffff_ffff_ffff_ffffu128,
                ;
                a * b > c * d
            },
        };
        if beats {
            self.set_day(gpu, DayPeaks { memory: Some((used, total)), ..before });
            proof {
                use_type_invariant(&*self);
            }
            self.dirty = true;
        }
    }

    /// Records a raw socket energy counter reading. The first reading, or
    /// one after a counter reset, only anchors the baseline; otherwise the
    /// counts since the baseline are added to the day.
    pub fn observe_energy(&mut self, gpu: &str, raw: u64)
        ensures
            final(self).baselines() == old(self).baselines().insert(gpu@, raw),
            ({
                let baseline = if old(self).baselines().dom().contains(gpu@) {
                    Some(old(self).baselines()[gpu@])
                } else {
                    None::<u64>
                };
                let before = day_of(old(self).days(), gpu@);
                match energy_delta(baseline, raw) {
                    Some(delta) => {
                        &&& final(self).days() == old(self).days().insert(
                            gpu@,
                            DayPeaks {
                                energy_counts: Some(added_energy(before.energy_counts, delta)),
                                ..before
                            },
                        )
                        &&& final(self).is_dirty()
                    },
                    None => {
                        &&& final(self).days() == old(self).days()
                        &&& final(self).is_dirty() == old(self).is_dirty()
                    },
                }
            }),
            final(self).date() == old(self).date(),
    {
        proof {
            use_type_invariant(&*self);
        }
        let previous = lookup(&self.energy_raw, gpu);
        self.set_baseline(gpu, raw);
        let delta = match previous {
            Some(b) => if raw > b {
                raw - b
            } else {
                return ;
            },
            None => return ,
        };
        proof {
            use_type_invariant(&*self);
        }
        let before = match lookup(&self.gpus, gpu) {
            Some(p) => p,
            None => DayPeaks { activity_centipercent: None, memory: None, energy_counts: None },
        };
        let energy = match before.energy_counts {
            Some(e) => e.saturating_add(delta),
            None => delta,
        };
        self.set_day(gpu, DayPeaks { energy_counts: Some(energy), ..before });
        proof {
            use_type_invariant(&*self);
        }
        self.dirty = true;
    }

    /// Whether the summary changed since last asked; clears the mark.
    pub fn take_dirty(&mut self) -> (was: bool)
        ensures
            was == old(self).is_dirty(),
            !final(self).is_dirty(),
            final(self).date() == old(self).date(),
            final(self).days() == old(self).days(),
            final(self).baselines() == old(self).baselines(),
    {
        let was = self.dirty;
        proof {
            use_type_invariant(&*self);
        }
        self.dirty = false;
        was
    }

    /// The current persistable record.
    pub fn record(&self) -> (r: DailySummaryRecord)
        ensures
            r.date@ == self.date(),
            keyed(r.gpus@) == self.days(),
            distinct_keys(r.gpus@),
    {
        proof {
            use_type_invariant(&*self);
        }
        let mut gpus: Vec<(String, DayPeaks)> = Vec::new();
        let mut i: usize = 0;
        while i < self.gpus.len()
            invariant
                i <= self.gpus@.len(),
                gpus@.len() == i,
                forall|k: int| 0 <= k < i ==> (#[trigger] gpus@[k]).0@ == self.gpus@[k].0@ && gpus@[k].1
                    == self.gpus@[k].1,
            decreases self.gpus.len() - i,
        {
            gpus.push((self.gpus[i].0.clone(), self.gpus[i].1));
            i = i + 1;
        }
        proof {
            lemma_keyed_same(gpus@, self.gpus@);
        }
        DailySummaryRecord { date: self.date.clone(), gpus }
    }
}

/// Lists with equal keys and values, entry by entry, give the same map.
proof fn lemma_keyed_same<T>(a: Seq<(String, T)>, b: Seq<(String, T)>)
    requires
        a.len() == b.len(),
        forall|k: int| 0 <= k < a.len() ==> (#[trigger] a[k]).0@ == b[k].0@ && a[k].1 == b[k].1,
    ensures
        keyed(a) == keyed(b),
        distinct_keys(b) ==> distinct_keys(a),
    decreases a.len(),
{
    if a.len() > 0 {
        lemma_keyed_same(a.drop_last(), b.drop_last());
        assert(a.last().0@ == b.last().0@);
    }
    if distinct_keys(b) {
        assert forall|x: int, y: int| 0 <= x < y < a.len() implies (#[trigger] a[x]).0@ != (#[trigger] a[y]).0@ by {
            assert(b[x].0@ != b[y].0@);
        }
    }
}

/// The day's activity peak is the running maximum: it never falls, and it
/// is at least every activity observed that day.
pub proof fn lemma_activity_peak_never_falls(before: Option<u64>, centi: u64)
    ensures
        ({
            let after = if beats_activity(before, centi) {
                Some(centi)
            } else {
                before
            };
            &&& after matches Some(p) && p >= centi
            &&& before matches Some(b) ==> (after matches Some(p) && p >= b)
        }),
{
}

} // verus!
