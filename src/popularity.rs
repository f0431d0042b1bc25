use vstd::prelude::*;

verus! {

/// No counter may stay above this after an increment.
pub const MAX_STATION_POPULARITY: u32 = 20;

/// Every counter is divided by this when one exceeds the ceiling.
pub const DECAY_FACTOR: u32 = 2;

/// The counters after `index` has gained one visit, saturating.
pub open spec fn bumped(counts: Seq<Option<u32>>, index: int) -> Seq<Option<u32>> {
    let c = match counts[index] {
        Some(v) => v as int,
        None => 0,
    };
    counts.update(index, Some((if c + 1 > u32::MAX { u32::MAX as int } else { c + 1 }) as u32))
}

/// Whether some counter exceeds the ceiling.
pub open spec fn over_ceiling(counts: Seq<Option<u32>>) -> bool {
    exists|j: int| 0 <= j < counts.len() && (#[trigger] counts[j] matches Some(v) && v > MAX_STATION_POPULARITY)
}

/// Every counter divided by the decay factor.
pub open spec fn decayed(counts: Seq<Option<u32>>) -> Seq<Option<u32>> {
    counts.map_values(|c: Option<u32>| match c {
        Some(v) => Some((v / DECAY_FACTOR) as u32),
        None => None,
    })
}

/// The counters after one visit of `index`: incremented, then decayed if any now exceeds
/// the ceiling.
pub open spec fn after_visit(counts: Seq<Option<u32>>, index: int) -> Seq<Option<u32>> {
    let b = bumped(counts, index);
    if over_ceiling(b) { decayed(b) } else { b }
}

/// Whether no counter exceeds the ceiling.
pub open spec fn within_ceiling(counts: Seq<Option<u32>>) -> bool {
    forall|j: int| 0 <= j < counts.len() ==> (#[trigger] counts[j] matches Some(v) ==> v <= MAX_STATION_POPULARITY)
}

/// Weight that route search gives a station: its counter, or 1 where it was never visited.
pub open spec fn weight_of(c: Option<u32>) -> int {
    match c {
        Some(v) => v as int,
        None => 1,
    }
}

/// Weight of station `index` in a store with counters `counts`: 1 outside the store.
pub open spec fn weight_at(counts: Seq<Option<u32>>, index: int) -> u32 {
    (if 0 <= index < counts.len() { weight_of(counts[index]) } else { 1 }) as u32
}

/// Visit counters, one per station, indexed by the station's place in the network.
pub struct PopularityStore {
    counts: Vec<Option<u32>>,
}

impl PopularityStore {
    /// The counters; `None` for a station never visited.
    pub closed spec fn view(&self) -> Seq<Option<u32>> {
        self.counts@
    }

    pub open spec fn wf(&self) -> bool {
        within_ceiling(self@)
    }

    /// A store of `n` stations, none visited.
    pub fn new(n: usize) -> (r: Self)
        ensures
            r.wf(),
            r@ == Seq::new(n as nat, |i: int| None::<u32>),
    {
        let mut counts: Vec<Option<u32>> = Vec::new();
        let mut i: usize = 0;
        while i < n
            invariant
                i <= n,
                counts@ == Seq::new(i as nat, |k: int| None::<u32>),
            decreases n - i,
        {
            counts.push(None);
            i += 1;
            assert(counts@ =~= Seq::new(i as nat, |k: int| None::<u32>));
        }
        PopularityStore { counts }
    }

    pub fn len(&self) -> (r: usize)
        ensures
            r == self@.len(),
    {
        self.counts.len()
    }

    /// Route-search weight of station `index`: its counter, or 1 if it was never visited or
    /// lies outside the store.
    pub fn weight(&self, index: usize) -> (r: u32)
        requires
            self.wf(),
        ensures
            index < self@.len() ==> r == weight_of(self@[index as int]),
            index >= self@.len() ==> r == 1,
            r == weight_at(self@, index as int),
            r <= MAX_STATION_POPULARITY,
    {
        if index < self.counts.len() {
            match self.counts[index] {
                Some(v) => v,
                None => 1,
            }
        } else {
            1
        }
    }

    /// Records a visit of station `index`: its counter grows by one (saturating), and if any
    /// counter then exceeds the ceiling, every counter is divided by the decay factor.
    pub fn increment(&mut self, index: usize)
        requires
            old(self).wf(),
            index < old(self)@.len(),
        ensures
            final(self).wf(),
            final(self)@ == after_visit(old(self)@, index as int),
    {
        proof {
            lemma_visit_keeps_ceiling(self@, index as int);
        }
        let current: u32 = match self.counts[index] {
            Some(v) => v,
            None => 0,
        };
        self.counts.set(index, Some(current.saturating_add(1)));
        assert(self.counts@ == bumped(old(self)@, index as int));
        let mut max: u32 = 0;
        let mut i: usize = 0;
        while i < self.counts.len()
            invariant
                i <= self.counts@.len(),
                self.counts@ == bumped(old(self)@, index as int),
                forall|j: int| 0 <= j < i ==> (#[trigger] self.counts@[j] matches Some(v) ==> v <= max),
                max == 0 || exists|j: int| 0 <= j < i && #[trigger] self.counts@[j] == Some(max),
            decreases self.counts@.len() - i,
        {
            if let Some(v) = self.counts[i] {
                if v > max {
                    max = v;
                }
            }
            i += 1;
        }
        if max > MAX_STATION_POPULARITY {
            let ghost b = self.counts@;
            let mut k: usize = 0;
            while k < self.counts.len()
                invariant
                    k <= self.counts@.len(),
                    b.len() == self.counts@.len(),
                    forall|j: int| 0 <= j < k ==> #[trigger] self.counts@[j] == decayed(b)[j],
                    forall|j: int| k <= j < b.len() ==> #[trigger] self.counts@[j] == b[j],
                decreases self.counts@.len() - k,
            {
                if let Some(v) = self.counts[k] {
                    self.counts.set(k, Some(v / DECAY_FACTOR));
                }
                k += 1;
            }
            assert(self.counts@ =~= decayed(b));
        } else {
            assert(!over_ceiling(self.counts@));
        }
    }
}

/// After any visit of a store whose counters are all within the ceiling, they all still are:
/// a counter exceeds it by at most one before the decay, which halves it.
pub proof fn lemma_visit_keeps_ceiling(counts: Seq<Option<u32>>, index: int)
    requires
        within_ceiling(counts),
        0 <= index < counts.len(),
    ensures
        within_ceiling(after_visit(counts, index)),
        forall|j: int| 0 <= j < counts.len() ==> (#[trigger] bumped(counts, index)[j] matches Some(v)
            ==> v <= MAX_STATION_POPULARITY + 1),
{
    let b = bumped(counts, index);
    assert(forall|j: int| 0 <= j < counts.len() ==> (#[trigger] b[j] matches Some(v) ==> v <= MAX_STATION_POPULARITY + 1));
    if over_ceiling(b) {
        let d = decayed(b);
        assert forall|j: int| 0 <= j < d.len() implies (#[trigger] d[j] matches Some(v) ==> v <= MAX_STATION_POPULARITY) by {
            assert(b[j] matches Some(v) ==> v <= MAX_STATION_POPULARITY + 1);
        }
    }
}

} // verus!
