use vstd::prelude::*;

verus! {

/// Running aggregates of one sample.
#[derive(Clone, Copy, Debug, PartialEq, Eq, Structural)]
pub struct SampleTotals {
    /// Sum of the sample's counts over every ordinary row.
    pub total_count: u64,
    /// Sum of the sample's counts over the retained rows.
    pub passed_count: u64,
    /// Number of ordinary rows that the sample expresses.
    pub total_expressed: u64,
    /// Number of retained rows that the sample expresses.
    pub passed_expressed: u64,
}

/// 1 when `c` reaches the threshold, else 0.
pub open spec fn expressed_step(c: u64, threshold: u64) -> int {
    if c >= threshold {
        1
    } else {
        0
    }
}

/// The aggregates of every sample, in header order.
pub struct Accumulator {
    pub totals: Vec<SampleTotals>,
}

impl Accumulator {
    /// Aggregates at zero for `n` samples.
    pub fn new(n: usize) -> (r: Accumulator)
        ensures
            r.totals@.len() == n,
            forall|s: int|
                0 <= s < n ==> #[trigger] r.totals@[s] == (SampleTotals {
                    total_count: 0,
                    passed_count: 0,
                    total_expressed: 0,
                    passed_expressed: 0,
                }),
    {
        let mut totals: Vec<SampleTotals> = Vec::new();
        let mut i: usize = 0;
        while i < n
            invariant
                i <= n,
                totals@.len() == i,
                forall|s: int|
                    0 <= s < i ==> #[trigger] totals@[s] == (SampleTotals {
                        total_count: 0,
                        passed_count: 0,
                        total_expressed: 0,
                        passed_expressed: 0,
                    }),
            decreases n - i,
        {
            totals.push(
                SampleTotals { total_count: 0, passed_count: 0, total_expressed: 0, passed_expressed: 0 },
            );
            i = i + 1;
        }
        Accumulator { totals }
    }

    /// Adds an ordinary row: each sample's count joins its total, and the
    /// sample's expressed tally grows when the count reaches `threshold`.
    pub fn record_ordinary(&mut self, counts: &Vec<u64>, threshold: u64)
        requires
            counts@.len() == old(self).totals@.len(),
            forall|s: int|
                0 <= s < counts@.len() ==> old(self).totals@[s].total_count + #[trigger] counts@[s]
                    <= u64::MAX && old(self).totals@[s].total_expressed < u64::MAX,
        ensures
            final(self).totals@.len() == old(self).totals@.len(),
            forall|s: int|
                0 <= s < counts@.len() ==> #[trigger] final(self).totals@[s] == (SampleTotals {
                    total_count: (old(self).totals@[s].total_count + counts@[s]) as u64,
                    total_expressed: (old(self).totals@[s].total_expressed + expressed_step(
                        counts@[s],
                        threshold,
                    )) as u64,
                    ..old(self).totals@[s]
                }),
    {
        let mut i: usize = 0;
        while i < counts.len()
            invariant
                i <= counts@.len() == self.totals@.len() == old(self).totals@.len(),
                forall|s: int|
                    0 <= s < counts@.len() ==> old(self).totals@[s].total_count
                        + #[trigger] counts@[s] <= u64::MAX && old(self).totals@[s].total_expressed
                        < u64::MAX,
                forall|s: int|
                    i <= s < counts@.len() ==> #[trigger] self.totals@[s] == old(self).totals@[s],
                forall|s: int|
                    0 <= s < i ==> #[trigger] self.totals@[s] == (SampleTotals {
                        total_count: (old(self).totals@[s].total_count + counts@[s]) as u64,
                        total_expressed: (old(self).totals@[s].total_expressed + expressed_step(
                            counts@[s],
                            threshold,
                        )) as u64,
                        ..old(self).totals@[s]
                    }),
            decreases counts@.len() - i,
        {
            let mut t = self.totals[i];
            t.total_count = t.total_count + counts[i];
            if counts[i] >= threshold {
                t.total_expressed = t.total_expressed + 1;
            }
            self.totals.set(i, t);
            i = i + 1;
        }
    }

    /// Adds a retained row: each sample's count joins its passed total, and
    /// the sample's passed expressed tally grows when the count reaches
    /// `threshold`.
    pub fn record_passed(&mut self, counts: &Vec<u64>, threshold: u64)
        requires
            counts@.len() == old(self).totals@.len(),
            forall|s: int|
                0 <= s < counts@.len() ==> old(self).totals@[s].passed_count + #[trigger] counts@[s]
                    <= u64::MAX && old(self).totals@[s].passed_expressed < u64::MAX,
        ensures
            final(self).totals@.len() == old(self).totals@.len(),
            forall|s: int|
                0 <= s < counts@.len() ==> #[trigger] final(self).totals@[s] == (SampleTotals {
                    passed_count: (old(self).totals@[s].passed_count + counts@[s]) as u64,
                    passed_expressed: (old(self).totals@[s].passed_expressed + expressed_step(
                        counts@[s],
                        threshold,
                    )) as u64,
                    ..old(self).totals@[s]
                }),
    {
        let mut i: usize = 0;
        while i < counts.len()
            invariant
                i <= counts@.len() == self.totals@.len() == old(self).totals@.len(),
                forall|s: int|
                    0 <= s < counts@.len() ==> old(self).totals@[s].passed_count
                        + #[trigger] counts@[s] <= u64::MAX && old(self).totals@[s].passed_expressed
                        < u64::MAX,
                forall|s: int|
                    i <= s < counts@.len() ==> #[trigger] self.totals@[s] == old(self).totals@[s],
                forall|s: int|
                    0 <= s < i ==> #[trigger] self.totals@[s] == (SampleTotals {
                        passed_count: (old(self).totals@[s].passed_count + counts@[s]) as u64,
                        passed_expressed: (old(self).totals@[s].passed_expressed + expressed_step(
                            counts@[s],
                            threshold,
                        )) as u64,
                        ..old(self).totals@[s]
                    }),
            decreases counts@.len() - i,
        {
            let mut t = self.totals[i];
            t.passed_count = t.passed_count + counts[i];
            if counts[i] >= threshold {
                t.passed_expressed = t.passed_expressed + 1;
            }
            self.totals.set(i, t);
            i = i + 1;
        }
    }
}

} // verus!
