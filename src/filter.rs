use vstd::prelude::*;

verus! {

/// The predicates that decide whether an ordinary row is retained, and the
/// threshold at which a sample counts as expressing a feature.
#[derive(Clone, Copy, Debug)]
pub struct FilterConfig {
    /// Reject a row whose counts sum to less than this.
    pub min_count: Option<u64>,
    /// Reject a row with fewer expressed samples than this.
    pub min_expressed: Option<u64>,
    /// Reject a row with more zero counts than this.
    pub max_zero: Option<u64>,
    /// Reject a row whose counts are all equal.
    pub filter_identical: bool,
    /// A sample expresses a feature when its count is at least this.
    pub expression_threshold: u64,
}

pub open spec fn sum_counts(c: Seq<u64>) -> int
    decreases c.len(),
{
    if c.len() == 0 {
        0
    } else {
        sum_counts(c.drop_last()) + c.last()
    }
}

/// Number of samples whose count reaches `threshold`.
pub open spec fn n_expressed(c: Seq<u64>, threshold: u64) -> int
    decreases c.len(),
{
    if c.len() == 0 {
        0
    } else {
        n_expressed(c.drop_last(), threshold) + if c.last() >= threshold {
            1int
        } else {
            0int
        }
    }
}

/// Number of samples whose count is zero.
pub open spec fn n_zero(c: Seq<u64>) -> int
    decreases c.len(),
{
    if c.len() == 0 {
        0
    } else {
        n_zero(c.drop_last()) + if c.last() == 0 {
            1int
        } else {
            0int
        }
    }
}

/// Every count equals the first one (true of no counts at all).
pub open spec fn all_equal(c: Seq<u64>) -> bool {
    forall|i: int| 0 <= i < c.len() ==> #[trigger] c[i] == c[0]
}

/// Whether a row with counts `c` passes every enabled predicate of `cfg`.
pub open spec fn passes(cfg: FilterConfig, c: Seq<u64>) -> bool {
    &&& (cfg.min_count matches Some(m) ==> sum_counts(c) >= m)
    &&& (cfg.min_expressed matches Some(m) ==> n_expressed(c, cfg.expression_threshold) >= m)
    &&& (cfg.max_zero matches Some(m) ==> n_zero(c) <= m)
    &&& !(cfg.filter_identical && all_equal(c))
}

/// The predicate that rejected a row.
#[derive(Clone, Copy, Debug, PartialEq, Eq, Structural)]
pub enum Rejection {
    /// The counts sum to less than the minimum.
    MinCount,
    /// Too few samples express the feature.
    MinExpressed,
    /// Too many samples have a zero count.
    MaxZero,
    /// Every count is the same.
    Identical,
}

/// The first enabled predicate that rejects `c`, in the order minimum
/// count, minimum expressed, maximum zero, identical counts.
pub open spec fn rejection_of(cfg: FilterConfig, c: Seq<u64>) -> Option<Rejection> {
    if cfg.min_count matches Some(m) && sum_counts(c) < m {
        Some(Rejection::MinCount)
    } else if cfg.min_expressed matches Some(m) && n_expressed(c, cfg.expression_threshold) < m {
        Some(Rejection::MinExpressed)
    } else if cfg.max_zero matches Some(m) && n_zero(c) > m {
        Some(Rejection::MaxZero)
    } else if cfg.filter_identical && all_equal(c) {
        Some(Rejection::Identical)
    } else {
        None
    }
}

/// A configuration with no predicate enabled.
pub open spec fn no_predicates(cfg: FilterConfig) -> bool {
    cfg.min_count is None && cfg.min_expressed is None && cfg.max_zero is None
        && !cfg.filter_identical
}

proof fn lemma_sum_prefix(c: Seq<u64>, i: int)
    requires
        0 <= i <= c.len(),
    ensures
        sum_counts(c.take(i)) <= sum_counts(c),
    decreases c.len() - i,
{
    if i < c.len() {
        lemma_sum_prefix(c, i + 1);
        assert(c.take(i + 1).drop_last() =~= c.take(i));
    } else {
        assert(c.take(i) =~= c);
    }
}

/// Whether the counts sum to at least `m`.
fn sum_reaches(c: &Vec<u64>, m: u64) -> (r: bool)
    ensures
        r == (sum_counts(c@) >= m),
{
    if m == 0 {
        proof {
            lemma_sum_prefix(c@, 0);
            assert(c@.take(0).len() == 0);
        }
        return true;
    }
    let mut total: u64 = 0;
    let mut i: usize = 0;
    while i < c.len()
        invariant
            i <= c@.len(),
            total == sum_counts(c@.take(i as int)),
            total < m,
        decreases c@.len() - i,
    {
        assert(c@.take(i + 1).drop_last() =~= c@.take(i as int));
        if m - total <= c[i] {
            proof {
                lemma_sum_prefix(c@, i + 1);
            }
            return true;
        }
        total = total + c[i];
        i = i + 1;
    }
    assert(c@.take(i as int) =~= c@);
    total >= m
}

/// Number of samples whose count reaches `threshold`.
pub fn count_expressed(c: &Vec<u64>, threshold: u64) -> (r: usize)
    ensures
        r == n_expressed(c@, threshold),
{
    let mut n: usize = 0;
    let mut i: usize = 0;
    while i < c.len()
        invariant
            i <= c@.len(),
            n <= i,
            n == n_expressed(c@.take(i as int), threshold),
        decreases c@.len() - i,
    {
        assert(c@.take(i + 1).drop_last() =~= c@.take(i as int));
        if c[i] >= threshold {
            n = n + 1;
        }
        i = i + 1;
    }
    assert(c@.take(i as int) =~= c@);
    n
}

/// Number of samples whose count is zero.
pub fn count_zero(c: &Vec<u64>) -> (r: usize)
    ensures
        r == n_zero(c@),
{
    let mut n: usize = 0;
    let mut i: usize = 0;
    while i < c.len()
        invariant
            i <= c@.len(),
            n <= i,
            n == n_zero(c@.take(i as int)),
        decreases c@.len() - i,
    {
        assert(c@.take(i + 1).drop_last() =~= c@.take(i as int));
        if c[i] == 0 {
            n = n + 1;
        }
        i = i + 1;
    }
    assert(c@.take(i as int) =~= c@);
    n
}

/// Whether every count equals the first one.
pub fn counts_identical(c: &Vec<u64>) -> (r: bool)
    ensures
        r == all_equal(c@),
{
    let mut i: usize = 0;
    while i < c.len()
        invariant
            i <= c@.len(),
            forall|j: int| 0 <= j < i ==> #[trigger] c@[j] == c@[0],
        decreases c@.len() - i,
    {
        if c[i] != c[0] {
            return false;
        }
        i = i + 1;
    }
    true
}

/// Decides whether a row with these counts is retained: it must pass every
/// enabled predicate.
pub fn evaluate(cfg: &FilterConfig, counts: &Vec<u64>) -> (r: bool)
    ensures
        r == passes(*cfg, counts@),
{
    if let Some(m) = cfg.min_count {
        if !sum_reaches(counts, m) {
            return false;
        }
    }
    if let Some(m) = cfg.min_expressed {
        if (count_expressed(counts, cfg.expression_threshold) as u64) < m {
            return false;
        }
    }
    if let Some(m) = cfg.max_zero {
        if count_zero(counts) as u64 > m {
            return false;
        }
    }
    if cfg.filter_identical && counts_identical(counts) {
        return false;
    }
    true
}

/// The first enabled predicate that rejects a row with these counts, or
/// `None` when the row is retained.
pub fn first_rejection(cfg: &FilterConfig, counts: &Vec<u64>) -> (r: Option<Rejection>)
    ensures
        r == rejection_of(*cfg, counts@),
        r is None <==> passes(*cfg, counts@),
{
    if let Some(m) = cfg.min_count {
        if !sum_reaches(counts, m) {
            return Some(Rejection::MinCount);
        }
    }
    if let Some(m) = cfg.min_expressed {
        if (count_expressed(counts, cfg.expression_threshold) as u64) < m {
            return Some(Rejection::MinExpressed);
        }
    }
    if let Some(m) = cfg.max_zero {
        if count_zero(counts) as u64 > m {
            return Some(Rejection::MaxZero);
        }
    }
    if cfg.filter_identical && counts_identical(counts) {
        return Some(Rejection::Identical);
    }
    None
}

} // verus!
