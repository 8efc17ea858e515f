use vstd::prelude::*;

use crate::accumulator::{expressed_step, Accumulator, SampleTotals};
use crate::filter::{first_rejection, passes, rejection_of, FilterConfig, Rejection};
use crate::report::{
    format_metafeature, format_summary, header_line, metafeature_line, report_header, summary_line,
};
use crate::record::{header_names, parse_row, row_of, split_tabs, Row, RowModel};

verus! {

/// Where metafeature rows and the summary rows go, chosen once for a run.
#[derive(Clone, Copy, Debug, PartialEq, Eq, Structural)]
pub struct OutputPolicy {
    /// Metafeature rows are written to the main output as they come.
    pub metafeatures_to_main: bool,
    /// The metacount report strips the marker from identifiers, and its
    /// summary rows carry no marker.
    pub strip_marker: bool,
    /// The metacount report opens with its own header line.
    pub emit_header: bool,
}

impl OutputPolicy {
    /// The policy for a metacount report written to its own destination
    /// (`separate`) or combined with the main output.
    pub fn for_destination(separate: bool) -> (r: OutputPolicy)
        ensures
            r.metafeatures_to_main == !separate,
            r.strip_marker == separate,
            r.emit_header == separate,
    {
        OutputPolicy { metafeatures_to_main: !separate, strip_marker: separate, emit_header: separate }
    }
}

/// What became of one input line.
#[derive(Clone, Copy, Debug, PartialEq, Eq, Structural)]
pub enum LineOutcome {
    /// An ordinary row that passed the filter: the line goes to the main output.
    Retained,
    /// An ordinary row that failed the filter, and the predicate that
    /// rejected it.
    Filtered(Rejection),
    /// A metafeature row to be written, as it stands, to the main output.
    MetafeatureToMain,
    /// A metafeature row kept for the metacount report only.
    MetafeatureKept,
    /// A line that could not be read as a row; it is skipped.
    Malformed,
}

impl LineOutcome {
    pub open spec fn writes_main(self) -> bool {
        self is Retained || self is MetafeatureToMain
    }

    /// Whether the line goes to the main output as it stands.
    pub fn is_written_to_main(&self) -> (r: bool)
        ensures
            r == self.writes_main(),
    {
        match self {
            LineOutcome::Retained | LineOutcome::MetafeatureToMain => true,
            _ => false,
        }
    }
}

/// Counter overflow: a 64-bit aggregate would pass its largest value.
#[derive(Clone, Copy, Debug, PartialEq, Eq, Structural)]
pub struct CounterOverflow {}

/// What a pass has seen: the counts of each ordinary row and each
/// metafeature row (identifier, text of its values), in input order.
pub struct PassModel {
    pub ordinary: Seq<Seq<u64>>,
    pub metafeatures: Seq<(Seq<char>, Seq<char>)>,
}

pub open spec fn empty_model() -> PassModel {
    PassModel { ordinary: Seq::empty(), metafeatures: Seq::empty() }
}

/// The model after one more line.
pub open spec fn step(n: nat, m: PassModel, line: Seq<char>) -> PassModel {
    match row_of(line, n) {
        RowModel::Ordinary { id, counts } => PassModel { ordinary: m.ordinary.push(counts), ..m },
        RowModel::Metafeature { id, values } => PassModel {
            metafeatures: m.metafeatures.push((id, values)),
            ..m
        },
        RowModel::Malformed => m,
    }
}

/// The model after `lines`, starting from `m`.
pub open spec fn run_from(n: nat, m: PassModel, lines: Seq<Seq<char>>) -> PassModel
    decreases lines.len(),
{
    if lines.len() == 0 {
        m
    } else {
        step(n, run_from(n, m, lines.drop_last()), lines.last())
    }
}

/// The model of a whole pass over the data lines.
pub open spec fn run(n: nat, lines: Seq<Seq<char>>) -> PassModel {
    run_from(n, empty_model(), lines)
}

/// The rows among `rows` that pass the filter, in order.
pub open spec fn retained(cfg: FilterConfig, rows: Seq<Seq<u64>>) -> Seq<Seq<u64>>
    decreases rows.len(),
{
    if rows.len() == 0 {
        Seq::empty()
    } else {
        let r = retained(cfg, rows.drop_last());
        if passes(cfg, rows.last()) {
            r.push(rows.last())
        } else {
            r
        }
    }
}

/// Sum of sample `s` over `rows`.
pub open spec fn column_sum(rows: Seq<Seq<u64>>, s: int) -> int
    decreases rows.len(),
{
    if rows.len() == 0 {
        0
    } else {
        column_sum(rows.drop_last(), s) + rows.last()[s]
    }
}

/// Number of `rows` that sample `s` expresses.
pub open spec fn column_expressed(rows: Seq<Seq<u64>>, s: int, threshold: u64) -> int
    decreases rows.len(),
{
    if rows.len() == 0 {
        0
    } else {
        column_expressed(rows.drop_last(), s, threshold) + expressed_step(rows.last()[s], threshold)
    }
}

/// The aggregates of sample `s` after a pass over `rows`.
pub open spec fn totals_of(cfg: FilterConfig, rows: Seq<Seq<u64>>, s: int) -> SampleTotals {
    SampleTotals {
        total_count: column_sum(rows, s) as u64,
        passed_count: column_sum(retained(cfg, rows), s) as u64,
        total_expressed: column_expressed(rows, s, cfg.expression_threshold) as u64,
        passed_expressed: column_expressed(retained(cfg, rows), s, cfg.expression_threshold) as u64,
    }
}

/// What becomes of `line`.
pub open spec fn outcome_of(cfg: FilterConfig, policy: OutputPolicy, n: nat, line: Seq<char>) -> LineOutcome {
    match row_of(line, n) {
        RowModel::Ordinary { id, counts } => match rejection_of(cfg, counts) {
            None => LineOutcome::Retained,
            Some(why) => LineOutcome::Filtered(why),
        },
        RowModel::Metafeature { id, values } => if policy.metafeatures_to_main {
            LineOutcome::MetafeatureToMain
        } else {
            LineOutcome::MetafeatureKept
        },
        RowModel::Malformed => LineOutcome::Malformed,
    }
}

/// The main-output lines that `line` gives.
pub open spec fn main_emit(cfg: FilterConfig, policy: OutputPolicy, n: nat, line: Seq<char>) -> Seq<Seq<char>> {
    if outcome_of(cfg, policy, n, line).writes_main() {
        seq![line]
    } else {
        Seq::empty()
    }
}

/// The main-output lines, after the header, that `lines` give.
pub open spec fn main_output(cfg: FilterConfig, policy: OutputPolicy, n: nat, lines: Seq<Seq<char>>) -> Seq<Seq<char>>
    decreases lines.len(),
{
    if lines.len() == 0 {
        Seq::empty()
    } else {
        main_output(cfg, policy, n, lines.drop_last()) + main_emit(cfg, policy, n, lines.last())
    }
}

/// Whether adding an ordinary row with `counts` to `m` would take a 64-bit
/// counter past its largest value.
pub open spec fn overflows(m: PassModel, counts: Seq<u64>) -> bool {
    m.ordinary.len() >= u64::MAX || exists|s: int|
        0 <= s < counts.len() && column_sum(m.ordinary, s) + #[trigger] counts[s] > u64::MAX
}

/// The aggregates of every sample, in header order.
pub open spec fn totals_seq(cfg: FilterConfig, rows: Seq<Seq<u64>>, n: nat) -> Seq<SampleTotals> {
    Seq::new(n, |s: int| totals_of(cfg, rows, s))
}

/// The lines of the metacount report at the end of a pass: its header when
/// it has one, the metafeature rows not written to the main output, then
/// the four summary rows when they are asked for.
pub open spec fn report(
    cfg: FilterConfig,
    policy: OutputPolicy,
    summary: bool,
    names: Seq<Seq<char>>,
    m: PassModel,
) -> Seq<Seq<char>> {
    let ts = totals_seq(cfg, m.ordinary, names.len());
    let st = policy.strip_marker;
    (if policy.emit_header {
        seq![report_header(names)]
    } else {
        Seq::empty()
    }) + (if policy.metafeatures_to_main {
        Seq::empty()
    } else {
        m.metafeatures.map_values(|e: (Seq<char>, Seq<char>)| metafeature_line(st, e.0, e.1))
    }) + (if summary {
        seq![
            summary_line(st, "total_count"@, ts.map_values(|t: SampleTotals| t.total_count)),
            summary_line(st, "passed_count"@, ts.map_values(|t: SampleTotals| t.passed_count)),
            summary_line(st, "total_expressed"@, ts.map_values(|t: SampleTotals| t.total_expressed)),
            summary_line(st, "passed_expressed"@, ts.map_values(|t: SampleTotals| t.passed_expressed)),
        ]
    } else {
        Seq::empty()
    })
}

/// Whether `line` is an ordinary row that would take a counter of `m` past
/// its largest value.
pub open spec fn line_overflows(n: nat, m: PassModel, line: Seq<char>) -> bool {
    match row_of(line, n) {
        RowModel::Ordinary { id, counts } => overflows(m, counts),
        _ => false,
    }
}

proof fn lemma_columns_push(rows: Seq<Seq<u64>>, c: Seq<u64>, s: int, t: u64)
    ensures
        column_sum(rows.push(c), s) == column_sum(rows, s) + c[s],
        column_expressed(rows.push(c), s, t) == column_expressed(rows, s, t) + expressed_step(c[s], t),
{
    assert(rows.push(c).drop_last() =~= rows);
}

proof fn lemma_retained_push(cfg: FilterConfig, rows: Seq<Seq<u64>>, c: Seq<u64>)
    ensures
        retained(cfg, rows.push(c)) == if passes(cfg, c) {
            retained(cfg, rows).push(c)
        } else {
            retained(cfg, rows)
        },
{
    assert(rows.push(c).drop_last() =~= rows);
}

/// The retained rows never sum to more than all rows, and no column
/// counts more expressed rows than there are rows.
pub proof fn lemma_retained_bounded(cfg: FilterConfig, rows: Seq<Seq<u64>>, s: int)
    ensures
        retained(cfg, rows).len() <= rows.len(),
        column_sum(retained(cfg, rows), s) <= column_sum(rows, s),
        column_expressed(retained(cfg, rows), s, cfg.expression_threshold) <= column_expressed(
            rows,
            s,
            cfg.expression_threshold,
        ) <= rows.len(),
        0 <= column_sum(retained(cfg, rows), s),
        0 <= column_expressed(retained(cfg, rows), s, cfg.expression_threshold),
    decreases rows.len(),
{
    if rows.len() > 0 {
        let p = rows.drop_last();
        let c = rows.last();
        lemma_retained_bounded(cfg, p, s);
        assert(p.push(c) =~= rows);
        lemma_retained_push(cfg, p, c);
        lemma_columns_push(p, c, s, cfg.expression_threshold);
        if passes(cfg, c) {
            lemma_columns_push(retained(cfg, p), c, s, cfg.expression_threshold);
        }
    }
}

proof fn lemma_run_push(n: nat, m: PassModel, lines: Seq<Seq<char>>, line: Seq<char>)
    ensures
        run_from(n, m, lines.push(line)) == step(n, run_from(n, m, lines), line),
{
    assert(lines.push(line).drop_last() =~= lines);
}

/// The single streaming pass over a counts matrix: it reads one data line
/// at a time, keeps the per-sample aggregates and the metafeature rows, and
/// says where each line goes.
pub struct CountFilter {
    config: FilterConfig,
    policy: OutputPolicy,
    summary: bool,
    names: Vec<String>,
    acc: Accumulator,
    total_genes: u64,
    passed_genes: u64,
    metafeatures: Vec<(String, String)>,
    seen: Ghost<Seq<Seq<char>>>,
}

impl CountFilter {
    /// The data lines handed in so far, those that overflowed left out.
    pub closed spec fn lines(&self) -> Seq<Seq<char>> {
        self.seen@
    }

    pub closed spec fn config(&self) -> FilterConfig {
        self.config
    }

    pub closed spec fn policy(&self) -> OutputPolicy {
        self.policy
    }

    pub closed spec fn summary(&self) -> bool {
        self.summary
    }

    /// The sample names, in header order.
    pub closed spec fn names(&self) -> Seq<Seq<char>> {
        self.names@.map_values(|s: String| s@)
    }

    pub open spec fn n_samples(&self) -> nat {
        self.names().len()
    }

    /// The model of the pass so far.
    pub open spec fn model(&self) -> PassModel {
        run(self.n_samples(), self.lines())
    }

    pub closed spec fn wf(&self) -> bool {
        let m = run(self.names@.len(), self.seen@);
        &&& self.acc.totals@.len() == self.names@.len()
        &&& self.total_genes == m.ordinary.len()
        &&& self.passed_genes == retained(self.config, m.ordinary).len()
        &&& forall|s: int|
            0 <= s < self.names@.len() ==> column_sum(m.ordinary, s) <= u64::MAX
                && #[trigger] self.acc.totals@[s] == totals_of(self.config, m.ordinary, s)
        &&& self.metafeatures@.len() == m.metafeatures.len()
        &&& forall|i: int|
            0 <= i < m.metafeatures.len() ==> (#[trigger] self.metafeatures@[i].0@,
                self.metafeatures@[i].1@) == m.metafeatures[i]
    }

    /// A pass that has seen no data line yet, for the samples that `header`
    /// names.
    pub fn new(config: FilterConfig, policy: OutputPolicy, summary: bool, header: &str) -> (r: CountFilter)
        ensures
            r.wf(),
            r.lines() == Seq::<Seq<char>>::empty(),
            r.config() == config,
            r.policy() == policy,
            r.summary() == summary,
            r.names() == split_tabs(header@).drop_first(),
    {
        let names = header_names(header);
        let acc = Accumulator::new(names.len());
        let r = CountFilter {
            config,
            policy,
            summary,
            names,
            acc,
            total_genes: 0,
            passed_genes: 0,
            metafeatures: Vec::new(),
            seen: Ghost(Seq::empty()),
        };
        assert(r.names() =~= split_tabs(header@).drop_first());
        r
    }

    /// Whether an ordinary row with `counts` can be added without a counter
    /// passing its largest value.
    fn fits(&self, counts: &Vec<u64>) -> (r: bool)
        requires
            self.wf(),
            counts@.len() == self.n_samples(),
        ensures
            r == !overflows(self.model(), counts@),
    {
        let ghost m = self.model();
        assert(self.n_samples() == self.names@.len());
        if self.total_genes == u64::MAX {
            return false;
        }
        let mut i: usize = 0;
        while i < counts.len()
            invariant
                self.wf(),
                m == self.model(),
                counts@.len() == self.n_samples() == self.names@.len(),
                i <= counts@.len(),
                m.ordinary.len() < u64::MAX,
                forall|s: int| 0 <= s < i ==> column_sum(m.ordinary, s) + #[trigger] counts@[s] <= u64::MAX,
            decreases counts@.len() - i,
        {
            assert(self.acc.totals@[i as int] == totals_of(self.config, m.ordinary, i as int));
            proof {
                lemma_retained_bounded(self.config, m.ordinary, i as int);
            }
            if self.acc.totals[i].total_count > u64::MAX - counts[i] {
                assert(column_sum(m.ordinary, i as int) + counts@[i as int] > u64::MAX);
                return false;
            }
            i = i + 1;
        }
        true
    }

    /// Reads one data line (without its terminator) and says what becomes of
    /// it. An ordinary row updates the aggregates, a metafeature row is kept
    /// for the report, a malformed line changes nothing. When the row would
    /// take a counter past its largest value, nothing changes and the error
    /// comes back.
    pub fn process_line(&mut self, line: &str) -> (r: Result<LineOutcome, CounterOverflow>)
        requires
            old(self).wf(),
        ensures
            final(self).wf(),
            final(self).config() == old(self).config(),
            final(self).policy() == old(self).policy(),
            final(self).summary() == old(self).summary(),
            final(self).names() == old(self).names(),
            r is Err <==> line_overflows(old(self).n_samples(), old(self).model(), line@),
            r is Err ==> final(self).lines() == old(self).lines(),
            r is Ok ==> final(self).lines() == old(self).lines().push(line@),
            r is Ok ==> r->Ok_0 == outcome_of(
                old(self).config(),
                old(self).policy(),
                old(self).n_samples(),
                line@,
            ),
    {
        let ghost n = self.n_samples();
        let ghost m = self.model();
        let ghost cfg = self.config;
        assert(n == self.names@.len());
        proof {
            lemma_run_push(n, empty_model(), self.seen@, line@);
        }
        let row = parse_row(line, self.names.len());
        match row {
            Row::Ordinary { id, counts } => {
                if !self.fits(&counts) {
                    return Err(CounterOverflow {});
                }
                let rejection = first_rejection(&self.config, &counts);
                let keep = rejection.is_none();
                let ghost rows = m.ordinary.push(counts@);
                let t = self.config.expression_threshold;
                proof {
                    lemma_retained_push(cfg, m.ordinary, counts@);
                    assert forall|s: int| 0 <= s < n implies {
                        &&& column_sum(rows, s) == column_sum(m.ordinary, s) + counts@[s]
                        &&& column_expressed(rows, s, t) == column_expressed(m.ordinary, s, t)
                            + expressed_step(counts@[s], t)
                        &&& column_sum(retained(cfg, rows), s) <= column_sum(rows, s)
                        &&& column_expressed(retained(cfg, rows), s, t) <= rows.len()
                        &&& column_expressed(m.ordinary, s, t) <= m.ordinary.len()
                        &&& column_sum(retained(cfg, m.ordinary), s) >= 0
                        &&& (passes(cfg, counts@) ==> {
                            &&& column_sum(retained(cfg, rows), s) == column_sum(retained(cfg, m.ordinary), s) + counts@[s]
                            &&& column_expressed(retained(cfg, rows), s, t) == column_expressed(retained(cfg, m.ordinary), s, t)
                                + expressed_step(counts@[s], t)
                        })
                    } by {
                        lemma_columns_push(m.ordinary, counts@, s, t);
                        lemma_columns_push(retained(cfg, m.ordinary), counts@, s, t);
                        lemma_retained_bounded(cfg, rows, s);
                        lemma_retained_bounded(cfg, m.ordinary, s);
                    }
                    assert forall|s: int| 0 <= s < n implies #[trigger] self.acc.totals@[s] == totals_of(cfg, m.ordinary, s) by {}
                    assert forall|s: int| 0 <= s < counts@.len() implies self.acc.totals@[s].total_count
                        + #[trigger] counts@[s] <= u64::MAX && self.acc.totals@[s].total_expressed < u64::MAX by {
                        assert(self.acc.totals@[s] == totals_of(cfg, m.ordinary, s));
                        lemma_retained_bounded(cfg, m.ordinary, s);
                        assert(!(column_sum(m.ordinary, s) + counts@[s] > u64::MAX));
                    }
                }
                proof {
                    lemma_retained_bounded(cfg, m.ordinary, 0);
                }
                let ghost t0 = self.acc.totals@;
                self.acc.record_ordinary(&counts, t);
                self.total_genes = self.total_genes + 1;
                if keep {
                    proof {
                        assert forall|s: int| 0 <= s < counts@.len() implies self.acc.totals@[s].passed_count
                            + #[trigger] counts@[s] <= u64::MAX && self.acc.totals@[s].passed_expressed < u64::MAX by {
                            lemma_retained_bounded(cfg, m.ordinary, s);
                            lemma_retained_bounded(cfg, rows, s);
                        }
                    }
                    self.acc.record_passed(&counts, t);
                    self.passed_genes = self.passed_genes + 1;
                }
                proof {
                    self.seen@ = self.seen@.push(line@);
                    assert(self.model().ordinary == rows);
                    assert forall|s: int| 0 <= s < n implies column_sum(rows, s) <= u64::MAX
                        && #[trigger] self.acc.totals@[s] == totals_of(cfg, rows, s) by {
                        assert(t0[s] == totals_of(cfg, m.ordinary, s));
                        lemma_columns_push(m.ordinary, counts@, s, t);
                        lemma_columns_push(retained(cfg, m.ordinary), counts@, s, t);
                        lemma_retained_bounded(cfg, rows, s);
                        lemma_retained_bounded(cfg, m.ordinary, s);
                        assert(!(column_sum(m.ordinary, s) + counts@[s] > u64::MAX));
                    }
                    assert(self.wf());
                }
                match rejection {
                    None => Ok(LineOutcome::Retained),
                    Some(why) => Ok(LineOutcome::Filtered(why)),
                }
            },
            Row::Metafeature { id, values } => {
                self.metafeatures.push((id, values));
                proof {
                    self.seen@ = self.seen@.push(line@);
                }
                if self.policy.metafeatures_to_main {
                    Ok(LineOutcome::MetafeatureToMain)
                } else {
                    Ok(LineOutcome::MetafeatureKept)
                }
            },
            Row::Malformed => {
                proof {
                    self.seen@ = self.seen@.push(line@);
                }
                Ok(LineOutcome::Malformed)
            },
        }
    }

    /// Number of ordinary rows read so far.
    pub fn total_genes(&self) -> (r: u64)
        requires
            self.wf(),
        ensures
            r == self.model().ordinary.len(),
    {
        self.total_genes
    }

    /// Number of ordinary rows retained so far.
    pub fn passed_genes(&self) -> (r: u64)
        requires
            self.wf(),
        ensures
            r == retained(self.config(), self.model().ordinary).len(),
    {
        self.passed_genes
    }

    /// Number of metafeature rows read so far.
    pub fn metafeature_count(&self) -> (r: usize)
        requires
            self.wf(),
        ensures
            r == self.model().metafeatures.len(),
    {
        self.metafeatures.len()
    }

    /// The aggregates of every sample, in header order.
    pub fn sample_totals(&self) -> (r: Vec<SampleTotals>)
        requires
            self.wf(),
        ensures
            r@ == totals_seq(self.config(), self.model().ordinary, self.n_samples()),
    {
        let mut out: Vec<SampleTotals> = Vec::new();
        let mut i: usize = 0;
        while i < self.acc.totals.len()
            invariant
                self.wf(),
                i <= self.acc.totals@.len() == self.n_samples(),
                out@ == totals_seq(self.config(), self.model().ordinary, self.n_samples()).take(i as int),
            decreases self.acc.totals@.len() - i,
        {
            out.push(self.acc.totals[i]);
            i = i + 1;
            assert(out@ =~= totals_seq(self.config(), self.model().ordinary, self.n_samples()).take(i as int));
        }
        assert(out@ =~= totals_seq(self.config(), self.model().ordinary, self.n_samples()));
        out
    }

    /// The lines of the metacount report, once the last data line is read.
    pub fn report_lines(&self) -> (r: Vec<String>)
        requires
            self.wf(),
        ensures
            r@.map_values(|s: String| s@) == report(
                self.config(),
                self.policy(),
                self.summary(),
                self.names(),
                self.model(),
            ),
    {
        let ghost m = self.model();
        let ghost st = self.policy.strip_marker;
        let mut out: Vec<String> = Vec::new();
        if self.policy.emit_header {
            out.push(header_line(&self.names));
        }
        let ghost head = out@.map_values(|s: String| s@);
        assert(head =~= (if self.policy.emit_header {
            seq![report_header(self.names())]
        } else {
            Seq::empty()
        }));
        let ghost mids = if self.policy.metafeatures_to_main {
            Seq::empty()
        } else {
            m.metafeatures.map_values(|e: (Seq<char>, Seq<char>)| metafeature_line(st, e.0, e.1))
        };
        if !self.policy.metafeatures_to_main {
            let mut i: usize = 0;
            while i < self.metafeatures.len()
                invariant
                    self.wf(),
                    m == self.model(),
                    st == self.policy.strip_marker,
                    !self.policy.metafeatures_to_main,
                    mids == m.metafeatures.map_values(|e: (Seq<char>, Seq<char>)| metafeature_line(st, e.0, e.1)),
                    i <= self.metafeatures@.len() == m.metafeatures.len(),
                    out@.map_values(|s: String| s@) == head + mids.take(i as int),
                decreases self.metafeatures@.len() - i,
            {
                let line = format_metafeature(self.policy.strip_marker, &self.metafeatures[i].0, &self.metafeatures[i].1);
                let ghost before = out@.map_values(|s: String| s@);
                out.push(line);
                assert(out@.map_values(|s: String| s@) =~= before.push(line@));
                assert(mids.take(i + 1) =~= mids.take(i as int).push(mids[i as int]));
                assert(self.metafeatures@[i as int].0@ == m.metafeatures[i as int].0);
                i = i + 1;
            }
            assert(mids.take(i as int) =~= mids);
        } else {
            assert(head + mids =~= head);
        }
        let ghost body = out@.map_values(|s: String| s@);
        if self.summary {
            let ts = self.sample_totals();
            let ghost tss = totals_seq(self.config, m.ordinary, self.n_samples());
            let mut tc: Vec<u64> = Vec::new();
            let mut pc: Vec<u64> = Vec::new();
            let mut te: Vec<u64> = Vec::new();
            let mut pe: Vec<u64> = Vec::new();
            let mut i: usize = 0;
            while i < ts.len()
                invariant
                    ts@ == tss,
                    i <= ts@.len(),
                    tc@ == tss.take(i as int).map_values(|t: SampleTotals| t.total_count),
                    pc@ == tss.take(i as int).map_values(|t: SampleTotals| t.passed_count),
                    te@ == tss.take(i as int).map_values(|t: SampleTotals| t.total_expressed),
                    pe@ == tss.take(i as int).map_values(|t: SampleTotals| t.passed_expressed),
                decreases ts@.len() - i,
            {
                tc.push(ts[i].total_count);
                pc.push(ts[i].passed_count);
                te.push(ts[i].total_expressed);
                pe.push(ts[i].passed_expressed);
                i = i + 1;
                assert(tc@ =~= tss.take(i as int).map_values(|t: SampleTotals| t.total_count));
                assert(pc@ =~= tss.take(i as int).map_values(|t: SampleTotals| t.passed_count));
                assert(te@ =~= tss.take(i as int).map_values(|t: SampleTotals| t.total_expressed));
                assert(pe@ =~= tss.take(i as int).map_values(|t: SampleTotals| t.passed_expressed));
            }
            assert(tss.take(i as int) =~= tss);
            out.push(format_summary(self.policy.strip_marker, "total_count", &tc));
            out.push(format_summary(self.policy.strip_marker, "passed_count", &pc));
            out.push(format_summary(self.policy.strip_marker, "total_expressed", &te));
            out.push(format_summary(self.policy.strip_marker, "passed_expressed", &pe));
        }
        assert(out@.map_values(|s: String| s@) =~= report(
            self.config(),
            self.policy(),
            self.summary(),
            self.names(),
            self.model(),
        ));
        out
    }
}

} // verus!
