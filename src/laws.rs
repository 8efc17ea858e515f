use vstd::prelude::*;

use crate::filter::{all_equal, no_predicates, passes, FilterConfig};
use crate::pass::{
    column_expressed, column_sum, empty_model, lemma_retained_bounded, main_emit, main_output,
    retained, run, run_from, step, OutputPolicy, PassModel,
};
use crate::record::{row_of, RowModel};

verus! {

/// Number of `lines` that read as ordinary rows.
pub open spec fn n_ordinary(n: nat, lines: Seq<Seq<char>>) -> nat
    decreases lines.len(),
{
    if lines.len() == 0 {
        0
    } else {
        n_ordinary(n, lines.drop_last()) + if row_of(lines.last(), n) is Ordinary {
            1nat
        } else {
            0nat
        }
    }
}

/// The gene count of a pass is the number of lines that parsed as ordinary
/// rows, and no more genes pass than were counted.
pub proof fn law_gene_counts(cfg: FilterConfig, n: nat, lines: Seq<Seq<char>>)
    ensures
        run(n, lines).ordinary.len() == n_ordinary(n, lines),
        retained(cfg, run(n, lines).ordinary).len() <= run(n, lines).ordinary.len(),
    decreases lines.len(),
{
    if lines.len() > 0 {
        law_gene_counts(cfg, n, lines.drop_last());
    }
    lemma_retained_bounded(cfg, run(n, lines).ordinary, 0);
}

/// For every sample, the passed count never exceeds the total count, and
/// the passed expressed tally never exceeds the total expressed tally.
pub proof fn law_passed_within_total(cfg: FilterConfig, n: nat, lines: Seq<Seq<char>>, s: int)
    requires
        0 <= s < n,
    ensures
        column_sum(retained(cfg, run(n, lines).ordinary), s) <= column_sum(run(n, lines).ordinary, s),
        column_expressed(retained(cfg, run(n, lines).ordinary), s, cfg.expression_threshold)
            <= column_expressed(run(n, lines).ordinary, s, cfg.expression_threshold),
{
    lemma_retained_bounded(cfg, run(n, lines).ordinary, s);
}

proof fn lemma_main_output_concat(
    cfg: FilterConfig,
    policy: OutputPolicy,
    n: nat,
    a: Seq<Seq<char>>,
    b: Seq<Seq<char>>,
)
    ensures
        main_output(cfg, policy, n, a + b) == main_output(cfg, policy, n, a) + main_output(cfg, policy, n, b),
    decreases b.len(),
{
    if b.len() == 0 {
        assert(a + b =~= a);
        assert(main_output(cfg, policy, n, a) + main_output(cfg, policy, n, b) =~= main_output(cfg, policy, n, a));
    } else {
        lemma_main_output_concat(cfg, policy, n, a, b.drop_last());
        assert((a + b).drop_last() =~= a + b.drop_last());
        assert((a + b).last() == b.last());
        assert(main_output(cfg, policy, n, a + b) =~= main_output(cfg, policy, n, a) + main_output(cfg, policy, n, b));
    }
}

proof fn lemma_main_output_single(cfg: FilterConfig, policy: OutputPolicy, n: nat, line: Seq<char>)
    ensures
        main_output(cfg, policy, n, seq![line]) == main_emit(cfg, policy, n, line),
{
    assert(seq![line].drop_last() =~= Seq::<Seq<char>>::empty());
    assert(seq![line].last() == line);
    assert(main_output(cfg, policy, n, Seq::empty()) == Seq::<Seq<char>>::empty());
    assert(Seq::<Seq<char>>::empty() + main_emit(cfg, policy, n, line) =~= main_emit(cfg, policy, n, line));
}

/// Filtering the main output of a pass again, with the same header and
/// settings, gives that same output.
pub proof fn law_idempotent(cfg: FilterConfig, policy: OutputPolicy, n: nat, lines: Seq<Seq<char>>)
    ensures
        main_output(cfg, policy, n, main_output(cfg, policy, n, lines)) == main_output(cfg, policy, n, lines),
    decreases lines.len(),
{
    if lines.len() > 0 {
        let p = lines.drop_last();
        let l = lines.last();
        law_idempotent(cfg, policy, n, p);
        let e = main_emit(cfg, policy, n, l);
        lemma_main_output_concat(cfg, policy, n, main_output(cfg, policy, n, p), e);
        if e.len() > 0 {
            assert(e == seq![l]);
            lemma_main_output_single(cfg, policy, n, l);
        } else {
            assert(e =~= Seq::<Seq<char>>::empty());
        }
    }
}

/// With every predicate disabled and metafeature rows kept in the main
/// output, every gene passes, and the main output is the input without its
/// malformed lines.
pub proof fn law_no_predicates(cfg: FilterConfig, policy: OutputPolicy, n: nat, lines: Seq<Seq<char>>)
    requires
        no_predicates(cfg),
        policy.metafeatures_to_main,
    ensures
        retained(cfg, run(n, lines).ordinary) == run(n, lines).ordinary,
        main_output(cfg, policy, n, lines) == lines.filter(|l: Seq<char>| !(row_of(l, n) is Malformed)),
    decreases lines.len(),
{
    lemma_all_retained(cfg, run(n, lines).ordinary);
    let pred = |l: Seq<char>| !(row_of(l, n) is Malformed);
    reveal(Seq::filter);
    if lines.len() > 0 {
        let l = lines.last();
        law_no_predicates(cfg, policy, n, lines.drop_last());
        if pred(l) {
            assert(main_emit(cfg, policy, n, l) == seq![l]);
            assert(lines.filter(pred) == lines.drop_last().filter(pred).push(l));
            assert(main_output(cfg, policy, n, lines) =~= lines.filter(pred));
        } else {
            assert(main_emit(cfg, policy, n, l) == Seq::<Seq<char>>::empty());
            assert(main_output(cfg, policy, n, lines) =~= lines.filter(pred));
        }
    } else {
        assert(lines.filter(pred) == lines);
    }
}

proof fn lemma_all_retained(cfg: FilterConfig, rows: Seq<Seq<u64>>)
    requires
        no_predicates(cfg),
    ensures
        retained(cfg, rows) == rows,
    decreases rows.len(),
{
    if rows.len() > 0 {
        lemma_all_retained(cfg, rows.drop_last());
        assert(rows.drop_last().push(rows.last()) =~= rows);
    }
}

/// Turning on the filter on identical counts removes exactly the rows whose
/// counts are all equal (an all-zero row among them), and changes nothing
/// else.
pub proof fn law_identical_filter(cfg: FilterConfig, counts: Seq<u64>)
    ensures
        passes(FilterConfig { filter_identical: true, ..cfg }, counts) == (passes(
            FilterConfig { filter_identical: false, ..cfg },
            counts,
        ) && !all_equal(counts)),
{
}

proof fn lemma_run_concat(n: nat, m: PassModel, a: Seq<Seq<char>>, b: Seq<Seq<char>>)
    ensures
        run_from(n, m, a + b) == run_from(n, run_from(n, m, a), b),
    decreases b.len(),
{
    if b.len() == 0 {
        assert(a + b =~= a);
    } else {
        lemma_run_concat(n, m, a, b.drop_last());
        assert((a + b).drop_last() =~= a + b.drop_last());
        assert((a + b).last() == b.last());
    }
}

/// A malformed line, wherever it stands, changes neither the gene counts,
/// the sample aggregates and metafeature rows (the whole model of the pass),
/// nor the main output; the lines after it are read as without it.
pub proof fn law_malformed_ignored(
    cfg: FilterConfig,
    policy: OutputPolicy,
    n: nat,
    before: Seq<Seq<char>>,
    bad: Seq<char>,
    after: Seq<Seq<char>>,
)
    requires
        row_of(bad, n) is Malformed,
    ensures
        run(n, before + seq![bad] + after) == run(n, before + after),
        main_output(cfg, policy, n, before + seq![bad] + after) == main_output(cfg, policy, n, before + after),
{
    let m0 = empty_model();
    lemma_run_concat(n, m0, before + seq![bad], after);
    lemma_run_concat(n, m0, before, seq![bad]);
    lemma_run_concat(n, m0, before, after);
    assert(seq![bad].drop_last() =~= Seq::<Seq<char>>::empty());
    assert(seq![bad].last() == bad);
    assert(run_from(n, run_from(n, m0, before), Seq::empty()) == run_from(n, m0, before));
    assert(run_from(n, run_from(n, m0, before), seq![bad]) == step(n, run_from(n, m0, before), bad));
    lemma_main_output_concat(cfg, policy, n, before + seq![bad], after);
    lemma_main_output_concat(cfg, policy, n, before, seq![bad]);
    lemma_main_output_concat(cfg, policy, n, before, after);
    lemma_main_output_single(cfg, policy, n, bad);
    assert(main_output(cfg, policy, n, before) + main_emit(cfg, policy, n, bad) =~= main_output(cfg, policy, n, before));
}

} // verus!
