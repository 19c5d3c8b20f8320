//! Collecting the findings of a clippy stream: error- and warning-level
//! diagnostics, deduplicated and kept in the order of [`output_order`].

use vstd::prelude::*;

use crate::level::Level;
use crate::order::{compare_outputs, lemma_output_order, output_order, Order};
use crate::output::{outputs_view, Output, OutputView};
use crate::text::{decimal, push_decimal};
use crate::RunReport;

verus! {

/// Each element comes strictly before every later one.
pub open spec fn strictly_sorted(s: Seq<OutputView>) -> bool {
    forall|i: int, j: int| 0 <= i < j < s.len() ==> output_order(s[i], s[j]) == Order::Less
}

/// Two strictly sorted sequences that hold the same values are equal: the
/// sorted, duplicate-free enumeration of a set is unique.
pub proof fn lemma_sorted_unique(s: Seq<OutputView>, t: Seq<OutputView>)
    requires
        strictly_sorted(s),
        strictly_sorted(t),
        s.to_set() == t.to_set(),
    ensures
        s == t,
    decreases s.len(),
{
    if s.len() == 0 || t.len() == 0 {
        if s.len() > 0 {
            assert(s.to_set().contains(s[0]));
        }
        if t.len() > 0 {
            assert(t.to_set().contains(t[0]));
        }
        assert(s =~= t);
    } else {
        assert(t.to_set().contains(s[0]));
        assert(s.to_set().contains(t[0]));
        let k = choose|k: int| 0 <= k < t.len() && t[k] == s[0];
        let m = choose|m: int| 0 <= m < s.len() && s[m] == t[0];
        lemma_output_order(s[0], t[0], s[0]);
        if k > 0 {
            lemma_output_order(t[0], t[k], t[0]);
        }
        if m > 0 {
            lemma_output_order(s[0], s[m], s[0]);
        }
        assert(s[0] == t[0]);
        let s1 = s.drop_first();
        let t1 = t.drop_first();
        assert forall|e: OutputView| s1.to_set().contains(e) implies t1.to_set().contains(e) by {
            let i = choose|i: int| 0 <= i < s1.len() && s1[i] == e;
            lemma_output_order(s[0], s[i + 1], s[0]);
            assert(s.to_set().contains(e));
            let j = choose|j: int| 0 <= j < t.len() && t[j] == e;
            assert(j > 0);
            assert(t1[j - 1] == e);
        }
        assert forall|e: OutputView| t1.to_set().contains(e) implies s1.to_set().contains(e) by {
            let i = choose|i: int| 0 <= i < t1.len() && t1[i] == e;
            lemma_output_order(t[0], t[i + 1], t[0]);
            assert(t.to_set().contains(e));
            let j = choose|j: int| 0 <= j < s.len() && s[j] == e;
            assert(j > 0);
            assert(s1[j - 1] == e);
        }
        assert(s1.to_set() =~= t1.to_set());
        lemma_sorted_unique(s1, t1);
        assert(s =~= t) by {
            assert forall|i: int| 0 <= i < s.len() implies s[i] == t[i] by {
                if i > 0 {
                    assert(s[i] == s1[i - 1]);
                    assert(t[i] == t1[i - 1]);
                }
            }
        }
    }
}

/// Adds `x` to a strictly sorted vector of outputs, unless an equal value is
/// already there.
pub fn insert_sorted(set: &mut Vec<Output>, x: Output)
    requires
        strictly_sorted(outputs_view(old(set)@)),
    ensures
        strictly_sorted(outputs_view(final(set)@)),
        outputs_view(final(set)@).to_set() == outputs_view(old(set)@).to_set().insert(x@),
{
    let ghost before = outputs_view(set@);
    let mut i: usize = 0;
    let mut done = false;
    while i < set.len() && !done
        invariant
            set@ == old(set)@,
            before == outputs_view(set@),
            strictly_sorted(before),
            0 <= i <= set@.len(),
            forall|j: int| 0 <= j < i ==> output_order(before[j], x@) == Order::Less,
            done ==> i < set@.len() && output_order(before[i as int], x@) == Order::Greater,
        decreases set@.len() - i + (if done { 0int } else { 1int }),
    {
        let o = compare_outputs(&set[i], &x);
        if o == Order::Equal {
            proof {
                lemma_output_order(before[i as int], x@, x@);
                assert(before.to_set().contains(x@));
                assert(before.to_set().insert(x@) =~= before.to_set());
            }
            return;
        } else if o == Order::Greater {
            done = true;
        } else {
            i = i + 1;
        }
    }
    let ghost xv = x@;
    set.insert(i, x);
    let ghost after = outputs_view(set@);
    assert(after =~= before.insert(i as int, xv));
    assert forall|p: int, q: int| 0 <= p < q < after.len() implies output_order(after[p], after[q])
        == Order::Less by {
        if q == i {
        } else if p == i {
            lemma_output_order(xv, before[i as int], before[q - 1]);
            lemma_output_order(before[i as int], xv, xv);
            if q - 1 > i {
                lemma_output_order(xv, before[i as int], before[q - 1]);
            }
        } else if p < i && q > i {
            assert(after[q] == before[q - 1]);
        } else if p > i {
            assert(after[p] == before[p - 1]);
            assert(after[q] == before[q - 1]);
        }
    }
    assert(after.to_set() =~= before.to_set().insert(xv)) by {
        assert forall|e: OutputView| after.to_set().contains(e) implies before.to_set().insert(
            xv,
        ).contains(e) by {
            let k = choose|k: int| 0 <= k < after.len() && after[k] == e;
            if k < i {
                assert(before[k] == e);
            } else if k > i {
                assert(before[k - 1] == e);
            }
        }
        assert forall|e: OutputView| before.to_set().insert(xv).contains(e) implies after.to_set().contains(
            e,
        ) by {
            if e == xv {
                assert(after[i as int] == e);
            } else {
                let k = choose|k: int| 0 <= k < before.len() && before[k] == e;
                if k < i {
                    assert(after[k] == e);
                } else {
                    assert(after[k + 1] == e);
                }
            }
        }
    }
}

/// One input line: the output it holds, or the text of the error that the
/// JSON reader gave for it.
pub open spec fn line_view(line: Result<Output, String>) -> Result<OutputView, Seq<char>> {
    match line {
        Ok(o) => Ok(o@),
        Err(e) => Err(e@),
    }
}

pub open spec fn lines_view(lines: Seq<Result<Output, String>>) -> Seq<Result<OutputView, Seq<char>>> {
    lines.map_values(|l: Result<Output, String>| line_view(l))
}

/// The error- and warning-level outputs among the lines.
pub open spec fn findings(lines: Seq<Result<OutputView, Seq<char>>>) -> Set<OutputView> {
    Set::new(|o: OutputView| o.is_finding() && lines.contains(Ok(o)))
}

/// The findings of the lines, each once, in increasing [`output_order`].
pub open spec fn diagnostics(lines: Seq<Result<OutputView, Seq<char>>>) -> Seq<OutputView> {
    choose|s: Seq<OutputView>| strictly_sorted(s) && s.to_set() == findings(lines)
}

/// The line is a `build-finished` line that reported `success: flag`.
pub open spec fn reports_build(line: Result<OutputView, Seq<char>>, flag: bool) -> bool {
    line matches Ok(o) && o.build_success() == Some(flag)
}

/// Some `build-finished` line reported `success: flag`.
pub open spec fn build_reported(lines: Seq<Result<OutputView, Seq<char>>>, flag: bool) -> bool {
    exists|i: int| 0 <= i < lines.len() && #[trigger] reports_build(lines[i], flag)
}

/// How many of the outputs are of the given level.
pub open spec fn count_level(s: Seq<OutputView>, level: Level) -> nat
    decreases s.len(),
{
    if s.len() == 0 {
        0
    } else {
        count_level(s.drop_last(), level) + if s.last().is_level(level) {
            1nat
        } else {
            0nat
        }
    }
}

/// The report of a stream: the numbers of unique errors and warnings, and
/// whether some `build-finished` line succeeded or failed.
pub open spec fn report_of(lines: Seq<Result<OutputView, Seq<char>>>) -> RunReport {
    RunReport {
        errors: count_level(diagnostics(lines), Level::Error) as usize,
        warnings: count_level(diagnostics(lines), Level::Warning) as usize,
        any_success: build_reported(lines, true),
        any_failure: build_reported(lines, false),
    }
}

/// The log line for a line that is not valid JSON; `number` counts from 1.
pub open spec fn error_entry(number: nat, error: Seq<char>) -> Seq<char> {
    "rust-rapport: line "@ + decimal(number) + ": invalid JSON: "@ + error + "\n"@
}

/// The log lines of all the invalid lines, in input order.
pub open spec fn error_log(lines: Seq<Result<OutputView, Seq<char>>>) -> Seq<char>
    decreases lines.len(),
{
    if lines.len() == 0 {
        Seq::empty()
    } else {
        error_log(lines.drop_last()) + match lines.last() {
            Ok(_) => Seq::empty(),
            Err(e) => error_entry(lines.len() as nat, e),
        }
    }
}

proof fn lemma_count_level_bound(s: Seq<OutputView>, level: Level)
    ensures
        count_level(s, level) <= s.len(),
    decreases s.len(),
{
    if s.len() > 0 {
        lemma_count_level_bound(s.drop_last(), level);
    }
}

/// Every finding is an error or a warning, never both, so the two counts
/// add up to the number of findings.
pub proof fn lemma_counts_partition(s: Seq<OutputView>)
    requires
        forall|i: int| 0 <= i < s.len() ==> (#[trigger] s[i]).is_finding(),
    ensures
        count_level(s, Level::Error) + count_level(s, Level::Warning) == s.len(),
    decreases s.len(),
{
    if s.len() > 0 {
        lemma_counts_partition(s.drop_last());
        assert(s.last().is_finding());
    }
}

/// What one more line adds to the findings, the build flags and the log.
proof fn lemma_line_step(prev: Seq<Result<OutputView, Seq<char>>>, line: Result<OutputView, Seq<char>>)
    ensures
        findings(prev.push(line)) == (match line {
            Ok(o) => if o.is_finding() {
                findings(prev).insert(o)
            } else {
                findings(prev)
            },
            Err(_) => findings(prev),
        }),
        build_reported(prev.push(line), true) == (build_reported(prev, true) || reports_build(
            line,
            true,
        )),
        build_reported(prev.push(line), false) == (build_reported(prev, false) || reports_build(
            line,
            false,
        )),
        error_log(prev.push(line)) == error_log(prev) + match line {
            Ok(_) => Seq::empty(),
            Err(e) => error_entry(prev.len() + 1, e),
        },
{
    let next = prev.push(line);
    assert(next.drop_last() =~= prev);
    assert forall|o: OutputView| #[trigger] next.contains(Ok(o)) == (prev.contains(Ok(o)) || line
        == Ok::<OutputView, Seq<char>>(o)) by {
        if next.contains(Ok(o)) {
            let k = choose|k: int| 0 <= k < next.len() && next[k] == Ok::<OutputView, Seq<char>>(o);
            if k < prev.len() {
                assert(prev[k] == next[k]);
            }
        }
        if prev.contains(Ok(o)) {
            let k = choose|k: int| 0 <= k < prev.len() && prev[k] == Ok::<OutputView, Seq<char>>(o);
            assert(next[k] == prev[k]);
        }
        if line == Ok::<OutputView, Seq<char>>(o) {
            assert(next[prev.len() as int] == line);
        }
    }
    match line {
        Ok(o) => {
            if o.is_finding() {
                assert(findings(next) =~= findings(prev).insert(o));
            } else {
                assert(findings(next) =~= findings(prev));
            }
        },
        Err(_) => {
            assert(findings(next) =~= findings(prev));
        },
    }
    lemma_build_step(prev, line, true);
    lemma_build_step(prev, line, false);
}

proof fn lemma_build_step(prev: Seq<Result<OutputView, Seq<char>>>, line: Result<OutputView, Seq<char>>, flag: bool)
    ensures
        build_reported(prev.push(line), flag) == (build_reported(prev, flag) || reports_build(line, flag)),
{
    let next = prev.push(line);
    if build_reported(next, flag) {
        let k = choose|k: int| 0 <= k < next.len() && #[trigger] reports_build(next[k], flag);
        if k < prev.len() {
            assert(prev[k] == next[k]);
        }
    }
    if build_reported(prev, flag) {
        let k = choose|k: int| 0 <= k < prev.len() && #[trigger] reports_build(prev[k], flag);
        assert(next[k] == prev[k]);
    }
    if reports_build(line, flag) {
        assert(next[prev.len() as int] == line);
    }
}

/// `s` with `x` added at its place in the order, unless an equal value is there.
pub open spec fn insert_in_order(s: Seq<OutputView>, x: OutputView) -> Seq<OutputView>
    decreases s.len(),
{
    if s.len() == 0 {
        seq![x]
    } else {
        match output_order(x, s[0]) {
            Order::Less => seq![x] + s,
            Order::Equal => s,
            Order::Greater => seq![s[0]] + insert_in_order(s.drop_first(), x),
        }
    }
}

proof fn lemma_insert_front(s: Seq<OutputView>, x: OutputView)
    requires
        strictly_sorted(s),
        s.len() > 0,
        output_order(x, s[0]) == Order::Less,
    ensures
        strictly_sorted(seq![x] + s),
        (seq![x] + s).to_set() == s.to_set().insert(x),
{
    let r = seq![x] + s;
    assert forall|p: int, q: int| 0 <= p < q < r.len() implies output_order(r[p], r[q])
        == Order::Less by {
        if p == 0 {
            if q > 1 {
                lemma_output_order(x, s[0], s[q - 1]);
            }
        } else {
            assert(r[p] == s[p - 1] && r[q] == s[q - 1]);
        }
    }
    assert(r.to_set() =~= s.to_set().insert(x)) by {
        assert forall|e: OutputView| r.to_set().contains(e) implies s.to_set().insert(x).contains(e) by {
            let k = choose|k: int| 0 <= k < r.len() && r[k] == e;
            if k > 0 {
                assert(s[k - 1] == e);
            }
        }
        assert forall|e: OutputView| s.to_set().insert(x).contains(e) implies r.to_set().contains(e) by {
            if e == x {
                assert(r[0] == e);
            } else {
                let k = choose|k: int| 0 <= k < s.len() && s[k] == e;
                assert(r[k + 1] == e);
            }
        }
    }
}

proof fn lemma_insert_after_first(s: Seq<OutputView>, x: OutputView, u: Seq<OutputView>)
    requires
        strictly_sorted(s),
        s.len() > 0,
        output_order(x, s[0]) == Order::Greater,
        strictly_sorted(u),
        u.to_set() == s.drop_first().to_set().insert(x),
    ensures
        strictly_sorted(seq![s[0]] + u),
        (seq![s[0]] + u).to_set() == s.to_set().insert(x),
{
    let t = s.drop_first();
    let r = seq![s[0]] + u;
    lemma_output_order(x, s[0], s[0]);
    assert forall|p: int, q: int| 0 <= p < q < r.len() implies output_order(r[p], r[q])
        == Order::Less by {
        if p == 0 {
            assert(u.to_set().contains(r[q])) by {
                assert(u[q - 1] == r[q]);
            }
            if r[q] != x {
                assert(t.to_set().contains(r[q]));
                let k = choose|k: int| 0 <= k < t.len() && t[k] == r[q];
                assert(s[k + 1] == r[q]);
            }
        } else {
            assert(r[p] == u[p - 1] && r[q] == u[q - 1]);
        }
    }
    assert(r.to_set() =~= s.to_set().insert(x)) by {
        assert forall|e: OutputView| r.to_set().contains(e) implies s.to_set().insert(x).contains(e) by {
            let k = choose|k: int| 0 <= k < r.len() && r[k] == e;
            if k > 0 {
                assert(u[k - 1] == e);
                assert(u.to_set().contains(e));
                if e != x {
                    let j = choose|j: int| 0 <= j < t.len() && t[j] == e;
                    assert(s[j + 1] == e);
                }
            }
        }
        assert forall|e: OutputView| s.to_set().insert(x).contains(e) implies r.to_set().contains(e) by {
            if e == s[0] {
                assert(r[0] == e);
            } else {
                if e != x {
                    let k = choose|k: int| 0 <= k < s.len() && s[k] == e;
                    assert(t[k - 1] == e);
                    assert(t.to_set().contains(e));
                }
                assert(u.to_set().contains(e));
                let j = choose|j: int| 0 <= j < u.len() && u[j] == e;
                assert(r[j + 1] == e);
            }
        }
    }
}

proof fn lemma_insert_in_order(s: Seq<OutputView>, x: OutputView)
    requires
        strictly_sorted(s),
    ensures
        strictly_sorted(insert_in_order(s, x)),
        insert_in_order(s, x).to_set() == s.to_set().insert(x),
    decreases s.len(),
{
    let r = insert_in_order(s, x);
    if s.len() == 0 {
        assert(r.to_set() =~= s.to_set().insert(x)) by {
            assert forall|e: OutputView| r.to_set().contains(e) implies e == x by {
                let k = choose|k: int| 0 <= k < r.len() && r[k] == e;
            }
            assert(r[0] == x);
        }
    } else {
        lemma_output_order(x, s[0], s[0]);
        match output_order(x, s[0]) {
            Order::Less => {
                lemma_insert_front(s, x);
            },
            Order::Equal => {
                assert(s.to_set().contains(s[0]));
                assert(r.to_set() =~= s.to_set().insert(x));
            },
            Order::Greater => {
                let t = s.drop_first();
                assert forall|p: int, q: int| 0 <= p < q < t.len() implies output_order(t[p], t[q])
                    == Order::Less by {
                    assert(t[p] == s[p + 1] && t[q] == s[q + 1]);
                }
                lemma_insert_in_order(t, x);
                lemma_insert_after_first(s, x, insert_in_order(t, x));
            },
        }
    }
}

/// The findings of `lines`, enumerated in order: the first `n` lines folded
/// one by one with [`insert_in_order`].
pub open spec fn enumerate_findings(lines: Seq<Result<OutputView, Seq<char>>>) -> Seq<OutputView>
    decreases lines.len(),
{
    if lines.len() == 0 {
        Seq::empty()
    } else {
        let prev = enumerate_findings(lines.drop_last());
        match lines.last() {
            Ok(o) => if o.is_finding() {
                insert_in_order(prev, o)
            } else {
                prev
            },
            Err(_) => prev,
        }
    }
}

proof fn lemma_enumerate_findings(lines: Seq<Result<OutputView, Seq<char>>>)
    ensures
        strictly_sorted(enumerate_findings(lines)),
        enumerate_findings(lines).to_set() == findings(lines),
    decreases lines.len(),
{
    if lines.len() == 0 {
        assert(findings(lines) =~= Set::<OutputView>::empty());
        assert(enumerate_findings(lines).to_set() =~= Set::<OutputView>::empty());
    } else {
        let prev = lines.drop_last();
        lemma_enumerate_findings(prev);
        assert(lines =~= prev.push(lines.last()));
        lemma_line_step(prev, lines.last());
        if let Ok(o) = lines.last() {
            if o.is_finding() {
                lemma_insert_in_order(enumerate_findings(prev), o);
            }
        }
    }
}

/// The diagnostics of any stream are its findings, each exactly once, in
/// increasing order: such an enumeration exists and is the only one.
pub proof fn lemma_diagnostics(lines: Seq<Result<OutputView, Seq<char>>>)
    ensures
        strictly_sorted(diagnostics(lines)),
        diagnostics(lines).to_set() == findings(lines),
        forall|s: Seq<OutputView>|
            strictly_sorted(s) && s.to_set() == findings(lines) ==> s == diagnostics(lines),
{
    lemma_enumerate_findings(lines);
    let d = diagnostics(lines);
    assert(strictly_sorted(d) && d.to_set() == findings(lines));
    assert forall|s: Seq<OutputView>| strictly_sorted(s) && s.to_set() == findings(lines) implies s == d by {
        lemma_sorted_unique(s, d);
    }
}

/// The diagnostics and the report of a stream depend only on which outputs
/// its valid lines hold: not on their order, not on repeated lines, and not
/// on lines that are not valid JSON.
pub proof fn lemma_same_outputs_same_result(
    a: Seq<Result<OutputView, Seq<char>>>,
    b: Seq<Result<OutputView, Seq<char>>>,
)
    requires
        forall|o: OutputView| a.contains(Ok(o)) <==> b.contains(Ok(o)),
    ensures
        diagnostics(a) == diagnostics(b),
        report_of(a) == report_of(b),
{
    assert(findings(a) =~= findings(b));
    lemma_diagnostics(a);
    lemma_diagnostics(b);
    assert(build_reported(a, true) == build_reported(b, true)) by {
        lemma_build_reported_by_outputs(a, b, true);
        lemma_build_reported_by_outputs(b, a, true);
    }
    assert(build_reported(a, false) == build_reported(b, false)) by {
        lemma_build_reported_by_outputs(a, b, false);
        lemma_build_reported_by_outputs(b, a, false);
    }
}

proof fn lemma_build_reported_by_outputs(
    a: Seq<Result<OutputView, Seq<char>>>,
    b: Seq<Result<OutputView, Seq<char>>>,
    flag: bool,
)
    requires
        forall|o: OutputView| a.contains(Ok(o)) ==> b.contains(Ok(o)),
    ensures
        build_reported(a, flag) ==> build_reported(b, flag),
{
    if build_reported(a, flag) {
        let k = choose|k: int| 0 <= k < a.len() && #[trigger] reports_build(a[k], flag);
        let o = a[k]->Ok_0;
        assert(a.contains(Ok(o)));
        let j = choose|j: int| 0 <= j < b.len() && b[j] == Ok::<OutputView, Seq<char>>(o);
        assert(reports_build(b[j], flag));
    }
}

/// Every unique diagnostic is an error or a warning, so the two counts of
/// the report add up to the number of diagnostics.
pub proof fn lemma_report_counts(lines: Seq<Result<OutputView, Seq<char>>>)
    ensures
        count_level(diagnostics(lines), Level::Error) + count_level(diagnostics(lines), Level::Warning)
            == diagnostics(lines).len(),
{
    lemma_diagnostics(lines);
    let d = diagnostics(lines);
    assert forall|i: int| 0 <= i < d.len() implies (#[trigger] d[i]).is_finding() by {
        assert(d.to_set().contains(d[i]));
    }
    lemma_counts_partition(d);
}

proof fn lemma_count_level_positive(s: Seq<OutputView>, level: Level)
    ensures
        (count_level(s, level) > 0) == (exists|i: int| 0 <= i < s.len() && (#[trigger] s[i]).is_level(level)),
    decreases s.len(),
{
    if s.len() > 0 {
        lemma_count_level_positive(s.drop_last(), level);
        if exists|i: int| 0 <= i < s.len() && (#[trigger] s[i]).is_level(level) {
            let i = choose|i: int| 0 <= i < s.len() && (#[trigger] s[i]).is_level(level);
            if i < s.len() - 1 {
                assert(s.drop_last()[i] == s[i]);
            }
        }
        if exists|i: int| 0 <= i < s.len() - 1 && (#[trigger] s.drop_last()[i]).is_level(level) {
            let i = choose|i: int| 0 <= i < s.len() - 1 && (#[trigger] s.drop_last()[i]).is_level(level);
            assert(s[i] == s.drop_last()[i]);
        }
    }
}

/// A stream counts as failed exactly when it held an error-level diagnostic
/// or a `build-finished` line that reported failure.
pub proof fn lemma_failure_iff(lines: Seq<Result<OutputView, Seq<char>>>)
    ensures
        (count_level(diagnostics(lines), Level::Error) > 0 || build_reported(lines, false)) == ((
        exists|o: OutputView| #[trigger] findings(lines).contains(o) && o.is_level(Level::Error))
            || build_reported(lines, false)),
{
    lemma_diagnostics(lines);
    let d = diagnostics(lines);
    lemma_count_level_positive(d, Level::Error);
    if count_level(d, Level::Error) > 0 {
        let i = choose|i: int| 0 <= i < d.len() && (#[trigger] d[i]).is_level(Level::Error);
        assert(d.to_set().contains(d[i]));
        assert(findings(lines).contains(d[i]));
    }
    if exists|o: OutputView| #[trigger] findings(lines).contains(o) && o.is_level(Level::Error) {
        let o = choose|o: OutputView| #[trigger] findings(lines).contains(o) && o.is_level(Level::Error);
        assert(d.to_set().contains(o));
        let i = choose|i: int| 0 <= i < d.len() && d[i] == o;
        assert(d[i].is_level(Level::Error));
    }
}

fn count_findings(set: &Vec<Output>) -> (r: (usize, usize))
    ensures
        r.0 == count_level(outputs_view(set@), Level::Error),
        r.1 == count_level(outputs_view(set@), Level::Warning),
{
    let ghost all = outputs_view(set@);
    let mut errors: usize = 0;
    let mut warnings: usize = 0;
    let mut i: usize = 0;
    while i < set.len()
        invariant
            all == outputs_view(set@),
            0 <= i <= set@.len(),
            errors == count_level(all.take(i as int), Level::Error),
            warnings == count_level(all.take(i as int), Level::Warning),
        decreases set@.len() - i,
    {
        assert(all.take(i + 1).drop_last() =~= all.take(i as int));
        proof {
            lemma_count_level_bound(all.take(i + 1), Level::Error);
            lemma_count_level_bound(all.take(i + 1), Level::Warning);
        }
        if set[i].is_level(&Level::Error) {
            errors = errors + 1;
        }
        if set[i].is_level(&Level::Warning) {
            warnings = warnings + 1;
        }
        i = i + 1;
    }
    assert(all.take(set@.len() as int) =~= all);
    (errors, warnings)
}

/// Folds the parsed lines of a clippy stream into its findings, its report
/// and the log of the lines that were not valid JSON.
pub fn parse(lines: Vec<Result<Output, String>>) -> (r: (Vec<Output>, RunReport, String))
    ensures
        outputs_view(r.0@) == diagnostics(lines_view(lines@)),
        r.1 == report_of(lines_view(lines@)),
        r.1.errors == count_level(diagnostics(lines_view(lines@)), Level::Error),
        r.1.warnings == count_level(diagnostics(lines_view(lines@)), Level::Warning),
        r.2@ == error_log(lines_view(lines@)),
{
    let ghost all = lines_view(lines@);
    let n = lines.len();
    let mut set: Vec<Output> = Vec::new();
    let mut any_success = false;
    let mut any_failure = false;
    let mut log = String::new();
    let mut idx: usize = 0;
    for line in it: lines
        invariant
            it.seq() == lines@,
            all == lines_view(lines@),
            n == lines@.len(),
            idx == it.index(),
            idx <= n,
            strictly_sorted(outputs_view(set@)),
            outputs_view(set@).to_set() == findings(all.take(idx as int)),
            any_success == build_reported(all.take(idx as int), true),
            any_failure == build_reported(all.take(idx as int), false),
            log@ == error_log(all.take(idx as int)),
    {
        proof {
            assert(all.take(idx + 1) =~= all.take(idx as int).push(line_view(line)));
            lemma_line_step(all.take(idx as int), line_view(line));
        }
        match line {
            Ok(output) => {
                match output.build_success() {
                    Some(true) => {
                        any_success = true;
                    },
                    Some(false) => {
                        any_failure = true;
                    },
                    None => {},
                }
                if output.is_level(&Level::Error) || output.is_level(&Level::Warning) {
                    insert_sorted(&mut set, output);
                }
            },
            Err(e) => {
                log.append("rust-rapport: line ");
                push_decimal(&mut log, idx + 1);
                log.append(": invalid JSON: ");
                log.append(e.as_str());
                log.append("\n");
            },
        }
        idx = idx + 1;
    }
    assert(all.take(n as int) =~= all);
    let ghost found = outputs_view(set@);
    proof {
        let d = diagnostics(all);
        assert(strictly_sorted(d) && d.to_set() == findings(all));
        lemma_sorted_unique(found, d);
        lemma_count_level_bound(found, Level::Error);
        lemma_count_level_bound(found, Level::Warning);
    }
    let (errors, warnings) = count_findings(&set);
    (set, RunReport { errors, warnings, any_success, any_failure }, log)
}

} // verus!
