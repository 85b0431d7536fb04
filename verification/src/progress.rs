//! How far along a task is, from its checklist and estimates.
use vstd::prelude::*;
use vstd::arithmetic::div_mod::{lemma_div_is_ordered, lemma_div_by_multiple, lemma_div_is_ordered_by_denominator};
use crate::model::{ChecklistItem, ProgressMode};

verus! {

/// The sum of `f` over the elements of `s`.
pub open spec fn sum_by<A>(s: Seq<A>, f: spec_fn(A) -> nat) -> nat
    decreases s.len(),
{
    if s.len() == 0 {
        0
    } else {
        sum_by(s.drop_last(), f) + f(s.last())
    }
}

pub proof fn lemma_sum_by_step<A>(s: Seq<A>, f: spec_fn(A) -> nat, i: int)
    requires
        0 <= i < s.len(),
    ensures
        sum_by(s.take(i + 1), f) == sum_by(s.take(i), f) + f(s[i]),
{
    assert(s.take(i + 1).drop_last() =~= s.take(i));
}

pub proof fn lemma_sum_by_prefix<A>(s: Seq<A>, f: spec_fn(A) -> nat, i: int)
    requires
        0 <= i <= s.len(),
    ensures
        sum_by(s.take(i), f) <= sum_by(s, f),
    decreases s.len() - i,
{
    if i < s.len() {
        lemma_sum_by_step(s, f, i);
        lemma_sum_by_prefix(s, f, i + 1);
    } else {
        assert(s.take(i) =~= s);
    }
}

/// Sums compare as their terms do, position by position.
pub proof fn lemma_sum_by_pointwise<A>(s1: Seq<A>, s2: Seq<A>, f1: spec_fn(A) -> nat, f2: spec_fn(A) -> nat)
    requires
        s1.len() == s2.len(),
        forall|i: int| 0 <= i < s1.len() ==> f1(#[trigger] s1[i]) <= f2(s2[i]),
    ensures
        sum_by(s1, f1) <= sum_by(s2, f2),
    decreases s1.len(),
{
    if s1.len() > 0 {
        assert forall|i: int| 0 <= i < s1.drop_last().len() implies f1(
            #[trigger] s1.drop_last()[i],
        ) <= f2(s2.drop_last()[i]) by {
            assert(s1.drop_last()[i] == s1[i]);
            assert(s2.drop_last()[i] == s2[i]);
        }
        lemma_sum_by_pointwise(s1.drop_last(), s2.drop_last(), f1, f2);
        assert(f1(s1[s1.len() - 1]) <= f2(s2[s1.len() - 1]));
    }
}

/// Sums that agree term by term are equal.
pub proof fn lemma_sum_by_same<A>(s1: Seq<A>, s2: Seq<A>, f1: spec_fn(A) -> nat, f2: spec_fn(A) -> nat)
    requires
        s1.len() == s2.len(),
        forall|i: int| 0 <= i < s1.len() ==> f1(#[trigger] s1[i]) == f2(s2[i]),
    ensures
        sum_by(s1, f1) == sum_by(s2, f2),
{
    lemma_sum_by_pointwise(s1, s2, f1, f2);
    lemma_sum_by_pointwise(s2, s1, f2, f1);
}

/// Each term is at least `lo`, so the sum is at least `lo` times the length.
pub proof fn lemma_sum_by_lower<A>(s: Seq<A>, f: spec_fn(A) -> nat)
    requires
        forall|i: int| 0 <= i < s.len() ==> f(#[trigger] s[i]) >= 1,
    ensures
        sum_by(s, f) >= s.len(),
    decreases s.len(),
{
    if s.len() > 0 {
        assert forall|i: int| 0 <= i < s.drop_last().len() implies f(#[trigger] s.drop_last()[i])
            >= 1 by {
            assert(s.drop_last()[i] == s[i]);
        }
        lemma_sum_by_lower(s.drop_last(), f);
        assert(f(s[s.len() - 1]) >= 1);
    }
}

/// 1 for a line that carries an estimate.
pub open spec fn has_estimate_fn() -> spec_fn(ChecklistItem) -> nat {
    |c: ChecklistItem| if c.estimate_min is Some { 1nat } else { 0nat }
}

/// The line's estimate, 0 when it has none.
pub open spec fn estimate_fn() -> spec_fn(ChecklistItem) -> nat {
    |c: ChecklistItem|
        match c.estimate_min {
            Some(m) => m as nat,
            None => 0nat,
        }
}

/// The line's estimate when it is not done yet.
pub open spec fn open_estimate_fn() -> spec_fn(ChecklistItem) -> nat {
    |c: ChecklistItem|
        if c.done {
            0nat
        } else {
            match c.estimate_min {
                Some(m) => m as nat,
                None => 0nat,
            }
        }
}

/// 1 for a line that is done.
pub open spec fn done_fn() -> spec_fn(ChecklistItem) -> nat {
    |c: ChecklistItem| if c.done { 1nat } else { 0nat }
}

/// The weight of a line: its estimate, or `avg` when it has none; never less than 1.
pub open spec fn item_weight(c: ChecklistItem, avg: nat) -> nat {
    let w: nat = match c.estimate_min {
        Some(m) => m as nat,
        None => avg,
    };
    if w < 1 {
        1
    } else {
        w
    }
}

pub open spec fn weight_fn(avg: nat) -> spec_fn(ChecklistItem) -> nat {
    |c: ChecklistItem| item_weight(c, avg)
}

pub open spec fn done_weight_fn(avg: nat) -> spec_fn(ChecklistItem) -> nat {
    |c: ChecklistItem|
        if c.done {
            item_weight(c, avg)
        } else {
            0nat
        }
}

pub open spec fn estimate_count(s: Seq<ChecklistItem>) -> nat {
    sum_by(s, has_estimate_fn())
}

pub open spec fn estimate_total(s: Seq<ChecklistItem>) -> nat {
    sum_by(s, estimate_fn())
}

pub open spec fn done_count(s: Seq<ChecklistItem>) -> nat {
    sum_by(s, done_fn())
}

/// The average estimate (rounded down, at least 1), or 1 when no line has an estimate.
pub open spec fn average_estimate(s: Seq<ChecklistItem>) -> nat {
    if estimate_count(s) == 0 {
        1
    } else {
        let a = estimate_total(s) / estimate_count(s);
        if a < 1 {
            1
        } else {
            a
        }
    }
}

pub open spec fn total_weight(s: Seq<ChecklistItem>) -> nat {
    sum_by(s, weight_fn(average_estimate(s)))
}

pub open spec fn done_weight(s: Seq<ChecklistItem>) -> nat {
    sum_by(s, done_weight_fn(average_estimate(s)))
}

/// The inputs on which the computation fits its machine integers: the estimates add up
/// within `u32`, their number fits `u32`, and a hundred times the total weight fits `u64`.
pub open spec fn progress_fits(s: Seq<ChecklistItem>) -> bool {
    &&& estimate_total(s) <= u32::MAX
    &&& estimate_count(s) <= u32::MAX
    &&& total_weight(s) * 100 <= u64::MAX
}

/// The manual value, capped at 100.
pub open spec fn capped(p: Option<u32>) -> Option<u32> {
    match p {
        Some(v) => Some(if v > 100 { 100u32 } else { v }),
        None => None,
    }
}

/// Whether the manual value is what is shown: when there is no checklist, or when the mode is
/// manual and a value was typed in (manual without a value falls back to the checklist).
pub open spec fn uses_manual(s: Seq<ChecklistItem>, manual: Option<u32>, mode: ProgressMode) -> bool {
    s.len() == 0 || (mode == ProgressMode::Manual && manual is Some)
}

/// The percentage shown for a task: the manual value (capped at 100) when it applies, else the
/// done share of the total weight, rounded down.
pub open spec fn progress_of(s: Seq<ChecklistItem>, manual: Option<u32>, mode: ProgressMode) -> Option<u32> {
    if uses_manual(s, manual, mode) {
        capped(manual)
    } else {
        let t = total_weight(s);
        Some((done_weight(s) * 100 / (if t < 1 { 1 } else { t })) as u32)
    }
}

/// Minutes estimated for the lines not yet done; `None` when no line carries an estimate.
pub open spec fn remaining_of(s: Seq<ChecklistItem>) -> Option<u32> {
    if estimate_count(s) == 0 {
        None
    } else {
        Some(sum_by(s, open_estimate_fn()) as u32)
    }
}

pub proof fn lemma_done_weight_le_total(s: Seq<ChecklistItem>, avg: nat)
    ensures
        sum_by(s, done_weight_fn(avg)) <= sum_by(s, weight_fn(avg)),
{
    assert forall|i: int| 0 <= i < s.len() implies (#[trigger] done_weight_fn(avg)(s[i])) <= weight_fn(
        avg,
    )(s[i]) by {}
    lemma_sum_by_pointwise(s, s, done_weight_fn(avg), weight_fn(avg));
}

pub proof fn lemma_open_le_total(s: Seq<ChecklistItem>)
    ensures
        sum_by(s, open_estimate_fn()) <= estimate_total(s),
{
    assert forall|i: int| 0 <= i < s.len() implies (#[trigger] open_estimate_fn()(s[i]))
        <= estimate_fn()(s[i]) by {}
    lemma_sum_by_pointwise(s, s, open_estimate_fn(), estimate_fn());
}

/// Number of lines that are done.
pub fn count_done(checklist: &Vec<ChecklistItem>) -> (n: usize)
    ensures
        n == done_count(checklist@),
{
    let mut n: usize = 0;
    let mut i: usize = 0;
    while i < checklist.len()
        invariant
            i <= checklist.len(),
            n == sum_by(checklist@.take(i as int), done_fn()),
            n <= i,
        decreases checklist.len() - i,
    {
        proof {
            lemma_sum_by_step(checklist@, done_fn(), i as int);
        }
        if checklist[i].done {
            n += 1;
        }
        i += 1;
    }
    assert(checklist@.take(checklist@.len() as int) =~= checklist@);
    n
}

/// The number of lines with an estimate and the sum of those estimates.
fn estimate_stats(checklist: &Vec<ChecklistItem>) -> (r: (usize, u32))
    requires
        estimate_total(checklist@) <= u32::MAX,
    ensures
        r.0 == estimate_count(checklist@),
        r.1 == estimate_total(checklist@),
{
    let mut n: usize = 0;
    let mut sum: u32 = 0;
    let mut i: usize = 0;
    while i < checklist.len()
        invariant
            i <= checklist.len(),
            estimate_total(checklist@) <= u32::MAX,
            n == sum_by(checklist@.take(i as int), has_estimate_fn()),
            sum == sum_by(checklist@.take(i as int), estimate_fn()),
            n <= i,
        decreases checklist.len() - i,
    {
        proof {
            lemma_sum_by_step(checklist@, has_estimate_fn(), i as int);
            lemma_sum_by_step(checklist@, estimate_fn(), i as int);
            lemma_sum_by_prefix(checklist@, estimate_fn(), i + 1);
        }
        match checklist[i].estimate_min {
            Some(m) => {
                n += 1;
                sum = sum + m;
            },
            None => {},
        }
        i += 1;
    }
    assert(checklist@.take(checklist@.len() as int) =~= checklist@);
    (n, sum)
}

/// Whether the progress of `checklist` can be computed in machine integers: the estimates add
/// up within `u32`, there are no more of them than `u32` counts, and a hundred times the total
/// weight fits `u64`.
pub fn checklist_fits(checklist: &Vec<ChecklistItem>) -> (r: bool)
    ensures
        r == progress_fits(checklist@),
{
    let ghost s = checklist@;
    let mut n: u64 = 0;
    let mut sum: u64 = 0;
    let mut i: usize = 0;
    while i < checklist.len()
        invariant
            i <= checklist.len(),
            s == checklist@,
            n == sum_by(s.take(i as int), has_estimate_fn()),
            sum == sum_by(s.take(i as int), estimate_fn()),
            n <= i,
            sum <= u32::MAX,
        decreases checklist.len() - i,
    {
        proof {
            lemma_sum_by_step(s, has_estimate_fn(), i as int);
            lemma_sum_by_step(s, estimate_fn(), i as int);
        }
        match checklist[i].estimate_min {
            Some(m) => {
                n = n + 1;
                sum = sum + m as u64;
            },
            None => {},
        }
        i += 1;
        if sum > u32::MAX as u64 {
            proof {
                lemma_sum_by_prefix(s, estimate_fn(), i as int);
            }
            return false;
        }
    }
    assert(s.take(s.len() as int) =~= s);
    if n > u32::MAX as u64 {
        return false;
    }
    let avg: u64 = if n == 0 {
        1
    } else {
        let a = sum / n;
        if a < 1 { 1 } else { a }
    };
    assert(avg == average_estimate(s));
    let ghost w = weight_fn(avg as nat);
    let limit: u128 = (u64::MAX / 100) as u128;
    let mut total: u128 = 0;
    let mut j: usize = 0;
    while j < checklist.len()
        invariant
            j <= checklist.len(),
            s == checklist@,
            w == weight_fn(avg as nat),
            avg as nat == average_estimate(s),
            avg <= u32::MAX,
            total == sum_by(s.take(j as int), w),
            total <= limit,
            limit == u64::MAX / 100,
        decreases checklist.len() - j,
    {
        proof {
            lemma_sum_by_step(s, w, j as int);
        }
        let e: u64 = match checklist[j].estimate_min {
            Some(m) => m as u64,
            None => avg,
        };
        let weight: u128 = if e < 1 { 1 } else { e as u128 };
        total = total + weight;
        j += 1;
        if total > limit {
            proof {
                lemma_sum_by_prefix(s, w, j as int);
                let t = sum_by(s, w);
                assert(t * 100 > u64::MAX) by (nonlinear_arith)
                    requires
                        t > limit,
                        limit == u64::MAX / 100,
                ;
            }
            return false;
        }
    }
    assert(s.take(s.len() as int) =~= s);
    true
}

/// The average estimate used for lines without one.
pub fn average_of(checklist: &Vec<ChecklistItem>) -> (avg: u32)
    requires
        estimate_total(checklist@) <= u32::MAX,
        estimate_count(checklist@) <= u32::MAX,
    ensures
        avg == average_estimate(checklist@),
        avg >= 1,
{
    let (n, sum) = estimate_stats(checklist);
    if n == 0 {
        1
    } else {
        let a = sum / (n as u32);
        if a < 1 {
            1
        } else {
            a
        }
    }
}

/// Minutes still estimated for the open lines; `None` when no line has an estimate.
pub fn remaining_minutes(checklist: &Vec<ChecklistItem>) -> (r: Option<u32>)
    requires
        estimate_total(checklist@) <= u32::MAX,
    ensures
        r == remaining_of(checklist@),
{
    let (n, _) = estimate_stats(checklist);
    if n == 0 {
        return None;
    }
    let mut sum: u32 = 0;
    let mut i: usize = 0;
    while i < checklist.len()
        invariant
            i <= checklist.len(),
            estimate_total(checklist@) <= u32::MAX,
            sum == sum_by(checklist@.take(i as int), open_estimate_fn()),
        decreases checklist.len() - i,
    {
        proof {
            lemma_sum_by_step(checklist@, open_estimate_fn(), i as int);
            lemma_sum_by_prefix(checklist@, open_estimate_fn(), i + 1);
            lemma_open_le_total(checklist@);
        }
        if !checklist[i].done {
            match checklist[i].estimate_min {
                Some(m) => {
                    sum = sum + m;
                },
                None => {},
            }
        }
        i += 1;
    }
    assert(checklist@.take(checklist@.len() as int) =~= checklist@);
    Some(sum)
}

/// The percentage shown for a checklist, given the manual value and the mode.
pub fn checklist_progress(checklist: &Vec<ChecklistItem>, manual: Option<u32>, mode: ProgressMode) -> (r: Option<u32>)
    requires
        progress_fits(checklist@),
    ensures
        r == progress_of(checklist@, manual, mode),
{
    let manual_value = match manual {
        Some(v) => Some(if v > 100 { 100u32 } else { v }),
        None => None,
    };
    let use_manual = checklist.len() == 0 || (mode == ProgressMode::Manual && manual_value.is_some());
    if use_manual {
        return manual_value;
    }
    let avg = average_of(checklist);
    let ghost s = checklist@;
    let ghost w = weight_fn(avg as nat);
    let ghost dw = done_weight_fn(avg as nat);
    proof {
        lemma_done_weight_le_total(s, avg as nat);
    }
    let mut total: u64 = 0;
    let mut done: u64 = 0;
    let mut i: usize = 0;
    while i < checklist.len()
        invariant
            i <= checklist.len(),
            s == checklist@,
            w == weight_fn(avg as nat),
            dw == done_weight_fn(avg as nat),
            avg as nat == average_estimate(s),
            total_weight(s) * 100 <= u64::MAX,
            sum_by(s, dw) <= sum_by(s, w),
            total == sum_by(s.take(i as int), w),
            done == sum_by(s.take(i as int), dw),
        decreases checklist.len() - i,
    {
        proof {
            lemma_sum_by_step(s, w, i as int);
            lemma_sum_by_step(s, dw, i as int);
            lemma_sum_by_prefix(s, w, i + 1);
            lemma_sum_by_prefix(s, dw, i + 1);
        }
        let e = match checklist[i].estimate_min {
            Some(m) => m,
            None => avg,
        };
        let weight: u64 = if e < 1 { 1 } else { e as u64 };
        total = total + weight;
        if checklist[i].done {
            done = done + weight;
        }
        i += 1;
    }
    assert(s.take(s.len() as int) =~= s);
    let denom: u64 = if total < 1 { 1 } else { total };
    proof {
        lemma_progress_bounded(done as nat, total as nat);
    }
    Some((done * 100 / denom) as u32)
}

/// A done share of a total weight, in percent, is at most 100.
pub proof fn lemma_progress_bounded(done: nat, total: nat)
    requires
        done <= total,
    ensures
        done * 100 / (if total < 1 { 1nat } else { total }) <= 100,
{
    let d: nat = if total < 1 { 1nat } else { total };
    if total < 1 {
        assert(done == 0);
    } else {
        assert(done * 100 <= d * 100) by (nonlinear_arith)
            requires
                done <= d,
        ;
        lemma_div_is_ordered((done * 100) as int, (d * 100) as int, d as int);
        lemma_div_by_multiple(100, d as int);
        assert((d * 100) as int / (d as int) == 100) by {
            assert(d * 100 == 100 * d) by (nonlinear_arith);
        }
    }
}

/// Every weight is at least 1, so a non-empty checklist has a total weight of at least 1.
pub proof fn lemma_total_weight_positive(s: Seq<ChecklistItem>)
    ensures
        total_weight(s) >= s.len(),
{
    let w = weight_fn(average_estimate(s));
    assert forall|i: int| 0 <= i < s.len() implies #[trigger] w(s[i]) >= 1 by {}
    lemma_sum_by_lower(s, w);
}

/// The progress shown is never more than 100 percent.
pub proof fn lemma_progress_at_most_100(s: Seq<ChecklistItem>, manual: Option<u32>, mode: ProgressMode)
    ensures
        progress_of(s, manual, mode) matches Some(p) ==> p <= 100,
{
    if !uses_manual(s, manual, mode) {
        lemma_done_weight_le_total(s, average_estimate(s));
        lemma_progress_bounded(done_weight(s), total_weight(s));
    }
}

/// Progress is missing only when there is neither a checklist nor a manual value.
pub proof fn lemma_progress_missing(s: Seq<ChecklistItem>, manual: Option<u32>, mode: ProgressMode)
    ensures
        progress_of(s, manual, mode) is None <==> (s.len() == 0 && manual is None),
{
}

/// A checklist whose lines are all done shows 100 percent (unless a manual value overrides it).
pub proof fn lemma_all_done_is_complete(s: Seq<ChecklistItem>, manual: Option<u32>, mode: ProgressMode)
    requires
        s.len() > 0,
        !(mode == ProgressMode::Manual && manual is Some),
        forall|i: int| 0 <= i < s.len() ==> (#[trigger] s[i]).done,
    ensures
        progress_of(s, manual, mode) == Some(100u32),
{
    let avg = average_estimate(s);
    assert forall|i: int| 0 <= i < s.len() implies (#[trigger] done_weight_fn(avg)(s[i]))
        == weight_fn(avg)(s[i]) by {}
    lemma_sum_by_same(s, s, done_weight_fn(avg), weight_fn(avg));
    lemma_total_weight_positive(s);
    let t = total_weight(s);
    lemma_div_by_multiple(100, t as int);
    assert(t * 100 == 100 * t) by (nonlinear_arith);
}

/// A checklist with no line done shows 0 percent (unless a manual value overrides it).
pub proof fn lemma_nothing_done_is_zero(s: Seq<ChecklistItem>, manual: Option<u32>, mode: ProgressMode)
    requires
        s.len() > 0,
        !(mode == ProgressMode::Manual && manual is Some),
        forall|i: int| 0 <= i < s.len() ==> !(#[trigger] s[i]).done,
    ensures
        progress_of(s, manual, mode) == Some(0u32),
{
    let avg = average_estimate(s);
    assert forall|i: int| 0 <= i < s.len() implies (#[trigger] done_weight_fn(avg)(s[i]))
        == (|c: ChecklistItem| 0nat)(s[i]) by {}
    lemma_sum_by_same(s, s, done_weight_fn(avg), |c: ChecklistItem| 0nat);
    lemma_sum_by_zero(s);
    lemma_total_weight_positive(s);
}

proof fn lemma_sum_by_zero(s: Seq<ChecklistItem>)
    ensures
        sum_by(s, |c: ChecklistItem| 0nat) == 0,
    decreases s.len(),
{
    if s.len() > 0 {
        lemma_sum_by_zero(s.drop_last());
    }
}

/// Checking lines off never lowers the progress: two checklists with the same lines and
/// estimates, where every line done in the first is done in the second, show at least as much
/// progress for the second.
pub proof fn lemma_checking_off_never_lowers_progress(
    s1: Seq<ChecklistItem>,
    s2: Seq<ChecklistItem>,
    manual: Option<u32>,
    mode: ProgressMode,
)
    requires
        s1.len() == s2.len(),
        forall|i: int| 0 <= i < s1.len() ==> (#[trigger] s1[i]).estimate_min == s2[i].estimate_min,
        forall|i: int| 0 <= i < s1.len() ==> (#[trigger] s1[i]).done ==> s2[i].done,
    ensures
        progress_of(s1, manual, mode) matches Some(p1) ==> progress_of(s2, manual, mode) matches Some(
            p2,
        ) && p1 <= p2,
{
    if !uses_manual(s1, manual, mode) {
        assert forall|i: int| 0 <= i < s1.len() implies (#[trigger] has_estimate_fn()(s1[i]))
            == has_estimate_fn()(s2[i]) by {}
        lemma_sum_by_same(s1, s2, has_estimate_fn(), has_estimate_fn());
        assert forall|i: int| 0 <= i < s1.len() implies (#[trigger] estimate_fn()(s1[i]))
            == estimate_fn()(s2[i]) by {}
        lemma_sum_by_same(s1, s2, estimate_fn(), estimate_fn());
        let avg = average_estimate(s1);
        assert(avg == average_estimate(s2));
        assert forall|i: int| 0 <= i < s1.len() implies (#[trigger] weight_fn(avg)(s1[i]))
            == weight_fn(avg)(s2[i]) by {}
        lemma_sum_by_same(s1, s2, weight_fn(avg), weight_fn(avg));
        assert forall|i: int| 0 <= i < s1.len() implies (#[trigger] done_weight_fn(avg)(s1[i]))
            <= done_weight_fn(avg)(s2[i]) by {}
        lemma_sum_by_pointwise(s1, s2, done_weight_fn(avg), done_weight_fn(avg));
        let t = total_weight(s1);
        let d: nat = if t < 1 { 1nat } else { t };
        assert(done_weight(s1) * 100 <= done_weight(s2) * 100) by (nonlinear_arith)
            requires
                done_weight(s1) <= done_weight(s2),
        ;
        lemma_div_is_ordered((done_weight(s1) * 100) as int, (done_weight(s2) * 100) as int, d as int);
        lemma_done_weight_le_total(s1, avg);
        lemma_done_weight_le_total(s2, avg);
        lemma_progress_bounded(done_weight(s1), t);
        lemma_progress_bounded(done_weight(s2), t);
        assert(total_weight(s2) == t);
    }
}

/// What is left to do never exceeds the estimates put together, and is nothing once every
/// line is done.
pub proof fn lemma_remaining_bounded(s: Seq<ChecklistItem>)
    requires
        estimate_total(s) <= u32::MAX,
    ensures
        remaining_of(s) matches Some(r) ==> r <= estimate_total(s),
        (forall|i: int| 0 <= i < s.len() ==> (#[trigger] s[i]).done) && estimate_count(s) > 0
            ==> remaining_of(s) == Some(0u32),
{
    lemma_open_le_total(s);
    if forall|i: int| 0 <= i < s.len() ==> (#[trigger] s[i]).done {
        assert forall|i: int| 0 <= i < s.len() implies (#[trigger] open_estimate_fn()(s[i]))
            == (|c: ChecklistItem| 0nat)(s[i]) by {}
        lemma_sum_by_same(s, s, open_estimate_fn(), |c: ChecklistItem| 0nat);
        lemma_sum_by_zero(s);
    }
}

} // verus!
