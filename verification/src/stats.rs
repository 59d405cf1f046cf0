//! Aggregate figures over a set of specs, computed afresh on every call.
//!
//! Rates are exact decimal fractions held as integers: the completion rate in
//! tenths of a percent, the average number of tags in hundredths.

use vstd::prelude::*;

use crate::constants::is_active_status;
use crate::order::{
    insertion_point, lemma_stable_sort, lemma_text_order_total, stable_sort, text_before,
};
use crate::reader::{all_tags, has_tag, Spec, SpecView};
use crate::text::{chars_eq, from_chars, str_eq, to_chars};

verus! {

/// How many specs have one status.
#[derive(Clone, Debug)]
pub struct StatusCount {
    pub status: String,
    pub count: usize,
}

/// How many specs have one priority.
#[derive(Clone, Debug)]
pub struct PriorityCount {
    pub priority: String,
    pub count: usize,
}

/// The model of a [`StatusCount`] or a [`PriorityCount`]: a name and how
/// often it occurs.
pub struct CountView {
    pub name: Seq<char>,
    pub count: nat,
}

impl View for StatusCount {
    type V = CountView;

    open spec fn view(&self) -> CountView {
        CountView { name: self.status@, count: self.count as nat }
    }
}

impl DeepView for StatusCount {
    type V = CountView;

    open spec fn deep_view(&self) -> CountView {
        self@
    }
}

impl View for PriorityCount {
    type V = CountView;

    open spec fn view(&self) -> CountView {
        CountView { name: self.priority@, count: self.count as nat }
    }
}

impl DeepView for PriorityCount {
    type V = CountView;

    open spec fn deep_view(&self) -> CountView {
        self@
    }
}

/// The figures of one set of specs.
#[derive(Clone, Debug)]
pub struct StatsResult {
    /// Always one: a set of specs belongs to one project.
    pub total_projects: usize,
    pub total_specs: usize,
    /// Specs by status, the most frequent status first.
    pub specs_by_status: Vec<StatusCount>,
    /// Specs with a priority by priority, the most frequent first.
    pub specs_by_priority: Vec<PriorityCount>,
    /// The share of complete specs, in tenths of a percent.
    pub completion_rate_tenths: u32,
    pub active_specs: usize,
    /// The number of distinct tags.
    pub total_tags: usize,
    /// The average number of tags of a spec, in hundredths.
    pub avg_tags_hundredths: u128,
    pub specs_with_dependencies: usize,
}

/// The model of a [`StatsResult`].
pub struct StatsView {
    pub total_projects: nat,
    pub total_specs: nat,
    pub specs_by_status: Seq<CountView>,
    pub specs_by_priority: Seq<CountView>,
    pub completion_rate_tenths: nat,
    pub active_specs: nat,
    pub total_tags: nat,
    pub avg_tags_hundredths: nat,
    pub specs_with_dependencies: nat,
}

impl View for StatsResult {
    type V = StatsView;

    open spec fn view(&self) -> StatsView {
        StatsView {
            total_projects: self.total_projects as nat,
            total_specs: self.total_specs as nat,
            specs_by_status: self.specs_by_status.deep_view(),
            specs_by_priority: self.specs_by_priority.deep_view(),
            completion_rate_tenths: self.completion_rate_tenths as nat,
            active_specs: self.active_specs as nat,
            total_tags: self.total_tags as nat,
            avg_tags_hundredths: self.avg_tags_hundredths as nat,
            specs_with_dependencies: self.specs_with_dependencies as nat,
        }
    }
}

// ---------------------------------------------------------------------------
// Model
// ---------------------------------------------------------------------------

/// The position of the entry for `name` at or after `i`; the length of `t` if
/// there is none.
pub open spec fn name_position(t: Seq<CountView>, name: Seq<char>, i: int) -> int
    decreases t.len() - i,
{
    if 0 <= i < t.len() && t[i].name != name {
        name_position(t, name, i + 1)
    } else if i < t.len() {
        i
    } else {
        t.len() as int
    }
}

/// `t` with one more occurrence of `name`: its entry counts one more, or a
/// new entry with count one is added at the end.
pub open spec fn counted(t: Seq<CountView>, name: Seq<char>) -> Seq<CountView> {
    let p = name_position(t, name, 0);
    if 0 <= p < t.len() {
        t.update(p, CountView { name, count: t[p].count + 1 })
    } else {
        t.push(CountView { name, count: 1 })
    }
}

/// How often each name occurs in `names`: one entry for each distinct name, in
/// the order in which the names first occur.
pub open spec fn tally(names: Seq<Seq<char>>) -> Seq<CountView>
    decreases names.len(),
{
    if names.len() == 0 {
        Seq::empty()
    } else {
        counted(tally(names.drop_last()), names.last())
    }
}

/// The key that sorts counts in descending order.
pub open spec fn by_count_descending() -> spec_fn(CountView) -> int {
    |c: CountView| -(c.count as int)
}

/// How often each name occurs in `names`, the most frequent name first; names
/// that occur equally often in the order in which they first occur.
pub open spec fn histogram(names: Seq<Seq<char>>) -> Seq<CountView> {
    stable_sort(tally(names), by_count_descending())
}

/// The statuses of the specs, in order.
pub open spec fn statuses(specs: Seq<SpecView>) -> Seq<Seq<char>> {
    Seq::new(specs.len(), |i: int| specs[i].status)
}

/// The priorities of the specs that have one, in order.
pub open spec fn priorities(specs: Seq<SpecView>) -> Seq<Seq<char>>
    decreases specs.len(),
{
    if specs.len() == 0 {
        Seq::empty()
    } else {
        let rest = priorities(specs.drop_last());
        match specs.last().priority {
            Some(p) => rest.push(p),
            None => rest,
        }
    }
}

/// Whether a spec is complete.
pub open spec fn is_complete(spec: SpecView) -> bool {
    spec.status == "complete"@
}

/// Whether a spec is active: draft, planned or in progress.
pub open spec fn is_active(spec: SpecView) -> bool {
    is_active_status(spec.status)
}

/// Whether a spec declares a dependency.
pub open spec fn has_dependencies(spec: SpecView) -> bool {
    spec.depends_on.len() > 0
}

/// The number of complete specs.
pub open spec fn complete_count(specs: Seq<SpecView>) -> nat
    decreases specs.len(),
{
    if specs.len() == 0 {
        0
    } else {
        complete_count(specs.drop_last()) + if is_complete(specs.last()) {
            1nat
        } else {
            0nat
        }
    }
}

/// The number of active specs.
pub open spec fn active_count(specs: Seq<SpecView>) -> nat
    decreases specs.len(),
{
    if specs.len() == 0 {
        0
    } else {
        active_count(specs.drop_last()) + if is_active(specs.last()) {
            1nat
        } else {
            0nat
        }
    }
}

/// The number of specs that declare a dependency.
pub open spec fn dependent_count(specs: Seq<SpecView>) -> nat
    decreases specs.len(),
{
    if specs.len() == 0 {
        0
    } else {
        dependent_count(specs.drop_last()) + if has_dependencies(specs.last()) {
            1nat
        } else {
            0nat
        }
    }
}

/// The number of tags of all specs together, each counted as often as it is
/// given.
pub open spec fn tag_occurrences(specs: Seq<SpecView>) -> nat
    decreases specs.len(),
{
    if specs.len() == 0 {
        0
    } else {
        tag_occurrences(specs.drop_last()) + specs.last().tags.len()
    }
}

/// The distinct tags of the specs.
pub open spec fn tag_set(specs: Seq<SpecView>) -> Set<Seq<char>> {
    Set::new(|t: Seq<char>| has_tag(specs, t))
}

/// `num / den` rounded to the nearest whole number, halves upwards; 0 where
/// `den` is 0.
pub open spec fn rounded_ratio(num: nat, den: nat) -> nat {
    if den == 0 {
        0
    } else {
        ((2 * num + den) / (2 * den)) as nat
    }
}

/// The figures of a set of specs.
pub open spec fn stats_of(specs: Seq<SpecView>) -> StatsView {
    StatsView {
        total_projects: 1,
        total_specs: specs.len(),
        specs_by_status: histogram(statuses(specs)),
        specs_by_priority: histogram(priorities(specs)),
        completion_rate_tenths: rounded_ratio(1000 * complete_count(specs), specs.len()),
        active_specs: active_count(specs),
        total_tags: tag_set(specs).len(),
        avg_tags_hundredths: rounded_ratio(100 * tag_occurrences(specs), specs.len()),
        specs_with_dependencies: dependent_count(specs),
    }
}

// ---------------------------------------------------------------------------
// Counting
// ---------------------------------------------------------------------------

/// A name and how often it was seen.
struct Counter {
    name: Vec<char>,
    count: usize,
}

impl View for Counter {
    type V = CountView;

    closed spec fn view(&self) -> CountView {
        CountView { name: self.name@, count: self.count as nat }
    }
}

/// The models of a list of counters.
spec fn counters(t: Seq<Counter>) -> Seq<CountView> {
    Seq::new(t.len(), |i: int| t[i]@)
}

/// Counts one more occurrence of `name`.
fn count_name(t: &mut Vec<Counter>, name: Vec<char>, seen: usize)
    requires
        seen < usize::MAX,
        forall|k: int| 0 <= k < old(t).len() ==> (#[trigger] old(t)[k]).count <= seen,
    ensures
        counters(final(t)@) == counted(counters(old(t)@), name@),
        forall|k: int| 0 <= k < final(t).len() ==> (#[trigger] final(t)[k]).count <= seen + 1,
{
    let ghost before = counters(t@);
    let mut p: usize = 0;
    while p < t.len() && !chars_eq(&t[p].name, &name)
        invariant
            p <= t.len(),
            t@ == old(t)@,
            before == counters(t@),
            name_position(before, name@, 0) == name_position(before, name@, p as int),
        decreases t.len() - p,
    {
        assert(before[p as int] == t@[p as int]@);
        p += 1;
    }
    if p < t.len() {
        assert(before[p as int] == t@[p as int]@);
        let next = t[p].count + 1;
        t.set(p, Counter { name, count: next });
        assert(counters(t@) =~= counted(before, name@));
    } else {
        t.push(Counter { name, count: 1 });
        assert(counters(t@) =~= counted(before, name@));
    }
}

/// Tests whether the count of `a` is smaller than that of `b`.
fn counts_less(a: &Counter, b: &Counter) -> (r: bool)
    ensures
        r == (by_count_descending()(a@) > by_count_descending()(b@)),
{
    a.count < b.count
}

/// Sorts counters by descending count, counters of equal count staying in
/// their order.
fn sort_counters(t: &mut Vec<Counter>)
    ensures
        counters(final(t)@) == stable_sort(counters(old(t)@), by_count_descending()),
{
    let ghost orig = counters(t@);
    let n = t.len();
    let mut i: usize = 0;
    assert(counters(t@) =~= stable_sort(orig.take(0), by_count_descending()) + orig.skip(0));
    while i < n
        invariant
            i <= n,
            t.len() == n,
            orig.len() == n,
            counters(t@) == stable_sort(orig.take(i as int), by_count_descending()) + orig.skip(
                i as int,
            ),
        decreases n - i,
    {
        let ghost sorted = stable_sort(orig.take(i as int), by_count_descending());
        proof {
            lemma_stable_sort(orig.take(i as int), by_count_descending());
            assert(orig.take(i + 1).drop_last() =~= orig.take(i as int));
            assert(orig.take(i + 1).last() == orig[i as int]);
        }
        let ghost cur = counters(t@);
        assert(cur[i as int] == t@[i as int]@);
        let x = t.remove(i);
        assert(x@ == orig[i as int]) by {
            assert((sorted + orig.skip(i as int))[i as int] == orig.skip(i as int)[0]);
        }
        assert forall|m: int| 0 <= m < i implies (#[trigger] t@[m])@ == sorted[m] by {
            assert(cur[m] == (sorted + orig.skip(i as int))[m]);
        }
        let ghost k = by_count_descending()(x@);
        let mut p: usize = i;
        assert(sorted.take(i as int) =~= sorted);
        while p > 0 && counts_less(&t[p - 1], &x)
            invariant
                p <= i,
                i < n,
                t.len() == n - 1,
                sorted.len() == i,
                k == by_count_descending()(x@),
                forall|m: int| 0 <= m < i ==> (#[trigger] t@[m])@ == sorted[m],
                insertion_point(sorted, by_count_descending(), k) == insertion_point(
                    sorted.take(p as int),
                    by_count_descending(),
                    k,
                ),
            decreases p,
        {
            assert(sorted.take(p as int).drop_last() =~= sorted.take(p - 1));
            assert(sorted.take(p as int).last() == sorted[p - 1]);
            p -= 1;
        }
        proof {
            if p > 0 {
                assert(sorted.take(p as int).last() == sorted[p - 1]);
                assert(t@[p - 1]@ == sorted[p - 1]);
            }
            assert(insertion_point(sorted, by_count_descending(), k) == p);
        }
        let ghost mid = counters(t@);
        assert(mid =~= sorted + orig.skip(i + 1)) by {
            assert forall|m: int| 0 <= m < mid.len() implies mid[m] == (sorted + orig.skip(
                i + 1,
            ))[m] by {
                if m < i {
                    assert(t@[m]@ == sorted[m]);
                } else {
                    assert(mid[m] == cur[m + 1]);
                    assert(cur[m + 1] == (sorted + orig.skip(i as int))[m + 1]);
                }
            }
        }
        t.insert(p, x);
        assert(counters(t@) =~= stable_sort(orig.take(i + 1), by_count_descending()) + orig.skip(
            i + 1,
        )) by {
            assert(counters(t@) =~= mid.insert(p as int, x@));
            assert(mid.insert(p as int, x@) =~= sorted.insert(p as int, x@) + orig.skip(i + 1));
        }
        i += 1;
    }
    assert(orig.take(n as int) =~= orig);
    assert(counters(t@) =~= stable_sort(orig, by_count_descending())) by {
        assert(orig.skip(n as int) =~= Seq::<CountView>::empty());
    }
}

/// `num / den` rounded to the nearest whole number, halves upwards.
fn round_ratio(num: u128, den: u128) -> (r: u128)
    requires
        den > 0,
        2 * num + den <= u128::MAX,
        2 * den <= u128::MAX,
    ensures
        r == rounded_ratio(num as nat, den as nat),
{
    (2 * num + den) / (2 * den)
}

/// One hundred times `total / count`, rounded to the nearest whole number.
fn hundredths(total: u128, count: usize) -> (r: u128)
    requires
        count > 0,
        total <= count * 0xFFFF_FFFF_FFFF_FFFF,
    ensures
        r == rounded_ratio(100 * (total as nat), count as nat),
{
    let n: u128 = count as u128;
    let q: u128 = total / n;
    let rem: u128 = total % n;
    assert(q <= 0xFFFF_FFFF_FFFF_FFFF) by (nonlinear_arith)
        requires
            q == total / n,
            n > 0,
            total <= n * 0xFFFF_FFFF_FFFF_FFFF,
    ;
    let tail: u128 = (200 * rem + n) / (2 * n);
    proof {
        let t = total as int;
        let d = 2 * (n as int);
        assert(t == (n as int) * (q as int) + (rem as int)) by (nonlinear_arith)
            requires
                q == total / n,
                rem == total % n,
                n > 0,
                t == total as int,
        ;
        assert(2 * (100 * t) + n == (200 * rem + n) + (100 * q) * d) by (nonlinear_arith)
            requires
                t == (n as int) * (q as int) + (rem as int),
                d == 2 * (n as int),
        ;
        vstd::arithmetic::div_mod::lemma_hoist_over_denominator(
            200 * (rem as int) + (n as int),
            100 * (q as int),
            d as nat,
        );
    }
    100 * q + tail
}

/// Computes the figures of a set of specs.
///
/// The histograms list each status, and each priority that some spec has,
/// once with the number of its specs, the most frequent first and those of
/// equal count in the order in which they first occur. The completion rate is
/// the share of specs whose status is `complete`, in tenths of a percent,
/// rounded; the average is the number of tags of a spec, in hundredths,
/// rounded. Both are 0 for an empty set.
pub fn calculate_stats(specs: &[Spec]) -> (r: StatsResult)
    ensures
        r@ == stats_of(specs.deep_view()),
{
    let ghost views = specs.deep_view();
    let n = specs.len();
    let mut by_status: Vec<Counter> = Vec::new();
    let mut by_priority: Vec<Counter> = Vec::new();
    let mut complete: usize = 0;
    let mut active: usize = 0;
    let mut dependent: usize = 0;
    let mut tags: u128 = 0;
    let mut i: usize = 0;
    proof {
        assert(views.take(0) =~= Seq::<SpecView>::empty());
        assert(statuses(views.take(0)) =~= Seq::<Seq<char>>::empty());
        assert(counters(by_status@) =~= tally(statuses(views.take(0))));
        assert(counters(by_priority@) =~= tally(priorities(views.take(0))));
    }
    while i < n
        invariant
            i <= n,
            n == specs.len(),
            views == specs.deep_view(),
            counters(by_status@) == tally(statuses(views.take(i as int))),
            counters(by_priority@) == tally(priorities(views.take(i as int))),
            forall|k: int| 0 <= k < by_status.len() ==> (#[trigger] by_status[k]).count <= i,
            forall|k: int| 0 <= k < by_priority.len() ==> (#[trigger] by_priority[k]).count <= i,
            complete == complete_count(views.take(i as int)),
            active == active_count(views.take(i as int)),
            dependent == dependent_count(views.take(i as int)),
            tags == tag_occurrences(views.take(i as int)),
            complete <= i,
            active <= i,
            dependent <= i,
            tags <= i * 0xFFFF_FFFF_FFFF_FFFF,
        decreases n - i,
    {
        let spec = &specs[i];
        proof {
            assert(views[i as int] == specs@[i as int]@);
            let next = views.take(i + 1);
            assert(next.drop_last() =~= views.take(i as int));
            assert(next.last() == spec@);
            assert(statuses(next).drop_last() =~= statuses(views.take(i as int)));
            assert(statuses(next).last() == spec@.status);
            match spec@.priority {
                Some(p) => {
                    assert(priorities(next) == priorities(views.take(i as int)).push(p));
                    assert(priorities(next).drop_last() =~= priorities(views.take(i as int)));
                },
                None => {
                    assert(priorities(next) == priorities(views.take(i as int)));
                },
            }
        }
        count_name(&mut by_status, to_chars(spec.status.as_str()), i);
        match &spec.priority {
            Some(p) => {
                count_name(&mut by_priority, to_chars(p.as_str()), i);
            },
            None => {},
        }
        let status = spec.status.as_str();
        if str_eq(status, "complete") {
            complete += 1;
        }
        if str_eq(status, "draft") || str_eq(status, "planned") || str_eq(status, "in-progress") {
            active += 1;
        }
        if spec.depends_on.len() > 0 {
            dependent += 1;
        }
        assert(spec@.tags.len() == spec.tags.len());
        tags = tags + spec.tags.len() as u128;
        i += 1;
    }
    assert(views.take(n as int) =~= views);
    sort_counters(&mut by_status);
    sort_counters(&mut by_priority);

    let mut specs_by_status: Vec<StatusCount> = Vec::new();
    let mut k: usize = 0;
    while k < by_status.len()
        invariant
            k <= by_status.len(),
            specs_by_status.len() == k,
            forall|m: int| 0 <= m < k ==> (#[trigger] specs_by_status@[m])@ == by_status@[m]@,
        decreases by_status.len() - k,
    {
        let c = &by_status[k];
        specs_by_status.push(StatusCount { status: from_chars(&c.name), count: c.count });
        k += 1;
    }
    assert(specs_by_status.deep_view() =~= counters(by_status@));
    let mut specs_by_priority: Vec<PriorityCount> = Vec::new();
    let mut k: usize = 0;
    while k < by_priority.len()
        invariant
            k <= by_priority.len(),
            specs_by_priority.len() == k,
            forall|m: int| 0 <= m < k ==> (#[trigger] specs_by_priority@[m])@ == by_priority@[m]@,
        decreases by_priority.len() - k,
    {
        let c = &by_priority[k];
        specs_by_priority.push(PriorityCount { priority: from_chars(&c.name), count: c.count });
        k += 1;
    }
    assert(specs_by_priority.deep_view() =~= counters(by_priority@));

    let distinct = all_tags(specs);
    proof {
        let names = distinct.deep_view();
        assert(names.no_duplicates()) by {
            assert forall|a: int, b: int| 0 <= a < names.len() && 0 <= b < names.len() && a
                != b implies names[a] != names[b] by {
                lemma_text_order_total(names[a], names[b]);
                if a < b {
                    assert(text_before(names[a], names[b]));
                } else {
                    assert(text_before(names[b], names[a]));
                }
            }
        }
        names.unique_seq_to_set();
        assert(names.to_set() =~= tag_set(views));
    }
    let (completion_rate_tenths, avg_tags_hundredths) = if n == 0 {
        (0u32, 0u128)
    } else {
        let rate = round_ratio(1000 * (complete as u128), n as u128);
        assert(rate <= 1000) by (nonlinear_arith)
            requires
                rate == (2 * (1000 * (complete as int)) + n) / (2 * n),
                0 <= complete <= n,
                n > 0,
        ;
        (rate as u32, hundredths(tags, n))
    };
    StatsResult {
        total_projects: 1,
        total_specs: n,
        specs_by_status,
        specs_by_priority,
        completion_rate_tenths,
        active_specs: active,
        total_tags: distinct.len(),
        avg_tags_hundredths,
        specs_with_dependencies: dependent,
    }
}

} // verus!
