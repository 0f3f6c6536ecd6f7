use crate::date::Date;
use crate::model::category_lookup::{spec_find, CategoryLookup};
use crate::model::{Activity, Category};
use vstd::prelude::*;
use vstd::string::*;

verus! {

// ---------------------------------------------------------------------------
// Weighting
// ---------------------------------------------------------------------------

/// One weighted term: the repetitions scaled by the weight, truncated to a
/// whole number, saturated at the largest count.
pub open spec fn spec_weighted_term(reps: u32, scaled: u64) -> u32 {
    let v = (reps * scaled) / 10000;
    if v > u32::MAX {
        u32::MAX
    } else {
        v as u32
    }
}

/// The weight a raw category string resolves to: the registered category's
/// weight, or one for a category unknown to the registry (so that retired
/// categories still count at face value).
pub open spec fn spec_weight_of(cats: Seq<Category>, cat: Seq<char>) -> u64 {
    match spec_find(cats, cat) {
        Some(c) => c.weight.scaled,
        None => 10000,
    }
}

/// The weighted total of a sequence of activities: each term truncated
/// before summation.
pub open spec fn spec_weighted_total(acts: Seq<Activity>, cats: Seq<Category>) -> int
    decreases acts.len(),
{
    if acts.len() == 0 {
        0
    } else {
        spec_weighted_total(acts.drop_last(), cats) + spec_weighted_term(
            acts.last().reps,
            spec_weight_of(cats, acts.last().category@),
        )
    }
}

pub proof fn lemma_weighted_total_prefix(acts: Seq<Activity>, cats: Seq<Category>, i: int)
    requires
        0 <= i <= acts.len(),
    ensures
        0 <= spec_weighted_total(acts.take(i), cats) <= spec_weighted_total(acts, cats),
    decreases acts.len() - i,
{
    if i == 0 {
        assert(acts.take(0) =~= Seq::<Activity>::empty());
        lemma_weighted_total_nonneg(acts, cats);
    }
    if i < acts.len() {
        assert(acts.take(i + 1).drop_last() =~= acts.take(i));
        assert(acts.take(i + 1).last() == acts[i]);
        lemma_weighted_total_prefix(acts, cats, i + 1);
        lemma_weighted_total_nonneg(acts.take(i), cats);
    } else {
        assert(acts.take(i) =~= acts);
        lemma_weighted_total_nonneg(acts, cats);
    }
}

proof fn lemma_weighted_total_nonneg(acts: Seq<Activity>, cats: Seq<Category>)
    ensures
        spec_weighted_total(acts, cats) >= 0,
    decreases acts.len(),
{
    if acts.len() > 0 {
        lemma_weighted_total_nonneg(acts.drop_last(), cats);
    }
}

/// The scaled weight the registry gives a raw category string.
pub fn weight_of(categories: &CategoryLookup, cat: &str) -> (r: u64)
    ensures
        r == spec_weight_of(categories@, cat@),
{
    match categories.find(cat) {
        Some(c) => c.weight.scaled,
        None => 10000,
    }
}

/// One weighted term, computed exactly as specified.
pub fn weighted_term(reps: u32, scaled: u64) -> (r: u32)
    ensures
        r == spec_weighted_term(reps, scaled),
{
    proof {
        assert((reps as int) * (scaled as int) <= (u32::MAX as int) * (u64::MAX as int))
            by (nonlinear_arith)
            requires
                0 <= reps as int <= u32::MAX as int,
                0 <= scaled as int <= u64::MAX as int,
        ;
    }
    let p: u128 = (reps as u128) * (scaled as u128) / 10000;
    if p > u32::MAX as u128 {
        u32::MAX
    } else {
        p as u32
    }
}

/// The weighted total when it fits in a count, and nothing when it would
/// overflow.
pub fn try_weighted_total(activities: &Vec<Activity>, categories: &CategoryLookup) -> (r: Option<
    u32,
>)
    ensures
        r == (if spec_weighted_total(activities@, categories@) <= u32::MAX {
            Some(spec_weighted_total(activities@, categories@) as u32)
        } else {
            None::<u32>
        }),
{
    let mut total: u64 = 0;
    let mut i: usize = 0;
    proof {
        assert(activities@.take(0) =~= Seq::<Activity>::empty());
    }
    while i < activities.len()
        invariant
            0 <= i <= activities@.len(),
            total == spec_weighted_total(activities@.take(i as int), categories@),
            total <= u32::MAX,
        decreases activities@.len() - i,
    {
        proof {
            assert(activities@.take(i + 1).drop_last() =~= activities@.take(i as int));
            assert(activities@.take(i + 1).last() == activities@[i as int]);
        }
        let a = &activities[i];
        let term = weighted_term(a.reps, weight_of(categories, a.category.as_str()));
        total = total + term as u64;
        i = i + 1;
        if total > u32::MAX as u64 {
            proof {
                lemma_weighted_total_prefix(activities@, categories@, i as int);
            }
            return None;
        }
    }
    proof {
        assert(activities@.take(activities@.len() as int) =~= activities@);
    }
    Some(total as u32)
}

/// Calculate the weighted total repetitions over the given activities: the
/// sum over all activities of `reps` scaled by the resolved category's
/// weight (weight one where the category is unknown), each term truncated
/// to a whole number before summing.
pub fn weighted_total(activities: &Vec<Activity>, categories: &CategoryLookup) -> (r: u32)
    requires
        spec_weighted_total(activities@, categories@) <= u32::MAX,
    ensures
        r == spec_weighted_total(activities@, categories@),
{
    proof {
        lemma_weighted_total_prefix(activities@, categories@, 0);
    }
    match try_weighted_total(activities, categories) {
        Some(t) => t,
        None => {
            proof {
                assert(false);
            }
            0
        },
    }
}

// ---------------------------------------------------------------------------
// Per-day accumulators
// ---------------------------------------------------------------------------

/// The count a key maps to in an association list.
pub open spec fn spec_assoc_get(s: Seq<(Seq<char>, u32)>, key: Seq<char>) -> Option<u32>
    decreases s.len(),
{
    if s.len() == 0 {
        None
    } else if s[0].0 == key {
        Some(s[0].1)
    } else {
        spec_assoc_get(s.drop_first(), key)
    }
}

/// Each key appears at most once.
pub open spec fn spec_assoc_wf(s: Seq<(Seq<char>, u32)>) -> bool {
    forall|i: int, j: int| 0 <= i < j < s.len() ==> (#[trigger] s[i]).0 != (#[trigger] s[j]).0
}

/// The association list with `reps` added to the key's count, the key being
/// appended with that count when it is new.
pub open spec fn spec_assoc_bump(s: Seq<(Seq<char>, u32)>, key: Seq<char>, reps: u32) -> Seq<
    (Seq<char>, u32),
>
    decreases s.len(),
{
    if s.len() == 0 {
        seq![(key, reps)]
    } else if s[0].0 == key {
        seq![(s[0].0, (s[0].1 + reps) as u32)] + s.drop_first()
    } else {
        seq![s[0]] + spec_assoc_bump(s.drop_first(), key, reps)
    }
}

/// Add `reps` to the count of `key`, keeping keys unique and in
/// first-occurrence order.
fn assoc_bump(s: &mut Vec<(String, u32)>, key: &str, reps: u32)
    requires
        spec_assoc_wf(old(s).deep_view()),
        (spec_assoc_get(old(s).deep_view(), key@) matches Some(v) ==> v + reps <= u32::MAX),
    ensures
        final(s).deep_view() == spec_assoc_bump(old(s).deep_view(), key@, reps),
        spec_assoc_wf(final(s).deep_view()),
{
    let ghost d0 = old(s).deep_view();
    proof {
        assert(d0.skip(0) =~= d0);
        assert(d0.take(0) =~= Seq::<(Seq<char>, u32)>::empty());
        lemma_bump_prefix_frame(d0, key@, reps);
    }
    let mut i: usize = 0;
    while i < s.len()
        invariant
            0 <= i <= s@.len(),
            d0 == old(s).deep_view(),
            s.deep_view() == d0,
            spec_assoc_wf(d0),
            (spec_assoc_get(d0, key@) matches Some(v) ==> v + reps <= u32::MAX),
            forall|l: int| 0 <= l < i ==> (#[trigger] d0[l]).0 != key@,
            spec_assoc_bump(d0, key@, reps) == d0.take(i as int) + spec_assoc_bump(
                d0.skip(i as int),
                key@,
                reps,
            ),
            spec_assoc_get(d0, key@) == spec_assoc_get(d0.skip(i as int), key@),
        decreases s@.len() - i,
    {
        proof {
            assert(s.deep_view()[i as int] == (s@[i as int].0@, s@[i as int].1));
            assert(d0.skip(i as int)[0] == d0[i as int]);
            assert(d0.skip(i as int).drop_first() =~= d0.skip(i + 1));
        }
        if crate::text::str_eq(s[i].0.as_str(), key) {
            let v: u32 = s[i].1;
            let k: String = s[i].0.clone();
            let ghost pre = s@;
            s.remove(i);
            s.insert(i, (k, v + reps));
            proof {
                assert(s@ =~= pre.take(i as int) + seq![(k, (v + reps) as u32)] + pre.skip(i + 1));
                let target = d0.take(i as int) + (seq![
                    (d0[i as int].0, (d0[i as int].1 + reps) as u32)
                ] + d0.skip(i + 1));
                assert(spec_assoc_bump(d0.skip(i as int), key@, reps) =~= seq![
                    (d0[i as int].0, (d0[i as int].1 + reps) as u32)
                ] + d0.skip(i + 1));
                assert(s.deep_view().len() == target.len());
                assert forall|l: int| 0 <= l < target.len() implies s.deep_view()[l]
                    == target[l] by {
                    assert(s.deep_view()[l] == (s@[l].0@, s@[l].1));
                    if l < i {
                        assert(s@[l] == pre[l]);
                        assert(d0[l] == (pre[l].0@, pre[l].1));
                        assert(target[l] == d0[l]);
                    } else if l == i {
                        assert(s@[l] == (k, (v + reps) as u32));
                        assert(k@ == d0[i as int].0);
                        assert(target[l] == (d0[i as int].0, (d0[i as int].1 + reps) as u32));
                    } else {
                        assert(s@[l] == pre[l]);
                        assert(d0[l] == (pre[l].0@, pre[l].1));
                        assert(target[l] == d0[l]);
                    }
                }
                assert(s.deep_view() =~= target);
                assert(s.deep_view() =~= spec_assoc_bump(d0, key@, reps));
                lemma_bump_wf(d0, key@, reps);
            }
            return ;
        }
        proof {
            assert(d0.take(i as int) + (seq![d0[i as int]] + spec_assoc_bump(
                d0.skip(i + 1),
                key@,
                reps,
            )) =~= d0.take(i + 1) + spec_assoc_bump(d0.skip(i + 1), key@, reps));
        }
        i = i + 1;
    }
    s.push((key.to_owned(), reps));
    proof {
        assert(d0.skip(i as int) =~= Seq::<(Seq<char>, u32)>::empty());
        assert(spec_assoc_bump(d0.skip(i as int), key@, reps) =~= seq![(key@, reps)]);
        assert(s.deep_view() =~~= d0.take(i as int) + seq![(key@, reps)]);
        assert(d0.take(i as int) =~= d0);
        lemma_bump_wf(d0, key@, reps);
    }
}

/// Bumping a key changes that key's count alone.
proof fn lemma_bump_get(s: Seq<(Seq<char>, u32)>, key: Seq<char>, reps: u32, q: Seq<char>)
    ensures
        spec_assoc_get(spec_assoc_bump(s, key, reps), q) == (if q == key {
            match spec_assoc_get(s, key) {
                Some(v) => Some(((v + reps) as u32)),
                None => Some(reps),
            }
        } else {
            spec_assoc_get(s, q)
        }),
    decreases s.len(),
{
    if s.len() == 0 {
        let b = spec_assoc_bump(s, key, reps);
        assert(b =~= seq![(key, reps)]);
        assert(b[0] == (key, reps));
        assert(b[0].0 == key && b[0].1 == reps);
        assert(b.drop_first() =~= Seq::<(Seq<char>, u32)>::empty());
        if q == key {
            assert(spec_assoc_get(b, q) == Some(reps));
        } else {
            assert(spec_assoc_get(b, q) == spec_assoc_get(b.drop_first(), q));
            assert(spec_assoc_get(b, q) is None);
            assert(spec_assoc_get(s, q) is None);
        }
    } else if s[0].0 == key {
        let b = spec_assoc_bump(s, key, reps);
        assert(b =~= seq![(s[0].0, (s[0].1 + reps) as u32)] + s.drop_first());
        assert(b[0] == (s[0].0, (s[0].1 + reps) as u32));
        assert(b[0].0 == key && b[0].1 == (s[0].1 + reps) as u32);
        assert(b.drop_first() =~= s.drop_first());
        assert(spec_assoc_get(s, key) == Some(s[0].1));
        if q == key {
            assert(spec_assoc_get(b, q) == Some((s[0].1 + reps) as u32));
        } else {
            assert(spec_assoc_get(b, q) == spec_assoc_get(s.drop_first(), q));
            assert(spec_assoc_get(s, q) == spec_assoc_get(s.drop_first(), q));
        }
    } else {
        lemma_bump_get(s.drop_first(), key, reps, q);
        let b = spec_assoc_bump(s, key, reps);
        assert(b =~= seq![s[0]] + spec_assoc_bump(s.drop_first(), key, reps));
        assert(b[0] == s[0]);
        assert(b.len() >= 1) by {
            lemma_bump_len(s.drop_first(), key, reps);
        }
        assert(b.drop_first() =~= spec_assoc_bump(s.drop_first(), key, reps));
        assert(spec_assoc_get(b, q) == (if q == b[0].0 {
            Some(b[0].1)
        } else {
            spec_assoc_get(spec_assoc_bump(s.drop_first(), key, reps), q)
        }));
        assert(spec_assoc_get(s, q) == (if q == s[0].0 {
            Some(s[0].1)
        } else {
            spec_assoc_get(s.drop_first(), q)
        }));
    }
}

/// Bumping never empties the list.
proof fn lemma_bump_len(s: Seq<(Seq<char>, u32)>, key: Seq<char>, reps: u32)
    ensures
        spec_assoc_bump(s, key, reps).len() >= 1,
    decreases s.len(),
{
    if s.len() > 0 && s[0].0 != key {
        lemma_bump_len(s.drop_first(), key, reps);
    }
}

/// Bumping keeps keys unique.
proof fn lemma_bump_wf(s: Seq<(Seq<char>, u32)>, key: Seq<char>, reps: u32)
    requires
        spec_assoc_wf(s),
    ensures
        spec_assoc_wf(spec_assoc_bump(s, key, reps)),
        spec_assoc_bump(s, key, reps).len() == (if spec_assoc_get(s, key) is Some {
            s.len()
        } else {
            s.len() + 1
        }),
        forall|k: int|
            0 <= k < s.len() ==> (#[trigger] spec_assoc_bump(s, key, reps)[k]).0 == s[k].0,
        spec_assoc_get(s, key) is None ==> spec_assoc_bump(s, key, reps)[s.len() as int] == (
        key,
        reps,
        ),
    decreases s.len(),
{
    if s.len() == 0 {
    } else if s[0].0 == key {
        let b = spec_assoc_bump(s, key, reps);
        assert(b.drop_first() =~= s.drop_first());
        assert forall|i: int, j: int| 0 <= i < j < b.len() implies (#[trigger] b[i]).0 != (
        #[trigger] b[j]).0 by {
            assert(b[i].0 == s[i].0);
            assert(b[j].0 == s[j].0);
        }
    } else {
        assert(spec_assoc_wf(s.drop_first())) by {
            assert forall|i: int, j: int|
                0 <= i < j < s.drop_first().len() implies (#[trigger] s.drop_first()[i]).0 != (
            #[trigger] s.drop_first()[j]).0 by {
                assert(s.drop_first()[i] == s[i + 1]);
                assert(s.drop_first()[j] == s[j + 1]);
            }
        }
        lemma_bump_wf(s.drop_first(), key, reps);
        let b = spec_assoc_bump(s, key, reps);
        let br = spec_assoc_bump(s.drop_first(), key, reps);
        assert(b[0] == s[0]);
        assert(b.drop_first() =~= br);
        lemma_bump_get(s.drop_first(), key, reps, s[0].0);
        assert forall|i: int, j: int| 0 <= i < j < b.len() implies (#[trigger] b[i]).0 != (
        #[trigger] b[j]).0 by {
            if i > 0 {
                assert(b[i] == br[i - 1]);
                assert(b[j] == br[j - 1]);
            } else {
                assert(b[j] == br[j - 1]);
                if j - 1 < s.drop_first().len() {
                    assert(br[j - 1].0 == s.drop_first()[j - 1].0);
                    assert(s.drop_first()[j - 1] == s[j]);
                } else {
                    // the appended entry carries the new key, which s[0]
                    // does not have
                    assert(spec_assoc_get(s, key) is None ==> br[j - 1] == (key, reps));
                    if spec_assoc_get(s.drop_first(), key) is Some {
                        assert(br.len() == s.drop_first().len());
                        assert(false);
                    }
                }
            }
        }
    }
}

/// The trivial decomposition the accumulator loop starts from.
proof fn lemma_bump_prefix_frame(s: Seq<(Seq<char>, u32)>, key: Seq<char>, reps: u32)
    ensures
        spec_assoc_bump(s, key, reps) == s.take(0) + spec_assoc_bump(s.skip(0), key, reps),
{
    assert(s.skip(0) =~= s);
    assert(s.take(0) + spec_assoc_bump(s, key, reps) =~= spec_assoc_bump(s, key, reps));
}

/// The count a key maps to in an accumulator vector.
pub fn assoc_get(v: &Vec<(String, u32)>, key: &str) -> (r: Option<u32>)
    ensures
        r == spec_assoc_get(v.deep_view(), key@),
{
    let ghost d0 = v.deep_view();
    proof {
        assert(d0.skip(0) =~= d0);
    }
    let mut i: usize = 0;
    while i < v.len()
        invariant
            0 <= i <= d0.len(),
            d0 == v.deep_view(),
            spec_assoc_get(d0, key@) == spec_assoc_get(d0.skip(i as int), key@),
        decreases d0.len() - i,
    {
        proof {
            assert(v.deep_view()[i as int] == (v@[i as int].0@, v@[i as int].1));
            assert(d0.skip(i as int)[0] == d0[i as int]);
            assert(d0.skip(i as int).drop_first() =~= d0.skip(i + 1));
        }
        if crate::text::str_eq(v[i].0.as_str(), key) {
            return Some(v[i].1);
        }
        i = i + 1;
    }
    proof {
        assert(d0.skip(i as int) =~= Seq::<(Seq<char>, u32)>::empty());
    }
    None
}

// ---------------------------------------------------------------------------
// DayStats
// ---------------------------------------------------------------------------

/// The aggregated statistics for one calendar day: for each raw category
/// string that occurs that day, the accumulated repetitions.
#[derive(Debug)]
pub struct DayStats {
    pub day: Date,
    pub reps_by_category: Vec<(String, u32)>,
}

impl View for DayStats {
    type V = Seq<(Seq<char>, u32)>;

    open spec fn view(&self) -> Seq<(Seq<char>, u32)> {
        self.reps_by_category.deep_view()
    }
}

impl DayStats {
    pub open spec fn wf(self) -> bool {
        spec_assoc_wf(self@)
    }

    pub fn new(day: &Date) -> (r: DayStats)
        ensures
            r.day == *day,
            r@ == Seq::<(Seq<char>, u32)>::empty(),
            r.wf(),
    {
        let r = DayStats { day: *day, reps_by_category: Vec::new() };
        proof {
            assert(r@ =~= Seq::<(Seq<char>, u32)>::empty());
        }
        r
    }

    /// How many distinct raw category strings the day has.
    pub fn len(&self) -> (r: usize)
        ensures
            r == self@.len(),
    {
        self.reps_by_category.len()
    }

    /// The accumulated repetitions of a raw category string that day.
    pub fn get(&self, category: &str) -> (r: Option<u32>)
        ensures
            r == spec_assoc_get(self@, category@),
    {
        assoc_get(&self.reps_by_category, category)
    }

    /// The day's entries: each raw category string with its accumulated
    /// count, in first-occurrence order.
    pub fn entries(&self) -> (r: &Vec<(String, u32)>)
        ensures
            r.deep_view() == self@,
    {
        &self.reps_by_category
    }

    /// Add the given activity's repetitions to its raw category's
    /// accumulator, starting one where the category is new for the day.
    pub fn add(&mut self, activity: &Activity)
        requires
            old(self).wf(),
            (spec_assoc_get(old(self)@, activity.category@) matches Some(v) ==> v + activity.reps
                <= u32::MAX),
        ensures
            final(self).wf(),
            final(self).day == old(self).day,
            final(self)@ == spec_assoc_bump(old(self)@, activity.category@, activity.reps),
    {
        assoc_bump(&mut self.reps_by_category, activity.category.as_str(), activity.reps);
    }

    /// The weighted total of the day's accumulators: the same
    /// truncate-then-sum policy as `weighted_total`.
    pub fn reps_total(&self, categories: &CategoryLookup) -> (r: u32)
        requires
            spec_day_total(self@, categories@) <= u32::MAX,
        ensures
            r == spec_day_total(self@, categories@),
    {
        proof {
            lemma_day_total_prefix(self@, categories@, 0);
        }
        match self.try_reps_total(categories) {
            Some(t) => t,
            None => {
                proof {
                    assert(false);
                }
                0
            },
        }
    }

    /// The day's weighted total when it fits in a count, and nothing when it
    /// would overflow.
    pub fn try_reps_total(&self, categories: &CategoryLookup) -> (r: Option<u32>)
        ensures
            r == (if spec_day_total(self@, categories@) <= u32::MAX {
                Some(spec_day_total(self@, categories@) as u32)
            } else {
                None::<u32>
            }),
    {
        let ghost d0 = self@;
        let mut total: u64 = 0;
        let mut i: usize = 0;
        proof {
            assert(d0.take(0) =~= Seq::<(Seq<char>, u32)>::empty());
        }
        while i < self.reps_by_category.len()
            invariant
                0 <= i <= d0.len(),
                d0 == self@,
                total == spec_day_total(d0.take(i as int), categories@),
                total <= u32::MAX,
            decreases d0.len() - i,
        {
            proof {
                assert(self.reps_by_category.deep_view()[i as int] == (
                    self.reps_by_category@[i as int].0@,
                    self.reps_by_category@[i as int].1,
                ));
                assert(d0.take(i + 1).drop_last() =~= d0.take(i as int));
                assert(d0.take(i + 1).last() == d0[i as int]);
            }
            let entry = &self.reps_by_category[i];
            let term = weighted_term(entry.1, weight_of(categories, entry.0.as_str()));
            total = total + term as u64;
            i = i + 1;
            if total > u32::MAX as u64 {
                proof {
                    lemma_day_total_prefix(d0, categories@, i as int);
                }
                return None;
            }
        }
        proof {
            assert(d0.take(d0.len() as int) =~= d0);
        }
        Some(total as u32)
    }
}

/// The weighted total of a day's accumulators.
pub open spec fn spec_day_total(s: Seq<(Seq<char>, u32)>, cats: Seq<Category>) -> int
    decreases s.len(),
{
    if s.len() == 0 {
        0
    } else {
        spec_day_total(s.drop_last(), cats) + spec_weighted_term(
            s.last().1,
            spec_weight_of(cats, s.last().0),
        )
    }
}

pub proof fn lemma_day_total_prefix(s: Seq<(Seq<char>, u32)>, cats: Seq<Category>, i: int)
    requires
        0 <= i <= s.len(),
    ensures
        0 <= spec_day_total(s.take(i), cats) <= spec_day_total(s, cats),
    decreases s.len() - i,
{
    if i == 0 {
        assert(s.take(0) =~= Seq::<(Seq<char>, u32)>::empty());
    }
    lemma_day_total_nonneg(s.take(i), cats);
    if i < s.len() {
        assert(s.take(i + 1).drop_last() =~= s.take(i));
        assert(s.take(i + 1).last() == s[i]);
        lemma_day_total_prefix(s, cats, i + 1);
    } else {
        assert(s.take(i) =~= s);
    }
}

proof fn lemma_day_total_nonneg(s: Seq<(Seq<char>, u32)>, cats: Seq<Category>)
    ensures
        spec_day_total(s, cats) >= 0,
    decreases s.len(),
{
    if s.len() > 0 {
        lemma_day_total_nonneg(s.drop_last(), cats);
    }
}

// ---------------------------------------------------------------------------
// Accumulation of activities into per-category counts
// ---------------------------------------------------------------------------

/// Whether an activity belongs to the aggregation: either all activities, or
/// only those of one calendar day.
pub open spec fn spec_matches_day(a: Activity, day: Option<Date>) -> bool {
    match day {
        Some(d) => a.timestamp.date == d,
        None => true,
    }
}

/// The per-category accumulators the matching activities build up, keyed by
/// the raw category string, in first-occurrence order.
pub open spec fn spec_entries(acts: Seq<Activity>, day: Option<Date>) -> Seq<(Seq<char>, u32)>
    decreases acts.len(),
{
    if acts.len() == 0 {
        Seq::empty()
    } else {
        let prev = spec_entries(acts.drop_last(), day);
        if spec_matches_day(acts.last(), day) {
            spec_assoc_bump(prev, acts.last().category@, acts.last().reps)
        } else {
            prev
        }
    }
}

/// The total repetitions the matching activities of one raw category add up
/// to.
pub open spec fn spec_cat_total(acts: Seq<Activity>, day: Option<Date>, cat: Seq<char>) -> int
    decreases acts.len(),
{
    if acts.len() == 0 {
        0
    } else {
        spec_cat_total(acts.drop_last(), day, cat) + (if spec_matches_day(acts.last(), day)
            && acts.last().category@ == cat {
            acts.last().reps as int
        } else {
            0
        })
    }
}

pub proof fn lemma_cat_total_prefix(acts: Seq<Activity>, day: Option<Date>, cat: Seq<char>, i: int)
    requires
        0 <= i <= acts.len(),
    ensures
        0 <= spec_cat_total(acts.take(i), day, cat) <= spec_cat_total(acts, day, cat),
    decreases acts.len() - i,
{
    lemma_cat_total_nonneg(acts.take(i), day, cat);
    if i < acts.len() {
        assert(acts.take(i + 1).drop_last() =~= acts.take(i));
        assert(acts.take(i + 1).last() == acts[i]);
        lemma_cat_total_prefix(acts, day, cat, i + 1);
    } else {
        assert(acts.take(i) =~= acts);
    }
}

proof fn lemma_cat_total_nonneg(acts: Seq<Activity>, day: Option<Date>, cat: Seq<char>)
    ensures
        spec_cat_total(acts, day, cat) >= 0,
    decreases acts.len(),
{
    if acts.len() > 0 {
        lemma_cat_total_nonneg(acts.drop_last(), day, cat);
    }
}

/// The accumulators are well-formed and hold exactly the per-category
/// totals: a key is present exactly when some matching activity carries it.
pub proof fn lemma_entries_get(acts: Seq<Activity>, day: Option<Date>, cat: Seq<char>)
    requires
        forall|c: Seq<char>| #[trigger] spec_cat_total(acts, day, c) <= u32::MAX,
    ensures
        spec_assoc_wf(spec_entries(acts, day)),
        match spec_assoc_get(spec_entries(acts, day), cat) {
            Some(v) => v == spec_cat_total(acts, day, cat),
            None => spec_cat_total(acts, day, cat) == 0,
        },
    decreases acts.len(),
{
    if acts.len() > 0 {
        let prev = acts.drop_last();
        assert forall|c: Seq<char>| #[trigger] spec_cat_total(prev, day, c) <= u32::MAX by {
            assert(prev =~= acts.take(acts.len() - 1));
            lemma_cat_total_prefix(acts, day, c, acts.len() - 1);
        }
        lemma_entries_get(prev, day, cat);
        let lc = acts.last().category@;
        lemma_entries_get(prev, day, lc);
        if spec_matches_day(acts.last(), day) {
            lemma_cat_total_nonneg(prev, day, cat);
            lemma_bump_wf(spec_entries(prev, day), lc, acts.last().reps);
            lemma_bump_get(spec_entries(prev, day), lc, acts.last().reps, cat);
        }
    }
}

/// The per-category accumulators of the matching activities, as a vector of
/// raw category string and count. Shared by the per-day statistics and the
/// whole-day report.
pub fn accumulate_entries(acts: &Vec<Activity>, day: Option<Date>) -> (r: Vec<(String, u32)>)
    requires
        forall|c: Seq<char>| #[trigger] spec_cat_total(acts@, day, c) <= u32::MAX,
    ensures
        r.deep_view() == spec_entries(acts@, day),
        spec_assoc_wf(r.deep_view()),
{
    let ghost dayv: Option<Date> = day;
    let mut r: Vec<(String, u32)> = Vec::new();
    proof {
        assert(acts@.take(0) =~= Seq::<Activity>::empty());
        assert(r.deep_view() =~= spec_entries(acts@.take(0), dayv));
    }
    let mut i: usize = 0;
    while i < acts.len()
        invariant
            0 <= i <= acts@.len(),
            dayv == day,
            forall|c: Seq<char>| #[trigger] spec_cat_total(acts@, dayv, c) <= u32::MAX,
            r.deep_view() == spec_entries(acts@.take(i as int), dayv),
            spec_assoc_wf(r.deep_view()),
        decreases acts@.len() - i,
    {
        proof {
            assert(acts@.take(i + 1).drop_last() =~= acts@.take(i as int));
            assert(acts@.take(i + 1).last() == acts@[i as int]);
        }
        let a = &acts[i];
        let matches_day: bool = match day {
            Some(d) => a.timestamp.date == d,
            None => true,
        };
        if matches_day {
            proof {
                assert forall|c: Seq<char>|
                    #[trigger] spec_cat_total(acts@.take(i as int), dayv, c)
                        <= u32::MAX by {
                    lemma_cat_total_prefix(acts@, dayv, c, i as int);
                }
                lemma_entries_get(acts@.take(i as int), dayv, a.category@);
                lemma_cat_total_prefix(acts@, dayv, a.category@, i + 1);
            }
            assoc_bump(&mut r, a.category.as_str(), a.reps);
        }
        i = i + 1;
    }
    proof {
        assert(acts@.take(acts@.len() as int) =~= acts@);
    }
    r
}

} // verus!
