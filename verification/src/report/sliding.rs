use crate::date::{
    date_le, day_number, spec_weekday_abbrev, weekday_index, Date,
};
use crate::model::category_lookup::{spec_find, CategoryLookup};
use crate::model::{Activity, Category};
use crate::report::common::{
    spec_assoc_get, spec_cat_total, spec_day_total, spec_entries, DayStats,
};
use crate::text::{dec_digits, pad_left_spec};
use vstd::prelude::*;
use vstd::string::*;

verus! {

// ---------------------------------------------------------------------------
// Daily statistics over a date range
// ---------------------------------------------------------------------------

/// Build daily statistics: one entry per calendar day in the inclusive
/// range, in chronological order, each holding the day's per-category
/// repetitions — including days with no activities, whose statistics stay
/// empty. An empty range (end before start) yields no entries.
pub fn build_stats(activities: &Vec<Activity>, start: &Date, end: &Date) -> (r: Vec<DayStats>)
    requires
        start.valid(),
        end.valid(),
        forall|d: Date, c: Seq<char>|
            #[trigger] spec_cat_total(activities@, Some(d), c) <= u32::MAX,
    ensures
        date_le(*start, *end) ==> r@.len() == day_number(*end) - day_number(*start) + 1,
        !date_le(*start, *end) ==> r@.len() == 0,
        forall|k: int|
            0 <= k < r@.len() ==> (#[trigger] r@[k]).day.valid() && day_number(r@[k].day)
                == day_number(*start) + k && r@[k]@ == spec_entries(activities@, Some(r@[k].day))
                && r@[k].wf(),
{
    if !crate::date::date_le_exec(start, end) {
        return Vec::new();
    }
    proof {
        crate::date::lemma_day_number_range(*start);
        crate::date::lemma_day_number_range(*end);
    }
    let sn: u32 = crate::date::day_number_of(start);
    let en: u32 = crate::date::day_number_of(end);
    let mut r: Vec<DayStats> = Vec::new();
    let mut dn: u32 = sn;
    while dn <= en
        invariant
            sn == day_number(*start),
            en == day_number(*end),
            sn <= dn <= en + 1,
            en <= day_number(crate::date::last_date()),
            day_number(crate::date::last_date()) < 3660000,
            forall|d: Date, c: Seq<char>|
                #[trigger] spec_cat_total(activities@, Some(d), c) <= u32::MAX,
            r@.len() == dn - sn,
            forall|k: int|
                0 <= k < r@.len() ==> (#[trigger] r@[k]).day.valid() && day_number(r@[k].day)
                    == sn + k && r@[k]@ == spec_entries(activities@, Some(r@[k].day))
                    && r@[k].wf(),
        decreases en + 1 - dn,
    {
        let day: Date = crate::date::date_from_day_number(dn);
        let entries = crate::report::common::accumulate_entries(activities, Some(day));
        let ds = DayStats { day, reps_by_category: entries };
        r.push(ds);
        dn = dn + 1;
    }
    r
}

// ---------------------------------------------------------------------------
// Sliding report rendering
// ---------------------------------------------------------------------------

/// The header line of a sliding report: it names the filtered category or
/// the weighted total, and the number of days covered.
pub open spec fn spec_sliding_header(name: Option<Seq<char>>, n: nat) -> Seq<char> {
    match name {
        Some(c) => "Report on "@ + c + " for the past "@ + dec_digits(n) + " days\n\n"@,
        None => "Report on the weighted total for the past "@ + dec_digits(n) + " days\n\n"@,
    }
}

/// One day's line: the weekday, then either the filtered category's
/// repetitions beside the day's weighted total, or the weighted total alone.
/// The statistics are keyed by the raw logged category string, and logging
/// canonicalizes categories, so the filter — a name or an alias — resolves
/// to its canonical name before the day's count is looked up.
pub open spec fn spec_sliding_line(
    d: DayStats,
    filter: Option<Seq<char>>,
    cats: Seq<Category>,
) -> Seq<char> {
    let total = pad_left_spec(dec_digits(spec_day_total(d@, cats) as nat), 5);
    match filter {
        Some(c) => {
            let reps = match spec_assoc_get(d@, spec_find(cats, c).unwrap().name@) {
                Some(v) => v,
                None => 0,
            };
            spec_weekday_abbrev(weekday_index(d.day)) + ": "@ + pad_left_spec(
                dec_digits(reps as nat),
                5,
            ) + " reps ("@ + total + " total)"@ + "\n"@
        },
        None => spec_weekday_abbrev(weekday_index(d.day)) + ": "@ + total + " total"@ + "\n"@,
    }
}

pub open spec fn spec_sliding_lines(
    stats: Seq<DayStats>,
    filter: Option<Seq<char>>,
    cats: Seq<Category>,
) -> Seq<char>
    decreases stats.len(),
{
    if stats.len() == 0 {
        Seq::empty()
    } else {
        spec_sliding_lines(stats.drop_last(), filter, cats) + spec_sliding_line(
            stats.last(),
            filter,
            cats,
        )
    }
}

/// The whole sliding report: a header naming what is reported and over how
/// many days, then one line per day in order.
pub open spec fn spec_render_sliding(
    stats: Seq<DayStats>,
    filter: Option<Seq<char>>,
    cats: Seq<Category>,
) -> Seq<char> {
    let header = match filter {
        Some(c) => spec_sliding_header(Some(spec_find(cats, c).unwrap().name@), stats.len()),
        None => spec_sliding_header(None, stats.len()),
    };
    header + spec_sliding_lines(stats, filter, cats)
}

/// Render the sliding report over the given daily statistics, optionally
/// filtered to one category (which must resolve in the registry).
pub fn render_sliding(
    stats: &Vec<DayStats>,
    category: Option<&str>,
    categories: &CategoryLookup,
) -> (r: String)
    requires
        forall|k: int| 0 <= k < stats@.len() ==> (#[trigger] stats@[k]).day.valid(),
        forall|k: int|
            0 <= k < stats@.len() ==> spec_day_total((#[trigger] stats@[k])@, categories@)
                <= u32::MAX,
        category matches Some(c) ==> spec_find(categories@, c@) is Some,
    ensures
        r@ == spec_render_sliding(
            stats@,
            match category {
                Some(c) => Some(c@),
                None => None,
            },
            categories@,
        ),
{
    let ghost filter: Option<Seq<char>> = match category {
        Some(c) => Some(c@),
        None => None,
    };
    proof {
        reveal_strlit("Report on ");
        reveal_strlit(" for the past ");
        reveal_strlit("Report on the weighted total for the past ");
        reveal_strlit(" days\n\n");
        reveal_strlit(": ");
        reveal_strlit(" reps (");
        reveal_strlit(" total)");
        reveal_strlit(" total");
        reveal_strlit("\n");
    }
    let mut out = String::new();
    match category {
        Some(c) => {
            out.append("Report on ");
            match categories.find(c) {
                Some(cat) => {
                    out.append(cat.name.as_str());
                },
                None => {
                    proof {
                        assert(false);
                    }
                },
            }
            out.append(" for the past ");
            let n = crate::text::u64_to_string(stats.len() as u64);
            out.append(n.as_str());
            out.append(" days\n\n");
        },
        None => {
            out.append("Report on the weighted total for the past ");
            let n = crate::text::u64_to_string(stats.len() as u64);
            out.append(n.as_str());
            out.append(" days\n\n");
        },
    }
    let ghost header = out@;
    proof {
        assert(header =~= (match filter {
            Some(c) => spec_sliding_header(
                Some(spec_find(categories@, c).unwrap().name@),
                stats@.len(),
            ),
            None => spec_sliding_header(None, stats@.len()),
        }));
        assert(stats@.take(0) =~= Seq::<DayStats>::empty());
    }
    let mut i: usize = 0;
    while i < stats.len()
        invariant
            0 <= i <= stats@.len(),
            filter == (match category {
                Some(c) => Some(c@),
                None => None::<Seq<char>>,
            }),
            forall|k: int| 0 <= k < stats@.len() ==> (#[trigger] stats@[k]).day.valid(),
            forall|k: int|
                0 <= k < stats@.len() ==> spec_day_total((#[trigger] stats@[k])@, categories@)
                    <= u32::MAX,
            category matches Some(c) ==> spec_find(categories@, c@) is Some,
            out@ == header + spec_sliding_lines(stats@.take(i as int), filter, categories@),
        decreases stats@.len() - i,
    {
        proof {
            reveal_strlit(": ");
            reveal_strlit(" reps (");
            reveal_strlit(" total)");
            reveal_strlit(" total");
            reveal_strlit("\n");
            assert(stats@.take(i + 1).drop_last() =~= stats@.take(i as int));
            assert(stats@.take(i + 1).last() == stats@[i as int]);
        }
        let d = &stats[i];
        let wd = crate::date::weekday_abbrev(crate::date::weekday_of(&d.day));
        out.append(wd);
        out.append(": ");
        let total = d.reps_total(categories);
        match category {
            Some(c) => {
                let reps: u32 = match categories.find(c) {
                    Some(cat) => match d.get(cat.name.as_str()) {
                        Some(v) => v,
                        None => 0,
                    },
                    None => {
                        proof {
                            assert(false);
                        }
                        0
                    },
                };
                let rs = crate::text::u32_to_string(reps);
                let rp = crate::text::pad_left(rs.as_str(), 5);
                out.append(rp.as_str());
                out.append(" reps (");
                let ts = crate::text::u32_to_string(total);
                let tp = crate::text::pad_left(ts.as_str(), 5);
                out.append(tp.as_str());
                out.append(" total)");
                out.append("\n");
            },
            None => {
                let ts = crate::text::u32_to_string(total);
                let tp = crate::text::pad_left(ts.as_str(), 5);
                out.append(tp.as_str());
                out.append(" total");
                out.append("\n");
            },
        }
        proof {
            assert(out@ =~= header + spec_sliding_lines(stats@.take(i + 1), filter, categories@));
        }
        i = i + 1;
    }
    proof {
        assert(stats@.take(stats@.len() as int) =~= stats@);
    }
    out
}

// ---------------------------------------------------------------------------
// Sliding window start
// ---------------------------------------------------------------------------

/// The first day of a sliding window of `number_of_days` days that ends on
/// `end` (both ends inclusive).
pub fn sliding_start(end: &Date, number_of_days: u32) -> (r: Date)
    requires
        end.valid(),
        number_of_days >= 1,
        day_number(*end) >= number_of_days - 1,
    ensures
        r.valid(),
        day_number(r) == day_number(*end) - (number_of_days - 1),
{
    proof {
        crate::date::lemma_day_number_range(*end);
    }
    let en: u32 = crate::date::day_number_of(end);
    crate::date::date_from_day_number(en - (number_of_days - 1))
}

} // verus!
