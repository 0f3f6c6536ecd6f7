use crate::model::category_lookup::CategoryLookup;
use crate::model::{Activity, Category};
use crate::report::common::{
    spec_assoc_get, spec_cat_total, spec_entries, spec_weighted_total,
};
use crate::text::{dec_digits, pad_right_spec, sort_lex, spec_join};
use vstd::prelude::*;
use vstd::string::*;

verus! {

// ---------------------------------------------------------------------------
// Today report rendering
// ---------------------------------------------------------------------------

/// The individual repetition counts logged for one raw category, in log
/// order.
pub open spec fn spec_cat_parts(acts: Seq<Activity>, cat: Seq<char>) -> Seq<u32>
    decreases acts.len(),
{
    if acts.len() == 0 {
        Seq::empty()
    } else {
        let prev = spec_cat_parts(acts.drop_last(), cat);
        if acts.last().category@ == cat {
            prev.push(acts.last().reps)
        } else {
            prev
        }
    }
}

/// The category keys of an accumulator list, in order.
pub open spec fn spec_keys_of(s: Seq<(Seq<char>, u32)>) -> Seq<Seq<char>> {
    s.map_values(|e: (Seq<char>, u32)| e.0)
}

/// One category's line of the today report: the raw category padded to
/// column width, its total repetitions, and — when more than one activity
/// contributed — the individual counts joined by plus signs.
pub open spec fn spec_today_line(acts: Seq<Activity>, cat: Seq<char>) -> Seq<char> {
    let sum = match spec_assoc_get(spec_entries(acts, None), cat) {
        Some(v) => v,
        None => 0,
    };
    let parts = spec_cat_parts(acts, cat);
    let details = if parts.len() > 1 {
        " ("@ + spec_join(parts.map_values(|p: u32| dec_digits(p as nat)), " + "@) + ")"@
    } else {
        Seq::<char>::empty()
    };
    "  "@ + pad_right_spec(cat, 15) + ": "@ + dec_digits(sum as nat) + " reps"@ + details + "\n"@
}

pub open spec fn spec_today_lines(keys: Seq<Seq<char>>, acts: Seq<Activity>) -> Seq<char>
    decreases keys.len(),
{
    if keys.len() == 0 {
        Seq::empty()
    } else {
        spec_today_lines(keys.drop_last(), acts) + spec_today_line(acts, keys.last())
    }
}

/// The whole today report: one line per raw category in lexicographic
/// order, and a weighted-total trailer when more than one category appears.
pub open spec fn spec_today_report(acts: Seq<Activity>, cats: Seq<Category>) -> Seq<char> {
    let entries = spec_entries(acts, None);
    let keys = sort_lex(spec_keys_of(entries));
    "Stats for today:\n"@ + spec_today_lines(keys, acts) + (if entries.len() > 1 {
        "  Weighted total : "@ + dec_digits(spec_weighted_total(acts, cats) as nat)
    } else {
        Seq::<char>::empty()
    })
}

/// Render the report over one day's activities as text.
pub fn render_today(activities: &Vec<Activity>, categories: &CategoryLookup) -> (r: String)
    requires
        spec_weighted_total(activities@, categories@) <= u32::MAX,
        forall|c: Seq<char>|
            #[trigger] spec_cat_total(activities@, None::<crate::date::Date>, c) <= u32::MAX,
    ensures
        r@ == spec_today_report(activities@, categories@),
{
    proof {
        reveal_strlit("Stats for today:\n");
        reveal_strlit("  ");
        reveal_strlit(": ");
        reveal_strlit(" reps");
        reveal_strlit(" (");
        reveal_strlit(")");
        reveal_strlit("\n");
        reveal_strlit(" + ");
        reveal_strlit("  Weighted total : ");
    }
    let total: u32 = crate::report::common::weighted_total(activities, categories);
    let entries = crate::report::common::accumulate_entries(activities, None);
    let ghost entries_dv = entries.deep_view();
    // the category keys, then sorted
    let mut keys: Vec<String> = Vec::new();
    let mut j: usize = 0;
    while j < entries.len()
        invariant
            0 <= j <= entries@.len(),
            entries.deep_view() == entries_dv,
            keys@.len() == j,
            forall|k: int| 0 <= k < j ==> (#[trigger] keys@[k])@ == entries_dv[k].0,
        decreases entries@.len() - j,
    {
        proof {
            assert(entries.deep_view()[j as int] == (entries@[j as int].0@, entries@[j as int].1));
        }
        keys.push(entries[j].0.clone());
        j = j + 1;
    }
    proof {
        assert(keys.deep_view().len() == spec_keys_of(entries_dv).len());
        assert forall|k: int| 0 <= k < keys@.len() implies keys.deep_view()[k] == spec_keys_of(
            entries_dv,
        )[k] by {
            assert(keys.deep_view()[k] == keys@[k]@);
        }
        assert(keys.deep_view() =~= spec_keys_of(entries_dv));
    }
    let sorted = crate::text::sort_strings(&keys);
    let ghost skeys = sort_lex(spec_keys_of(entries_dv));
    let mut out = String::new();
    out.append("Stats for today:\n");
    proof {
        assert(skeys.take(0) =~= Seq::<Seq<char>>::empty());
        assert(out@ =~= "Stats for today:\n"@ + spec_today_lines(skeys.take(0), activities@));
    }
    let mut i: usize = 0;
    while i < sorted.len()
        invariant
            0 <= i <= sorted@.len(),
            sorted.deep_view() == skeys,
            skeys == sort_lex(spec_keys_of(entries_dv)),
            entries_dv == spec_entries(activities@, None::<crate::date::Date>),
            entries.deep_view() == entries_dv,
            out@ == "Stats for today:\n"@ + spec_today_lines(skeys.take(i as int), activities@),
        decreases sorted@.len() - i,
    {
        proof {
            reveal_strlit("  ");
            reveal_strlit(": ");
            reveal_strlit(" reps");
            reveal_strlit(" (");
            reveal_strlit(")");
            reveal_strlit("\n");
            reveal_strlit(" + ");
            assert(sorted.deep_view()[i as int] == sorted@[i as int]@);
            assert(skeys.take(i + 1).drop_last() =~= skeys.take(i as int));
            assert(skeys.take(i + 1).last() == skeys[i as int]);
        }
        let cat: &String = &sorted[i];
        let sum: u32 = match crate::report::common::assoc_get(&entries, cat.as_str()) {
            Some(v) => v,
            None => 0,
        };
        // individual contributions of this category, in log order
        let mut parts: Vec<u32> = Vec::new();
        let mut a: usize = 0;
        proof {
            assert(activities@.take(0) =~= Seq::<Activity>::empty());
            assert(parts@ =~= spec_cat_parts(activities@.take(0), cat@));
        }
        while a < activities.len()
            invariant
                0 <= a <= activities@.len(),
                parts@ == spec_cat_parts(activities@.take(a as int), cat@),
            decreases activities@.len() - a,
        {
            proof {
                assert(activities@.take(a + 1).drop_last() =~= activities@.take(a as int));
                assert(activities@.take(a + 1).last() == activities@[a as int]);
            }
            if crate::text::str_eq(activities[a].category.as_str(), cat.as_str()) {
                parts.push(activities[a].reps);
            }
            a = a + 1;
        }
        proof {
            assert(activities@.take(activities@.len() as int) =~= activities@);
        }
        out.append("  ");
        let padded = crate::text::pad_right(cat.as_str(), 15);
        out.append(padded.as_str());
        out.append(": ");
        let sum_str = crate::text::u32_to_string(sum);
        out.append(sum_str.as_str());
        out.append(" reps");
        if parts.len() > 1 {
            let mut part_strs: Vec<String> = Vec::new();
            let mut q: usize = 0;
            while q < parts.len()
                invariant
                    0 <= q <= parts@.len(),
                    part_strs@.len() == q,
                    forall|k: int|
                        0 <= k < q ==> (#[trigger] part_strs@[k])@ == dec_digits(
                            parts@[k] as nat,
                        ),
                decreases parts@.len() - q,
            {
                part_strs.push(crate::text::u32_to_string(parts[q]));
                q = q + 1;
            }
            proof {
                let target = parts@.map_values(|p: u32| dec_digits(p as nat));
                assert(part_strs.deep_view().len() == target.len());
                assert forall|k: int| 0 <= k < target.len() implies part_strs.deep_view()[k]
                    == target[k] by {
                    assert(part_strs.deep_view()[k] == part_strs@[k]@);
                }
                assert(part_strs.deep_view() =~= target);
            }
            out.append(" (");
            let joined = crate::text::join_strings(&part_strs, " + ");
            out.append(joined.as_str());
            out.append(")");
        }
        out.append("\n");
        proof {
            assert(out@ =~= "Stats for today:\n"@ + spec_today_lines(
                skeys.take(i + 1),
                activities@,
            ));
        }
        i = i + 1;
    }
    proof {
        assert(skeys.take(skeys.len() as int) =~= skeys);
    }
    if entries.len() > 1 {
        out.append("  Weighted total : ");
        let ts = crate::text::u32_to_string(total);
        out.append(ts.as_str());
    }
    proof {
        assert(out@ =~= spec_today_report(activities@, categories@));
    }
    out
}

} // verus!
