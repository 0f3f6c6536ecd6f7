use naday::date::{Date, Timestamp};
use naday::model::{Activity, Category, CategoryLookup, Weight};
use naday::report::sliding::{build_stats, render_sliding, sliding_start};
use naday::report::today::render_today;

fn newcat(name: &str, scaled: u64) -> Category {
    Category::new(name, Weight::from_scaled(scaled), Vec::new())
}

fn new_lookup() -> CategoryLookup {
    let mut lookup = CategoryLookup::new();

    lookup.add(newcat("Pushups", 10000)).unwrap();
    lookup.add(newcat("Burpees", 15000)).unwrap();
    lookup.add(newcat("Steps", 100)).unwrap();

    lookup
}

#[test]
fn basic() {
    let lookup = new_lookup();

    let mut activities = Vec::new();
    activities.push(Activity::new(15, "Pushups"));
    activities.push(Activity::new(20, "Burpees"));
    activities.push(Activity::new(13, "Burpees"));
    activities.push(Activity::new(3200, "Steps"));
    activities.push(Activity::new(28, "Beers"));

    let report = render_today(&activities, &lookup);

    assert_eq!(
        report,
        "\
Stats for today:
  Beers          : 28 reps
  Burpees        : 33 reps (20 + 13)
  Pushups        : 15 reps
  Steps          : 3200 reps
  Weighted total : 124"
    );
}

#[test]
fn today_without_second_category_has_no_trailer() {
    let lookup = new_lookup();
    let activities = vec![Activity::new(15, "Pushups")];
    let report = render_today(&activities, &lookup);
    assert_eq!(report, "Stats for today:\n  Pushups        : 15 reps\n");
}

fn one_pushup_day() -> (Vec<naday::report::common::DayStats>, CategoryLookup) {
    let mut lookup = CategoryLookup::new();
    lookup
        .add(Category::new(
            "Pushups",
            Weight::from_scaled(10000),
            vec!["pu".to_string()],
        ))
        .unwrap();
    // 2020-07-05 was a Sunday, 2020-07-06 a Monday
    let ts = Timestamp {
        date: Date {
            year: 2020,
            month: 7,
            day: 5,
        },
        hour: 9,
        minute: 0,
        second: 0,
    };
    let activities = vec![Activity::at(ts, 23, "Pushups")];
    let start = Date {
        year: 2020,
        month: 7,
        day: 5,
    };
    let end = Date {
        year: 2020,
        month: 7,
        day: 6,
    };
    (build_stats(&activities, &start, &end), lookup)
}

#[test]
fn sliding_total_view() {
    let (stats, lookup) = one_pushup_day();
    let report = render_sliding(&stats, None, &lookup);
    assert_eq!(
        report,
        "Report on the weighted total for the past 2 days\n\nSun:    23 total\nMon:     0 total\n"
    );
}

#[test]
fn sliding_category_view() {
    let (stats, lookup) = one_pushup_day();
    let report = render_sliding(&stats, Some("Pushups"), &lookup);
    assert_eq!(
        report,
        "Report on Pushups for the past 2 days\n\nSun:    23 reps (   23 total)\nMon:     0 reps (    0 total)\n"
    );

    // an alias filter resolves to the canonical name both for the header and
    // for the lookup of the per-day counts, which are keyed by the stored
    // (canonical) category string
    let by_alias = render_sliding(&stats, Some("pu"), &lookup);
    assert_eq!(by_alias, report);
}

#[test]
fn sliding_window_start_steps_back_across_months() {
    let end = Date {
        year: 2021,
        month: 1,
        day: 3,
    };
    let start = sliding_start(&end, 7);
    assert_eq!(
        start,
        Date {
            year: 2020,
            month: 12,
            day: 28,
        }
    );
    let same = sliding_start(&end, 1);
    assert_eq!(same, end);
}
