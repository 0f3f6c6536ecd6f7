use naday::date::{Date, Timestamp};
use naday::model::{parse_weight, Activity, Weight};
use naday::storage::activity::{
    activity_file_header, parse_activities, path_for_date, paths_for_range, render_activity_line,
    str2ts, ts2str,
};
use naday::storage::category::{build_lookup, default_category_contents, parse_categories};
use std::collections::HashMap;

#[test]
fn parse_activity() {
    let activity =
        naday::storage::activity::parse_activity("2020-12-13 05:43:25;12;Pushups").unwrap();
    assert_eq!(2020, activity.timestamp.date.year);
    assert_eq!(12, activity.timestamp.date.month);
    assert_eq!(13, activity.timestamp.date.day);
    assert_eq!(5, activity.timestamp.hour);
    assert_eq!(43, activity.timestamp.minute);
    assert_eq!(25, activity.timestamp.second);
    assert_eq!(12, activity.reps);
    assert_eq!("Pushups", activity.category);

    // just testing that some cases are parsed at all for now
    naday::storage::activity::parse_activity("2003-01-01 00:00:00 ; 1 ; Burpees").unwrap();
    naday::storage::activity::parse_activity("2021-12-31 23:59:59 ; 435 ; Plank_Minutes").unwrap();
}

#[test]
fn parse_activity_rejects_bad_lines() {
    let parse = naday::storage::activity::parse_activity;
    assert!(parse("not a timestamp;12;Pushups").is_err());
    assert!(parse("2020-13-13 05:43:25;12;Pushups").is_err());
    assert!(parse("2020-02-30 05:43:25;12;Pushups").is_err());
    assert!(parse("2020-12-13 05:43:25").is_err());
    assert!(parse("2020-12-13 05:43:25;twelve;Pushups").is_err());
    assert!(parse("2020-12-13 05:43:25;-3;Pushups").is_err());
    // a plus sign before the count is accepted, like any decimal field
    assert_eq!(12, parse("2020-12-13 05:43:25;+12;Pushups").unwrap().reps);
    // a missing category field leaves the category empty
    assert_eq!("", parse("2020-12-13 05:43:25;12").unwrap().category);
}

#[test]
fn activity_roundtrip() {
    let timestamp1 = str2ts("2020-12-13 14:34:53").unwrap();

    // initial state: nothing but the file header
    let mut contents = activity_file_header();
    let parsed = parse_activities(&contents).unwrap();
    assert!(parsed.activities.is_empty());
    assert!(parsed.skipped.is_empty());

    // store 1 activity and read it again
    let activity = Activity::at(timestamp1, 13, "Burpees");
    contents.push_str(&render_activity_line(&activity));
    contents.push('\n');

    let activities = parse_activities(&contents).unwrap().activities;
    assert_eq!(1, activities.len());
    assert_eq!(activity, activities[0]);

    // store another activity and read it again
    let timestamp2 = str2ts("2020-12-13 16:34:53").unwrap();
    let activity = Activity::at(timestamp2, 20, "Situps");
    contents.push_str(&render_activity_line(&activity));
    contents.push('\n');

    let activities = parse_activities(&contents).unwrap().activities;
    assert_eq!(2, activities.len());

    assert_eq!(activity, activities[1]);
}

#[test]
fn timestamp_renders_zero_padded() {
    let t = Timestamp {
        date: Date {
            year: 500,
            month: 1,
            day: 2,
        },
        hour: 3,
        minute: 4,
        second: 5,
    };
    assert_eq!("0500-01-02 03:04:05", ts2str(&t));
    assert_eq!(Some(t), str2ts("0500-01-02 03:04:05"));
}

#[test]
fn bad_preamble_is_fatal() {
    let contents = "something else v9\n2020-12-13 05:43:25;12;Pushups\n";
    assert!(parse_activities(contents).is_err());
    assert!(parse_activities("").is_err());
}

#[test]
fn unparsable_reps_line_is_skipped() {
    let contents = "naday activities v1\n\
                    2020-12-13 05:43:25;12;Pushups\n\
                    2020-12-13 06:00:00;twelve;Pushups\n\
                    2020-12-13 07:00:00;9;Burpees\n";
    let parsed = parse_activities(contents).unwrap();
    assert_eq!(2, parsed.activities.len());
    assert_eq!(12, parsed.activities[0].reps);
    assert_eq!(9, parsed.activities[1].reps);
    assert_eq!(1, parsed.skipped.len());
    assert_eq!("2020-12-13 06:00:00;twelve;Pushups", parsed.skipped[0]);
}

#[test]
fn file_init() {
    let categories = parse_categories(&default_category_contents())
        .unwrap()
        .categories;
    assert_eq!(6, categories.len());

    assert_eq!("Pushups", &(categories.first().unwrap().name));
    assert_eq!(Weight::from_scaled(10000), categories.first().unwrap().weight);
    assert_eq!(
        "Category (Pushups, 1, [\"pu\", \"push\"])",
        categories.first().unwrap().render()
    );
    assert_eq!(
        "Category (Situps, 1, [\"si\"])",
        categories.get(1).unwrap().render()
    );
    assert_eq!(
        "Category (Burpees, 1.5, [\"bu\"])",
        categories.get(2).unwrap().render()
    );
    assert_eq!(
        "Category (PlankSeconds, 0.33, [\"pl\"])",
        categories.get(3).unwrap().render()
    );
}

#[test]
fn default_categories_build_a_registry() {
    let categories = parse_categories(&default_category_contents())
        .unwrap()
        .categories;
    let lookup = build_lookup(categories).unwrap();
    assert_eq!(6, lookup.len());
    assert_eq!("WalkingSteps", lookup.find("wa").unwrap().name);
    assert_eq!("Extra", lookup.find("x").unwrap().name);
    assert!(lookup.find("zz").is_none());
}

#[test]
fn weight_parsing_and_rendering() {
    assert_eq!(Some(Weight::from_scaled(10000)), parse_weight("1"));
    assert_eq!(Some(Weight::from_scaled(15000)), parse_weight("1.5"));
    assert_eq!(Some(Weight::from_scaled(3300)), parse_weight("0.33"));
    assert_eq!(Some(Weight::from_scaled(100)), parse_weight("0.01"));
    assert_eq!(Some(Weight::from_scaled(20000)), parse_weight("2."));
    assert_eq!(Some(Weight::from_scaled(5000)), parse_weight(".5"));
    assert_eq!(None, parse_weight(""));
    assert_eq!(None, parse_weight("."));
    assert_eq!(None, parse_weight("abc"));
    assert_eq!(None, parse_weight("1.2.3"));
    assert_eq!(None, parse_weight("-1"));
    assert_eq!(None, parse_weight("1.23456"));

    assert_eq!("1", Weight::from_scaled(10000).render());
    assert_eq!("1.5", Weight::from_scaled(15000).render());
    assert_eq!("0.33", Weight::from_scaled(3300).render());
    assert_eq!("0.01", Weight::from_scaled(100).render());
    assert_eq!("0", Weight::from_scaled(0).render());
    assert_eq!("2.0001", Weight::from_scaled(20001).render());
}

#[test]
fn month_file_paths_are_deduplicated() {
    let start = Date {
        year: 2020,
        month: 12,
        day: 13,
    };
    let end = Date {
        year: 2021,
        month: 1,
        day: 5,
    };
    let paths = paths_for_range(&start, &end, "/data");
    assert_eq!(vec!["/data/2020-12.txt", "/data/2021-01.txt"], paths);

    let same_month = paths_for_range(
        &start,
        &Date {
            year: 2020,
            month: 12,
            day: 31,
        },
        "/data",
    );
    assert_eq!(vec!["/data/2020-12.txt"], same_month);

    assert_eq!(
        "/data/2020-12.txt",
        path_for_date(
            &Date {
                year: 2020,
                month: 12,
                day: 1,
            },
            "/data"
        )
    );
}

#[test]
fn weekdays_match_the_civil_calendar() {
    // spot checks against chrono's proleptic Gregorian calendar
    let samples = [
        (2020u16, 7u8, 5u8),
        (2020, 2, 29),
        (2024, 2, 29),
        (1999, 12, 31),
        (1970, 1, 1),
        (2000, 3, 1),
        (2023, 11, 14),
    ];
    for (y, m, d) in samples {
        let date = Date {
            year: y,
            month: m,
            day: d,
        };
        let ours = naday::date::weekday_abbrev(naday::date::weekday_of(&date));
        let chronos = chrono::NaiveDate::from_ymd_opt(y as i32, m as u32, d as u32)
            .unwrap()
            .format("%a")
            .to_string();
        assert_eq!(chronos, ours, "weekday of {}-{}-{}", y, m, d);
    }
}

#[test]
fn multiple_months() {
    let first = str2ts("2020-12-13 14:34:53").unwrap();
    let first_num = naday::date::day_number_of(&first.date);
    let ndays: u32 = 200;

    // append each day's activity to its month's in-memory file
    let mut files: HashMap<String, String> = HashMap::new();
    for dayidx in 0..ndays {
        let date = naday::date::date_from_day_number(first_num + dayidx);
        let ts = Timestamp {
            date,
            hour: 14,
            minute: 34,
            second: 53,
        };
        let activity = Activity::at(ts, dayidx, "Pushups");
        let path = path_for_date(&date, "/data");
        let entry = files.entry(path).or_insert_with(activity_file_header);
        entry.push_str(&render_activity_line(&activity));
        entry.push('\n');
    }
    let mut parsed: HashMap<String, Vec<Activity>> = HashMap::new();
    for (path, contents) in &files {
        parsed.insert(path.clone(), parse_activities(contents).unwrap().activities);
    }

    let windowsize: u32 = 10;
    for dayidx in 0..ndays {
        let start = naday::date::date_from_day_number(first_num + dayidx);
        let days_in_window = windowsize.min(ndays - dayidx);
        let end = naday::date::date_from_day_number(first_num + dayidx + days_in_window - 1);

        // every month file the window spans, a missing one yielding nothing
        let mut activities: Vec<Activity> = Vec::new();
        for path in paths_for_range(&start, &end, "/data") {
            if let Some(acts) = parsed.get(&path) {
                activities.extend(acts.iter().cloned());
            }
        }
        let activities = naday::storage::activity::filter_range(&activities, &start, &end);

        assert_eq!(
            days_in_window as usize,
            activities.len(),
            "activities should contain exactly one entry per day"
        );
        for idx in 0..days_in_window {
            assert_eq!(idx + dayidx, activities.get(idx as usize).unwrap().reps);
        }
    }
}
