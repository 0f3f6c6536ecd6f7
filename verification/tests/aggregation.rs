use naday::date::{Date, Timestamp};
use naday::model::{Activity, Category, CategoryLookup, Weight};
use naday::report::common::{weighted_total, DayStats};
use naday::report::sliding::build_stats;

fn newcat(name: &str, scaled: u64) -> Category {
    Category::new(name, Weight::from_scaled(scaled), Vec::new())
}

fn new_lookup() -> CategoryLookup {
    let mut lookup = CategoryLookup::new();

    lookup.add(newcat("Pushups", 10000)).unwrap();
    lookup.add(newcat("Burpees", 15000)).unwrap();
    lookup.add(newcat("Steps", 100)).unwrap();

    lookup
}

fn july(day_of_month: u8, reps: u32, category: &str) -> Activity {
    let time = Timestamp {
        date: Date {
            year: 2020,
            month: 7,
            day: day_of_month,
        },
        hour: 13,
        minute: 45,
        second: 34,
    };
    Activity::at(time, reps, category)
}

#[test]
fn weighted_total_basic() {
    let lookup = new_lookup();

    let mut activities = Vec::new();
    activities.push(Activity::new(15, "Pushups"));
    activities.push(Activity::new(20, "Burpees"));
    activities.push(Activity::new(13, "Burpees"));
    activities.push(Activity::new(3200, "Steps"));
    activities.push(Activity::new(28, "Beers"));

    assert_eq!(
        weighted_total(&activities, &lookup),
        (15.0 + ((20.0 + 13.0) * 1.5) + (3200.0 * 0.01) + 28.0) as u32
    );
}

#[test]
fn daystats_basic() {
    let mut stats = DayStats::new(&Date {
        year: 2021,
        month: 3,
        day: 14,
    });
    let lookup = new_lookup();

    assert_eq!(0, stats.reps_total(&lookup));
    stats.add(&Activity::new(15, "Pushups"));
    stats.add(&Activity::new(20, "Pushups"));
    stats.add(&Activity::new(23, "Pullups"));
    stats.add(&Activity::new(20, "Burpees"));
    stats.add(&Activity::new(1500, "Steps"));

    assert_eq!(
        stats.reps_total(&lookup),
        (15.0 + 20.0 + 23.0 + (20.0 * 1.5) + (1500.0 * 0.01)) as u32
    );

    assert_eq!(stats.get("Pushups").unwrap(), 15 + 20);
    assert_eq!(stats.get("Pullups").unwrap(), 23);
    assert_eq!(stats.get("Burpees").unwrap(), 20);
    assert_eq!(stats.get("Steps").unwrap(), 1500);
}

#[test]
fn build_stats_basic() {
    let mut activities = Vec::new();

    // create activities over multiple days, with multiple activities per day
    // and category, and multiple categories per day
    activities.push(july(5, 13, "Pushups"));
    activities.push(july(5, 23, "Pushups"));
    activities.push(july(5, 23, "Burpees"));
    activities.push(july(6, 15, "Burpees"));
    activities.push(july(7, 14, "Burpees"));
    activities.push(july(7, 23, "Burpees"));

    let start = Date {
        year: 2020,
        month: 7,
        day: 1,
    };
    let end = Date {
        year: 2020,
        month: 7,
        day: 30,
    };
    let stats = build_stats(&activities, &start, &end);

    assert_eq!(30, stats.len());

    for daystat in stats {
        match daystat.day.day {
            5 => {
                assert_eq!(2, daystat.len());
                assert_eq!(36, daystat.get("Pushups").unwrap());
                assert_eq!(23, daystat.get("Burpees").unwrap());
            }
            6 => {
                assert_eq!(1, daystat.len());
                assert_eq!(15, daystat.get("Burpees").unwrap());
            }
            7 => {
                assert_eq!(1, daystat.len());
                assert_eq!(37, daystat.get("Burpees").unwrap());
            }
            _ => {
                assert_eq!(0, daystat.len());
            }
        }
    }
}

#[test]
fn build_stats_covers_every_day_of_the_range() {
    let lookup = new_lookup();
    let activities = vec![july(10, 5, "Pushups")];
    let start = Date {
        year: 2020,
        month: 6,
        day: 20,
    };
    let end = Date {
        year: 2020,
        month: 7,
        day: 12,
    };
    // 11 days of June plus 12 days of July, both ends inclusive
    let stats = build_stats(&activities, &start, &end);
    assert_eq!(23, stats.len());
    assert_eq!(start, stats[0].day);
    assert_eq!(end, stats[22].day);
    for (i, daystat) in stats.iter().enumerate() {
        if daystat.day.month == 7 && daystat.day.day == 10 {
            assert_eq!(5, daystat.reps_total(&lookup));
        } else {
            assert_eq!(0, daystat.reps_total(&lookup), "day index {}", i);
            assert_eq!(0, daystat.len());
        }
    }
}

#[test]
fn empty_range_yields_no_stats() {
    let start = Date {
        year: 2020,
        month: 7,
        day: 10,
    };
    let end = Date {
        year: 2020,
        month: 7,
        day: 9,
    };
    let stats = build_stats(&Vec::new(), &start, &end);
    assert_eq!(0, stats.len());
}
