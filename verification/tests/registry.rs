use naday::model::{Category, CategoryLookup, Weight};

fn cat(name: &str, weight: Weight, aliases: Vec<&str>) -> Category {
    Category::new(
        name,
        weight,
        aliases.into_iter().map(|a| a.to_string()).collect(),
    )
}

#[test]
fn basic_add_and_find() {
    let mut lookup = CategoryLookup::new();

    lookup
        .add(cat("Pushups", Weight::from_scaled(10000), vec!["pu", "push"]))
        .unwrap();
    lookup
        .add(cat("Situps", Weight::from_scaled(10000), vec!["su", "si"]))
        .unwrap();
    lookup
        .add(cat("Burpees", Weight::from_scaled(15000), vec!["bu", "oof"]))
        .unwrap();

    assert_eq!("Burpees", &(lookup.find("Burpees").unwrap().name));
    assert_eq!("Burpees", &(lookup.find("oof").unwrap().name));
    assert_eq!("Situps", &(lookup.find("su").unwrap().name));
    assert_eq!("Pushups", &(lookup.find("push").unwrap().name));
}

#[test]
fn duplicates() {
    let mut lookup = CategoryLookup::new();

    assert_eq!(0, lookup.len());

    lookup
        .add(cat("Pushups", Weight::from_scaled(10000), vec!["pu", "push"]))
        .unwrap();
    lookup
        .add(cat("Pushups", Weight::from_scaled(10000), vec!["pu", "push"]))
        .unwrap();
    lookup
        .add(cat("Pushups", Weight::from_scaled(10000), vec!["pu", "push"]))
        .unwrap();

    assert_eq!(1, lookup.len());
}

#[test]
fn duplicate_alias() {
    let mut lookup = CategoryLookup::new();

    assert_eq!(0, lookup.len());

    lookup
        .add(cat("Pushups", Weight::from_scaled(10000), vec!["pu", "push"]))
        .unwrap();
    lookup
        .add(cat("Pushdowns", Weight::from_scaled(10000), vec!["pd", "push"]))
        .expect_err("Should return an error for duplicate key");
}

#[test]
fn duplicate_key_message_names_both_categories() {
    let mut lookup = CategoryLookup::new();

    lookup
        .add(cat("Pushups", Weight::from_scaled(10000), vec!["pu", "push"]))
        .unwrap();
    let err = lookup
        .add(cat("Pushdowns", Weight::from_scaled(10000), vec!["pd", "push"]))
        .unwrap_err();
    assert_eq!(
        "Duplicate category key: 'push' is used by 'Pushdowns' and 'Pushups'",
        err
    );
    // the failed registration left the registry unchanged
    assert_eq!(1, lookup.len());
    assert!(lookup.find("pd").is_none());
}

#[test]
fn registration_order_does_not_matter() {
    // the same categories in two orders resolve every key identically
    let mut fwd = CategoryLookup::new();
    fwd.add(cat("Pushups", Weight::from_scaled(10000), vec!["pu"]))
        .unwrap();
    fwd.add(cat("Burpees", Weight::from_scaled(15000), vec!["bu"]))
        .unwrap();
    fwd.add(cat("Steps", Weight::from_scaled(100), vec!["st", "wa"]))
        .unwrap();

    let mut rev = CategoryLookup::new();
    rev.add(cat("Steps", Weight::from_scaled(100), vec!["st", "wa"]))
        .unwrap();
    rev.add(cat("Burpees", Weight::from_scaled(15000), vec!["bu"]))
        .unwrap();
    rev.add(cat("Pushups", Weight::from_scaled(10000), vec!["pu"]))
        .unwrap();

    for key in ["Pushups", "pu", "Burpees", "bu", "Steps", "st", "wa"] {
        assert_eq!(
            fwd.find(key).unwrap().name,
            rev.find(key).unwrap().name,
            "key {} must resolve the same in both orders",
            key
        );
    }
    assert!(fwd.find("unknown").is_none());
    assert!(rev.find("unknown").is_none());
}
