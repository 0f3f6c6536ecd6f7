use naday::cli::{CliAction, ReportKind, RunContext};

fn build_args(raw: Vec<&str>) -> Vec<String> {
    let mut args: Vec<String> = Vec::new();
    args.push("naday".to_string());

    for item in raw {
        args.push(item.to_string());
    }

    args
}

fn build_activity(repetitions: u32, category: &str) -> CliAction {
    CliAction::AddActivity {
        repetitions,
        category: category.to_string(),
    }
}

#[test]
fn simple_commands() {
    let ctx = RunContext::new(build_args(vec!["system"]));
    assert_eq!(CliAction::System, ctx.unwrap().action);

    let ctx = RunContext::new(build_args(vec!["report"]));
    assert_eq!(
        CliAction::Report {
            kind: ReportKind::Month,
            category: None,
            sliding: true,
        },
        ctx.unwrap().action
    );

    let ctx = RunContext::new(build_args(vec!["report", "--week", "--category=pu"]));
    assert_eq!(
        CliAction::Report {
            kind: ReportKind::Week,
            category: Some("pu".to_string()),
            sliding: true,
        },
        ctx.unwrap().action
    );
}

#[test]
fn activities() {
    let ctx = RunContext::new(build_args(vec!["16pu"]));
    assert_eq!(build_activity(16, "pu"), ctx.unwrap().action);

    let ctx = RunContext::new(build_args(vec!["23h2"]));
    assert_eq!(build_activity(23, "h2"), ctx.unwrap().action);
}

#[test]
fn shorthand() {
    let ctx = RunContext::new(build_args(vec!["rd"]));
    assert_eq!(
        CliAction::Report {
            kind: ReportKind::Day,
            category: None,
            sliding: true,
        },
        ctx.unwrap().action
    );

    let ctx = RunContext::new(build_args(vec!["rm"]));
    assert_eq!(
        CliAction::Report {
            kind: ReportKind::Month,
            category: None,
            sliding: true,
        },
        ctx.unwrap().action
    );
}

#[test]
fn report_with_separate_category_value() {
    let ctx = RunContext::new(build_args(vec!["report", "-d", "-c", "steps"]));
    assert_eq!(
        CliAction::Report {
            kind: ReportKind::Day,
            category: Some("steps".to_string()),
            sliding: true,
        },
        ctx.unwrap().action
    );
}

#[test]
fn malformed_command_lines_are_rejected() {
    assert!(RunContext::new(build_args(vec!["report", "--bogus"])).is_err());
    assert!(RunContext::new(build_args(vec!["report", "-d", "-w"])).is_err());
    assert!(RunContext::new(build_args(vec!["report", "--day", "--day"])).is_err());
    assert!(RunContext::new(build_args(vec!["report", "-c", "pu", "--category=su"])).is_err());
    assert!(RunContext::new(build_args(vec!["log"])).is_err());
    assert!(RunContext::new(build_args(vec!["log", "16pu", "extra"])).is_err());
    assert!(RunContext::new(build_args(vec!["pu16"])).is_err());
    assert!(RunContext::new(build_args(vec!["16"])).is_err());
    assert!(RunContext::new(build_args(vec!["rz"])).is_err());
    assert!(RunContext::new(build_args(vec!["system", "now"])).is_err());
}
