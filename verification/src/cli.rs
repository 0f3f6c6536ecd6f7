use crate::error::ParseError;
use crate::model::Config;
use crate::text::{digits_val, is_digit_char};
use vstd::prelude::*;
use vstd::string::*;

verus! {

// ---------------------------------------------------------------------------
// Actions
// ---------------------------------------------------------------------------

/// Which period a report covers.
#[derive(PartialEq, Eq, Structural, Debug, Clone, Copy)]
pub enum ReportKind {
    Day,
    Week,
    Month,
}

/// What the command line asks the program to do.
#[derive(Debug)]
pub enum CliAction {
    AddActivity { repetitions: u32, category: String },
    Report { kind: ReportKind, category: Option<String>, sliding: bool },
    System,
}

/// The specification-level value of a `CliAction`.
pub enum ActionData {
    AddActivity { repetitions: u32, category: Seq<char> },
    Report { kind: ReportKind, category: Option<Seq<char>>, sliding: bool },
    System,
}

/// The executable action carries the same data as the specification-level
/// one.
pub open spec fn action_matches(a: CliAction, d: ActionData) -> bool {
    match (a, d) {
        (
            CliAction::AddActivity { repetitions: r1, category: c1 },
            ActionData::AddActivity { repetitions: r2, category: c2 },
        ) => r1 == r2 && c1@ == c2,
        (
            CliAction::Report { kind: k1, category: c1, sliding: s1 },
            ActionData::Report { kind: k2, category: c2, sliding: s2 },
        ) => k1 == k2 && s1 == s2 && (match (c1, c2) {
            (Some(x), Some(y)) => x@ == y,
            (None, None) => true,
            _ => false,
        }),
        (CliAction::System, ActionData::System) => true,
        _ => false,
    }
}

impl PartialEq for CliAction {
    fn eq(&self, other: &Self) -> bool {
        match (self, other) {
            (
                CliAction::AddActivity { repetitions: r1, category: c1 },
                CliAction::AddActivity { repetitions: r2, category: c2 },
            ) => *r1 == *r2 && *c1 == *c2,
            (
                CliAction::Report { kind: k1, category: c1, sliding: s1 },
                CliAction::Report { kind: k2, category: c2, sliding: s2 },
            ) => *k1 == *k2 && *s1 == *s2 && (match (c1, c2) {
                (Some(x), Some(y)) => *x == *y,
                (None, None) => true,
                _ => false,
            }),
            (CliAction::System, CliAction::System) => true,
            _ => false,
        }
    }
}

impl vstd::std_specs::cmp::PartialEqSpecImpl for CliAction {
    open spec fn obeys_eq_spec() -> bool {
        true
    }

    open spec fn eq_spec(&self, other: &CliAction) -> bool {
        match (self, other) {
            (
                CliAction::AddActivity { repetitions: r1, category: c1 },
                CliAction::AddActivity { repetitions: r2, category: c2 },
            ) => r1 == r2 && c1@ == c2@,
            (
                CliAction::Report { kind: k1, category: c1, sliding: s1 },
                CliAction::Report { kind: k2, category: c2, sliding: s2 },
            ) => k1 == k2 && s1 == s2 && (match (c1, c2) {
                (Some(x), Some(y)) => x@ == y@,
                (None, None) => true,
                _ => false,
            }),
            (CliAction::System, CliAction::System) => true,
            _ => false,
        }
    }
}

/// A parsed command line: the configuration and the requested action.
#[derive(Debug)]
pub struct RunContext {
    pub config: Config,
    pub action: CliAction,
}

// ---------------------------------------------------------------------------
// Shorthand grammar
// ---------------------------------------------------------------------------

/// A character that may start the category part of an activity shorthand.
pub open spec fn is_word_start(c: char) -> bool {
    (97 <= c as u32 <= 122) || (65 <= c as u32 <= 90) || c == '_'
}

/// A character that may continue the category part.
pub open spec fn is_word_char(c: char) -> bool {
    is_word_start(c) || is_digit_char(c)
}

/// The end of the run of digits that starts at `i`.
pub open spec fn digits_prefix_end(s: Seq<char>, i: int) -> int
    decreases s.len() - i,
{
    if 0 <= i < s.len() && is_digit_char(s[i]) {
        digits_prefix_end(s, i + 1)
    } else {
        i
    }
}

pub proof fn lemma_digits_prefix_end(s: Seq<char>, i: int)
    requires
        0 <= i <= s.len(),
    ensures
        i <= digits_prefix_end(s, i) <= s.len(),
        forall|k: int| i <= k < digits_prefix_end(s, i) ==> is_digit_char(#[trigger] s[k]),
        digits_prefix_end(s, i) < s.len() ==> !is_digit_char(s[digits_prefix_end(s, i)]),
    decreases s.len() - i,
{
    if i < s.len() && is_digit_char(s[i]) {
        lemma_digits_prefix_end(s, i + 1);
    }
}

/// What an activity shorthand such as `16pu` denotes: a run of digits that
/// fits a count, then a category of word characters not starting with a
/// digit.
pub open spec fn spec_parse_activity_token(s: Seq<char>) -> Option<(u32, Seq<char>)> {
    let d = digits_prefix_end(s, 0);
    if 1 <= d < s.len() && is_word_start(s[d]) && (forall|k: int|
        d < k < s.len() ==> is_word_char(#[trigger] s[k])) && digits_val(s.take(d)) <= u32::MAX {
        Some((digits_val(s.take(d)) as u32, s.skip(d)))
    } else {
        None
    }
}

/// What a report shorthand such as `rd` or `rW` denotes.
pub open spec fn spec_parse_report_token(s: Seq<char>) -> Option<ReportKind> {
    if s.len() == 2 && (s[0] == 'r' || s[0] == 'R') {
        if s[1] == 'd' || s[1] == 'D' {
            Some(ReportKind::Day)
        } else if s[1] == 'w' || s[1] == 'W' {
            Some(ReportKind::Week)
        } else if s[1] == 'm' || s[1] == 'M' {
            Some(ReportKind::Month)
        } else {
            None
        }
    } else {
        None
    }
}

fn char_is_word_start(c: char) -> (r: bool)
    ensures
        r == is_word_start(c),
{
    let u: u32 = c as u32;
    (97 <= u && u <= 122) || (65 <= u && u <= 90) || c == '_'
}

fn char_is_word(c: char) -> (r: bool)
    ensures
        r == is_word_char(c),
{
    char_is_word_start(c) || crate::text::char_is_digit(c)
}

/// Parse an activity shorthand (`16pu` means sixteen repetitions of the
/// category `pu`).
pub fn parse_activity(token: &str) -> (r: Result<CliAction, ParseError>)
    ensures
        match spec_parse_activity_token(token@) {
            Some(p) => r matches Ok(a) && action_matches(
                a,
                ActionData::AddActivity { repetitions: p.0, category: p.1 },
            ),
            None => r is Err,
        },
{
    let n: usize = token.unicode_len();
    proof {
        lemma_digits_prefix_end(token@, 0);
    }
    let mut d: usize = 0;
    while d < n && crate::text::char_is_digit(token.get_char(d))
        invariant
            0 <= d <= n,
            n == token@.len(),
            digits_prefix_end(token@, d as int) == digits_prefix_end(token@, 0),
        decreases n - d,
    {
        d = d + 1;
    }
    assert(d as int == digits_prefix_end(token@, 0));
    if d == 0 || d >= n {
        return Err(ParseError::new("unable to parse activity"));
    }
    if !char_is_word_start(token.get_char(d)) {
        return Err(ParseError::new("unable to parse activity"));
    }
    let mut k: usize = d + 1;
    while k < n
        invariant
            d < k <= n,
            n == token@.len(),
            d as int == digits_prefix_end(token@, 0),
            forall|l: int| d < l < k ==> is_word_char(#[trigger] token@[l]),
        decreases n - k,
    {
        if !char_is_word(token.get_char(k)) {
            return Err(ParseError::new("unable to parse activity"));
        }
        k = k + 1;
    }
    let digits = token.substring_char(0, d);
    proof {
        assert(digits@ =~= token@.take(d as int));
        lemma_digits_prefix_end(token@, 0);
        assert(crate::text::all_digits(digits@));
    }
    let repetitions: u32 = match crate::text::parse_u32_str(digits) {
        Some(v) => v,
        None => {
            return Err(ParseError::new("repetition count cannot be parsed"));
        },
    };
    let category = token.substring_char(d, n).to_owned();
    proof {
        assert(category@ =~= token@.skip(d as int));
    }
    Ok(CliAction::AddActivity { repetitions, category })
}

/// Parse a report shorthand (`rd`, `rw`, `rm` for day, week, month).
pub fn parse_report(token: &str) -> (r: Result<CliAction, ParseError>)
    ensures
        match spec_parse_report_token(token@) {
            Some(k) => r matches Ok(a) && action_matches(
                a,
                ActionData::Report { kind: k, category: None, sliding: true },
            ),
            None => r is Err,
        },
{
    let n: usize = token.unicode_len();
    if n != 2 {
        return Err(ParseError::new("unable to parse report shorthand"));
    }
    let c0 = token.get_char(0);
    let c1 = token.get_char(1);
    if !(c0 == 'r' || c0 == 'R') {
        return Err(ParseError::new("unable to parse report shorthand"));
    }
    let kind: ReportKind = if c1 == 'd' || c1 == 'D' {
        ReportKind::Day
    } else if c1 == 'w' || c1 == 'W' {
        ReportKind::Week
    } else if c1 == 'm' || c1 == 'M' {
        ReportKind::Month
    } else {
        return Err(ParseError::new("unable to parse report shorthand"));
    };
    Ok(CliAction::Report { kind, category: None, sliding: true })
}

/// What a bare shorthand token denotes: an activity if it parses as one,
/// else a report shorthand.
pub open spec fn spec_parse_shorthand(s: Seq<char>) -> Option<ActionData> {
    match spec_parse_activity_token(s) {
        Some(p) => Some(ActionData::AddActivity { repetitions: p.0, category: p.1 }),
        None => match spec_parse_report_token(s) {
            Some(k) => Some(ActionData::Report { kind: k, category: None, sliding: true }),
            None => None,
        },
    }
}

/// Parse a bare shorthand token: an activity such as `16pu`, or a report
/// such as `rw`.
pub fn parse_shorthand(token: &str) -> (r: Result<CliAction, ()>)
    ensures
        match spec_parse_shorthand(token@) {
            Some(d) => r matches Ok(a) && action_matches(a, d),
            None => r is Err,
        },
{
    match parse_activity(token) {
        Ok(a) => Ok(a),
        Err(_) => match parse_report(token) {
            Ok(a) => Ok(a),
            Err(_) => Err(()),
        },
    }
}

// ---------------------------------------------------------------------------
// Command line
// ---------------------------------------------------------------------------

/// The flags of the `report` subcommand folded left to right: at most one
/// period flag, and at most one category filter. Unknown tokens, a second
/// period flag and a repeated category are errors.
pub open spec fn spec_report_flags(toks: Seq<Seq<char>>) -> Option<
    (Option<ReportKind>, Option<Seq<char>>),
>
    decreases toks.len(),
{
    if toks.len() == 0 {
        Some((None, None))
    } else {
        let t = toks[0];
        if t == "-d"@ || t == "--day"@ {
            match spec_report_flags(toks.drop_first()) {
                Some(p) => if p.0 is None {
                    Some((Some(ReportKind::Day), p.1))
                } else {
                    None
                },
                None => None,
            }
        } else if t == "-w"@ || t == "--week"@ {
            match spec_report_flags(toks.drop_first()) {
                Some(p) => if p.0 is None {
                    Some((Some(ReportKind::Week), p.1))
                } else {
                    None
                },
                None => None,
            }
        } else if t == "-m"@ || t == "--month"@ {
            match spec_report_flags(toks.drop_first()) {
                Some(p) => if p.0 is None {
                    Some((Some(ReportKind::Month), p.1))
                } else {
                    None
                },
                None => None,
            }
        } else if t.len() > 11 && t.take(11) == "--category="@ {
            match spec_report_flags(toks.drop_first()) {
                Some(p) => if p.1 is None {
                    Some((p.0, Some(t.skip(11))))
                } else {
                    None
                },
                None => None,
            }
        } else if (t == "-c"@ || t == "--category"@) && toks.len() >= 2 {
            match spec_report_flags(toks.skip(2)) {
                Some(p) => if p.1 is None {
                    Some((p.0, Some(toks[1])))
                } else {
                    None
                },
                None => None,
            }
        } else {
            None
        }
    }
}

/// What a whole argument list (program name first) denotes: the `system`,
/// `report` and `log` subcommands, a bare shorthand token, and the system
/// view when no arguments are given.
pub open spec fn spec_parse_cmdline(args: Seq<Seq<char>>) -> Option<ActionData> {
    if args.len() <= 1 {
        Some(ActionData::System)
    } else if args[1] == "system"@ {
        if args.len() == 2 {
            Some(ActionData::System)
        } else {
            None
        }
    } else if args[1] == "report"@ {
        match spec_report_flags(args.skip(2)) {
            Some(p) => Some(
                ActionData::Report {
                    kind: match p.0 {
                        Some(k) => k,
                        None => ReportKind::Month,
                    },
                    category: p.1,
                    sliding: true,
                },
            ),
            None => None,
        }
    } else if args[1] == "log"@ {
        if args.len() == 3 {
            match spec_parse_activity_token(args[2]) {
                Some(p) => Some(ActionData::AddActivity { repetitions: p.0, category: p.1 }),
                None => None,
            }
        } else {
            None
        }
    } else if args.len() == 2 {
        spec_parse_shorthand(args[1])
    } else {
        None
    }
}

/// Parse the report flags, left to right.
fn parse_report_flags(args: &Vec<String>, from: usize) -> (r: Result<
    (Option<ReportKind>, Option<String>),
    ParseError,
>)
    requires
        from <= args@.len(),
    ensures
        match spec_report_flags(args.deep_view().skip(from as int)) {
            Some(p) => r matches Ok(q) && q.0 == p.0 && (match (q.1, p.1) {
                (Some(x), Some(y)) => x@ == y,
                (None, None) => true,
                _ => false,
            }),
            None => r is Err,
        },
    decreases args@.len() - from,
{
    let ghost toks = args.deep_view().skip(from as int);
    proof {
        reveal_strlit("-d");
        reveal_strlit("--day");
        reveal_strlit("-w");
        reveal_strlit("--week");
        reveal_strlit("-m");
        reveal_strlit("--month");
        reveal_strlit("-c");
        reveal_strlit("--category");
        reveal_strlit("--category=");
    }
    if from == args.len() {
        proof {
            assert(toks =~= Seq::<Seq<char>>::empty());
        }
        return Ok((None, None));
    }
    proof {
        assert(args.deep_view()[from as int] == args@[from as int]@);
        assert(toks[0] == args.deep_view()[from as int]);
        assert(toks.drop_first() =~= args.deep_view().skip(from + 1));
        if toks.len() >= 2 {
            assert(toks.skip(2) =~= args.deep_view().skip(from + 2));
            assert(toks[1] == args.deep_view()[from + 1]);
        }
    }
    let t: &String = &args[from];
    let tn: usize = t.as_str().unicode_len();
    if crate::text::str_eq(t.as_str(), "-d") || crate::text::str_eq(t.as_str(), "--day") {
        match parse_report_flags(args, from + 1) {
            Ok(p) => match p.0 {
                Some(_) => Err(ParseError::new("period flag given twice")),
                None => Ok((Some(ReportKind::Day), p.1)),
            },
            Err(e) => Err(e),
        }
    } else if crate::text::str_eq(t.as_str(), "-w") || crate::text::str_eq(t.as_str(), "--week") {
        match parse_report_flags(args, from + 1) {
            Ok(p) => match p.0 {
                Some(_) => Err(ParseError::new("period flag given twice")),
                None => Ok((Some(ReportKind::Week), p.1)),
            },
            Err(e) => Err(e),
        }
    } else if crate::text::str_eq(t.as_str(), "-m") || crate::text::str_eq(t.as_str(), "--month") {
        match parse_report_flags(args, from + 1) {
            Ok(p) => match p.0 {
                Some(_) => Err(ParseError::new("period flag given twice")),
                None => Ok((Some(ReportKind::Month), p.1)),
            },
            Err(e) => Err(e),
        }
    } else if tn > 11 && crate::text::str_eq(t.as_str().substring_char(0, 11), "--category=") {
        proof {
            assert(t@.subrange(0, 11) =~= t@.take(11));
        }
        let value = t.as_str().substring_char(11, tn).to_owned();
        proof {
            assert(value@ =~= t@.skip(11));
        }
        match parse_report_flags(args, from + 1) {
            Ok(p) => match p.1 {
                Some(_) => Err(ParseError::new("category filter given twice")),
                None => Ok((p.0, Some(value))),
            },
            Err(e) => Err(e),
        }
    } else if (crate::text::str_eq(t.as_str(), "-c") || crate::text::str_eq(
        t.as_str(),
        "--category",
    )) && from + 1 < args.len() {
        let value = args[from + 1].clone();
        proof {
            assert(args.deep_view()[from + 1] == args@[from + 1]@);
        }
        match parse_report_flags(args, from + 2) {
            Ok(p) => match p.1 {
                Some(_) => Err(ParseError::new("category filter given twice")),
                None => Ok((p.0, Some(value))),
            },
            Err(e) => Err(e),
        }
    } else {
        Err(ParseError::new("unexpected report argument"))
    }
}

/// Resolve a whole argument list (program name first) into the action it
/// requests.
pub fn parse_cmdline(args: &Vec<String>) -> (r: Result<CliAction, ParseError>)
    ensures
        match spec_parse_cmdline(args.deep_view()) {
            Some(d) => r matches Ok(a) && action_matches(a, d),
            None => r is Err,
        },
{
    proof {
        reveal_strlit("system");
        reveal_strlit("report");
        reveal_strlit("log");
        if args@.len() >= 2 {
            assert(args.deep_view()[1] == args@[1]@);
        }
        if args@.len() >= 3 {
            assert(args.deep_view()[2] == args@[2]@);
        }
    }
    if args.len() <= 1 {
        return Ok(CliAction::System);
    }
    let sub: &String = &args[1];
    if crate::text::str_eq(sub.as_str(), "system") {
        if args.len() == 2 {
            Ok(CliAction::System)
        } else {
            Err(ParseError::new("unexpected arguments after 'system'"))
        }
    } else if crate::text::str_eq(sub.as_str(), "report") {
        proof {
            assert(args.deep_view().skip(2) =~= args.deep_view().skip(2));
        }
        match parse_report_flags(args, 2) {
            Ok(p) => {
                let kind: ReportKind = match p.0 {
                    Some(k) => k,
                    None => ReportKind::Month,
                };
                Ok(CliAction::Report { kind, category: p.1, sliding: true })
            },
            Err(e) => Err(e),
        }
    } else if crate::text::str_eq(sub.as_str(), "log") {
        if args.len() == 3 {
            parse_activity(args[2].as_str())
        } else {
            Err(ParseError::new("'log' takes exactly one activity token"))
        }
    } else if args.len() == 2 {
        match parse_shorthand(sub.as_str()) {
            Ok(a) => Ok(a),
            Err(_) => Err(ParseError::new("could not parse shorthand")),
        }
    } else {
        Err(ParseError::new("unexpected arguments"))
    }
}

// ---------------------------------------------------------------------------
// Run context
// ---------------------------------------------------------------------------

/// Relies on `directories::BaseDirs`: the path of the user's home
/// directory, when one is known and is valid UTF-8.
#[verifier::external_body]
fn home_dir_path() -> (r: Option<String>) {
    directories::BaseDirs::new().and_then(|b| b.home_dir().to_str().map(|s| s.to_string()))
}

/// The default data directory: `.naday` under the user's home directory,
/// when the environment names one.
fn default_data_dir() -> (r: Option<String>)
    ensures
        r matches Some(d) ==> d@.len() >= 7 && d@.skip(d@.len() - 7) == "/.naday"@,
{
    proof {
        reveal_strlit("/.naday");
    }
    match home_dir_path() {
        Some(home) => {
            let mut d = home;
            d.append("/.naday");
            proof {
                assert(d@.skip(d@.len() - 7) =~= "/.naday"@);
            }
            Some(d)
        },
        None => None,
    }
}

impl RunContext {
    /// Build the run context for an explicit data directory: exactly the
    /// action the argument list denotes.
    pub fn assemble(data_dir: String, args: &Vec<String>) -> (r: Result<RunContext, String>)
        ensures
            match spec_parse_cmdline(args.deep_view()) {
                Some(d) => r matches Ok(ctx) && action_matches(ctx.action, d)
                    && ctx.config.data_dir == data_dir,
                None => r is Err,
            },
    {
        match parse_cmdline(args) {
            Ok(action) => Ok(RunContext { config: Config { data_dir }, action }),
            Err(e) => Err(e.message()),
        }
    }

    /// Resolve the argument list (program name first) into a run context
    /// with the default data directory under the user's home. Fails when
    /// the arguments do not parse or no home directory is known.
    pub fn new(args: Vec<String>) -> (r: Result<RunContext, String>)
        ensures
            spec_parse_cmdline(args.deep_view()) is None ==> r is Err,
            r matches Ok(ctx) ==> (spec_parse_cmdline(args.deep_view()) matches Some(d)
                && action_matches(ctx.action, d)),
    {
        match default_data_dir() {
            Some(data_dir) => RunContext::assemble(data_dir, &args),
            None => Err(String::from_str("no home directory is known")),
        }
    }
}

} // verus!
