use crate::date::{date_le, Date, Timestamp};
use crate::error::ParseError;
use crate::model::Activity;
use crate::text::{
    all_digits, dec_digits, digits_val, is_space_char, parse_u32_spec, spec_split, spec_trim,
    spec_zero_pad,
};
use vstd::prelude::*;
use vstd::string::*;

verus! {

// ---------------------------------------------------------------------------
// Timestamp codec: `YYYY-MM-DD HH:MM:SS`
// ---------------------------------------------------------------------------

pub open spec fn spec_two_digits(n: int) -> Seq<char> {
    spec_zero_pad(dec_digits(n as nat), 2)
}

/// The stored text of a timestamp.
pub open spec fn spec_ts_render(t: Timestamp) -> Seq<char> {
    spec_zero_pad(dec_digits(t.date.year as nat), 4) + seq!['-'] + spec_two_digits(
        t.date.month as int,
    ) + seq!['-'] + spec_two_digits(t.date.day as int) + seq![' '] + spec_two_digits(t.hour as int)
        + seq![':'] + spec_two_digits(t.minute as int) + seq![':'] + spec_two_digits(t.second as int)
}

/// Render a timestamp for storage.
pub fn ts2str(t: &Timestamp) -> (r: String)
    ensures
        r@ == spec_ts_render(*t),
{
    let mut r = crate::text::pad_num_u64(t.date.year as u64, 4);
    crate::text::push_char(&mut r, '-');
    let p = crate::text::pad_num_u64(t.date.month as u64, 2);
    r.append(p.as_str());
    crate::text::push_char(&mut r, '-');
    let p = crate::text::pad_num_u64(t.date.day as u64, 2);
    r.append(p.as_str());
    crate::text::push_char(&mut r, ' ');
    let p = crate::text::pad_num_u64(t.hour as u64, 2);
    r.append(p.as_str());
    crate::text::push_char(&mut r, ':');
    let p = crate::text::pad_num_u64(t.minute as u64, 2);
    r.append(p.as_str());
    crate::text::push_char(&mut r, ':');
    let p = crate::text::pad_num_u64(t.second as u64, 2);
    r.append(p.as_str());
    proof {
        assert(r@ =~= spec_ts_render(*t));
    }
    r
}

/// The timestamp a stored field denotes: exactly nineteen characters in the
/// fixed numeric layout, and the fields must form a real calendar date and
/// clock time.
pub open spec fn spec_parse_ts(s: Seq<char>) -> Option<Timestamp> {
    if s.len() == 19 && all_digits(s.subrange(0, 4)) && s[4] == '-' && all_digits(
        s.subrange(5, 7),
    ) && s[7] == '-' && all_digits(s.subrange(8, 10)) && s[10] == ' ' && all_digits(
        s.subrange(11, 13),
    ) && s[13] == ':' && all_digits(s.subrange(14, 16)) && s[16] == ':' && all_digits(
        s.subrange(17, 19),
    ) {
        let t = Timestamp {
            date: Date {
                year: digits_val(s.subrange(0, 4)) as u16,
                month: digits_val(s.subrange(5, 7)) as u8,
                day: digits_val(s.subrange(8, 10)) as u8,
            },
            hour: digits_val(s.subrange(11, 13)) as u8,
            minute: digits_val(s.subrange(14, 16)) as u8,
            second: digits_val(s.subrange(17, 19)) as u8,
        };
        if t.valid() {
            Some(t)
        } else {
            None
        }
    } else {
        None
    }
}

/// Parse one two- or four-digit numeric field of the timestamp.
fn ts_field(s: &str, from: usize, to: usize, bound: u64) -> (r: Option<u64>)
    requires
        from <= to <= s@.len(),
        bound == 9999 || bound == 99,
        to - from <= (if bound == 9999 {
            4int
        } else {
            2int
        }),
    ensures
        r == (if all_digits(s@.subrange(from as int, to as int)) {
            Some(digits_val(s@.subrange(from as int, to as int)) as u64)
        } else {
            None::<u64>
        }),
{
    let f = s.substring_char(from, to);
    let r = crate::text::parse_digits_u64(f, bound);
    proof {
        if all_digits(f@) {
            crate::text::lemma_digits_val_len_bound(f@);
        }
    }
    r
}

/// Parse a stored timestamp field.
pub fn str2ts(s: &str) -> (r: Option<Timestamp>)
    ensures
        r == spec_parse_ts(s@),
{
    let n: usize = s.unicode_len();
    if n != 19 {
        return None;
    }
    if !(s.get_char(4) == '-' && s.get_char(7) == '-' && s.get_char(10) == ' ' && s.get_char(13)
        == ':' && s.get_char(16) == ':') {
        return None;
    }
    let year = match ts_field(s, 0, 4, 9999) {
        Some(v) => v,
        None => {
            return None;
        },
    };
    let month = match ts_field(s, 5, 7, 99) {
        Some(v) => v,
        None => {
            return None;
        },
    };
    let day = match ts_field(s, 8, 10, 99) {
        Some(v) => v,
        None => {
            return None;
        },
    };
    let hour = match ts_field(s, 11, 13, 99) {
        Some(v) => v,
        None => {
            return None;
        },
    };
    let minute = match ts_field(s, 14, 16, 99) {
        Some(v) => v,
        None => {
            return None;
        },
    };
    let second = match ts_field(s, 17, 19, 99) {
        Some(v) => v,
        None => {
            return None;
        },
    };
    proof {
        crate::text::lemma_digits_val_len_bound(s@.subrange(0, 4));
        crate::text::lemma_digits_val_len_bound(s@.subrange(5, 7));
        crate::text::lemma_digits_val_len_bound(s@.subrange(8, 10));
        crate::text::lemma_digits_val_len_bound(s@.subrange(11, 13));
        crate::text::lemma_digits_val_len_bound(s@.subrange(14, 16));
        crate::text::lemma_digits_val_len_bound(s@.subrange(17, 19));
    }
    let t = Timestamp {
        date: Date { year: year as u16, month: month as u8, day: day as u8 },
        hour: hour as u8,
        minute: minute as u8,
        second: second as u8,
    };
    if crate::date::timestamp_valid(&t) {
        Some(t)
    } else {
        None
    }
}

// ---------------------------------------------------------------------------
// Activity line codec: `timestamp;reps;category`
// ---------------------------------------------------------------------------

/// What one well-formed activity line denotes.
pub struct ActivityData {
    pub timestamp: Timestamp,
    pub reps: u32,
    pub category: Seq<char>,
}

/// The activity denoted by a repetition field: decimal digits after an
/// optional plus sign.
pub open spec fn spec_reps_field(t: Seq<char>) -> Option<u32> {
    if t.len() > 0 && t[0] == '+' {
        parse_u32_spec(t.drop_first())
    } else {
        parse_u32_spec(t)
    }
}

/// The activity denoted by a stored line: semicolon-separated timestamp and
/// repetitions (both trimmed), and the trimmed free-text category, empty when
/// the field is missing. Fields past the third are ignored.
pub open spec fn spec_parse_activity_line(line: Seq<char>) -> Option<ActivityData> {
    let pieces = spec_split(line, ';');
    let ts = spec_parse_ts(spec_trim(pieces[0]));
    if pieces.len() < 2 || ts is None {
        None
    } else {
        let reps = spec_reps_field(spec_trim(pieces[1]));
        if reps is None {
            None
        } else {
            let cat = if pieces.len() >= 3 {
                spec_trim(pieces[2])
            } else {
                Seq::empty()
            };
            Some(ActivityData { timestamp: ts.unwrap(), reps: reps.unwrap(), category: cat })
        }
    }
}

/// The executable result carries the same data as the specification-level
/// one.
pub open spec fn activity_matches(a: Activity, d: ActivityData) -> bool {
    a.timestamp == d.timestamp && a.reps == d.reps && a.category@ == d.category
}

/// Parse one data line of an activity file.
pub fn parse_activity(line: &str) -> (r: Result<Activity, ParseError>)
    ensures
        match spec_parse_activity_line(line@) {
            Some(d) => r matches Ok(a) && activity_matches(a, d),
            None => r is Err,
        },
{
    let pieces = crate::text::split_str(line, ';');
    proof {
        crate::text::lemma_spec_split_len_pub(line@, ';');
        assert(pieces.deep_view()[0] == pieces[0]@);
    }
    let ts_field_str = crate::text::trim(pieces[0].as_str());
    let timestamp = match str2ts(ts_field_str) {
        Some(t) => t,
        None => {
            return Err(ParseError::new("activity timestamp cannot be parsed"));
        },
    };
    if pieces.len() < 2 {
        return Err(ParseError::new("no repetitions found"));
    }
    proof {
        assert(pieces.deep_view()[1] == pieces[1]@);
    }
    let reps_field = crate::text::trim(pieces[1].as_str());
    let rn: usize = reps_field.unicode_len();
    let digits = if rn > 0 && reps_field.get_char(0) == '+' {
        reps_field.substring_char(1, rn)
    } else {
        reps_field
    };
    proof {
        if reps_field@.len() > 0 && reps_field@[0] == '+' {
            assert(digits@ =~= reps_field@.drop_first());
        }
    }
    let reps = match crate::text::parse_u32_str(digits) {
        Some(v) => v,
        None => {
            return Err(ParseError::new("repetitions cannot be parsed as a whole number"));
        },
    };
    let category: String = if pieces.len() >= 3 {
        proof {
            assert(pieces.deep_view()[2] == pieces[2]@);
        }
        crate::text::trim(pieces[2].as_str()).to_owned()
    } else {
        String::new()
    };
    Ok(Activity { timestamp, category, reps })
}

/// The stored line for an activity.
pub open spec fn spec_activity_line(a: Activity) -> Seq<char> {
    spec_ts_render(a.timestamp) + seq![';'] + dec_digits(a.reps as nat) + seq![';'] + a.category@
}

/// Render an activity as one storage line (without the line break).
pub fn render_activity_line(a: &Activity) -> (r: String)
    ensures
        r@ == spec_activity_line(*a),
{
    let mut r = ts2str(&a.timestamp);
    crate::text::push_char(&mut r, ';');
    let reps = crate::text::u32_to_string(a.reps);
    r.append(reps.as_str());
    crate::text::push_char(&mut r, ';');
    r.append(a.category.as_str());
    proof {
        assert(r@ =~= spec_activity_line(*a));
    }
    r
}

// ---------------------------------------------------------------------------
// Activity file codec
// ---------------------------------------------------------------------------

/// The first line of every activity file names the format version.
pub open spec fn spec_activities_preamble() -> Seq<char> {
    "naday activities v1"@
}

/// A data line that carries nothing: blank, or a comment.
pub open spec fn spec_is_skippable(t: Seq<char>) -> bool {
    t.len() == 0 || t[0] == '#'
}

/// The activities the data lines carry, and the trimmed lines that parse as
/// no activity and are skipped.
pub open spec fn spec_collect_activities(lines: Seq<Seq<char>>) -> (Seq<ActivityData>, Seq<
    Seq<char>,
>)
    decreases lines.len(),
{
    if lines.len() == 0 {
        (Seq::empty(), Seq::empty())
    } else {
        let prev = spec_collect_activities(lines.drop_last());
        let t = spec_trim(lines.last());
        if spec_is_skippable(t) {
            prev
        } else {
            match spec_parse_activity_line(t) {
                Some(d) => (prev.0.push(d), prev.1),
                None => (prev.0, prev.1.push(t)),
            }
        }
    }
}

/// What a whole activity file denotes: nothing when it is empty or its first
/// line is not the format preamble (a fatal error), otherwise the activities
/// of its well-formed data lines together with the skipped malformed lines.
pub open spec fn spec_parse_activities(contents: Seq<char>) -> Option<(Seq<ActivityData>, Seq<
    Seq<char>,
>)> {
    if contents.len() == 0 {
        None
    } else {
        let pieces = spec_split(contents, '\n');
        if spec_trim(pieces[0]) != spec_activities_preamble() {
            None
        } else {
            Some(spec_collect_activities(pieces.drop_first()))
        }
    }
}

/// The outcome of reading one activity file: the activities of its
/// well-formed lines and the malformed lines that were skipped, which callers
/// report as warnings.
pub struct ParsedActivities {
    pub activities: Vec<Activity>,
    pub skipped: Vec<String>,
}

/// Parse the full contents of one activity file. A missing or wrong preamble
/// is fatal; a malformed data line is skipped, and well-formed lines around
/// it are still returned.
pub fn parse_activities(contents: &str) -> (r: Result<ParsedActivities, ParseError>)
    ensures
        match spec_parse_activities(contents@) {
            Some(p) => r matches Ok(pa) && pa.activities@.len() == p.0.len() && (forall|k: int|
                0 <= k < p.0.len() ==> activity_matches(#[trigger] pa.activities@[k], p.0[k]))
                && pa.skipped.deep_view() == p.1,
            None => r is Err,
        },
{
    let n: usize = contents.unicode_len();
    if n == 0 {
        return Err(ParseError::new("file seems to be empty"));
    }
    let pieces = crate::text::split_str(contents, '\n');
    proof {
        crate::text::lemma_spec_split_len_pub(contents@, '\n');
        assert(pieces.deep_view()[0] == pieces[0]@);
    }
    let first = crate::text::trim(pieces[0].as_str());
    proof {
        reveal_strlit("naday activities v1");
    }
    if !crate::text::str_eq(first, "naday activities v1") {
        return Err(ParseError::new("no valid preamble found - unable to determine file format"));
    }
    let ghost lines = spec_split(contents@, '\n').drop_first();
    let mut activities: Vec<Activity> = Vec::new();
    let mut skipped: Vec<String> = Vec::new();
    let mut i: usize = 1;
    proof {
        assert(lines.take(0) =~= Seq::<Seq<char>>::empty());
    }
    while i < pieces.len()
        invariant
            1 <= i <= pieces.len(),
            pieces.deep_view() == spec_split(contents@, '\n'),
            lines == spec_split(contents@, '\n').drop_first(),
            pieces@.len() == lines.len() + 1,
            activities@.len() == spec_collect_activities(lines.take(i - 1)).0.len(),
            forall|k: int|
                0 <= k < activities@.len() ==> activity_matches(
                    #[trigger] activities@[k],
                    spec_collect_activities(lines.take(i - 1)).0[k],
                ),
            skipped.deep_view() == spec_collect_activities(lines.take(i - 1)).1,
        decreases pieces.len() - i,
    {
        proof {
            assert(pieces.deep_view()[i as int] == pieces[i as int]@);
            assert(lines.take(i as int).drop_last() =~= lines.take(i - 1));
            assert(lines.take(i as int).last() == lines[i - 1]);
            assert(lines[i - 1] == pieces.deep_view()[i as int]);
        }
        let ghost prev = spec_collect_activities(lines.take(i - 1));
        let line = crate::text::trim(pieces[i].as_str());
        let ln: usize = line.unicode_len();
        if ln == 0 || line.get_char(0) == '#' {
            // blank line or comment
        } else {
            match parse_activity(line) {
                Ok(a) => {
                    activities.push(a);
                    proof {
                        assert(activities@.drop_last() =~= activities@.take(
                            activities@.len() - 1,
                        ));
                    }
                },
                Err(_) => {
                    skipped.push(line.to_owned());
                    proof {
                        assert(skipped.deep_view() =~~= prev.1.push(spec_trim(
                            pieces.deep_view()[i as int],
                        )));
                    }
                },
            }
        }
        i = i + 1;
    }
    proof {
        assert(lines.take(pieces@.len() - 1) =~= lines);
    }
    Ok(ParsedActivities { activities, skipped })
}

/// The comment lines written into a fresh activity file after the preamble.
pub open spec fn spec_activity_header() -> Seq<char> {
    "naday activities v1\n# List of recorded activities.\n# Lines beginning with '#' are comments and are ignored.\n# The remaining lines are plain CSV, with one recorded activity per line.\n# Separator character is ';', encoding is UTF-8.\n# Columns: timestamp (local time zone) ; number of repetitions ; category (exercise)\n"@
}

/// The text a fresh activity file starts with: the preamble line and the
/// comment lines describing the format.
pub fn activity_file_header() -> (r: String)
    ensures
        r@ == spec_activity_header(),
{
    let h =
        "naday activities v1\n# List of recorded activities.\n# Lines beginning with '#' are comments and are ignored.\n# The remaining lines are plain CSV, with one recorded activity per line.\n# Separator character is ';', encoding is UTF-8.\n# Columns: timestamp (local time zone) ; number of repetitions ; category (exercise)\n";
    proof {
        reveal_strlit(
            "naday activities v1\n# List of recorded activities.\n# Lines beginning with '#' are comments and are ignored.\n# The remaining lines are plain CSV, with one recorded activity per line.\n# Separator character is ';', encoding is UTF-8.\n# Columns: timestamp (local time zone) ; number of repetitions ; category (exercise)\n",
        );
    }
    h.to_owned()
}

// ---------------------------------------------------------------------------
// Log file paths
// ---------------------------------------------------------------------------

/// The log file holding a month's activities: `<dir>/YYYY-MM.txt`.
pub open spec fn spec_month_file(dir: Seq<char>, y: int, m: int) -> Seq<char> {
    dir + seq!['/'] + spec_zero_pad(dec_digits(y as nat), 4) + seq!['-'] + spec_two_digits(m)
        + ".txt"@
}

/// The path of the log file that holds the given date's activities.
pub fn path_for_date(date: &Date, data_dir: &str) -> (r: String)
    ensures
        r@ == spec_month_file(data_dir@, date.year as int, date.month as int),
{
    month_file(date.year, date.month, data_dir)
}

fn month_file(y: u16, m: u8, data_dir: &str) -> (r: String)
    ensures
        r@ == spec_month_file(data_dir@, y as int, m as int),
{
    let mut r = data_dir.to_owned();
    crate::text::push_char(&mut r, '/');
    let p = crate::text::pad_num_u64(y as u64, 4);
    r.append(p.as_str());
    crate::text::push_char(&mut r, '-');
    let p = crate::text::pad_num_u64(m as u64, 2);
    r.append(p.as_str());
    r.append(".txt");
    proof {
        reveal_strlit(".txt");
        assert(r@ =~= spec_month_file(data_dir@, y as int, m as int));
    }
    r
}

/// The paths of all log files a date range spans, each month's file once, in
/// chronological order.
pub open spec fn spec_month_files(dir: Seq<char>, y: int, m: int, ey: int, em: int) -> Seq<
    Seq<char>,
>
    decreases ey * 12 + em - y * 12 - m,
{
    if y * 12 + m >= ey * 12 + em {
        seq![spec_month_file(dir, y, m)]
    } else if m == 12 {
        seq![spec_month_file(dir, y, m)] + spec_month_files(dir, y + 1, 1, ey, em)
    } else {
        seq![spec_month_file(dir, y, m)] + spec_month_files(dir, y, m + 1, ey, em)
    }
}

/// The log files to read for an inclusive date range. The walk is one
/// calendar month at a time, so a file is named once however many days of it
/// the range covers.
pub fn paths_for_range(start: &Date, end: &Date, data_dir: &str) -> (r: Vec<String>)
    requires
        start.valid(),
        end.valid(),
        date_le(*start, *end),
    ensures
        r.deep_view() == spec_month_files(
            data_dir@,
            start.year as int,
            start.month as int,
            end.year as int,
            end.month as int,
        ),
{
    proof {
        crate::date::lemma_month_order(*start, *end);
    }
    let ghost full = spec_month_files(
        data_dir@,
        start.year as int,
        start.month as int,
        end.year as int,
        end.month as int,
    );
    let ey: u16 = end.year;
    let em: u8 = end.month;
    let mut y: u16 = start.year;
    let mut m: u8 = start.month;
    let mut r: Vec<String> = Vec::new();
    proof {
        assert(r.deep_view() + spec_month_files(data_dir@, y as int, m as int, ey as int, em as int)
            =~= full);
    }
    loop
        invariant_except_break
            1 <= m <= 12,
            y as int * 12 + m <= ey as int * 12 + em,
            1 <= em <= 12,
            ey == end.year,
            em == end.month,
            ey <= 9999,
            r.deep_view() + spec_month_files(
                data_dir@,
                y as int,
                m as int,
                ey as int,
                em as int,
            ) == full,
        ensures
            r.deep_view() == full,
        decreases ey as int * 12 + em - y as int * 12 - m,
    {
        let ghost pre = r.deep_view();
        let p = month_file(y, m, data_dir);
        r.push(p);
        proof {
            assert(r.deep_view() =~~= pre.push(spec_month_file(data_dir@, y as int, m as int)));
        }
        if y == ey && m == em {
            proof {
                assert(spec_month_files(data_dir@, y as int, m as int, ey as int, em as int)
                    =~= seq![spec_month_file(data_dir@, y as int, m as int)]);
                assert(r.deep_view() =~= full);
            }
            break ;
        }
        let ghost oy = y as int;
        let ghost om = m as int;
        if m == 12 {
            proof {
                if y == ey {
                    assert(false);
                }
            }
            m = 1;
            y = y + 1;
        } else {
            m = m + 1;
        }
        proof {
            assert(spec_month_files(data_dir@, oy, om, ey as int, em as int)
                =~= seq![spec_month_file(data_dir@, oy, om)] + spec_month_files(
                data_dir@,
                y as int,
                m as int,
                ey as int,
                em as int,
            ));
            assert(r.deep_view() + spec_month_files(
                data_dir@,
                y as int,
                m as int,
                ey as int,
                em as int,
            ) =~= full);
        }
    }
    r
}

// ---------------------------------------------------------------------------
// Date-range filter
// ---------------------------------------------------------------------------

/// The activities whose dates fall in the inclusive range, in their original
/// order.
pub open spec fn spec_filter_range(acts: Seq<Activity>, start: Date, end: Date) -> Seq<Activity>
    decreases acts.len(),
{
    if acts.len() == 0 {
        Seq::empty()
    } else {
        let prev = spec_filter_range(acts.drop_last(), start, end);
        let a = acts.last();
        if date_le(start, a.timestamp.date) && date_le(a.timestamp.date, end) {
            prev.push(a)
        } else {
            prev
        }
    }
}

/// Keep the activities whose timestamp's date lies in the inclusive range.
pub fn filter_range(acts: &Vec<Activity>, start: &Date, end: &Date) -> (r: Vec<Activity>)
    requires
        start.valid(),
        end.valid(),
        forall|k: int| 0 <= k < acts@.len() ==> (#[trigger] acts@[k]).timestamp.valid(),
    ensures
        r@ == spec_filter_range(acts@, *start, *end),
{
    let mut r: Vec<Activity> = Vec::new();
    proof {
        assert(acts@.take(0) =~= Seq::<Activity>::empty());
    }
    let mut i: usize = 0;
    while i < acts.len()
        invariant
            0 <= i <= acts@.len(),
            forall|k: int| 0 <= k < acts@.len() ==> (#[trigger] acts@[k]).timestamp.valid(),
            r@ == spec_filter_range(acts@.take(i as int), *start, *end),
            start.valid(),
            end.valid(),
        decreases acts@.len() - i,
    {
        proof {
            assert(acts@.take(i + 1).drop_last() =~= acts@.take(i as int));
            assert(acts@.take(i + 1).last() == acts@[i as int]);
        }
        let a = &acts[i];
        if crate::date::date_le_exec(start, &a.timestamp.date) && crate::date::date_le_exec(
            &a.timestamp.date,
            end,
        ) {
            let copy = duplicate_activity(a);
            r.push(copy);
        }
        i = i + 1;
    }
    proof {
        assert(acts@.take(acts@.len() as int) =~= acts@);
    }
    r
}

/// A structurally equal copy of the activity.
fn duplicate_activity(a: &Activity) -> (r: Activity)
    ensures
        r == *a,
{
    Activity { timestamp: a.timestamp, category: a.category.clone(), reps: a.reps }
}

} // verus!


verus! {

/// The field positions of a rendered timestamp.
#[verifier::rlimit(100)]
proof fn lemma_ts_render_fields(t: Timestamp)
    requires
        t.valid(),
    ensures
        spec_ts_render(t).len() == 19,
        spec_ts_render(t).subrange(0, 4) == spec_zero_pad(dec_digits(t.date.year as nat), 4),
        spec_ts_render(t)[4] == '-',
        spec_ts_render(t).subrange(5, 7) == spec_two_digits(t.date.month as int),
        spec_ts_render(t)[7] == '-',
        spec_ts_render(t).subrange(8, 10) == spec_two_digits(t.date.day as int),
        spec_ts_render(t)[10] == ' ',
        spec_ts_render(t).subrange(11, 13) == spec_two_digits(t.hour as int),
        spec_ts_render(t)[13] == ':',
        spec_ts_render(t).subrange(14, 16) == spec_two_digits(t.minute as int),
        spec_ts_render(t)[16] == ':',
        spec_ts_render(t).subrange(17, 19) == spec_two_digits(t.second as int),
        all_digits(spec_ts_render(t).subrange(0, 4)),
        all_digits(spec_ts_render(t).subrange(5, 7)),
        all_digits(spec_ts_render(t).subrange(8, 10)),
        all_digits(spec_ts_render(t).subrange(11, 13)),
        all_digits(spec_ts_render(t).subrange(14, 16)),
        all_digits(spec_ts_render(t).subrange(17, 19)),
        digits_val(spec_ts_render(t).subrange(0, 4)) == t.date.year as int,
        digits_val(spec_ts_render(t).subrange(5, 7)) == t.date.month as int,
        digits_val(spec_ts_render(t).subrange(8, 10)) == t.date.day as int,
        digits_val(spec_ts_render(t).subrange(11, 13)) == t.hour as int,
        digits_val(spec_ts_render(t).subrange(14, 16)) == t.minute as int,
        digits_val(spec_ts_render(t).subrange(17, 19)) == t.second as int,
{
    let p4 = spec_zero_pad(dec_digits(t.date.year as nat), 4);
    let mo = spec_two_digits(t.date.month as int);
    let dd = spec_two_digits(t.date.day as int);
    let hh = spec_two_digits(t.hour as int);
    let mi = spec_two_digits(t.minute as int);
    let ss = spec_two_digits(t.second as int);
    let ts = spec_ts_render(t);
    crate::text::lemma_dec_digits_props(t.date.year as nat);
    crate::text::lemma_dec_digits_len(t.date.year as nat);
    crate::text::lemma_zero_pad_value(dec_digits(t.date.year as nat), 4);
    lemma_two_digits(t.date.month as int);
    lemma_two_digits(t.date.day as int);
    lemma_two_digits(t.hour as int);
    lemma_two_digits(t.minute as int);
    lemma_two_digits(t.second as int);
    crate::text::lemma_dec_digits_props(t.date.year as nat);
    let u1 = p4 + seq!['-'];
    let u2 = u1 + mo;
    let u3 = u2 + seq!['-'];
    let u4 = u3 + dd;
    let u5 = u4 + seq![' '];
    let u6 = u5 + hh;
    let u7 = u6 + seq![':'];
    let u8 = u7 + mi;
    let u9 = u8 + seq![':'];
    assert(ts == u9 + ss);
    assert(p4.len() == 4 && mo.len() == 2 && dd.len() == 2 && hh.len() == 2 && mi.len() == 2
        && ss.len() == 2);
    assert(u1.len() == 5 && u2.len() == 7 && u3.len() == 8 && u4.len() == 10 && u5.len() == 11
        && u6.len() == 13 && u7.len() == 14 && u8.len() == 16 && u9.len() == 17 && ts.len() == 19);
    assert(ts.subrange(0, 4) =~= p4);
    assert(ts[4] == '-');
    assert(ts.subrange(5, 7) =~= mo);
    assert(ts[7] == '-');
    assert(ts.subrange(8, 10) =~= dd);
    assert(ts[10] == ' ');
    assert(ts.subrange(11, 13) =~= hh);
    assert(ts[13] == ':');
    assert(ts.subrange(14, 16) =~= mi);
    assert(ts[16] == ':');
    assert(ts.subrange(17, 19) =~= ss);
}

/// A rendered timestamp parses back to the same timestamp.
#[verifier::rlimit(100)]
proof fn lemma_ts_render_parses(t: Timestamp)
    requires
        t.valid(),
    ensures
        spec_parse_ts(spec_ts_render(t)) == Some(t),
{
    let ts = spec_ts_render(t);
    lemma_ts_render_fields(t);
    assert(spec_parse_ts(ts) == Some(t));
}

/// Every character of a rendered timestamp is a digit or one of its fixed
/// separators; none is a semicolon, a line break or edge whitespace.
#[verifier::rlimit(100)]
proof fn lemma_ts_render_chars(t: Timestamp)
    requires
        t.valid(),
    ensures
        spec_ts_render(t).len() == 19,
        forall|i: int|
            0 <= i < spec_ts_render(t).len() ==> #[trigger] spec_ts_render(t)[i] != ';'
                && spec_ts_render(t)[i] != '\n',
        !is_space_char(spec_ts_render(t)[0]),
        !is_space_char(spec_ts_render(t)[18]),
{
    let ts = spec_ts_render(t);
    lemma_ts_render_fields(t);
    assert forall|i: int| 0 <= i < ts.len() implies #[trigger] ts[i] != ';' && ts[i]
        != '\n' by {
        if i < 4 {
            assert(ts[i] == ts.subrange(0, 4)[i]);
            assert(crate::text::is_digit_char(ts[i]));
        } else if i == 4 || i == 7 || i == 10 || i == 13 || i == 16 {
        } else if i < 7 {
            assert(ts[i] == ts.subrange(5, 7)[i - 5]);
            assert(crate::text::is_digit_char(ts[i]));
        } else if i < 10 {
            assert(ts[i] == ts.subrange(8, 10)[i - 8]);
            assert(crate::text::is_digit_char(ts[i]));
        } else if i < 13 {
            assert(ts[i] == ts.subrange(11, 13)[i - 11]);
            assert(crate::text::is_digit_char(ts[i]));
        } else if i < 16 {
            assert(ts[i] == ts.subrange(14, 16)[i - 14]);
            assert(crate::text::is_digit_char(ts[i]));
        } else {
            assert(ts[i] == ts.subrange(17, 19)[i - 17]);
            assert(crate::text::is_digit_char(ts[i]));
        }
    }
    assert(ts[0] == ts.subrange(0, 4)[0] && crate::text::is_digit_char(ts[0]));
    assert(ts[18] == ts.subrange(17, 19)[1] && crate::text::is_digit_char(ts[18]));
}

/// Every character of a rendered timestamp is a digit or one of its fixed
/// separators, and the whole reads back as the same timestamp.
proof fn lemma_ts_render_shape(t: Timestamp)
    requires
        t.valid(),
    ensures
        spec_ts_render(t).len() == 19,
        spec_parse_ts(spec_ts_render(t)) == Some(t),
        forall|i: int|
            0 <= i < spec_ts_render(t).len() ==> #[trigger] spec_ts_render(t)[i] != ';'
                && spec_ts_render(t)[i] != '\n',
        !is_space_char(spec_ts_render(t)[0]),
        !is_space_char(spec_ts_render(t)[18]),
{
    lemma_ts_render_parses(t);
    lemma_ts_render_chars(t);
}

/// A two-digit field holds its value.
proof fn lemma_two_digits(n: int)
    requires
        0 <= n <= 99,
    ensures
        spec_two_digits(n).len() == 2,
        all_digits(spec_two_digits(n)),
        digits_val(spec_two_digits(n)) == n,
{
    crate::text::lemma_dec_digits_props(n as nat);
    crate::text::lemma_dec_digits_len(n as nat);
    crate::text::lemma_zero_pad_value(dec_digits(n as nat), 2);
}

/// Appending an activity to the store and reading the same day back
/// yields the activity unchanged. At the line level: an activity whose
/// category has no semicolon, no line break and no whitespace at its edges
/// reads back from its rendered line exactly, at the stored one-second
/// resolution.
#[verifier::rlimit(100)]
#[verifier::spinoff_prover]
pub proof fn lemma_activity_line_round_trip(a: Activity)
    requires
        a.timestamp.valid(),
        spec_trim(a.category@) == a.category@,
        forall|i: int|
            0 <= i < a.category@.len() ==> #[trigger] a.category@[i] != ';' && a.category@[i]
                != '\n',
    ensures
        spec_parse_activity_line(spec_activity_line(a)) matches Some(d) && d.timestamp
            == a.timestamp && d.reps == a.reps && d.category == a.category@,
{
    let ts = spec_ts_render(a.timestamp);
    let reps = dec_digits(a.reps as nat);
    let line = spec_activity_line(a);
    lemma_ts_render_shape(a.timestamp);
    crate::text::lemma_dec_digits_props(a.reps as nat);
    // the three fields, split at the semicolons
    crate::text::lemma_split_no_sep(ts, ';');
    assert((ts + seq![';']) =~= ts.push(';'));
    crate::text::lemma_split_push_sep(ts, ';');
    assert(spec_split(ts + seq![';'], ';') =~= seq![ts, Seq::<char>::empty()]);
    assert(forall|i: int| 0 <= i < reps.len() ==> #[trigger] reps[i] != ';') by {
        assert forall|i: int| 0 <= i < reps.len() implies #[trigger] reps[i] != ';' by {
            assert(crate::text::is_digit_char(reps[i]));
        }
    }
    crate::text::lemma_split_extend_no_sep(ts + seq![';'], reps, ';');
    assert(spec_split(ts + seq![';'] + reps, ';') =~= seq![ts, reps]);
    assert((ts + seq![';'] + reps + seq![';']) =~= (ts + seq![';'] + reps).push(';'));
    crate::text::lemma_split_push_sep(ts + seq![';'] + reps, ';');
    assert(spec_split(ts + seq![';'] + reps + seq![';'], ';') =~= seq![
        ts,
        reps,
        Seq::<char>::empty(),
    ]);
    crate::text::lemma_split_extend_no_sep(ts + seq![';'] + reps + seq![';'], a.category@, ';');
    assert(line =~= ts + seq![';'] + reps + seq![';'] + a.category@);
    assert(spec_split(line, ';') =~= seq![ts, reps, a.category@]);
    // trimming leaves every field unchanged
    assert(!is_space_char(';')) by {
        assert(';' as u32 == 59);
    }
    crate::text::lemma_trim_noop(ts);
    assert(reps.len() > 0 && crate::text::is_digit_char(reps[0]) && crate::text::is_digit_char(
        reps[reps.len() - 1],
    ));
    crate::text::lemma_trim_noop(reps);
    // the repetition field parses back to the same count
    assert(reps[0] != '+') by {
        assert(crate::text::is_digit_char(reps[0]));
    }
    assert(spec_reps_field(spec_trim(reps)) == Some(a.reps));
    assert(spec_parse_activity_line(line) matches Some(d) && d.timestamp == a.timestamp && d.reps
        == a.reps && d.category == a.category@);
}

} // verus!
