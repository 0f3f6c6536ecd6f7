pub mod category_lookup;

pub use category_lookup::CategoryLookup;

use crate::date::{days_in_month, Date, Timestamp};
use crate::text::{all_digits, dec_digits, digit_char, digits_val, spec_split};
use vstd::prelude::*;
use vstd::string::*;

verus! {

// ---------------------------------------------------------------------------
// Config
// ---------------------------------------------------------------------------

/// Where the activity log and the category definitions live.
#[derive(Debug)]
pub struct Config {
    pub data_dir: String,
}

// ---------------------------------------------------------------------------
// Weight
// ---------------------------------------------------------------------------

/// How many units of weight make one whole: weights are decimal numbers with
/// at most four fractional digits, held as a scaled integer.
pub const WEIGHT_SCALE: u64 = 10000;

/// The per-repetition weight of a category, used to normalize disparate
/// exercises into one comparable total. A value of `scaled` stands for the
/// decimal number `scaled / 10000`.
#[derive(PartialEq, Eq, Structural, Debug, Clone, Copy)]
pub struct Weight {
    pub scaled: u64,
}

/// The fractional digits of a weight, zero-padded to four places with the
/// trailing zeros removed. Defined for `1 <= f <= 9999`.
pub open spec fn spec_weight_frac(f: int) -> Seq<char> {
    let d1 = digit_char(f / 1000);
    let d2 = digit_char((f / 100) % 10);
    let d3 = digit_char((f / 10) % 10);
    let d4 = digit_char(f % 10);
    if f % 10 != 0 {
        seq![d1, d2, d3, d4]
    } else if (f / 10) % 10 != 0 {
        seq![d1, d2, d3]
    } else if (f / 100) % 10 != 0 {
        seq![d1, d2]
    } else {
        seq![d1]
    }
}

/// Canonical decimal rendering of a weight: the whole part, then a point and
/// the fractional digits only when the fraction is not zero.
pub open spec fn spec_weight_render(scaled: int) -> Seq<char> {
    if scaled % 10000 == 0 {
        dec_digits((scaled / 10000) as nat)
    } else {
        dec_digits((scaled / 10000) as nat) + seq!['.'] + spec_weight_frac(scaled % 10000)
    }
}

/// The weight denoted by a decimal field: a run of digits, optionally
/// followed by a point and up to four more digits, at least one digit in all.
/// Values whose scaled form does not fit in a `u64` are rejected.
pub open spec fn spec_parse_weight(s: Seq<char>) -> Option<Weight> {
    let pieces = spec_split(s, '.');
    if pieces.len() == 1 {
        spec_weight_of_parts(pieces[0], Seq::empty())
    } else if pieces.len() == 2 {
        spec_weight_of_parts(pieces[0], pieces[1])
    } else {
        None
    }
}

pub open spec fn frac_scale(n: int) -> int {
    if n == 0 {
        10000
    } else if n == 1 {
        1000
    } else if n == 2 {
        100
    } else if n == 3 {
        10
    } else {
        1
    }
}

pub open spec fn spec_weight_of_parts(whole: Seq<char>, frac: Seq<char>) -> Option<Weight> {
    if (whole.len() > 0 || frac.len() > 0) && all_digits(whole) && all_digits(frac) && frac.len()
        <= 4 && digits_val(whole) * 10000 + digits_val(frac) * frac_scale(frac.len() as int)
        <= u64::MAX {
        Some(
            Weight {
                scaled: (digits_val(whole) * 10000 + digits_val(frac) * frac_scale(
                    frac.len() as int,
                )) as u64,
            },
        )
    } else {
        None
    }
}

impl Weight {
    /// The default weight of one.
    pub fn one() -> (r: Weight)
        ensures
            r.scaled == WEIGHT_SCALE,
    {
        Weight { scaled: 10000 }
    }

    /// The weight `scaled / 10000`.
    pub fn from_scaled(scaled: u64) -> (r: Weight)
        ensures
            r.scaled == scaled,
    {
        Weight { scaled }
    }

    /// Render the weight canonically: `15000` gives `1.5`, `10000` gives `1`.
    pub fn render(&self) -> (r: String)
        ensures
            r@ == spec_weight_render(self.scaled as int),
    {
        let whole: u64 = self.scaled / 10000;
        let frac: u64 = self.scaled % 10000;
        let mut r = crate::text::u64_to_string(whole);
        if frac != 0 {
            crate::text::push_char(&mut r, '.');
            let d1: u8 = (frac / 1000) as u8;
            let d2: u8 = ((frac / 100) % 10) as u8;
            let d3: u8 = ((frac / 10) % 10) as u8;
            let d4: u8 = (frac % 10) as u8;
            push_digit(&mut r, d1);
            if d2 != 0 || d3 != 0 || d4 != 0 {
                push_digit(&mut r, d2);
            }
            if d3 != 0 || d4 != 0 {
                push_digit(&mut r, d3);
            }
            if d4 != 0 {
                push_digit(&mut r, d4);
            }
            assert(r@ =~= spec_weight_render(self.scaled as int));
        }
        r
    }
}

fn push_digit(s: &mut String, d: u8)
    requires
        d < 10,
    ensures
        final(s)@ == old(s)@.push(digit_char(d as int)),
{
    let c: char = match d {
        0 => '0',
        1 => '1',
        2 => '2',
        3 => '3',
        4 => '4',
        5 => '5',
        6 => '6',
        7 => '7',
        8 => '8',
        _ => '9',
    };
    assert(c == digit_char(d as int));
    crate::text::push_char(s, c);
}

/// Parse a weight field.
pub fn parse_weight(s: &str) -> (r: Option<Weight>)
    ensures
        r == spec_parse_weight(s@),
{
    let pieces = crate::text::split_str(s, '.');
    if pieces.len() == 1 {
        proof {
            reveal_strlit("");
            assert(""@ =~= Seq::<char>::empty());
            assert(pieces.deep_view()[0] == pieces[0]@);
        }
        weight_of_parts(pieces[0].as_str(), "")
    } else if pieces.len() == 2 {
        proof {
            assert(pieces.deep_view()[0] == pieces[0]@);
            assert(pieces.deep_view()[1] == pieces[1]@);
        }
        weight_of_parts(pieces[0].as_str(), pieces[1].as_str())
    } else {
        None
    }
}

fn weight_of_parts(whole: &str, frac: &str) -> (r: Option<Weight>)
    ensures
        r == spec_weight_of_parts(whole@, frac@),
{
    let wlen: usize = whole.unicode_len();
    let flen: usize = frac.unicode_len();
    if wlen == 0 && flen == 0 {
        return None;
    }
    if flen > 4 {
        return None;
    }
    let w: u64 = match crate::text::parse_digits_u64(whole, u64::MAX / 10000) {
        Some(w) => w,
        None => {
            proof {
                if all_digits(whole@) && all_digits(frac@) {
                    // the whole part alone already overflows the scaled form
                    crate::text::lemma_digits_val_nonneg(frac@);
                    let q = u64::MAX as int / 10000;
                    assert(u64::MAX as int == 10000 * q + u64::MAX as int % 10000);
                    assert(digits_val(whole@) >= q + 1);
                    assert(digits_val(whole@) * 10000 >= (q + 1) * 10000) by (nonlinear_arith)
                        requires
                            digits_val(whole@) >= q + 1,
                    ;
                    assert(digits_val(frac@) * frac_scale(frac@.len() as int) >= 0)
                        by (nonlinear_arith)
                        requires
                            digits_val(frac@) >= 0,
                            frac_scale(frac@.len() as int) >= 1,
                    ;
                }
            }
            return None;
        },
    };
    let f: u64 = match crate::text::parse_digits_u64(frac, 9999) {
        Some(f) => f,
        None => {
            proof {
                if all_digits(frac@) && frac@.len() <= 4 {
                    crate::text::lemma_digits_val_len_bound(frac@);
                    assert(false);
                }
            }
            return None;
        },
    };
    let scale: u64 = if flen == 0 {
        10000
    } else if flen == 1 {
        1000
    } else if flen == 2 {
        100
    } else if flen == 3 {
        10
    } else {
        1
    };
    proof {
        crate::text::lemma_digits_val_len_bound(frac@);
        if flen == 0 {
            assert(f == 0);
        } else if flen == 1 {
            assert(f * 1000 <= 9000);
        } else if flen == 2 {
            assert(f * 100 <= 9900);
        } else if flen == 3 {
            assert(f * 10 <= 9990);
        }
    }
    let fs: u64 = f * scale;
    assert(fs <= 9999);
    let limit: u64 = (u64::MAX - fs) / 10000;
    proof {
        assert((u64::MAX - fs) as int == 10000 * (limit as int) + (u64::MAX - fs) as int % 10000);
    }
    if w > limit {
        proof {
            assert(w as int * 10000 >= (limit as int + 1) * 10000) by (nonlinear_arith)
                requires
                    w as int >= limit as int + 1,
            ;
            crate::text::lemma_digits_val_nonneg(whole@);
            crate::text::lemma_digits_val_nonneg(frac@);
            assert((u64::MAX - fs) as int % 10000 < 10000);
            assert(10000 * (limit as int) >= u64::MAX - fs - 9999);
            assert(w as int * 10000 + fs as int > u64::MAX as int);
            assert(w as int == digits_val(whole@));
            assert(f as int == digits_val(frac@));
            assert(scale as int == frac_scale(frac@.len() as int));
            assert(fs as int == digits_val(frac@) * frac_scale(frac@.len() as int));
            assert(digits_val(whole@) * 10000 + digits_val(frac@) * frac_scale(frac@.len() as int)
                > u64::MAX as int);
        }
        return None;
    }
    proof {
        assert(w as int * 10000 <= limit as int * 10000) by (nonlinear_arith)
            requires
                0 <= w as int <= limit as int,
        ;
        crate::text::lemma_digits_val_nonneg(whole@);
        crate::text::lemma_digits_val_nonneg(frac@);
    }
    Some(Weight { scaled: w * 10000 + fs })
}

// ---------------------------------------------------------------------------
// Activity
// ---------------------------------------------------------------------------

/// One logged occurrence of repetitions in a category at a point in time.
/// The category is kept as the raw string the user supplied.
#[derive(Debug, Clone)]
pub struct Activity {
    pub timestamp: Timestamp,
    pub category: String,
    pub reps: u32,
}

impl PartialEq for Activity {
    fn eq(&self, other: &Self) -> (r: bool) {
        self.timestamp == other.timestamp && self.category == other.category && self.reps
            == other.reps
    }
}

impl vstd::std_specs::cmp::PartialEqSpecImpl for Activity {
    open spec fn obeys_eq_spec() -> bool {
        true
    }

    open spec fn eq_spec(&self, other: &Activity) -> bool {
        self.timestamp == other.timestamp && self.category@ == other.category@ && self.reps
            == other.reps
    }
}

/// Relies on `chrono::Local::now` and its `Datelike` / `Timelike` accessors:
/// the current local time is a valid calendar date and clock time.
#[verifier::external_body]
fn now_parts() -> (r: (i32, u8, u8, u8, u8, u8))
    ensures
        1 <= r.1 <= 12,
        1 <= r.2 <= days_in_month(r.0 as int, r.1 as int),
        r.3 <= 23,
        r.4 <= 59,
        r.5 <= 59,
{
    let now = chrono::Local::now();
    (
        chrono::Datelike::year(&now),
        chrono::Datelike::month(&now) as u8,
        chrono::Datelike::day(&now) as u8,
        chrono::Timelike::hour(&now) as u8,
        chrono::Timelike::minute(&now) as u8,
        chrono::Timelike::second(&now) as u8,
    )
}

/// A timestamp for the given wall-clock reading. Years outside the storable
/// range are clamped to it; the day is shortened where the clamped year has
/// no such day (February 29th).
fn clamp_timestamp(y: i32, mo: u8, d: u8, h: u8, mi: u8, s: u8) -> (r: Timestamp)
    requires
        1 <= mo <= 12,
        1 <= d <= days_in_month(y as int, mo as int),
        h <= 23,
        mi <= 59,
        s <= 59,
    ensures
        r.valid(),
        0 <= y <= 9999 ==> r == (Timestamp {
            date: Date { year: y as u16, month: mo, day: d },
            hour: h,
            minute: mi,
            second: s,
        }),
{
    let year: u16 = if y < 0 {
        0
    } else if y > 9999 {
        9999
    } else {
        y as u16
    };
    let md: u8 = crate::date::month_days(year, mo);
    let day: u8 = if d > md {
        md
    } else {
        d
    };
    proof {
        if 0 <= y <= 9999 {
            assert(days_in_month(y as int, mo as int) == days_in_month(
                year as int,
                mo as int,
            ));
        }
    }
    Timestamp { date: Date { year, month: mo, day }, hour: h, minute: mi, second: s }
}

impl Activity {
    /// A new activity stamped with the current local time.
    pub fn new(repetitions: u32, category: &str) -> (r: Activity)
        ensures
            r.reps == repetitions,
            r.category@ == category@,
            r.timestamp.valid(),
    {
        let (y, mo, d, h, mi, s) = now_parts();
        let timestamp = clamp_timestamp(y, mo, d, h, mi, s);
        Activity { timestamp, category: category.to_owned(), reps: repetitions }
    }

    /// A new activity with an explicit timestamp.
    pub fn at(timestamp: Timestamp, repetitions: u32, category: &str) -> (r: Activity)
        ensures
            r.reps == repetitions,
            r.category@ == category@,
            r.timestamp == timestamp,
    {
        Activity { timestamp, category: category.to_owned(), reps: repetitions }
    }
}

// ---------------------------------------------------------------------------
// Category
// ---------------------------------------------------------------------------

/// A named, weighted kind of tracked exercise, with optional short aliases.
#[derive(Debug)]
pub struct Category {
    pub name: String,
    pub aliases: Vec<String>,
    pub weight: Weight,
}

impl Category {
    /// Every string under which this category can be looked up: its
    /// canonical name and all its aliases.
    pub open spec fn keys(self) -> Seq<Seq<char>> {
        seq![self.name@] + self.aliases.deep_view()
    }

    pub fn new(name: &str, weight: Weight, aliases: Vec<String>) -> (r: Category)
        ensures
            r.name@ == name@,
            r.weight == weight,
            r.aliases.deep_view() == aliases.deep_view(),
    {
        Category { name: name.to_owned(), weight, aliases }
    }

    /// The lookup keys as strings, canonical name first.
    fn all_names(&self) -> (r: Vec<String>)
        ensures
            r.deep_view() == self.keys(),
    {
        let name = &self.name;
        let aliases = &self.aliases;
        let mut r: Vec<String> = Vec::new();
        r.push(name.clone());
        let mut i: usize = 0;
        while i < aliases.len()
            invariant
                0 <= i <= aliases.len(),
                r@.len() == i + 1,
                r@[0] == self.name,
                forall|k: int| 1 <= k < i + 1 ==> r@[k] == aliases@[k - 1],
            decreases aliases.len() - i,
        {
            r.push(aliases[i].clone());
            i = i + 1;
        }
        proof {
            assert(r.deep_view().len() == self.keys().len());
            assert forall|k: int| 0 <= k < r@.len() implies r.deep_view()[k] == self.keys()[k] by {
                assert(r.deep_view()[k] == r@[k]@);
                if k > 0 {
                    assert(self.keys()[k] == self.aliases.deep_view()[k - 1]);
                    assert(self.aliases.deep_view()[k - 1] == self.aliases@[k - 1]@);
                }
            }
            assert(r.deep_view() =~= self.keys());
        }
        r
    }

    /// Describe the category, e.g. `Category (Pushups, 1.5, ["pu", "push"])`.
    pub fn render(&self) -> (r: String)
        ensures
            r@ == spec_category_render(*self),
    {
        let aliases = &self.aliases;
        let mut quoted: Vec<String> = Vec::new();
        let mut i: usize = 0;
        while i < aliases.len()
            invariant
                0 <= i <= aliases.len(),
                quoted@.len() == i,
                forall|k: int|
                    0 <= k < i ==> (#[trigger] quoted@[k])@ == seq!['"'] + aliases@[k]@
                        + seq!['"'],
            decreases aliases.len() - i,
        {
            let mut q = String::new();
            crate::text::push_char(&mut q, '"');
            q.append(aliases[i].as_str());
            crate::text::push_char(&mut q, '"');
            proof {
                assert(q@ =~= seq!['"'] + aliases@[i as int]@ + seq!['"']);
            }
            quoted.push(q);
            i = i + 1;
        }
        let ghost target = self.aliases.deep_view().map_values(
            |a: Seq<char>| seq!['"'] + a + seq!['"'],
        );
        proof {
            assert(quoted.deep_view().len() == target.len());
            assert forall|k: int| 0 <= k < target.len() implies quoted.deep_view()[k]
                == target[k] by {
                assert(quoted.deep_view()[k] == quoted@[k]@);
                assert(self.aliases.deep_view()[k] == self.aliases@[k]@);
            }
            assert(quoted.deep_view() =~= target);
        }
        let mut r = String::new();
        r.append("Category (");
        r.append(self.name.as_str());
        r.append(", ");
        let w = self.weight.render();
        r.append(w.as_str());
        r.append(", [");
        let inner = crate::text::join_strings(&quoted, ", ");
        r.append(inner.as_str());
        r.append("])");
        proof {
            assert(r@ =~= spec_category_render(*self));
        }
        r
    }
}

/// The text of `Category::render`.
pub open spec fn spec_category_render(c: Category) -> Seq<char> {
    "Category ("@ + c.name@ + ", "@ + spec_weight_render(c.weight.scaled as int) + ", ["@
        + crate::text::spec_join(
        c.aliases.deep_view().map_values(|a: Seq<char>| seq!['"'] + a + seq!['"']),
        ", "@,
    ) + "])"@
}

} // verus!
