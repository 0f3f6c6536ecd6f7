use vstd::prelude::*;
use vstd::string::*;

verus! {

// ---------------------------------------------------------------------------
// Character classes
// ---------------------------------------------------------------------------

/// Whitespace that is stripped from the edges of fields and lines: the four
/// ASCII whitespace characters. Exotic Unicode spaces are field content, and
/// the storage layer never writes any.
pub open spec fn is_space_char(c: char) -> bool {
    c == ' ' || c == '\t' || c == '\r' || c == '\n'
}

pub open spec fn is_digit_char(c: char) -> bool {
    48 <= c as u32 <= 57
}

/// Numeric value of a decimal digit character.
pub open spec fn digit_val(c: char) -> int {
    c as u32 - 48
}

/// Decimal digit character for a value in 0..=9.
pub open spec fn digit_char(d: int) -> char {
    if d == 0 {
        '0'
    } else if d == 1 {
        '1'
    } else if d == 2 {
        '2'
    } else if d == 3 {
        '3'
    } else if d == 4 {
        '4'
    } else if d == 5 {
        '5'
    } else if d == 6 {
        '6'
    } else if d == 7 {
        '7'
    } else if d == 8 {
        '8'
    } else {
        '9'
    }
}

pub fn char_is_space(c: char) -> (r: bool)
    ensures
        r == is_space_char(c),
{
    c == ' ' || c == '\t' || c == '\r' || c == '\n'
}

pub fn char_is_digit(c: char) -> (r: bool)
    ensures
        r == is_digit_char(c),
{
    let u: u32 = c as u32;
    48 <= u && u <= 57
}

// ---------------------------------------------------------------------------
// Decimal numbers
// ---------------------------------------------------------------------------

pub open spec fn all_digits(s: Seq<char>) -> bool {
    forall|i: int| 0 <= i < s.len() ==> is_digit_char(#[trigger] s[i])
}

/// Value of a sequence of decimal digits (most significant first).
pub open spec fn digits_val(s: Seq<char>) -> int
    decreases s.len(),
{
    if s.len() == 0 {
        0
    } else {
        digits_val(s.drop_last()) * 10 + digit_val(s.last())
    }
}

/// Canonical decimal rendering of a natural number, no leading zeros
/// (except for the number zero itself).
pub open spec fn dec_digits(n: nat) -> Seq<char>
    decreases n,
{
    if n < 10 {
        seq![digit_char(n as int)]
    } else {
        dec_digits(n / 10).push(digit_char((n % 10) as int))
    }
}

pub proof fn lemma_digits_val_nonneg(s: Seq<char>)
    requires
        all_digits(s),
    ensures
        digits_val(s) >= 0,
    decreases s.len(),
{
    if s.len() > 0 {
        assert(all_digits(s.drop_last()));
        lemma_digits_val_nonneg(s.drop_last());
    }
}

/// A run of at most four digits stays below ten thousand (and so on for the
/// shorter prefixes).
pub proof fn lemma_digits_val_len_bound(s: Seq<char>)
    requires
        all_digits(s),
    ensures
        digits_val(s) >= 0,
        s.len() == 0 ==> digits_val(s) == 0,
        s.len() <= 1 ==> digits_val(s) <= 9,
        s.len() <= 2 ==> digits_val(s) <= 99,
        s.len() <= 3 ==> digits_val(s) <= 999,
        s.len() <= 4 ==> digits_val(s) <= 9999,
    decreases s.len(),
{
    if s.len() > 0 {
        assert(all_digits(s.drop_last()));
        lemma_digits_val_len_bound(s.drop_last());
    }
}

proof fn lemma_digits_val_prefix_le(s: Seq<char>, i: int)
    requires
        all_digits(s),
        0 <= i <= s.len(),
    ensures
        digits_val(s.take(i)) <= digits_val(s),
    decreases s.len() - i,
{
    if i < s.len() {
        assert(s.take(i + 1).drop_last() =~= s.take(i));
        assert(s.take(i + 1).last() == s[i]);
        assert(all_digits(s.take(i)));
        lemma_digits_val_nonneg(s.take(i));
        lemma_digits_val_prefix_le(s, i + 1);
    } else {
        assert(s.take(i) =~= s);
    }
}

/// The result of parsing a whole field of decimal digits as a `u32`:
/// defined exactly when the field is non-empty, all digits, and in range.
pub open spec fn parse_u32_spec(s: Seq<char>) -> Option<u32> {
    if s.len() > 0 && all_digits(s) && digits_val(s) <= u32::MAX {
        Some(digits_val(s) as u32)
    } else {
        None
    }
}

pub fn parse_u32_str(s: &str) -> (r: Option<u32>)
    ensures
        r == parse_u32_spec(s@),
{
    let n: usize = s.unicode_len();
    if n == 0 {
        return None;
    }
    let mut acc: u64 = 0;
    let mut i: usize = 0;
    while i < n
        invariant
            0 <= i <= n,
            n == s@.len(),
            all_digits(s@.take(i as int)),
            acc == digits_val(s@.take(i as int)),
            acc <= u32::MAX,
        decreases n - i,
    {
        let c: char = s.get_char(i);
        if !char_is_digit(c) {
            assert(!all_digits(s@));
            return None;
        }
        let d: u64 = (c as u32 - 48) as u64;
        proof {
            assert(s@.take(i + 1).drop_last() =~= s@.take(i as int));
            assert(s@.take(i + 1).last() == s@[i as int]);
        }
        acc = acc * 10 + d;
        i = i + 1;
        if acc > u32::MAX as u64 {
            proof {
                if all_digits(s@) {
                    lemma_digits_val_prefix_le(s@, i as int);
                    assert(digits_val(s@) >= digits_val(s@.take(i as int)));
                }
            }
            return None;
        }
    }
    proof {
        assert(s@.take(n as int) =~= s@);
    }
    Some(acc as u32)
}

/// Parse a (possibly empty) run of decimal digits as a `u64`, rejecting
/// values above `bound`.
pub fn parse_digits_u64(s: &str, bound: u64) -> (r: Option<u64>)
    ensures
        r == (if all_digits(s@) && digits_val(s@) <= bound {
            Some(digits_val(s@) as u64)
        } else {
            None::<u64>
        }),
{
    let n: usize = s.unicode_len();
    let mut acc: u64 = 0;
    let mut i: usize = 0;
    while i < n
        invariant
            0 <= i <= n,
            n == s@.len(),
            all_digits(s@.take(i as int)),
            acc == digits_val(s@.take(i as int)),
            acc <= bound,
        decreases n - i,
    {
        let c: char = s.get_char(i);
        if !char_is_digit(c) {
            assert(!all_digits(s@));
            return None;
        }
        let d: u64 = (c as u32 - 48) as u64;
        proof {
            assert(s@.take(i + 1).drop_last() =~= s@.take(i as int));
            assert(s@.take(i + 1).last() == s@[i as int]);
        }
        if acc > (u64::MAX - d) / 10 {
            proof {
                if all_digits(s@) {
                    lemma_digits_val_prefix_le(s@, i + 1);
                    assert(digits_val(s@) >= digits_val(s@.take(i + 1)));
                }
            }
            return None;
        }
        acc = acc * 10 + d;
        i = i + 1;
        if acc > bound {
            proof {
                if all_digits(s@) {
                    lemma_digits_val_prefix_le(s@, i as int);
                    assert(digits_val(s@) >= digits_val(s@.take(i as int)));
                }
            }
            return None;
        }
    }
    proof {
        assert(s@.take(n as int) =~= s@);
    }
    Some(acc)
}

/// One decimal digit as a string slice.
fn digit_str(d: u64) -> (r: &'static str)
    requires
        d < 10,
    ensures
        r@ =~= seq![digit_char(d as int)],
{
    proof {
        reveal_strlit("0");
        reveal_strlit("1");
        reveal_strlit("2");
        reveal_strlit("3");
        reveal_strlit("4");
        reveal_strlit("5");
        reveal_strlit("6");
        reveal_strlit("7");
        reveal_strlit("8");
        reveal_strlit("9");
    }
    match d {
        0 => "0",
        1 => "1",
        2 => "2",
        3 => "3",
        4 => "4",
        5 => "5",
        6 => "6",
        7 => "7",
        8 => "8",
        _ => "9",
    }
}

pub fn u64_to_string(n: u64) -> (r: String)
    ensures
        r@ == dec_digits(n as nat),
    decreases n,
{
    if n < 10 {
        digit_str(n).to_owned()
    } else {
        assert(n / 10 < n && n / 10 >= 1) by (nonlinear_arith)
            requires
                n >= 10,
        ;
        let mut r = u64_to_string(n / 10);
        r.append(digit_str(n % 10));
        assert(r@ =~= dec_digits(n as nat));
        r
    }
}

pub fn u32_to_string(n: u32) -> (r: String)
    ensures
        r@ == dec_digits(n as nat),
{
    u64_to_string(n as u64)
}

// ---------------------------------------------------------------------------
// Basic string operations
// ---------------------------------------------------------------------------

/// Relies on `String::push`: appends one character at the end.
#[verifier::external_body]
pub fn push_char(s: &mut String, c: char)
    ensures
        final(s)@ == old(s)@.push(c),
{
    s.push(c)
}

pub fn str_eq(a: &str, b: &str) -> (r: bool)
    ensures
        r == (a@ == b@),
{
    let na: usize = a.unicode_len();
    let nb: usize = b.unicode_len();
    if na != nb {
        return false;
    }
    let mut i: usize = 0;
    while i < na
        invariant
            0 <= i <= na,
            na == a@.len(),
            na == b@.len(),
            forall|k: int| 0 <= k < i ==> a@[k] == b@[k],
        decreases na - i,
    {
        if a.get_char(i) != b.get_char(i) {
            return false;
        }
        i = i + 1;
    }
    proof {
        assert(a@ =~= b@);
    }
    true
}

// ---------------------------------------------------------------------------
// Trimming
// ---------------------------------------------------------------------------

/// Index of the first non-whitespace character at or after `i`.
pub open spec fn trim_from(s: Seq<char>, i: int) -> int
    decreases s.len() - i,
{
    if 0 <= i < s.len() && is_space_char(s[i]) {
        trim_from(s, i + 1)
    } else {
        i
    }
}

/// Index just after the last non-whitespace character at or before `j - 1`.
pub open spec fn trim_to(s: Seq<char>, j: int) -> int
    decreases j,
{
    if 0 < j <= s.len() && is_space_char(s[j - 1]) {
        trim_to(s, j - 1)
    } else {
        j
    }
}

/// The sequence with leading and trailing whitespace removed.
pub open spec fn spec_trim(s: Seq<char>) -> Seq<char> {
    let a = trim_from(s, 0);
    let b = trim_to(s, s.len() as int);
    if a <= b {
        s.subrange(a, b)
    } else {
        Seq::empty()
    }
}

proof fn lemma_trim_from_bounds(s: Seq<char>, i: int)
    requires
        0 <= i <= s.len(),
    ensures
        i <= trim_from(s, i) <= s.len(),
        forall|k: int| i <= k < trim_from(s, i) ==> is_space_char(#[trigger] s[k]),
    decreases s.len() - i,
{
    if i < s.len() && is_space_char(s[i]) {
        lemma_trim_from_bounds(s, i + 1);
    }
}

proof fn lemma_trim_to_bounds(s: Seq<char>, j: int)
    requires
        0 <= j <= s.len(),
    ensures
        0 <= trim_to(s, j) <= j,
        forall|k: int| trim_to(s, j) <= k < j ==> is_space_char(#[trigger] s[k]),
    decreases j,
{
    if 0 < j && is_space_char(s[j - 1]) {
        lemma_trim_to_bounds(s, j - 1);
    }
}

pub fn trim(s: &str) -> (r: &str)
    ensures
        r@ == spec_trim(s@),
{
    let n: usize = s.unicode_len();
    proof {
        lemma_trim_from_bounds(s@, 0);
        lemma_trim_to_bounds(s@, n as int);
    }
    let mut a: usize = 0;
    while a < n && char_is_space(s.get_char(a))
        invariant
            0 <= a <= n,
            n == s@.len(),
            trim_from(s@, a as int) == trim_from(s@, 0),
        decreases n - a,
    {
        a = a + 1;
    }
    assert(trim_from(s@, 0) == a as int);
    let mut b: usize = n;
    while b > a && char_is_space(s.get_char(b - 1))
        invariant
            a <= b <= n,
            n == s@.len(),
            a as int == trim_from(s@, 0),
            trim_to(s@, b as int) == trim_to(s@, n as int),
        decreases b,
    {
        b = b - 1;
    }
    proof {
        lemma_trim_to_bounds(s@, b as int);
        if b > a {
            assert(!is_space_char(s@[b - 1]));
            assert(trim_to(s@, b as int) == b as int);
        }
        assert(spec_trim(s@) =~= s@.subrange(a as int, b as int));
    }
    s.substring_char(a, b)
}

// ---------------------------------------------------------------------------
// Splitting and joining
// ---------------------------------------------------------------------------

/// The pieces of `s` between occurrences of `sep`: always at least one piece,
/// one more piece for every occurrence of the separator.
pub open spec fn spec_split(s: Seq<char>, sep: char) -> Seq<Seq<char>>
    decreases s.len(),
{
    if s.len() == 0 {
        seq![Seq::empty()]
    } else {
        let rest = spec_split(s.drop_last(), sep);
        if s.last() == sep {
            rest.push(Seq::empty())
        } else {
            rest.update(rest.len() - 1, rest.last().push(s.last()))
        }
    }
}

proof fn lemma_spec_split_len(s: Seq<char>, sep: char)
    ensures
        spec_split(s, sep).len() >= 1,
    decreases s.len(),
{
    if s.len() > 0 {
        lemma_spec_split_len(s.drop_last(), sep);
    }
}

pub fn split_str(s: &str, sep: char) -> (r: Vec<String>)
    ensures
        r.deep_view() == spec_split(s@, sep),
{
    let n: usize = s.unicode_len();
    let mut done: Vec<String> = Vec::new();
    let mut piece: String = String::new();
    let mut i: usize = 0;
    while i < n
        invariant
            0 <= i <= n,
            n == s@.len(),
            done.deep_view().push(piece@) == spec_split(s@.take(i as int), sep),
        decreases n - i,
    {
        let c: char = s.get_char(i);
        proof {
            assert(s@.take(i + 1).drop_last() =~= s@.take(i as int));
            assert(s@.take(i + 1).last() == s@[i as int]);
            lemma_spec_split_len(s@.take(i as int), sep);
        }
        let ghost prev = spec_split(s@.take(i as int), sep);
        if c == sep {
            done.push(piece);
            piece = String::new();
            proof {
                assert(done.deep_view().push(piece@) =~= prev.push(Seq::empty()));
            }
        } else {
            push_char(&mut piece, c);
            proof {
                assert(done.deep_view().push(piece@) =~= prev.update(
                    prev.len() - 1,
                    prev.last().push(s@[i as int]),
                ));
            }
        }
        i = i + 1;
    }
    done.push(piece);
    proof {
        assert(s@.take(n as int) =~= s@);
    }
    done
}

/// The pieces joined with the separator between consecutive pieces.
pub open spec fn spec_join(pieces: Seq<Seq<char>>, sep: Seq<char>) -> Seq<char>
    decreases pieces.len(),
{
    if pieces.len() == 0 {
        Seq::empty()
    } else if pieces.len() == 1 {
        pieces[0]
    } else {
        spec_join(pieces.drop_last(), sep) + sep + pieces.last()
    }
}

pub fn join_strings(v: &Vec<String>, sep: &str) -> (r: String)
    ensures
        r@ == spec_join(v.deep_view(), sep@),
{
    let mut r = String::new();
    let mut i: usize = 0;
    while i < v.len()
        invariant
            0 <= i <= v.len(),
            r@ == spec_join(v.deep_view().take(i as int), sep@),
        decreases v.len() - i,
    {
        if i > 0 {
            r.append(sep);
        }
        r.append(v[i].as_str());
        proof {
            assert(v.deep_view().take(i + 1).drop_last() =~= v.deep_view().take(i as int));
            assert(v.deep_view().take(i + 1).last() == v.deep_view()[i as int]);
            if i == 0 {
                assert(r@ =~= spec_join(v.deep_view().take(i + 1), sep@));
            }
        }
        i = i + 1;
    }
    proof {
        assert(v.deep_view().take(v.len() as int) =~= v.deep_view());
    }
    r
}

// ---------------------------------------------------------------------------
// Padding
// ---------------------------------------------------------------------------

pub open spec fn spaces(n: int) -> Seq<char>
    decreases n,
{
    if n <= 0 {
        Seq::empty()
    } else {
        spaces(n - 1).push(' ')
    }
}

/// `s` padded with spaces on the right to at least `w` characters.
pub open spec fn pad_right_spec(s: Seq<char>, w: int) -> Seq<char> {
    s + spaces(w - s.len())
}

/// `s` padded with spaces on the left to at least `w` characters.
pub open spec fn pad_left_spec(s: Seq<char>, w: int) -> Seq<char> {
    spaces(w - s.len()) + s
}

fn space_string(n: usize) -> (r: String)
    ensures
        r@ == spaces(n as int),
{
    let mut r = String::new();
    let mut i: usize = 0;
    while i < n
        invariant
            0 <= i <= n,
            r@ == spaces(i as int),
        decreases n - i,
    {
        push_char(&mut r, ' ');
        i = i + 1;
    }
    r
}

pub fn pad_right(s: &str, w: usize) -> (r: String)
    ensures
        r@ == pad_right_spec(s@, w as int),
{
    let n: usize = s.unicode_len();
    let mut r = s.to_owned();
    if n < w {
        let pad = space_string(w - n);
        r.append(pad.as_str());
    } else {
        assert(r@ =~= pad_right_spec(s@, w as int));
    }
    r
}

pub fn pad_left(s: &str, w: usize) -> (r: String)
    ensures
        r@ == pad_left_spec(s@, w as int),
{
    let n: usize = s.unicode_len();
    let mut r = String::new();
    if n < w {
        let pad = space_string(w - n);
        r.append(pad.as_str());
    }
    r.append(s);
    assert(r@ =~= pad_left_spec(s@, w as int));
    r
}

// ---------------------------------------------------------------------------
// Zero padding
// ---------------------------------------------------------------------------

pub open spec fn zeros(n: int) -> Seq<char>
    decreases n,
{
    if n <= 0 {
        Seq::empty()
    } else {
        zeros(n - 1).push('0')
    }
}

/// `s` padded with zeros on the left to at least `w` characters.
pub open spec fn spec_zero_pad(s: Seq<char>, w: int) -> Seq<char> {
    zeros(w - s.len()) + s
}

/// The number rendered in decimal, zero-padded on the left to at least `w`
/// characters.
pub fn pad_num_u64(n: u64, w: usize) -> (r: String)
    ensures
        r@ == spec_zero_pad(dec_digits(n as nat), w as int),
{
    let s = u64_to_string(n);
    let len: usize = s.unicode_len();
    let mut r = String::new();
    let mut k: usize = 0;
    let target: usize = if len < w {
        w - len
    } else {
        0
    };
    while k < target
        invariant
            0 <= k <= target,
            r@ == zeros(k as int),
        decreases target - k,
    {
        push_char(&mut r, '0');
        k = k + 1;
    }
    r.append(s.as_str());
    proof {
        assert(r@ =~= spec_zero_pad(dec_digits(n as nat), w as int));
    }
    r
}

// ---------------------------------------------------------------------------
// Facts about digits, padding, splitting and trimming
// ---------------------------------------------------------------------------

/// The decimal rendering of a number consists of digits and reads back as
/// the same number.
pub proof fn lemma_dec_digits_props(n: nat)
    ensures
        all_digits(dec_digits(n)),
        dec_digits(n).len() >= 1,
        digits_val(dec_digits(n)) == n,
    decreases n,
{
    assert(forall|d: int| 0 <= d <= 9 ==> digit_val(#[trigger] digit_char(d)) == d);
    assert(forall|d: int| 0 <= d <= 9 ==> is_digit_char(#[trigger] digit_char(d)));
    if n < 10 {
        assert(dec_digits(n) == seq![digit_char(n as int)]);
        assert(dec_digits(n).drop_last() =~= Seq::<char>::empty());
        assert(digits_val(dec_digits(n)) == digits_val(dec_digits(n).drop_last()) * 10 + digit_val(
            dec_digits(n).last(),
        ));
        assert(digits_val(dec_digits(n)) == n);
        assert forall|i: int| 0 <= i < dec_digits(n).len() implies is_digit_char(
            #[trigger] dec_digits(n)[i],
        ) by {
            assert(dec_digits(n)[i] == digit_char(n as int));
        }
    } else {
        lemma_dec_digits_props(n / 10);
        assert(dec_digits(n).drop_last() =~= dec_digits(n / 10));
        assert(dec_digits(n).last() == digit_char((n % 10) as int));
        assert(digits_val(dec_digits(n)) == digits_val(dec_digits(n).drop_last()) * 10 + digit_val(
            dec_digits(n).last(),
        ));
        assert(digits_val(dec_digits(n)) == n);
        assert forall|i: int| 0 <= i < dec_digits(n).len() implies is_digit_char(
            #[trigger] dec_digits(n)[i],
        ) by {
            if i < dec_digits(n).len() - 1 {
                assert(dec_digits(n)[i] == dec_digits(n / 10)[i]);
            } else {
                assert(dec_digits(n)[i] == digit_char((n % 10) as int));
            }
        }
    }
}

/// Bounds on the length of a decimal rendering.
pub proof fn lemma_dec_digits_len(n: nat)
    ensures
        n <= 9 ==> dec_digits(n).len() == 1,
        n <= 99 ==> dec_digits(n).len() <= 2,
        n <= 999 ==> dec_digits(n).len() <= 3,
        n <= 9999 ==> dec_digits(n).len() <= 4,
    decreases n,
{
    if n >= 10 {
        lemma_dec_digits_len(n / 10);
    }
}

/// Leading zeros change neither the digits property nor the value.
pub proof fn lemma_zero_pad_value(s: Seq<char>, w: int)
    requires
        all_digits(s),
    ensures
        all_digits(spec_zero_pad(s, w)),
        digits_val(spec_zero_pad(s, w)) == digits_val(s),
        w >= s.len() ==> spec_zero_pad(s, w).len() == w,
{
    lemma_zeros_prefix_value(w - s.len(), s);
}

proof fn lemma_zeros_prefix_value(k: int, s: Seq<char>)
    requires
        all_digits(s),
    ensures
        all_digits(zeros(k) + s),
        digits_val(zeros(k) + s) == digits_val(s),
        (zeros(k) + s).len() == (if k > 0 {
            k
        } else {
            0
        }) + s.len(),
    decreases k, s.len(),
{
    if k <= 0 {
        assert(zeros(k) + s =~= s);
        assert(all_digits(zeros(k) + s));
        assert(digits_val(zeros(k) + s) == digits_val(s));
    } else if s.len() == 0 {
        assert(zeros(k) + s =~= zeros(k));
        assert(zeros(k) =~= (zeros(k - 1) + Seq::<char>::empty()).push('0'));
        lemma_zeros_prefix_value(k - 1, s);
        let prev = zeros(k - 1) + Seq::<char>::empty();
        assert(zeros(k).drop_last() =~= prev);
        assert forall|i: int| 0 <= i < (zeros(k) + s).len() implies is_digit_char(
            #[trigger] (zeros(k) + s)[i],
        ) by {
            if i < k - 1 {
                assert((zeros(k) + s)[i] == prev[i]);
            } else {
                assert((zeros(k) + s)[i] == '0');
            }
        }
        assert(digits_val(zeros(k)) == digits_val(zeros(k).drop_last()) * 10 + digit_val(
            zeros(k).last(),
        ));
        assert(digits_val(zeros(k) + s) == digits_val(s));
    } else {
        lemma_zeros_prefix_value(k, s.drop_last());
        let prev = zeros(k) + s.drop_last();
        assert((zeros(k) + s).drop_last() =~= prev);
        assert((zeros(k) + s).last() == s.last());
        assert forall|i: int| 0 <= i < (zeros(k) + s).len() implies is_digit_char(
            #[trigger] (zeros(k) + s)[i],
        ) by {
            if i < (zeros(k) + s).len() - 1 {
                assert((zeros(k) + s)[i] == prev[i]);
            } else {
                assert((zeros(k) + s)[i] == s.last());
                assert(s.last() == s[s.len() - 1]);
            }
        }
        assert(digits_val(zeros(k) + s) == digits_val(prev) * 10 + digit_val(s.last()));
        assert(digits_val(s) == digits_val(s.drop_last()) * 10 + digit_val(s.last()));
        assert(digits_val(zeros(k) + s) == digits_val(s));
    }
}

/// Splitting a string free of the separator yields the one piece.
pub proof fn lemma_split_no_sep(s: Seq<char>, sep: char)
    requires
        forall|i: int| 0 <= i < s.len() ==> s[i] != sep,
    ensures
        spec_split(s, sep) =~= seq![s],
    decreases s.len(),
{
    if s.len() == 0 {
        assert(s =~= Seq::<char>::empty());
        assert(spec_split(s, sep) == seq![Seq::<char>::empty()]);
        assert(spec_split(s, sep)[0] == s);
    } else {
        lemma_split_no_sep(s.drop_last(), sep);
        assert(spec_split(s, sep) =~= seq![s.drop_last().push(s.last())]);
        assert(s.drop_last().push(s.last()) =~= s);
        assert(spec_split(s, sep)[0] == s);
    }
    assert(spec_split(s, sep).len() == 1);
}

/// Appending separator-free text extends the last piece.
pub proof fn lemma_split_extend_no_sep(x: Seq<char>, y: Seq<char>, sep: char)
    requires
        forall|i: int| 0 <= i < y.len() ==> y[i] != sep,
    ensures
        spec_split(x + y, sep) =~= spec_split(x, sep).update(
            spec_split(x, sep).len() - 1,
            spec_split(x, sep).last() + y,
        ),
    decreases y.len(),
{
    lemma_spec_split_len_pub(x, sep);
    if y.len() == 0 {
        assert(x + y =~= x);
        assert(spec_split(x, sep).update(
            spec_split(x, sep).len() - 1,
            spec_split(x, sep).last() + y,
        ) =~= spec_split(x, sep));
    } else {
        lemma_split_extend_no_sep(x, y.drop_last(), sep);
        assert((x + y).drop_last() =~= x + y.drop_last());
        assert((x + y).last() == y.last());
        let prev = spec_split(x + y.drop_last(), sep);
        lemma_spec_split_len_pub(x + y.drop_last(), sep);
        assert(spec_split(x + y, sep) =~= prev.update(prev.len() - 1, prev.last().push(y.last())));
        assert(spec_split(x, sep).last() + y =~= (spec_split(x, sep).last() + y.drop_last()).push(
            y.last(),
        ));
        assert(spec_split(x + y, sep) =~= spec_split(x, sep).update(
            spec_split(x, sep).len() - 1,
            spec_split(x, sep).last() + y,
        ));
    }
}

/// Appending the separator opens a new, empty piece.
pub proof fn lemma_split_push_sep(x: Seq<char>, sep: char)
    ensures
        spec_split(x.push(sep), sep) =~= spec_split(x, sep).push(Seq::empty()),
{
    assert(x.push(sep).drop_last() =~= x);
}

pub proof fn lemma_spec_split_len_pub(s: Seq<char>, sep: char)
    ensures
        spec_split(s, sep).len() >= 1,
{
    lemma_spec_split_len(s, sep);
}

/// A string whose ends are not whitespace trims to itself.
pub proof fn lemma_trim_noop(s: Seq<char>)
    requires
        s.len() > 0 ==> !is_space_char(s[0]) && !is_space_char(s.last()),
    ensures
        spec_trim(s) =~= s,
{
    if s.len() > 0 {
        assert(trim_from(s, 0) == 0);
        assert(trim_to(s, s.len() as int) == s.len());
    }
}

// ---------------------------------------------------------------------------
// Lexicographic order and sorting
// ---------------------------------------------------------------------------

/// Lexicographic order on character sequences, by code point.
pub open spec fn lex_le(a: Seq<char>, b: Seq<char>) -> bool
    decreases a.len(),
{
    if a.len() == 0 {
        true
    } else if b.len() == 0 {
        false
    } else if (a[0] as u32) < (b[0] as u32) {
        true
    } else if a[0] == b[0] {
        lex_le(a.drop_first(), b.drop_first())
    } else {
        false
    }
}

pub fn lex_le_str(a: &str, b: &str) -> (r: bool)
    ensures
        r == lex_le(a@, b@),
{
    let na: usize = a.unicode_len();
    let nb: usize = b.unicode_len();
    proof {
        assert(a@.skip(0) =~= a@);
        assert(b@.skip(0) =~= b@);
    }
    let mut i: usize = 0;
    while i < na && i < nb
        invariant
            0 <= i <= na,
            i <= nb,
            na == a@.len(),
            nb == b@.len(),
            forall|k: int| 0 <= k < i ==> a@[k] == b@[k],
            lex_le(a@, b@) == lex_le(a@.skip(i as int), b@.skip(i as int)),
        decreases na - i,
    {
        let ca: char = a.get_char(i);
        let cb: char = b.get_char(i);
        if (ca as u32) < (cb as u32) {
            return true;
        }
        if ca != cb {
            return false;
        }
        proof {
            assert(a@.skip(i as int).drop_first() =~= a@.skip(i + 1));
            assert(b@.skip(i as int).drop_first() =~= b@.skip(i + 1));
        }
        i = i + 1;
    }
    na <= nb
}

/// `x` inserted into the (sorted) sequence `s` before the first element that
/// is not below it.
pub open spec fn insert_lex(s: Seq<Seq<char>>, x: Seq<char>) -> Seq<Seq<char>>
    decreases s.len(),
{
    if s.len() == 0 {
        seq![x]
    } else if lex_le(s[0], x) {
        seq![s[0]] + insert_lex(s.drop_first(), x)
    } else {
        seq![x] + s
    }
}

/// Insertion sort by lexicographic order: the canonical sorted arrangement
/// used by the report renderers.
pub open spec fn sort_lex(s: Seq<Seq<char>>) -> Seq<Seq<char>>
    decreases s.len(),
{
    if s.len() == 0 {
        Seq::empty()
    } else {
        insert_lex(sort_lex(s.drop_last()), s.last())
    }
}

fn insert_lex_exec(v: &mut Vec<String>, x: String)
    ensures
        final(v).deep_view() == insert_lex(old(v).deep_view(), x@),
{
    let ghost d0 = v.deep_view();
    proof {
        assert(d0.skip(0) =~= d0);
        assert(d0.take(0) + insert_lex(d0, x@) =~= insert_lex(d0, x@));
    }
    let mut i: usize = 0;
    while i < v.len() && lex_le_str(v[i].as_str(), x.as_str())
        invariant
            0 <= i <= v.len(),
            v.deep_view() == d0,
            insert_lex(d0, x@) == d0.take(i as int) + insert_lex(d0.skip(i as int), x@),
        decreases v.len() - i,
    {
        proof {
            assert(d0.skip(i as int)[0] == d0[i as int]);
            assert(d0.skip(i as int).drop_first() =~= d0.skip(i + 1));
            assert(d0.take(i as int) + (seq![d0[i as int]] + insert_lex(d0.skip(i + 1), x@))
                =~= d0.take(i + 1) + insert_lex(d0.skip(i + 1), x@));
        }
        i = i + 1;
    }
    proof {
        if i < v.len() {
            assert(d0.skip(i as int)[0] == d0[i as int]);
            assert(insert_lex(d0.skip(i as int), x@) =~= seq![x@] + d0.skip(i as int));
        } else {
            assert(d0.skip(i as int) =~= Seq::<Seq<char>>::empty());
        }
    }
    v.insert(i, x);
    proof {
        assert(v.deep_view() =~= insert_lex(d0, x@));
    }
}

/// Sort the given strings lexicographically by code point.
pub fn sort_strings(v: &Vec<String>) -> (r: Vec<String>)
    ensures
        r.deep_view() == sort_lex(v.deep_view()),
{
    let mut r: Vec<String> = Vec::new();
    let mut i: usize = 0;
    while i < v.len()
        invariant
            0 <= i <= v.len(),
            r.deep_view() == sort_lex(v.deep_view().take(i as int)),
        decreases v.len() - i,
    {
        let x: String = v[i].clone();
        insert_lex_exec(&mut r, x);
        proof {
            assert(v.deep_view().take(i + 1).drop_last() =~= v.deep_view().take(i as int));
            assert(v.deep_view().take(i + 1).last() == v.deep_view()[i as int]);
        }
        i = i + 1;
    }
    proof {
        assert(v.deep_view().take(v.len() as int) =~= v.deep_view());
    }
    r
}

} // verus!


