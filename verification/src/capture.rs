//! Where captures go and what their files are called, and the conversion
//! of what the capture backends hand over: the portal's `file://` URI and
//! the raw pixels of an X11 screen.
pub mod x11;

use vstd::prelude::*;
use vstd::utf8::{decode_utf8, valid_utf8};
use chrono::{Datelike, Timelike};
use crate::config::{spec_extension, Config, ImageFormat};
use crate::paths::{home_dir, join_path, opt_chars, picture_dir, spec_join};
use crate::text::{
    chars_of, digit_char, lemma_four_digits, lemma_three_digits, lemma_two_digits, lemma_zero_padded_plain,
    push_char, push_zero_padded, replace_all, replace_all_chars, string_from_chars, zero_padded,
};

verus! {

/// A local date and time, as the calendar fields that file names use.
#[derive(Debug, Clone, Copy, PartialEq, Eq, Structural)]
pub struct DateParts {
    pub year: i32,
    /// 1 to 12.
    pub month: u32,
    /// 1 to 31.
    pub day: u32,
    /// 0 to 23.
    pub hour: u32,
    /// 0 to 59.
    pub minute: u32,
    /// 0 to 59.
    pub second: u32,
    /// Nanoseconds since the whole second; from 1 000 000 000 on, a leap
    /// second.
    pub nanosecond: u32,
}

impl DateParts {
    /// The fields are in the ranges of a real date and time.
    pub open spec fn wf(self) -> bool {
        &&& 1 <= self.month <= 12
        &&& 1 <= self.day <= 31
        &&& self.hour < 24
        &&& self.minute < 60
        &&& self.second < 60
        &&& self.nanosecond < 2_000_000_000
    }
}

/// The current local date and time (`chrono::Local::now`), in the ranges
/// that chrono's `Datelike` and `Timelike` document for its fields.
#[verifier::external_body]
pub(crate) fn local_now() -> (now: DateParts)
    ensures
        now.wf(),
{
    let now = chrono::Local::now();
    DateParts {
        year: now.year(),
        month: now.month(),
        day: now.day(),
        hour: now.hour(),
        minute: now.minute(),
        second: now.second(),
        nanosecond: now.nanosecond(),
    }
}

/// The year as `%Y` writes it: four digits with leading zeros from 0 to
/// 9999, and with a sign before and after that range.
pub open spec fn year_text(y: int) -> Seq<char> {
    if 0 <= y <= 9999 {
        zero_padded(y as nat, 4)
    } else if y < 0 {
        seq!['-'] + zero_padded((-y) as nat, 4)
    } else {
        seq!['+'] + zero_padded(y as nat, 4)
    }
}

/// The second as `%S` writes it: a leap second shows as 60.
pub open spec fn second_text(now: DateParts) -> Seq<char> {
    zero_padded((now.second + now.nanosecond / 1_000_000_000) as nat, 2)
}

/// The file name pattern with its codes replaced, in this order: `%Y %m %d
/// %H %M %S` by the date and time (two digits each but the year), and `%n`
/// by the counter with leading zeros up to 3 digits. Text outside the codes
/// is kept as it is.
pub open spec fn spec_expand_pattern(pattern: Seq<char>, now: DateParts, counter: u32) -> Seq<char> {
    let s = replace_all(pattern, seq!['%', 'Y'], year_text(now.year as int));
    let s = replace_all(s, seq!['%', 'm'], zero_padded(now.month as nat, 2));
    let s = replace_all(s, seq!['%', 'd'], zero_padded(now.day as nat, 2));
    let s = replace_all(s, seq!['%', 'H'], zero_padded(now.hour as nat, 2));
    let s = replace_all(s, seq!['%', 'M'], zero_padded(now.minute as nat, 2));
    let s = replace_all(s, seq!['%', 'S'], second_text(now));
    replace_all(s, seq!['%', 'n'], zero_padded(counter as nat, 3))
}

fn year_chars(y: i32) -> (v: Vec<char>)
    ensures
        v@ == year_text(y as int),
{
    let mut s = String::new();
    if 0 <= y && y <= 9999 {
        push_zero_padded(&mut s, y as u64, 4);
    } else if y < 0 {
        push_char(&mut s, '-');
        let a: i64 = -(y as i64);
        push_zero_padded(&mut s, a as u64, 4);
    } else {
        push_char(&mut s, '+');
        push_zero_padded(&mut s, y as u64, 4);
    }
    chars_of(s.as_str())
}

fn padded_chars(n: u64, width: usize) -> (v: Vec<char>)
    ensures
        v@ == zero_padded(n as nat, width as nat),
{
    let mut s = String::new();
    push_zero_padded(&mut s, n, width);
    assert(s@ =~= zero_padded(n as nat, width as nat));
    chars_of(s.as_str())
}

/// Replaces the codes of the file name pattern: `%Y %m %d %H %M %S` (date
/// and time) and `%n` (counter, with leading zeros up to 3 digits).
pub fn expand_pattern(pattern: &str, now: DateParts, counter: u32) -> (name: String)
    requires
        now.wf(),
    ensures
        name@ == spec_expand_pattern(pattern@, now, counter),
{
    let s = chars_of(pattern);
    let s = replace_all_chars(&s, &vec!['%', 'Y'], &year_chars(now.year));
    let s = replace_all_chars(&s, &vec!['%', 'm'], &padded_chars(now.month as u64, 2));
    let s = replace_all_chars(&s, &vec!['%', 'd'], &padded_chars(now.day as u64, 2));
    let s = replace_all_chars(&s, &vec!['%', 'H'], &padded_chars(now.hour as u64, 2));
    let s = replace_all_chars(&s, &vec!['%', 'M'], &padded_chars(now.minute as u64, 2));
    let second = now.second + now.nanosecond / 1_000_000_000;
    let s = replace_all_chars(&s, &vec!['%', 'S'], &padded_chars(second as u64, 2));
    let s = replace_all_chars(&s, &vec!['%', 'n'], &padded_chars(counter as u64, 3));
    string_from_chars(&s)
}


proof fn lemma_code_absent(pattern: Seq<char>, code: char, rep: Seq<char>)
    requires
        !pattern.contains('%'),
    ensures
        replace_all(pattern, seq!['%', code], rep) == pattern,
{
    let pat = seq!['%', code];
    assert forall|i: int| 0 <= i && i + pat.len() <= pattern.len() implies #[trigger] pattern.subrange(
        i,
        i + pat.len(),
    ) != pat by {
        if pattern.subrange(i, i + pat.len()) == pat {
            assert(pattern[i] == pattern.subrange(i, i + pat.len())[0]);
        }
    }
    crate::text::lemma_replace_absent(pattern, pat, rep);
}

/// A pattern without `%` names its files with itself: text outside the
/// codes is kept as it is.
pub proof fn lemma_expand_without_codes(pattern: Seq<char>, now: DateParts, counter: u32)
    requires
        !pattern.contains('%'),
    ensures
        spec_expand_pattern(pattern, now, counter) == pattern,
{
    lemma_code_absent(pattern, 'Y', year_text(now.year as int));
    lemma_code_absent(pattern, 'm', zero_padded(now.month as nat, 2));
    lemma_code_absent(pattern, 'd', zero_padded(now.day as nat, 2));
    lemma_code_absent(pattern, 'H', zero_padded(now.hour as nat, 2));
    lemma_code_absent(pattern, 'M', zero_padded(now.minute as nat, 2));
    lemma_code_absent(pattern, 'S', second_text(now));
    lemma_code_absent(pattern, 'n', zero_padded(counter as nat, 3));
}

/// `s` does not end with `%`, so no code can start at its end.
pub open spec fn ends_clear(s: Seq<char>) -> bool {
    s.len() == 0 || s.last() != '%'
}

/// Replacing a code in text that does not end with `%` and then in more
/// text is replacing it in the two parts joined: no code straddles them.
proof fn lemma_replace_concat(a: Seq<char>, b: Seq<char>, j: char, rep: Seq<char>)
    requires
        ends_clear(a),
    ensures
        replace_all(a + b, seq!['%', j], rep) == replace_all(a, seq!['%', j], rep) + replace_all(
            b,
            seq!['%', j],
            rep,
        ),
    decreases a.len(),
{
    let pat = seq!['%', j];
    let ab = a + b;
    if a.len() == 0 {
        assert(ab =~= b);
        assert(replace_all(a, pat, rep) + replace_all(b, pat, rep) =~= replace_all(b, pat, rep));
    } else if a.len() == 1 {
        assert(replace_all(a, pat, rep) == a);
        if ab.len() < 2 {
            assert(b.len() == 0);
            assert(ab =~= a);
            assert(a + b =~= a);
        } else {
            assert(ab.take(2)[0] == a[0]);
            assert(ab.take(2) != pat);
            assert(ab.skip(1) =~= b);
            assert(seq![ab[0]] =~= a);
        }
    } else {
        assert(ab.take(2) =~= a.take(2));
        if a.take(2) == pat {
            assert(ab.skip(2) =~= a.skip(2) + b);
            lemma_replace_concat(a.skip(2), b, j, rep);
            assert(rep + (replace_all(a.skip(2), pat, rep) + replace_all(b, pat, rep)) =~= (rep + replace_all(
                a.skip(2),
                pat,
                rep,
            )) + replace_all(b, pat, rep));
        } else {
            assert(ab.skip(1) =~= a.skip(1) + b);
            lemma_replace_concat(a.skip(1), b, j, rep);
            assert(seq![a[0]] + (replace_all(a.skip(1), pat, rep) + replace_all(b, pat, rep)) =~= (seq![a[0]]
                + replace_all(a.skip(1), pat, rep)) + replace_all(b, pat, rep));
        }
    }
}

/// Replacing a code by text without `%` keeps text that does not end with
/// `%` so, and keeps non-empty text non-empty.
proof fn lemma_replace_ends_clear(a: Seq<char>, j: char, rep: Seq<char>)
    requires
        ends_clear(a),
        rep.len() > 0,
        !rep.contains('%'),
    ensures
        ends_clear(replace_all(a, seq!['%', j], rep)),
        a.len() > 0 ==> replace_all(a, seq!['%', j], rep).len() > 0,
    decreases a.len(),
{
    let pat = seq!['%', j];
    if a.len() >= 2 {
        if a.take(2) == pat {
            let rest = a.skip(2);
            lemma_replace_ends_clear(rest, j, rep);
            if rest.len() == 0 {
                assert(replace_all(rest, pat, rep) == rest);
                assert(rep + replace_all(rest, pat, rep) =~= rep);
                assert(rep.contains(rep.last()));
            } else {
                assert(rest.last() == a.last());
            }
        } else {
            let rest = a.skip(1);
            assert(rest.last() == a.last());
            lemma_replace_ends_clear(rest, j, rep);
        }
    }
}

proof fn lemma_replace_step(a: Seq<char>, b: Seq<char>, j: char, rep: Seq<char>)
    requires
        ends_clear(a),
        rep.len() > 0,
        !rep.contains('%'),
    ensures
        replace_all(a + b, seq!['%', j], rep) == replace_all(a, seq!['%', j], rep) + replace_all(
            b,
            seq!['%', j],
            rep,
        ),
        ends_clear(replace_all(a, seq!['%', j], rep)),
{
    lemma_replace_concat(a, b, j, rep);
    lemma_replace_ends_clear(a, j, rep);
}

/// What replaces each code is not empty and holds no `%`.
proof fn lemma_code_texts_plain(now: DateParts, counter: u32)
    ensures
        year_text(now.year as int).len() > 0,
        !year_text(now.year as int).contains('%'),
        second_text(now).len() > 0,
        !second_text(now).contains('%'),
{
    let y = now.year as int;
    if 0 <= y <= 9999 {
        lemma_zero_padded_plain(y as nat, 4);
    } else {
        let z = if y < 0 { zero_padded((-y) as nat, 4) } else { zero_padded(y as nat, 4) };
        let sign = if y < 0 { '-' } else { '+' };
        lemma_zero_padded_plain(if y < 0 { (-y) as nat } else { y as nat }, 4);
        assert(year_text(y) == seq![sign] + z);
        assert(!year_text(y).contains('%')) by {
            if year_text(y).contains('%') {
                let i = choose|i: int| 0 <= i < year_text(y).len() && year_text(y)[i] == '%';
                if i > 0 {
                    assert(z[i - 1] == '%');
                }
            }
        }
    }
    lemma_zero_padded_plain((now.second + now.nanosecond / 1_000_000_000) as nat, 2);
}

/// The codes of a pattern are replaced where they stand: expanding a
/// pattern made of two parts, the first not ending with `%`, gives the
/// expansions of the two parts one after the other. With
/// [`lemma_each_code_alone`] and [`lemma_expand_without_codes`], this gives
/// the expansion of any pattern, piece by piece.
pub proof fn lemma_expand_concat(p: Seq<char>, q: Seq<char>, now: DateParts, counter: u32)
    requires
        ends_clear(p),
    ensures
        spec_expand_pattern(p + q, now, counter) == spec_expand_pattern(p, now, counter) + spec_expand_pattern(
            q,
            now,
            counter,
        ),
{
    lemma_code_texts_plain(now, counter);
    let r1 = year_text(now.year as int);
    let r2 = zero_padded(now.month as nat, 2);
    let r3 = zero_padded(now.day as nat, 2);
    let r4 = zero_padded(now.hour as nat, 2);
    let r5 = zero_padded(now.minute as nat, 2);
    let r6 = second_text(now);
    let r7 = zero_padded(counter as nat, 3);
    lemma_zero_padded_plain(now.month as nat, 2);
    lemma_zero_padded_plain(now.day as nat, 2);
    lemma_zero_padded_plain(now.hour as nat, 2);
    lemma_zero_padded_plain(now.minute as nat, 2);
    lemma_zero_padded_plain(counter as nat, 3);
    let p1 = replace_all(p, seq!['%', 'Y'], r1);
    let q1 = replace_all(q, seq!['%', 'Y'], r1);
    lemma_replace_step(p, q, 'Y', r1);
    let p2 = replace_all(p1, seq!['%', 'm'], r2);
    let q2 = replace_all(q1, seq!['%', 'm'], r2);
    lemma_replace_step(p1, q1, 'm', r2);
    let p3 = replace_all(p2, seq!['%', 'd'], r3);
    let q3 = replace_all(q2, seq!['%', 'd'], r3);
    lemma_replace_step(p2, q2, 'd', r3);
    let p4 = replace_all(p3, seq!['%', 'H'], r4);
    let q4 = replace_all(q3, seq!['%', 'H'], r4);
    lemma_replace_step(p3, q3, 'H', r4);
    let p5 = replace_all(p4, seq!['%', 'M'], r5);
    let q5 = replace_all(q4, seq!['%', 'M'], r5);
    lemma_replace_step(p4, q4, 'M', r5);
    let p6 = replace_all(p5, seq!['%', 'S'], r6);
    let q6 = replace_all(q5, seq!['%', 'S'], r6);
    lemma_replace_step(p5, q5, 'S', r6);
    lemma_replace_step(p6, q6, 'n', r7);
}

/// A code followed by another letter is left as it stands.
proof fn lemma_other_code(k: char, j: char, rep: Seq<char>)
    requires
        k != j,
    ensures
        replace_all(seq!['%', k], seq!['%', j], rep) == seq!['%', k],
{
    let s = seq!['%', k];
    assert(s.take(2) =~= s);
    assert(s.take(2)[1] != seq!['%', j][1]);
    assert(s.skip(1) =~= seq![k]);
    assert(replace_all(seq![k], seq!['%', j], rep) == seq![k]);
    assert(seq![s[0]] + seq![k] =~= s);
}

/// A code alone is replaced by its text.
proof fn lemma_own_code(k: char, rep: Seq<char>)
    ensures
        replace_all(seq!['%', k], seq!['%', k], rep) == rep,
{
    let s = seq!['%', k];
    assert(s.take(2) =~= s);
    assert(s.skip(2) =~= Seq::<char>::empty());
    assert(replace_all(Seq::<char>::empty(), seq!['%', k], rep) == Seq::<char>::empty());
    assert(rep + Seq::<char>::empty() =~= rep);
}

/// Each code alone is replaced by its field of the date, in decimal
/// digits: `%Y` the year on four digits (for years 0 to 9999), `%m` the
/// month, `%d` the day, `%H` the hour of a 24-hour clock, `%M` the minute
/// and `%S` the second (a leap second shows as 60), on two digits each, and
/// `%n` the counter on three digits (for counters below 1000).
pub proof fn lemma_each_code_alone(now: DateParts, counter: u32)
    requires
        now.wf(),
    ensures
        0 <= now.year <= 9999 ==> spec_expand_pattern(seq!['%', 'Y'], now, counter) == seq![
            digit_char((now.year / 1000) as int),
            digit_char(((now.year / 100) % 10) as int),
            digit_char(((now.year / 10) % 10) as int),
            digit_char((now.year % 10) as int),
        ],
        spec_expand_pattern(seq!['%', 'm'], now, counter) == seq![
            digit_char((now.month / 10) as int),
            digit_char((now.month % 10) as int),
        ],
        spec_expand_pattern(seq!['%', 'd'], now, counter) == seq![digit_char((now.day / 10) as int), digit_char((now.day % 10) as int)],
        spec_expand_pattern(seq!['%', 'H'], now, counter) == seq![
            digit_char((now.hour / 10) as int),
            digit_char((now.hour % 10) as int),
        ],
        spec_expand_pattern(seq!['%', 'M'], now, counter) == seq![
            digit_char((now.minute / 10) as int),
            digit_char((now.minute % 10) as int),
        ],
        ({
            let s: int = if now.nanosecond >= 1_000_000_000 { now.second + 1 } else { now.second as int };
            spec_expand_pattern(seq!['%', 'S'], now, counter) == seq![digit_char(s / 10), digit_char(s % 10)]
        }),
        counter < 1000 ==> spec_expand_pattern(seq!['%', 'n'], now, counter) == seq![
            digit_char((counter / 100) as int),
            digit_char(((counter / 10) % 10) as int),
            digit_char((counter % 10) as int),
        ],
{
    lemma_code_texts_plain(now, counter);
    let r1 = year_text(now.year as int);
    let r2 = zero_padded(now.month as nat, 2);
    let r3 = zero_padded(now.day as nat, 2);
    let r4 = zero_padded(now.hour as nat, 2);
    let r5 = zero_padded(now.minute as nat, 2);
    let r6 = second_text(now);
    let r7 = zero_padded(counter as nat, 3);
    lemma_zero_padded_plain(now.month as nat, 2);
    lemma_zero_padded_plain(now.day as nat, 2);
    lemma_zero_padded_plain(now.hour as nat, 2);
    lemma_zero_padded_plain(now.minute as nat, 2);
    lemma_zero_padded_plain(counter as nat, 3);
    // %Y
    lemma_own_code('Y', r1);
    lemma_code_absent(r1, 'm', r2);
    lemma_code_absent(r1, 'd', r3);
    lemma_code_absent(r1, 'H', r4);
    lemma_code_absent(r1, 'M', r5);
    lemma_code_absent(r1, 'S', r6);
    lemma_code_absent(r1, 'n', r7);
    if 0 <= now.year <= 9999 {
        lemma_four_digits(now.year as nat);
    }
    // %m
    lemma_other_code('m', 'Y', r1);
    lemma_own_code('m', r2);
    lemma_code_absent(r2, 'd', r3);
    lemma_code_absent(r2, 'H', r4);
    lemma_code_absent(r2, 'M', r5);
    lemma_code_absent(r2, 'S', r6);
    lemma_code_absent(r2, 'n', r7);
    lemma_two_digits(now.month as nat);
    // %d
    lemma_other_code('d', 'Y', r1);
    lemma_other_code('d', 'm', r2);
    lemma_own_code('d', r3);
    lemma_code_absent(r3, 'H', r4);
    lemma_code_absent(r3, 'M', r5);
    lemma_code_absent(r3, 'S', r6);
    lemma_code_absent(r3, 'n', r7);
    lemma_two_digits(now.day as nat);
    // %H
    lemma_other_code('H', 'Y', r1);
    lemma_other_code('H', 'm', r2);
    lemma_other_code('H', 'd', r3);
    lemma_own_code('H', r4);
    lemma_code_absent(r4, 'M', r5);
    lemma_code_absent(r4, 'S', r6);
    lemma_code_absent(r4, 'n', r7);
    lemma_two_digits(now.hour as nat);
    // %M
    lemma_other_code('M', 'Y', r1);
    lemma_other_code('M', 'm', r2);
    lemma_other_code('M', 'd', r3);
    lemma_other_code('M', 'H', r4);
    lemma_own_code('M', r5);
    lemma_code_absent(r5, 'S', r6);
    lemma_code_absent(r5, 'n', r7);
    lemma_two_digits(now.minute as nat);
    // %S
    lemma_other_code('S', 'Y', r1);
    lemma_other_code('S', 'm', r2);
    lemma_other_code('S', 'd', r3);
    lemma_other_code('S', 'H', r4);
    lemma_other_code('S', 'M', r5);
    lemma_own_code('S', r6);
    lemma_code_absent(r6, 'n', r7);
    let sec = (now.second + now.nanosecond / 1_000_000_000) as nat;
    assert(sec == if now.nanosecond >= 1_000_000_000 { now.second + 1 } else { now.second as int });
    lemma_two_digits(sec);
    // %n
    lemma_other_code('n', 'Y', r1);
    lemma_other_code('n', 'm', r2);
    lemma_other_code('n', 'd', r3);
    lemma_other_code('n', 'H', r4);
    lemma_other_code('n', 'M', r5);
    lemma_other_code('n', 'S', r6);
    lemma_own_code('n', r7);
    if counter < 1000 {
        lemma_three_digits(counter as nat);
    }
}

/// The folder captures are saved in: the one the user chose, else
/// `printcher` inside the pictures folder, else inside the home folder.
pub open spec fn spec_dest_dir(folder: Option<String>, pictures: Option<String>, home: Option<String>) -> Option<Seq<char>> {
    match folder {
        Some(f) => Some(f@),
        None => match pictures {
            Some(p) => Some(spec_join(p@, "printcher"@)),
            None => match home {
                Some(h) => Some(spec_join(h@, "printcher"@)),
                None => None,
            },
        },
    }
}

/// The folder captures are saved in, from the configured folder and the
/// pictures and home folders of the environment; `None` when none of them
/// is known.
pub fn dest_dir_in(folder: &Option<String>, pictures: Option<String>, home: Option<String>) -> (d: Option<String>)
    ensures
        opt_chars(d) == spec_dest_dir(*folder, pictures, home),
{
    match folder {
        Some(f) => Some(f.clone()),
        None => match pictures {
            Some(p) => Some(join_path(p.as_str(), "printcher")),
            None => match home {
                Some(h) => Some(join_path(h.as_str(), "printcher")),
                None => None,
            },
        },
    }
}

/// The folder captures are saved in (`cfg.folder`, by default
/// `~/Pictures/printcher`, which follows the system's pictures folder): the
/// configured folder and the pictures and home folders that the
/// environment gave, as [`dest_dir_in`] combines them.
pub fn dest_dir(cfg: &Config) -> (d: Option<String>)
    ensures
        cfg.folder matches Some(f) ==> d matches Some(g) && g@ == f@,
        exists|p: Option<String>, h: Option<String>| opt_chars(d) == spec_dest_dir(cfg.folder, p, h),
{
    let pictures = picture_dir();
    let home = home_dir();
    let d = dest_dir_in(&cfg.folder, pictures, home);
    assert(opt_chars(d) == spec_dest_dir(cfg.folder, pictures, home));
    d
}

/// The counter of a new capture: one more than the entries already in the
/// destination folder (none when the folder cannot be read), counted modulo
/// 2^32.
pub open spec fn spec_next_counter(existing: usize) -> int {
    (existing as u32) + 1
}

/// The name of a new capture: the pattern expanded with the date and the
/// counter, then the format's extension.
pub open spec fn spec_file_name(pattern: Seq<char>, format: ImageFormat, now: DateParts, counter: u32) -> Seq<char> {
    spec_expand_pattern(pattern, now, counter) + seq!['.'] + spec_extension(format)
}

/// The file name of a new capture in a folder that already holds
/// `existing` entries.
pub fn dest_file_name(cfg: &Config, now: DateParts, existing: usize) -> (name: String)
    requires
        now.wf(),
        (existing as u32) < u32::MAX,
    ensures
        name@ == spec_file_name(cfg.pattern@, cfg.format, now, spec_next_counter(existing) as u32),
{
    let counter = (existing as u32) + 1;
    file_name(cfg.pattern.as_str(), cfg.format, now, counter)
}

/// The file name of a capture saved now in a folder that already holds
/// `existing` entries: the name for the current local date and time.
pub fn new_file_name(cfg: &Config, existing: usize) -> (name: String)
    requires
        (existing as u32) < u32::MAX,
    ensures
        exists|now: DateParts|
            now.wf() && name@ == spec_file_name(cfg.pattern@, cfg.format, now, spec_next_counter(existing) as u32),
{
    let now = local_now();
    dest_file_name(cfg, now, existing)
}

/// The file name that `pattern` and `format` give a first capture now, as
/// the settings window previews it.
pub fn preview_file_name(pattern: &str, format: ImageFormat) -> (name: String)
    ensures
        exists|now: DateParts| now.wf() && name@ == spec_file_name(pattern@, format, now, 1),
{
    let now = local_now();
    file_name(pattern, format, now, 1)
}

/// What `pattern` expands to now with the first counter, as the settings
/// window shows next to each example pattern.
pub fn pattern_sample(pattern: &str) -> (name: String)
    ensures
        exists|now: DateParts| now.wf() && name@ == spec_expand_pattern(pattern@, now, 1),
{
    let now = local_now();
    expand_pattern(pattern, now, 1)
}

/// The file name for `pattern`, `format`, `now` and `counter`.
pub fn file_name(pattern: &str, format: ImageFormat, now: DateParts, counter: u32) -> (name: String)
    requires
        now.wf(),
    ensures
        name@ == spec_file_name(pattern@, format, now, counter),
{
    let mut name = expand_pattern(pattern, now, counter);
    push_char(&mut name, '.');
    name.append(format.extension());
    name
}


/// The value of a hexadecimal digit (`0-9`, `a-f`, `A-F`).
pub open spec fn hex_value(b: u8) -> Option<int> {
    if 0x30 <= b <= 0x39 {
        Some(b - 0x30)
    } else if 0x61 <= b <= 0x66 {
        Some(b - 0x61 + 10)
    } else if 0x41 <= b <= 0x46 {
        Some(b - 0x41 + 10)
    } else {
        None
    }
}

/// Percent-decoding of bytes: every `%` followed by two hexadecimal digits
/// becomes the byte they write; every other byte stays.
pub open spec fn percent_decode_bytes(b: Seq<u8>) -> Seq<u8>
    decreases b.len(),
{
    if b.len() == 0 {
        seq![]
    } else if b[0] == 0x25 && b.len() >= 3 && hex_value(b[1]) is Some && hex_value(b[2]) is Some {
        seq![(hex_value(b[1])->0 * 16 + hex_value(b[2])->0) as u8] + percent_decode_bytes(b.skip(3))
    } else {
        seq![b[0]] + percent_decode_bytes(b.skip(1))
    }
}

/// `percent_encoding::percent_decode_str(raw).decode_utf8()`: the UTF-8
/// bytes of `raw` percent-decoded, read back as UTF-8 text, or `None` when
/// they are not valid UTF-8.
#[verifier::external_body]
fn percent_decode_utf8(raw: &str) -> (r: Option<String>)
    ensures
        r is Some <==> valid_utf8(percent_decode_bytes(vstd::utf8::encode_utf8(raw@))),
        r matches Some(s) ==> s@ == decode_utf8(percent_decode_bytes(vstd::utf8::encode_utf8(raw@))),
{
    match percent_encoding::percent_decode_str(raw).decode_utf8() {
        Ok(text) => Some(text.into_owned()),
        Err(_) => None,
    }
}

/// Why a URI from the screenshot portal gives no local path.
#[derive(Debug, Clone, Copy, PartialEq, Eq, Structural)]
pub enum UriError {
    /// The URI does not start with `file://`.
    NotAFileUri,
    /// Once percent-decoded, the path is not valid UTF-8.
    InvalidUtf8,
}

/// The path part of a `file://` URI, percent-decoded as UTF-8.
pub open spec fn spec_uri_path(uri: Seq<char>) -> Seq<u8> {
    percent_decode_bytes(vstd::utf8::encode_utf8(uri.skip(7)))
}

/// The local path of a `file://...` URI given by the portal, with its
/// percent-encoded characters decoded.
pub fn uri_to_path(uri: &str) -> (r: Result<String, UriError>)
    ensures
        r == Err::<String, UriError>(UriError::NotAFileUri) <==> !(uri@.len() >= 7 && uri@.take(7) == "file://"@),
        r == Err::<String, UriError>(UriError::InvalidUtf8) <==> (uri@.len() >= 7 && uri@.take(7) == "file://"@
            && !valid_utf8(spec_uri_path(uri@))),
        r matches Ok(p) ==> p@ == decode_utf8(spec_uri_path(uri@)),
{
    let chars = chars_of(uri);
    let prefix = chars_of("file://");
    proof { reveal_strlit("file://"); }
    assert(prefix@.len() == 7);
    if chars.len() < 7 {
        return Err(UriError::NotAFileUri);
    }
    let mut i: usize = 0;
    while i < 7
        invariant
            i <= 7,
            chars.len() >= 7,
            chars@ == uri@,
            prefix@ == "file://"@,
            prefix@.len() == 7,
            forall|k: int| 0 <= k < i ==> chars@[k] == prefix@[k],
        decreases 7 - i,
    {
        if chars[i] != prefix[i] {
            assert(uri@.take(7)[i as int] != "file://"@[i as int]);
            return Err(UriError::NotAFileUri);
        }
        i = i + 1;
    }
    assert(uri@.take(7) =~= "file://"@);
    let mut rest: Vec<char> = Vec::new();
    let mut j: usize = 7;
    while j < chars.len()
        invariant
            7 <= j <= chars.len(),
            chars@ == uri@,
            rest@ == uri@.subrange(7, j as int),
        decreases chars.len() - j,
    {
        rest.push(chars[j]);
        assert(uri@.subrange(7, j + 1) =~= uri@.subrange(7, j as int).push(uri@[j as int]));
        j = j + 1;
    }
    assert(rest@ =~= uri@.skip(7));
    let raw = string_from_chars(&rest);
    match percent_decode_utf8(raw.as_str()) {
        Some(p) => Ok(p),
        None => Err(UriError::InvalidUtf8),
    }
}


proof fn lemma_marked_bytes_are_not_percent(x: u8)
    by (bit_vector)
    ensures
        (0xC0u8 | x) != 0x25u8,
        (0xE0u8 | x) != 0x25u8,
        (0xF0u8 | x) != 0x25u8,
        (0x80u8 | x) != 0x25u8,
{
}

proof fn lemma_ascii_byte(v: u32)
    by (bit_vector)
    ensures
        v <= 0x7F && v != 0x25 ==> ((v & 0x7F) as u8) != 0x25u8,
{
}

/// The UTF-8 bytes of a text without `%` hold no `%` byte: every byte of a
/// character outside ASCII has its high bit set.
proof fn lemma_encode_without_percent(s: Seq<char>)
    requires
        !s.contains('%'),
    ensures
        !vstd::utf8::encode_utf8(s).contains(0x25u8),
    decreases s.len(),
{
    if s.len() > 0 {
        let v = s[0] as u32;
        assert(s[0] != '%');
        assert(v != 0x25) by {
            vstd::utf8::char_u32_cast(s[0], v);
        }
        let e = vstd::utf8::encode_scalar(v);
        lemma_ascii_byte(v);
        lemma_marked_bytes_are_not_percent(((v >> 6) & 0x1F) as u8);
        lemma_marked_bytes_are_not_percent(((v >> 12) & 0x0F) as u8);
        lemma_marked_bytes_are_not_percent(((v >> 18) & 0x7) as u8);
        lemma_marked_bytes_are_not_percent((v & 0x3F) as u8);
        lemma_marked_bytes_are_not_percent(((v >> 6) & 0x3F) as u8);
        lemma_marked_bytes_are_not_percent(((v >> 12) & 0x3F) as u8);
        assert(!e.contains(0x25u8));
        assert(!s.drop_first().contains('%')) by {
            if s.drop_first().contains('%') {
                let k = choose|k: int| 0 <= k < s.drop_first().len() && s.drop_first()[k] == '%';
                assert(s[k + 1] == '%');
            }
        }
        lemma_encode_without_percent(s.drop_first());
        let rest = vstd::utf8::encode_utf8(s.drop_first());
        assert(!(e + rest).contains(0x25u8)) by {
            if (e + rest).contains(0x25u8) {
                let k = choose|k: int| 0 <= k < (e + rest).len() && (e + rest)[k] == 0x25u8;
                if k < e.len() {
                    assert(e[k] == 0x25u8);
                } else {
                    assert(rest[k - e.len()] == 0x25u8);
                }
            }
        }
    }
}

/// Bytes without `%` are their own percent-decoding.
proof fn lemma_decode_without_percent(b: Seq<u8>)
    requires
        !b.contains(0x25u8),
    ensures
        percent_decode_bytes(b) == b,
    decreases b.len(),
{
    if b.len() > 0 {
        assert(b[0] != 0x25u8);
        assert(!b.skip(1).contains(0x25u8)) by {
            if b.skip(1).contains(0x25u8) {
                let k = choose|k: int| 0 <= k < b.skip(1).len() && b.skip(1)[k] == 0x25u8;
                assert(b[k + 1] == 0x25u8);
            }
        }
        lemma_decode_without_percent(b.skip(1));
        assert(seq![b[0]] + b.skip(1) =~= b);
    }
}

/// A `file://` URI whose path has no `%` gives that path unchanged.
pub proof fn lemma_plain_uri_gives_its_path(uri: Seq<char>)
    requires
        uri.len() >= 7,
        !uri.skip(7).contains('%'),
    ensures
        valid_utf8(spec_uri_path(uri)),
        decode_utf8(spec_uri_path(uri)) == uri.skip(7),
{
    lemma_encode_without_percent(uri.skip(7));
    lemma_decode_without_percent(vstd::utf8::encode_utf8(uri.skip(7)));
    vstd::utf8::encode_utf8_valid_utf8(uri.skip(7));
    vstd::utf8::encode_utf8_decode_utf8(uri.skip(7));
}

} // verus!
