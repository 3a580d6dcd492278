//! The copyright notice on the first line of a file.
//!
//! A notice reads `{open}` (whitespace) `Copyright (c) ` four digits, an
//! optional `-` and four more digits, a space, the author, and the file's
//! closing marker, the first one that follows the author on that line. It is
//! only looked for at the start of the file, and only for the given author
//! and comment style.

use crate::style::CommentStyle;
use crate::text::{is_space, matches_at, occurs_at, push_all, push_range, space};
use vstd::prelude::*;

verus! {

/// `Copyright (c) `
pub open spec fn copyright_words() -> Seq<char> {
    seq!['C', 'o', 'p', 'y', 'r', 'i', 'g', 'h', 't', ' ', '(', 'c', ')', ' ']
}

pub open spec fn is_digit(c: char) -> bool {
    '0' <= c <= '9'
}

pub open spec fn digit_value(c: char) -> nat {
    (c as u32 - '0' as u32) as nat
}

/// The digit that writes `d`.
pub open spec fn digit_char(d: nat) -> char {
    if d == 0 { '0' } else if d == 1 { '1' } else if d == 2 { '2' } else if d == 3 { '3' }
    else if d == 4 { '4' } else if d == 5 { '5' } else if d == 6 { '6' } else if d == 7 { '7' }
    else if d == 8 { '8' } else { '9' }
}

/// `n` written in decimal, without leading zeros.
pub open spec fn decimal(n: nat) -> Seq<char>
    decreases n,
{
    if n < 10 {
        seq![digit_char(n)]
    } else {
        decimal(n / 10).push(digit_char(n % 10))
    }
}

pub open spec fn four_digits_at(s: Seq<char>, p: int) -> bool {
    0 <= p && p + 4 <= s.len() && is_digit(s[p]) && is_digit(s[p + 1]) && is_digit(s[p + 2])
        && is_digit(s[p + 3])
}

/// The number that the four digits at `p` write.
pub open spec fn four_value(s: Seq<char>, p: int) -> nat {
    digit_value(s[p]) * 1000 + digit_value(s[p + 1]) * 100 + digit_value(s[p + 2]) * 10
        + digit_value(s[p + 3])
}

/// The first position from `i` on that holds no whitespace.
pub open spec fn skip_space(s: Seq<char>, i: int) -> int
    decreases s.len() - i,
{
    if 0 <= i < s.len() && is_space(s[i]) {
        skip_space(s, i + 1)
    } else {
        i
    }
}

/// Where the years of a notice would begin.
pub open spec fn years_at(s: Seq<char>, style: CommentStyle) -> int {
    skip_space(s, style.open_spec().len() as int) + 14
}

/// The years at `y` are a range `YYYY-YYYY`.
pub open spec fn is_range_at(s: Seq<char>, y: int) -> bool {
    y + 4 < s.len() && s[y + 4] == '-' && four_digits_at(s, y + 5)
}

pub open spec fn years_end(s: Seq<char>, y: int) -> int {
    if is_range_at(s, y) {
        y + 9
    } else {
        y + 4
    }
}

/// The year in which the notice whose years begin at `y` ends.
pub open spec fn end_year(s: Seq<char>, y: int) -> nat {
    if is_range_at(s, y) {
        four_value(s, y + 5)
    } else {
        four_value(s, y)
    }
}

/// The end of the first `close` from `k` on, where no line break comes first.
pub open spec fn close_from(s: Seq<char>, close: Seq<char>, k: int) -> Option<int>
    decreases s.len() - k,
{
    if k < 0 || k >= s.len() {
        None
    } else if occurs_at(s, k, close) {
        Some(k + close.len())
    } else if s[k] == '\n' {
        None
    } else {
        close_from(s, close, k + 1)
    }
}

/// Where the author would end in a notice.
pub open spec fn author_end(s: Seq<char>, author: Seq<char>, style: CommentStyle) -> int {
    years_end(s, years_at(s, style)) + 1 + author.len()
}

/// The end of the notice of `author` at the start of `s`, if there is one.
pub open spec fn notice_end(s: Seq<char>, author: Seq<char>, style: CommentStyle) -> Option<int> {
    let y = years_at(s, style);
    if occurs_at(s, 0, style.open_spec()) && occurs_at(s, y - 14, copyright_words())
        && four_digits_at(s, y) && occurs_at(s, years_end(s, y), seq![' '] + author) {
        close_from(s, style.close_spec(), author_end(s, author, style))
    } else {
        None
    }
}

/// The notice written for `author` over the given years.
pub open spec fn notice_text(style: CommentStyle, years: Seq<char>, author: Seq<char>) -> Seq<char> {
    style.open_spec() + seq![' '] + copyright_words() + years + seq![' '] + author + seq![' ']
        + style.close_spec()
}

/// `s` with its notice brought up to `year`: a new notice above the content
/// when there is none; the notice as it stands when it ends in `year`; else
/// the notice rewritten to run from its first year to `year`.
pub open spec fn with_notice(s: Seq<char>, author: Seq<char>, style: CommentStyle, year: nat) -> Seq<
    char,
> {
    match notice_end(s, author, style) {
        None => notice_text(style, decimal(year), author) + seq!['\n', '\n'] + s,
        Some(e) => {
            let y = years_at(s, style);
            if end_year(s, y) == year {
                s
            } else {
                notice_text(style, s.subrange(y, y + 4) + seq!['-'] + decimal(year), author)
                    + s.subrange(e, s.len() as int)
            }
        },
    }
}

fn digit(c: char) -> (r: bool)
    ensures
        r == is_digit(c),
{
    '0' <= c && c <= '9'
}

fn digit_of(d: u32) -> (r: char)
    requires
        d < 10,
    ensures
        r == digit_char(d as nat),
{
    if d == 0 { '0' } else if d == 1 { '1' } else if d == 2 { '2' } else if d == 3 { '3' }
    else if d == 4 { '4' } else if d == 5 { '5' } else if d == 6 { '6' } else if d == 7 { '7' }
    else if d == 8 { '8' } else { '9' }
}

/// Appends `n` in decimal to `out`.
pub fn push_decimal(out: &mut Vec<char>, n: u32)
    ensures
        final(out)@ == old(out)@ + decimal(n as nat),
    decreases n,
{
    if n < 10 {
        out.push(digit_of(n));
    } else {
        push_decimal(out, n / 10);
        out.push(digit_of(n % 10));
    }
}

fn four_digits(s: &Vec<char>, p: usize) -> (r: bool)
    ensures
        r == four_digits_at(s@, p as int),
{
    p <= s.len() && 4 <= s.len() - p && digit(s[p]) && digit(s[p + 1]) && digit(s[p + 2])
        && digit(s[p + 3])
}

fn value_of_four(s: &Vec<char>, p: usize) -> (r: u32)
    requires
        four_digits_at(s@, p as int),
    ensures
        r == four_value(s@, p as int),
{
    assert(p + 4 <= s.len());
    let a = s[p] as u32 - '0' as u32;
    let b = s[p + 1] as u32 - '0' as u32;
    let c = s[p + 2] as u32 - '0' as u32;
    let d = s[p + 3] as u32 - '0' as u32;
    a * 1000 + b * 100 + c * 10 + d
}

fn skip_space_from(s: &Vec<char>, i: usize) -> (r: usize)
    requires
        i <= s.len(),
    ensures
        r == skip_space(s@, i as int),
        i <= r <= s.len(),
{
    let mut j: usize = i;
    while j < s.len() && space(s[j])
        invariant
            i <= j <= s.len(),
            skip_space(s@, j as int) == skip_space(s@, i as int),
        decreases s.len() - j,
    {
        j = j + 1;
    }
    j
}

fn find_close(s: &Vec<char>, close: &Vec<char>, k: usize) -> (r: Option<usize>)
    ensures
        r matches Some(e) ==> close_from(s@, close@, k as int) == Some(e as int) && e <= s.len(),
        r is None ==> close_from(s@, close@, k as int) is None,
{
    let mut j: usize = k;
    while j < s.len()
        invariant
            k <= j,
            close_from(s@, close@, j as int) == close_from(s@, close@, k as int),
        decreases s.len() - j,
    {
        if matches_at(s, j, close) {
            return Some(j + close.len());
        }
        if s[j] == '\n' {
            return None;
        }
        j = j + 1;
    }
    None
}

/// Appends the notice for `author` over the given years (already written) to `out`.
fn push_notice(out: &mut Vec<char>, style: CommentStyle, years: &Vec<char>, author: &Vec<char>)
    ensures
        final(out)@ == old(out)@ + notice_text(style, years@, author@),
{
    let ghost start = out@;
    let words = vec!['C', 'o', 'p', 'y', 'r', 'i', 'g', 'h', 't', ' ', '(', 'c', ')', ' '];
    assert(words@ =~= copyright_words());
    push_all(out, &style.block_start());
    out.push(' ');
    push_all(out, &words);
    push_all(out, years);
    out.push(' ');
    push_all(out, author);
    out.push(' ');
    push_all(out, &style.block_end());
    assert(out@ =~= start + notice_text(style, years@, author@));
}

/// Where the notice of `author` at the start of `s` ends, if there is one.
pub fn find_notice(s: &Vec<char>, author: &Vec<char>, style: CommentStyle) -> (r: Option<usize>)
    ensures
        r matches Some(e) ==> notice_end(s@, author@, style) == Some(e as int) && e <= s.len(),
        r is None ==> notice_end(s@, author@, style) is None,
{
    let open = style.block_start();
    if !matches_at(s, 0, &open) {
        return None;
    }
    let w = skip_space_from(s, open.len());
    let words = vec!['C', 'o', 'p', 'y', 'r', 'i', 'g', 'h', 't', ' ', '(', 'c', ')', ' '];
    assert(words@ =~= copyright_words());
    if !matches_at(s, w, &words) {
        return None;
    }
    let y = w + 14;
    if !four_digits(s, y) {
        return None;
    }
    let ranged = y + 4 < s.len() && s[y + 4] == '-' && four_digits(s, y + 5);
    let ye = if ranged { y + 9 } else { y + 4 };
    if ye >= s.len() || s[ye] != ' ' || author.len() > s.len() - ye - 1 || !matches_at(s, ye + 1, author) {
        proof {
            let sa = seq![' '] + author@;
            if occurs_at(s@, ye as int, sa) {
                assert(s@.subrange(ye as int, ye + sa.len())[0] == sa[0]);
                assert(s@.subrange(ye + 1, ye + 1 + author@.len()) =~= s@.subrange(ye as int, ye + sa.len()).subrange(1, sa.len() as int));
                assert(sa.subrange(1, sa.len() as int) =~= author@);
            }
        }
        return None;
    }
    proof {
        let sa = seq![' '] + author@;
        assert(s@.subrange(ye as int, ye + sa.len()) =~= sa);
    }
    find_close(s, &style.block_end(), ye + 1 + author.len())
}

/// `s` with the notice of `author` brought up to `year`.
pub fn apply_header(s: &Vec<char>, author: &Vec<char>, style: CommentStyle, year: u32) -> (r: Vec<char>)
    ensures
        r@ == with_notice(s@, author@, style, year as nat),
{
    let mut out: Vec<char> = Vec::new();
    match find_notice(s, author, style) {
        None => {
            let mut years: Vec<char> = Vec::new();
            push_decimal(&mut years, year);
            assert(years@ =~= decimal(year as nat));
            push_notice(&mut out, style, &years, author);
            out.push('\n');
            out.push('\n');
            push_all(&mut out, s);
            assert(out@ =~= with_notice(s@, author@, style, year as nat));
            out
        },
        Some(e) => {
            let open_len = style.block_start().len();
            let y = skip_space_from(s, open_len) + 14;
            let end = if y + 4 < s.len() && s[y + 4] == '-' && four_digits(s, y + 5) {
                value_of_four(s, y + 5)
            } else {
                value_of_four(s, y)
            };
            if end == year {
                push_all(&mut out, s);
                assert(out@ =~= s@);
                out
            } else {
                let mut years: Vec<char> = Vec::new();
                push_range(&mut years, s, y, y + 4);
                years.push('-');
                push_decimal(&mut years, year);
                assert(years@ =~= s@.subrange(y as int, y + 4) + seq!['-'] + decimal(year as nat));
                push_notice(&mut out, style, &years, author);
                push_range(&mut out, s, e, s.len());
                out
            }
        },
    }
}

} // verus!
