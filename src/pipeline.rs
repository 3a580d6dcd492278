//! One file's content through the notice and the license block.

use crate::footer::{apply_footer, views, with_footer};
use crate::header::{apply_header, with_notice};
use crate::style::{get_comment_style, style_of, CommentStyle};
use crate::text::{chars_of, same, string_of};
use vstd::prelude::*;

verus! {

/// A line without the carriage return of a `\r\n` ending.
pub open spec fn strip_cr(l: Seq<char>) -> Seq<char> {
    if l.len() > 0 && l.last() == '\r' {
        l.drop_last()
    } else {
        l
    }
}

/// The lines of `t[start..]`, scanning from `i`: lines end at `\n` (a `\r`
/// just before it is dropped), and an unterminated last line counts when it
/// is not empty.
pub open spec fn lines_from(t: Seq<char>, start: int, i: int) -> Seq<Seq<char>>
    decreases t.len() - i,
{
    if i >= t.len() {
        if start < t.len() {
            seq![t.subrange(start, t.len() as int)]
        } else {
            seq![]
        }
    } else if t[i] == '\n' {
        seq![strip_cr(t.subrange(start, i))] + lines_from(t, i + 1, i + 1)
    } else {
        lines_from(t, start, i + 1)
    }
}

/// The lines of a text, as `str::lines` gives them.
pub open spec fn lines_of(t: Seq<char>) -> Seq<Seq<char>> {
    lines_from(t, 0, 0)
}

/// The content after the notice and then the license block are brought up to date.
pub open spec fn transformed(
    content: Seq<char>,
    author: Seq<char>,
    lines: Seq<Seq<char>>,
    style: CommentStyle,
    year: nat,
) -> Seq<char> {
    with_footer(with_notice(content, author, style, year), lines, style)
}

/// The new content of a file, and whether it differs from the old.
pub struct TransformResult {
    pub content: String,
    pub changed: bool,
}

/// The lines of `text`, as `str::lines` gives them.
pub fn split_lines(text: &Vec<char>) -> (r: Vec<Vec<char>>)
    ensures
        views(r@) == lines_of(text@),
{
    let mut out: Vec<Vec<char>> = Vec::new();
    let mut start: usize = 0;
    let mut i: usize = 0;
    while i < text.len()
        invariant
            start <= i <= text.len(),
            views(out@) + lines_from(text@, start as int, i as int) == lines_of(text@),
        decreases text.len() - i,
    {
        if text[i] == '\n' {
            let mut line: Vec<char> = Vec::new();
            let end = if i > start && text[i - 1] == '\r' { i - 1 } else { i };
            crate::text::push_range(&mut line, text, start, end);
            proof {
                let l = text@.subrange(start as int, i as int);
                assert(line@ =~= strip_cr(l));
            }
            let ghost before = views(out@);
            out.push(line);
            assert(views(out@) =~= before.push(line@));
            assert(views(out@) + lines_from(text@, i + 1, i + 1) =~= before + lines_from(text@, start as int, i as int));
            start = i + 1;
        }
        i = i + 1;
    }
    if start < text.len() {
        let mut line: Vec<char> = Vec::new();
        crate::text::push_range(&mut line, text, start, text.len());
        let ghost before = views(out@);
        out.push(line);
        assert(views(out@) =~= before.push(line@));
        assert(views(out@) =~= before + lines_from(text@, start as int, i as int));
    } else {
        assert(views(out@) =~= views(out@) + lines_from(text@, start as int, i as int));
    }
    out
}

/// Brings the notice of `author` up to `year` and the license block up to
/// `license`, in the comment syntax `style`.
pub fn transform(content: &str, author: &str, license: &str, style: CommentStyle, year: u32) -> (r:
    TransformResult)
    ensures
        r.content@ == transformed(content@, author@, lines_of(license@), style, year as nat),
        r.changed == (r.content@ != content@),
{
    let text = chars_of(content);
    let who = chars_of(author);
    let lines = split_lines(&chars_of(license));
    let with_header = apply_header(&text, &who, style, year);
    let out = apply_footer(&with_header, &lines, style);
    let changed = !same(&out, &text);
    TransformResult { content: string_of(&out), changed }
}

/// The new content of a file with extension `ext` (`None`: it has none).
pub fn update_content(content: &str, ext: Option<&str>, author: &str, license: &str, year: u32) -> (r:
    TransformResult)
    ensures
        r.content@ == transformed(
            content@,
            author@,
            lines_of(license@),
            style_of(
                match ext {
                    Some(e) => Some(e@),
                    None => None,
                },
            ),
            year as nat,
        ),
        r.changed == (r.content@ != content@),
{
    let style = get_comment_style(ext);
    transform(content, author, license, style, year)
}

} // verus!
