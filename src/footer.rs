//! The license block at the end of a file.
//!
//! The block is the license text, one comment line per line, under a
//! `License:` line, inside a block comment that follows a blank line. An
//! existing block is the shortest end of the file that starts with two line
//! breaks and the opening marker on a line of its own, holds `License:` and a
//! later line break, and ends with the closing marker and whitespace.

use crate::style::CommentStyle;
use crate::text::{all_space, is_space, lemma_trim_end_shape, matches_at, occurs_at, push_all, push_range, space, trim_end, trim_end_len};
use vstd::prelude::*;

verus! {

/// `License:`
pub open spec fn license_word() -> Seq<char> {
    seq!['L', 'i', 'c', 'e', 'n', 's', 'e', ':']
}

/// One license line as a comment line; a blank one is the prefix without its
/// trailing whitespace.
pub open spec fn render_line(line: Seq<char>, style: CommentStyle) -> Seq<char> {
    if all_space(line) {
        trim_end(style.prefix_spec())
    } else {
        style.prefix_spec() + line
    }
}

/// The license lines as comment lines, joined by line breaks.
pub open spec fn rendered(lines: Seq<Seq<char>>, style: CommentStyle) -> Seq<char>
    decreases lines.len(),
{
    if lines.len() == 0 {
        seq![]
    } else if lines.len() == 1 {
        render_line(lines[0], style)
    } else {
        rendered(lines.drop_last(), style) + seq!['\n'] + render_line(lines.last(), style)
    }
}

/// The two line breaks and the opening line that begin a license block.
pub open spec fn footer_head(style: CommentStyle) -> Seq<char> {
    seq!['\n', '\n'] + style.open_spec() + seq!['\n']
}

/// The license block written for `lines`.
pub open spec fn footer_text(lines: Seq<Seq<char>>, style: CommentStyle) -> Seq<char> {
    footer_head(style) + style.prefix_spec() + license_word() + seq!['\n'] + rendered(lines, style)
        + seq!['\n'] + style.close_spec()
}

/// The closing marker stands at `k`, and only whitespace follows it.
pub open spec fn closes_at(s: Seq<char>, k: int, style: CommentStyle) -> bool {
    occurs_at(s, k, style.close_spec()) && all_space(
        s.subrange(k + style.close_spec().len(), s.len() as int),
    )
}

/// `License:` at `i`, a line break at `j` after it, the closing marker at `k`
/// after that, then only whitespace.
pub open spec fn tail_parts(s: Seq<char>, i: int, j: int, k: int, style: CommentStyle) -> bool {
    occurs_at(s, i, license_word()) && i + 8 <= j && j < k && s[j] == '\n' && closes_at(s, k, style)
}

/// From `p` on, `s` reads as the body and end of a license block.
pub open spec fn tail_from(s: Seq<char>, p: int, style: CommentStyle) -> bool {
    exists|i: int, j: int, k: int| p <= i && #[trigger] tail_parts(s, i, j, k, style)
}

/// A license block begins at `m` and runs to the end of `s`.
pub open spec fn is_footer_at(s: Seq<char>, m: int, style: CommentStyle) -> bool {
    occurs_at(s, m, footer_head(style)) && tail_from(s, m + footer_head(style).len(), style)
}

/// `m` is the last position at which a license block begins.
pub open spec fn is_last_footer_at(s: Seq<char>, m: int, style: CommentStyle) -> bool {
    is_footer_at(s, m, style) && forall|m2: int| #[trigger] is_footer_at(s, m2, style) ==> m2 <= m
}

/// `s` with its license block replaced by the one for `lines`, or with that
/// block appended after its trailing whitespace when it has none.
pub open spec fn with_footer(s: Seq<char>, lines: Seq<Seq<char>>, style: CommentStyle) -> Seq<char> {
    if exists|m: int| is_last_footer_at(s, m, style) {
        let m = choose|m: int| is_last_footer_at(s, m, style);
        s.subrange(0, m) + footer_text(lines, style)
    } else {
        trim_end(s) + footer_text(lines, style)
    }
}

/// The views of the lines.
pub open spec fn views(lines: Seq<Vec<char>>) -> Seq<Seq<char>> {
    lines.map_values(|l: Vec<char>| l@)
}

/// The last `p <= hi` at which `w` stands in `s`.
fn last_match(s: &Vec<char>, w: &Vec<char>, hi: usize) -> (r: Option<usize>)
    ensures
        r matches Some(p) ==> p <= hi && occurs_at(s@, p as int, w@) && forall|q: int|
            p < q <= hi ==> !occurs_at(s@, q, w@),
        r is None ==> forall|q: int| 0 <= q <= hi ==> !occurs_at(s@, q, w@),
{
    let mut p: usize = hi;
    loop
        invariant
            p <= hi,
            forall|q: int| p < q <= hi ==> !occurs_at(s@, q, w@),
        decreases p,
    {
        if matches_at(s, p, w) {
            return Some(p);
        }
        if p == 0 {
            return None;
        }
        p = p - 1;
    }
}

fn all_blank(line: &Vec<char>) -> (r: bool)
    ensures
        r == all_space(line@),
{
    let mut i: usize = 0;
    while i < line.len()
        invariant
            i <= line.len(),
            forall|k: int| 0 <= k < i ==> is_space(#[trigger] line@[k]),
        decreases line.len() - i,
    {
        if !space(line[i]) {
            return false;
        }
        i = i + 1;
    }
    true
}

fn push_rendered_line(out: &mut Vec<char>, line: &Vec<char>, style: CommentStyle)
    ensures
        final(out)@ == old(out)@ + render_line(line@, style),
{
    let prefix = style.line_prefix();
    if all_blank(line) {
        let n = trim_end_len(&prefix);
        proof {
            lemma_trim_end_shape(prefix@);
        }
        push_range(out, &prefix, 0, n);
    } else {
        let ghost start = out@;
        push_all(out, &prefix);
        push_all(out, line);
        assert(out@ =~= start + render_line(line@, style));
    }
}

/// Appends the license block for `lines` to `out`.
pub fn push_footer(out: &mut Vec<char>, lines: &Vec<Vec<char>>, style: CommentStyle)
    ensures
        final(out)@ == old(out)@ + footer_text(views(lines@), style),
{
    let ghost start = out@;
    let word = vec!['L', 'i', 'c', 'e', 'n', 's', 'e', ':'];
    assert(word@ =~= license_word());
    out.push('\n');
    out.push('\n');
    push_all(out, &style.block_start());
    out.push('\n');
    push_all(out, &style.line_prefix());
    push_all(out, &word);
    out.push('\n');
    let ghost before = out@;
    let mut idx: usize = 0;
    while idx < lines.len()
        invariant
            idx <= lines.len(),
            out@ == before + rendered(views(lines@).take(idx as int), style),
        decreases lines.len() - idx,
    {
        let ghost ls = views(lines@);
        assert(ls.take(idx + 1).drop_last() =~= ls.take(idx as int));
        assert(ls.take(idx + 1).last() == lines@[idx as int]@);
        if idx > 0 {
            out.push('\n');
        } else {
            assert(ls.take(idx as int) =~= Seq::<Seq<char>>::empty());
        }
        push_rendered_line(out, &lines[idx], style);
        assert(out@ =~= before + rendered(ls.take(idx + 1), style));
        idx = idx + 1;
    }
    assert(views(lines@).take(lines.len() as int) =~= views(lines@));
    out.push('\n');
    push_all(out, &style.block_end());
    assert(out@ =~= start + footer_text(views(lines@), style));
}

/// A closing marker followed only by whitespace ends where the trimmed
/// content ends.
proof fn lemma_close_end(s: Seq<char>, k: int, style: CommentStyle)
    requires
        closes_at(s, k, style),
    ensures
        k + style.close_spec().len() == trim_end(s).len(),
{
    lemma_trim_end_shape(s);
    let c = style.close_spec();
    let t = trim_end(s).len() as int;
    let e = k + c.len();
    assert(!is_space(c[c.len() - 1]));
    assert(s[e - 1] == s.subrange(k, e)[c.len() - 1]);
    if e < t {
        assert(is_space(s.subrange(e, s.len() as int)[t - 1 - e]));
    } else if e > t {
        assert(is_space(s.subrange(t, s.len() as int)[e - 1 - t]));
    }
}

/// The last position at which a license block begins, if any.
pub fn find_footer(s: &Vec<char>, style: CommentStyle) -> (r: Option<usize>)
    ensures
        r matches Some(m) ==> is_last_footer_at(s@, m as int, style) && m <= s.len(),
        r is None ==> forall|m: int| !is_footer_at(s@, m, style),
{
    let close = style.block_end();
    let head_len: usize = style.block_start().len() + 3;
    let t = trim_end_len(s);
    proof {
        lemma_trim_end_shape(s@);
    }
    if t < close.len() + 1 || !matches_at(s, t - close.len(), &close) {
        proof {
            assert forall|m: int| !is_footer_at(s@, m, style) by {
                if is_footer_at(s@, m, style) {
                    let (i, j, k) = choose|i: int, j: int, k: int|
                        m + footer_head(style).len() <= i && #[trigger] tail_parts(s@, i, j, k, style);
                    lemma_close_end(s@, k, style);
                }
            }
        }
        return None;
    }
    let k = t - close.len();
    let ghost kk = k as int;
    assert(closes_at(s@, kk, style)) by {
        assert(s@.subrange(kk + close@.len(), s@.len() as int) == s@.subrange(t as int, s@.len() as int));
    }
    let nl = vec!['\n'];
    let j = match last_match(s, &nl, k - 1) {
        Some(j) => j,
        None => {
            proof {
                assert forall|m: int| !is_footer_at(s@, m, style) by {
                    if is_footer_at(s@, m, style) {
                        let (i, j, k2) = choose|i: int, j: int, k2: int|
                            m + footer_head(style).len() <= i && #[trigger] tail_parts(s@, i, j, k2, style);
                        lemma_close_end(s@, k2, style);
                        assert(s@.subrange(j, j + 1) =~= nl@);
                        assert(occurs_at(s@, j, nl@));
                    }
                }
            }
            return None;
        },
    };
    assert(s@[j as int] == '\n') by {
        assert(s@.subrange(j as int, j + 1)[0] == nl@[0]);
    }
    let word = vec!['L', 'i', 'c', 'e', 'n', 's', 'e', ':'];
    assert(word@ =~= license_word());
    // every license block has its line break at or before `j`
    assert forall|i: int, j2: int, k2: int| #[trigger] tail_parts(s@, i, j2, k2, style)
        implies k2 == kk && j2 <= j by {
        lemma_close_end(s@, k2, style);
        assert(s@.subrange(j2, j2 + 1) =~= nl@);
        assert(occurs_at(s@, j2, nl@));
    }
    if j < 8 {
        proof {
            assert forall|m: int| !is_footer_at(s@, m, style) by {
                if is_footer_at(s@, m, style) {
                    let (i, j2, k2) = choose|i: int, j2: int, k2: int|
                        m + footer_head(style).len() <= i && #[trigger] tail_parts(s@, i, j2, k2, style);
                }
            }
        }
        return None;
    }
    let i = match last_match(s, &word, j - 8) {
        Some(i) => i,
        None => {
            proof {
                assert forall|m: int| !is_footer_at(s@, m, style) by {
                    if is_footer_at(s@, m, style) {
                        let (i, j2, k2) = choose|i: int, j2: int, k2: int|
                            m + footer_head(style).len() <= i && #[trigger] tail_parts(s@, i, j2, k2, style);
                    }
                }
            }
            return None;
        },
    };
    // every license block has its `License:` at or before `i`
    assert forall|i2: int, j2: int, k2: int| #[trigger] tail_parts(s@, i2, j2, k2, style)
        implies i2 <= i by {
    }
    let mut head: Vec<char> = vec!['\n', '\n'];
    push_all(&mut head, &style.block_start());
    head.push('\n');
    assert(head@ =~= footer_head(style));
    if i < head.len() {
        proof {
            assert forall|m: int| !is_footer_at(s@, m, style) by {
                if is_footer_at(s@, m, style) {
                    let (i2, j2, k2) = choose|i2: int, j2: int, k2: int|
                        m + footer_head(style).len() <= i2 && #[trigger] tail_parts(s@, i2, j2, k2, style);
                }
            }
        }
        return None;
    }
    let found = last_match(s, &head, i - head.len());
    proof {
        assert forall|m: int| #[trigger] is_footer_at(s@, m, style) implies 0 <= m <= i - head.len() && occurs_at(s@, m, head@) by {
            let (i2, j2, k2) = choose|i2: int, j2: int, k2: int|
                m + footer_head(style).len() <= i2 && #[trigger] tail_parts(s@, i2, j2, k2, style);
        }
    }
    match found {
        Some(m) => {
            assert(tail_parts(s@, i as int, j as int, kk, style));
            assert(is_footer_at(s@, m as int, style));
            Some(m)
        },
        None => None,
    }
}

/// `s` with its license block replaced by the one for `lines`, or with that
/// block appended.
pub fn apply_footer(s: &Vec<char>, lines: &Vec<Vec<char>>, style: CommentStyle) -> (r: Vec<char>)
    ensures
        r@ == with_footer(s@, views(lines@), style),
{
    let mut out: Vec<char> = Vec::new();
    match find_footer(s, style) {
        Some(m) => {
            proof {
                let m2 = choose|m2: int| is_last_footer_at(s@, m2, style);
                assert(m2 <= m && m <= m2);
            }
            push_range(&mut out, s, 0, m);
        },
        None => {
            let t = trim_end_len(s);
            proof {
                lemma_trim_end_shape(s@);
            }
            push_range(&mut out, s, 0, t);
        },
    }
    push_footer(&mut out, lines, style);
    out
}

} // verus!
