//! What holds of every run: the notice ends in the current year, the markers
//! are the file's own, and a second run changes nothing.

use crate::footer::{footer_head, footer_text, license_word, render_line, rendered, tail_parts, is_footer_at, is_last_footer_at, with_footer};
use crate::header::{
    author_end, close_from, copyright_words, decimal, digit_char, digit_value, end_year,
    four_digits_at, four_value, is_digit, is_range_at, notice_end, notice_text, skip_space,
    with_notice, years_at, years_end,
};
use crate::pipeline::{lines_from, lines_of, strip_cr, transformed};
use crate::style::CommentStyle;
use crate::text::{all_space, is_space, lemma_trim_end_shape, occurs_at, trim_end};
use vstd::prelude::*;

verus! {

proof fn lemma_digit(d: nat)
    requires
        d < 10,
    ensures
        is_digit(digit_char(d)),
        digit_value(digit_char(d)) == d,
{
}

/// A year of four digits is written with four digits.
proof fn lemma_decimal_four(n: nat)
    requires
        1000 <= n <= 9999,
    ensures
        decimal(n).len() == 4,
        four_digits_at(decimal(n), 0),
        four_value(decimal(n), 0) == n,
{
    let q1 = n / 10;
    let q2 = q1 / 10;
    let q3 = q2 / 10;
    assert(q3 < 10);
    assert(q2 >= 10 && q1 >= 10);
    lemma_digit(n % 10);
    lemma_digit(q1 % 10);
    lemma_digit(q2 % 10);
    lemma_digit(q3);
    assert(decimal(q3) == seq![digit_char(q3)]);
    assert(decimal(q2) == decimal(q3).push(digit_char(q2 % 10)));
    assert(decimal(q1) == decimal(q2).push(digit_char(q1 % 10)));
    assert(decimal(n) == decimal(q1).push(digit_char(n % 10)));
    assert(decimal(n) =~= seq![digit_char(q3), digit_char(q2 % 10), digit_char(q1 % 10), digit_char(n % 10)]);
}

#[verifier::rlimit(100)]
#[verifier::spinoff_prover]
/// A notice that this library writes, followed by anything, is found again,
/// with the years it was written with.
proof fn lemma_written_notice(
    style: CommentStyle,
    first: Seq<char>,
    ranged: bool,
    author: Seq<char>,
    rest: Seq<char>,
    year: nat,
)
    requires
        1000 <= year <= 9999,
        ranged ==> first.len() == 4 && four_digits_at(first, 0),
    ensures
        ({
            let years = if ranged { first + seq!['-'] + decimal(year) } else { decimal(year) };
            let s = notice_text(style, years, author) + rest;
            let y = years_at(s, style);
            &&& y == style.open_spec().len() + 15
            &&& notice_end(s, author, style) is Some
            &&& notice_end(s, author, style).unwrap() <= notice_text(style, years, author).len()
            &&& end_year(s, y) == year
            &&& s.subrange(y, y + 4) == years.subrange(0, 4)
        }),
{
    lemma_decimal_four(year);
    let years = if ranged { first + seq!['-'] + decimal(year) } else { decimal(year) };
    let n = notice_text(style, years, author);
    let s = n + rest;
    let o = style.open_spec().len() as int;
    let c = style.close_spec();
    assert(s[o] == ' ');
    assert(s[o + 1] == 'C');
    assert(skip_space(s, o + 1) == o + 1);
    assert(skip_space(s, o) == o + 1);
    let y = o + 15;
    assert(s.subrange(0, o) =~= style.open_spec());
    assert(s.subrange(y - 14, y) =~= copyright_words());
    assert(s.subrange(y, y + 4) =~= years.subrange(0, 4));
    let ye = y + years.len();
    if ranged {
        assert(s.subrange(y + 5, y + 9) =~= decimal(year));
        assert(is_range_at(s, y));
        assert(four_value(s, y + 5) == four_value(decimal(year), 0));
    } else {
        assert(s.subrange(y, y + 4) =~= decimal(year));
        assert(s[y + 4] == ' ');
        assert(!is_range_at(s, y));
        assert(four_value(s, y) == four_value(decimal(year), 0));
    }
    assert(years_end(s, y) == ye);
    assert(s.subrange(ye, ye + 1 + author.len()) =~= seq![' '] + author);
    let a = ye + 1 + author.len();
    assert(author_end(s, author, style) == a);
    assert(s[a] == ' ');
    assert(s.subrange(a + 1, a + 1 + c.len()) =~= c);
    assert(close_from(s, c, a + 1) == Some(a + 1 + c.len()));
    assert(close_from(s, c, a) is Some);
    assert(n.len() == a + 1 + c.len());
}

#[verifier::rlimit(40)]
/// After a run the notice at the top ends in the current year, and a notice
/// that was already there keeps its first year.
pub proof fn law_notice_ends_in_current_year(
    content: Seq<char>,
    author: Seq<char>,
    style: CommentStyle,
    year: nat,
)
    requires
        1000 <= year <= 9999,
    ensures
        ({
            let out = with_notice(content, author, style, year);
            let y = years_at(out, style);
            &&& notice_end(out, author, style) is Some
            &&& end_year(out, y) == year
            &&& notice_end(content, author, style) is Some ==> out.subrange(y, y + 4)
                == content.subrange(years_at(content, style), years_at(content, style) + 4)
        }),
{
    match notice_end(content, author, style) {
        None => {
            lemma_written_notice(style, seq![], false, author, seq!['\n', '\n'] + content, year);
            assert(with_notice(content, author, style, year) =~= notice_text(
                style,
                decimal(year),
                author,
            ) + (seq!['\n', '\n'] + content));
        },
        Some(e) => {
            let y = years_at(content, style);
            if end_year(content, y) != year {
                let first = content.subrange(y, y + 4);
                lemma_written_notice(style, first, true, author, content.subrange(e, content.len() as int), year);
            }
        },
    }
}

/// The license block step keeps the first `e` characters when no license
/// block begins among them and the last of them is no whitespace.
proof fn lemma_footer_keeps_prefix(x: Seq<char>, lines: Seq<Seq<char>>, style: CommentStyle, e: int)
    requires
        0 < e <= x.len(),
        !is_space(x[e - 1]),
        forall|m: int| 0 <= m < e ==> !occurs_at(x, m, footer_head(style)),
    ensures
        with_footer(x, lines, style).len() >= e,
        with_footer(x, lines, style).subrange(0, e) == x.subrange(0, e),
{
    if exists|m: int| is_last_footer_at(x, m, style) {
        let m = choose|m: int| is_last_footer_at(x, m, style);
        assert(m >= e);
        assert(with_footer(x, lines, style).subrange(0, e) =~= x.subrange(0, e));
    } else {
        lemma_trim_end_shape(x);
        let t = trim_end(x).len() as int;
        if t < e {
            assert(is_space(x.subrange(t, x.len() as int)[e - 1 - t]));
        }
        assert(with_footer(x, lines, style).subrange(0, e) =~= x.subrange(0, e));
    }
}

/// After a notice step the content opens with the style's opening marker.
proof fn lemma_notice_opens(content: Seq<char>, author: Seq<char>, style: CommentStyle, year: nat)
    ensures
        occurs_at(with_notice(content, author, style, year), 0, style.open_spec()),
{
    let x = with_notice(content, author, style, year);
    let o = style.open_spec().len() as int;
    match notice_end(content, author, style) {
        None => {
            assert(x.subrange(0, o) =~= style.open_spec());
        },
        Some(e) => {
            if x != content {
                assert(x.subrange(0, o) =~= style.open_spec());
            }
        },
    }
}

/// The output opens with the style's opening marker and ends with the
/// license block written in that style's markers.
pub proof fn law_markers_follow_style(
    content: Seq<char>,
    author: Seq<char>,
    lines: Seq<Seq<char>>,
    style: CommentStyle,
    year: nat,
)
    ensures
        ({
            let out = transformed(content, author, lines, style, year);
            let f = footer_text(lines, style);
            &&& occurs_at(out, 0, style.open_spec())
            &&& out.len() >= f.len()
            &&& out.subrange(out.len() - f.len(), out.len() as int) == f
        }),
{
    let x = with_notice(content, author, style, year);
    let o = style.open_spec().len() as int;
    lemma_notice_opens(content, author, style, year);
    assert(x.subrange(0, o) == style.open_spec());
    assert forall|m: int| 0 <= m < o implies !occurs_at(x, m, footer_head(style)) by {
        if occurs_at(x, m, footer_head(style)) {
            assert(x[m] == x.subrange(m, m + footer_head(style).len())[0]);
            assert(x[m] == x.subrange(0, o)[m]);
        }
    }
    assert(x[o - 1] == x.subrange(0, o)[o - 1]);
    lemma_footer_keeps_prefix(x, lines, style, o);
    let out = with_footer(x, lines, style);
    assert(out.subrange(0, o) == style.open_spec());
    let f = footer_text(lines, style);
    if exists|m: int| is_last_footer_at(x, m, style) {
        let m = choose|m: int| is_last_footer_at(x, m, style);
        assert(out.subrange(out.len() - f.len(), out.len() as int) =~= f);
    } else {
        assert(out.subrange(out.len() - f.len(), out.len() as int) =~= f);
    }
}

/// Lines, each after a line break.
spec fn nl_join(ls: Seq<Seq<char>>) -> Seq<char>
    decreases ls.len(),
{
    if ls.len() == 0 {
        seq![]
    } else {
        nl_join(ls.drop_last()) + seq!['\n'] + ls.last()
    }
}

/// `l` holds no line break.
pub open spec fn no_break(l: Seq<char>) -> bool {
    forall|i: int| 0 <= i < l.len() ==> l[i] != '\n'
}

proof fn lemma_nl_join_concat(a: Seq<Seq<char>>, b: Seq<Seq<char>>)
    ensures
        nl_join(a + b) == nl_join(a) + nl_join(b),
    decreases b.len(),
{
    if b.len() == 0 {
        assert(a + b =~= a);
        assert(nl_join(b) =~= seq![]);
        assert(nl_join(a) + nl_join(b) =~= nl_join(a));
    } else {
        lemma_nl_join_concat(a, b.drop_last());
        assert((a + b).drop_last() =~= a + b.drop_last());
        assert(nl_join(a + b) =~= nl_join(a) + nl_join(b));
    }
}

/// Where two line breaks, the line `c` and a line break stand in joined
/// lines, an empty line is followed by the line `c` and by one more line.
proof fn lemma_head_in_joined(ls: Seq<Seq<char>>, c: Seq<char>, o: int)
    requires
        forall|t: int| 0 <= t < ls.len() ==> no_break(#[trigger] ls[t]),
        no_break(c),
        occurs_at(nl_join(ls), o, seq!['\n', '\n'] + c + seq!['\n']),
    ensures
        exists|t: int| 0 <= t && t + 2 < ls.len() && #[trigger] ls[t] == Seq::<char>::empty() && ls[t + 1] == c,
    decreases ls.len(),
{
    let h = seq!['\n', '\n'] + c + seq!['\n'];
    let j = nl_join(ls);
    if ls.len() == 0 {
        assert(j.len() == 0);
    } else {
        let ls1 = ls.drop_last();
        let x = nl_join(ls1);
        let lam = ls.last();
        assert(no_break(lam));
        let hl = h.len() as int;
        assert(j[o + hl - 1] == j.subrange(o, o + hl)[hl - 1]);
        if o + hl - 1 > x.len() {
            assert(j[o + hl - 1] == lam[o + hl - 1 - x.len() - 1]);
        }
        if o + hl <= x.len() {
            assert(x.subrange(o, o + hl) =~= j.subrange(o, o + hl));
            lemma_head_in_joined(ls1, c, o);
            let t = choose|t: int| 0 <= t && t + 2 < ls1.len() && #[trigger] ls1[t] == Seq::<char>::empty() && ls1[t + 1] == c;
            assert(ls[t] == ls1[t] && ls[t + 1] == ls1[t + 1]);
        } else {
            // the last line break of the match is the one before `lam`
            assert(o + hl - 1 == x.len());
            assert forall|k: int| 0 <= k < c.len() + 2 implies x[o + k] == h[k] by {
                assert(x[o + k] == j[o + k]);
                assert(j[o + k] == j.subrange(o, o + hl)[k]);
            }
            assert(ls1.len() > 0);
            let ls2 = ls1.drop_last();
            let y = nl_join(ls2);
            let mu = ls1.last();
            assert(no_break(mu));
            assert(x =~= y + seq!['\n'] + mu);
            let cl = c.len() as int;
            if mu.len() > cl {
                assert(x[o + 1] == h[1]);
                assert(x[o + 1] == mu[o + 1 - y.len() - 1]);
            } else if mu.len() < cl {
                assert(x[x.len() - mu.len() - 1] == '\n');
                let k = 2 + cl - mu.len() - 1;
                assert(x[o + k] == h[k]);
                assert(h[k] == c[k - 2]);
            }
            assert(mu.len() == cl);
            assert forall|k: int| 0 <= k < cl implies mu[k] == c[k] by {
                assert(x[o + 2 + k] == h[2 + k]);
                assert(x[y.len() + 1 + k] == mu[k]);
            }
            assert(mu =~= c);
            assert(x[o + 0] == h[0]);
            assert(x[o] == '\n');
            assert(o == y.len() - 1);
            assert(ls2.len() > 0);
            let nu = ls2.last();
            assert(y =~= nl_join(ls2.drop_last()) + seq!['\n'] + nu);
            if nu.len() > 0 {
                assert(no_break(nu));
                assert(y[y.len() - 1] == nu[nu.len() - 1]);
            }
            assert(nu =~= Seq::<char>::empty());
            let t = ls.len() - 3;
            assert(ls[t] == nu);
            assert(ls[t + 1] == mu);
        }
    }
}

spec fn rendered_lines(lines: Seq<Seq<char>>, style: CommentStyle) -> Seq<Seq<char>> {
    lines.map_values(|l: Seq<char>| render_line(l, style))
}

proof fn lemma_rendered_joined(lines: Seq<Seq<char>>, style: CommentStyle)
    requires
        lines.len() > 0,
    ensures
        seq!['\n'] + rendered(lines, style) == nl_join(rendered_lines(lines, style)),
    decreases lines.len(),
{
    let rl = rendered_lines(lines, style);
    if lines.len() == 1 {
        assert(rl.drop_last() =~= Seq::<Seq<char>>::empty());
        assert(nl_join(rl.drop_last()) =~= Seq::<char>::empty());
        assert(rl.last() == render_line(lines[0], style));
        assert(nl_join(rl) =~= seq!['\n'] + rendered(lines, style));
    } else {
        lemma_rendered_joined(lines.drop_last(), style);
        assert(rl.drop_last() =~= rendered_lines(lines.drop_last(), style));
        assert(nl_join(rl) =~= seq!['\n'] + rendered(lines, style));
    }
}

/// The lines of a license block, from its opening line to its closing one.
spec fn block_lines(lines: Seq<Seq<char>>, style: CommentStyle) -> Seq<Seq<char>> {
    let mid = if lines.len() == 0 {
        seq![Seq::<char>::empty()]
    } else {
        rendered_lines(lines, style)
    };
    seq![style.open_spec(), style.prefix_spec() + license_word()] + mid + seq![style.close_spec()]
}

proof fn lemma_block_lines(lines: Seq<Seq<char>>, style: CommentStyle)
    ensures
        footer_text(lines, style) == seq!['\n'] + nl_join(block_lines(lines, style)),
{
    let bl = block_lines(lines, style);
    let first = seq![style.open_spec(), style.prefix_spec() + license_word()];
    let mid = if lines.len() == 0 {
        seq![Seq::<char>::empty()]
    } else {
        rendered_lines(lines, style)
    };
    assert(bl.drop_last() =~= first + mid);
    lemma_nl_join_concat(first, mid);
    assert(first.drop_last() =~= seq![style.open_spec()]);
    assert(first.drop_last().drop_last() =~= Seq::<Seq<char>>::empty());
    assert(nl_join(first.drop_last().drop_last()) =~= Seq::<char>::empty());
    assert(nl_join(first.drop_last()) =~= seq!['\n'] + style.open_spec());
    assert(nl_join(first) =~= seq!['\n'] + style.open_spec() + seq!['\n'] + style.prefix_spec() + license_word());
    if lines.len() == 0 {
        assert(mid.drop_last() =~= Seq::<Seq<char>>::empty());
        assert(nl_join(mid.drop_last()) =~= Seq::<char>::empty());
        assert(nl_join(mid) =~= seq!['\n']);
        assert(rendered(lines, style) =~= Seq::<char>::empty());
    } else {
        lemma_rendered_joined(lines, style);
    }
    assert(footer_text(lines, style) =~= seq!['\n'] + nl_join(bl));
}

/// A rendered line is the opening marker only in `#` style, and empty only
/// in markup style.
proof fn lemma_render_shape(l: Seq<char>, style: CommentStyle)
    ensures
        render_line(l, style) == style.open_spec() ==> style == CommentStyle::Hash,
        render_line(l, style).len() == 0 ==> style == CommentStyle::Markup,
        no_break(l) ==> no_break(render_line(l, style)),
{
    reveal_with_fuel(trim_end, 4);
    let r = render_line(l, style);
    let p = style.prefix_spec();
    if all_space(l) {
        assert(trim_end(seq![' ', '*', ' ']) =~= seq![' ', '*']);
        assert(trim_end(seq!['#', ' ']) =~= seq!['#']);
        assert(trim_end(seq!['-', '-', ' ']) =~= seq!['-', '-']);
        assert(trim_end(seq![' ']) =~= Seq::<char>::empty());
        if r == style.open_spec() {
            assert(r.len() == style.open_spec().len());
        }
    } else {
        assert(r[0] == p[0]);
        if r == style.open_spec() {
            assert(r[0] == style.open_spec()[0]);
            if style == CommentStyle::Lua {
                assert(r[2] == p[2]);
                assert(r[2] == style.open_spec()[2]);
            }
        }
        if no_break(l) {
            assert forall|i: int| 0 <= i < r.len() implies r[i] != '\n' by {
                if i >= p.len() {
                    assert(r[i] == l[i - p.len()]);
                }
            }
        }
    }
}

/// A license block holds no second start of a license block.
proof fn lemma_one_head(lines: Seq<Seq<char>>, style: CommentStyle, o: int)
    requires
        forall|t: int| 0 <= t < lines.len() ==> no_break(#[trigger] lines[t]),
        o >= 1,
    ensures
        !occurs_at(footer_text(lines, style), o, footer_head(style)),
{
    let f = footer_text(lines, style);
    let bl = block_lines(lines, style);
    let h = footer_head(style);
    lemma_block_lines(lines, style);
    if occurs_at(f, o, h) {
        let j = nl_join(bl);
        assert(j.subrange(o - 1, o - 1 + h.len()) =~= f.subrange(o, o + h.len()));
        assert forall|t: int| 0 <= t < bl.len() implies no_break(#[trigger] bl[t]) by {
            if 2 <= t < bl.len() - 1 && lines.len() > 0 {
                lemma_render_shape(lines[t - 2], style);
            }
        }
        lemma_head_in_joined(bl, style.open_spec(), o - 1);
        let t = choose|t: int| 0 <= t && t + 2 < bl.len() && #[trigger] bl[t] == Seq::<char>::empty() && bl[t + 1] == style.open_spec();
        assert(t != 0 && t != 1) by {
            assert(bl[0] == style.open_spec());
            assert(bl[1].len() > 0);
        }
        assert(lines.len() > 0);
        lemma_render_shape(lines[t - 2], style);
        lemma_render_shape(lines[t - 1], style);
        assert(bl[t] == render_line(lines[t - 2], style));
        assert(bl[t + 1] == render_line(lines[t - 1], style));
    }
}

/// Where the parts of a written license block stand.
proof fn lemma_footer_parts(lines: Seq<Seq<char>>, style: CommentStyle)
    ensures
        ({
            let f = footer_text(lines, style);
            let h = footer_head(style);
            let i = (h.len() + style.prefix_spec().len()) as int;
            let k = f.len() - style.close_spec().len();
            &&& f.subrange(0, h.len() as int) == h
            &&& f.subrange(i, i + 8) == license_word()
            &&& f[i + 8] == '\n'
            &&& i + 8 < k
            &&& f.subrange(k, f.len() as int) == style.close_spec()
        }),
{
    let f = footer_text(lines, style);
    let h = footer_head(style);
    let i = (h.len() + style.prefix_spec().len()) as int;
    let k = f.len() - style.close_spec().len();
    assert(f.subrange(0, h.len() as int) =~= h);
    assert(f.subrange(i, i + 8) =~= license_word());
    assert(f.subrange(k, f.len() as int) =~= style.close_spec());
}

/// A license block that this library wrote, after anything, is found again
/// as the last one.
proof fn lemma_footer_last(p: Seq<char>, lines: Seq<Seq<char>>, style: CommentStyle)
    requires
        forall|t: int| 0 <= t < lines.len() ==> no_break(#[trigger] lines[t]),
    ensures
        is_last_footer_at(p + footer_text(lines, style), p.len() as int, style),
{
    let f = footer_text(lines, style);
    let z = p + f;
    let h = footer_head(style);
    let pl = p.len() as int;
    lemma_footer_parts(lines, style);
    let i0 = (h.len() + style.prefix_spec().len()) as int;
    let k0 = f.len() - style.close_spec().len();
    assert(z.subrange(pl, pl + h.len()) =~= f.subrange(0, h.len() as int));
    assert(z.subrange(pl + i0, pl + i0 + 8) =~= f.subrange(i0, i0 + 8));
    assert(z[pl + i0 + 8] == f[i0 + 8]);
    assert(z.subrange(pl + k0, z.len() as int) =~= f.subrange(k0, f.len() as int));
    assert(z.subrange(z.len() as int, z.len() as int) =~= Seq::<char>::empty());
    assert(tail_parts(z, pl + i0, pl + i0 + 8, pl + k0, style));
    assert(is_footer_at(z, pl, style));
    assert forall|m2: int| #[trigger] is_footer_at(z, m2, style) implies m2 <= pl by {
        if m2 > pl {
            assert(f.subrange(m2 - pl, m2 - pl + h.len()) =~= z.subrange(m2, m2 + h.len()));
            lemma_one_head(lines, style, m2 - pl);
        }
    }
}

/// Writing the license block again over one that this library wrote
/// changes nothing.
proof fn lemma_footer_again(p: Seq<char>, lines: Seq<Seq<char>>, style: CommentStyle)
    requires
        forall|t: int| 0 <= t < lines.len() ==> no_break(#[trigger] lines[t]),
    ensures
        with_footer(p + footer_text(lines, style), lines, style) == p + footer_text(lines, style),
{
    let z = p + footer_text(lines, style);
    lemma_footer_last(p, lines, style);
    let m = choose|m: int| is_last_footer_at(z, m, style);
    assert(m == p.len());
    assert(z.subrange(0, p.len() as int) =~= p);
}
proof fn lemma_skip_space(s: Seq<char>, i: int)
    requires
        0 <= i <= s.len(),
    ensures
        i <= skip_space(s, i) <= s.len(),
        forall|q: int| i <= q < skip_space(s, i) ==> is_space(#[trigger] s[q]),
        skip_space(s, i) < s.len() ==> !is_space(s[skip_space(s, i)]),
    decreases s.len() - i,
{
    if i < s.len() && is_space(s[i]) {
        lemma_skip_space(s, i + 1);
    }
}

/// Skipping whitespace reads no further than the first character that is
/// not whitespace.
proof fn lemma_skip_space_prefix(s: Seq<char>, s2: Seq<char>, i: int, e: int)
    requires
        0 <= i <= skip_space(s, i) < e <= s.len(),
        e <= s2.len(),
        s2.subrange(0, e) == s.subrange(0, e),
    ensures
        skip_space(s2, i) == skip_space(s, i),
    decreases s.len() - i,
{
    assert(s2[i] == s2.subrange(0, e)[i]);
    assert(s[i] == s.subrange(0, e)[i]);
    if i < s.len() && is_space(s[i]) {
        lemma_skip_space(s, i + 1);
        lemma_skip_space_prefix(s, s2, i + 1, e);
    }
}

proof fn lemma_close_from(s: Seq<char>, c: Seq<char>, k: int)
    requires
        close_from(s, c, k) is Some,
        c.len() > 0,
    ensures
        ({
            let e = close_from(s, c, k).unwrap();
            &&& k + c.len() <= e <= s.len()
            &&& occurs_at(s, e - c.len(), c)
            &&& forall|q: int| k <= q < e - c.len() ==> #[trigger] s[q] != '\n'
        }),
    decreases s.len() - k,
{
    if !occurs_at(s, k, c) {
        lemma_close_from(s, c, k + 1);
    }
}

/// Finding the closing marker reads no further than the marker found.
proof fn lemma_close_from_prefix(s: Seq<char>, s2: Seq<char>, c: Seq<char>, k: int, e: int)
    requires
        close_from(s, c, k) == Some(e),
        c.len() > 0,
        e <= s2.len(),
        s2.subrange(0, e) == s.subrange(0, e),
    ensures
        close_from(s2, c, k) == Some(e),
    decreases s.len() - k,
{
    lemma_close_from(s, c, k);
    assert(s2[k] == s2.subrange(0, e)[k]);
    assert(s[k] == s.subrange(0, e)[k]);
    if occurs_at(s, k, c) {
        assert(s2.subrange(k, k + c.len()) =~= s.subrange(k, k + c.len())) by {
            assert forall|q: int| 0 <= q < c.len() implies #[trigger] s2.subrange(k, k + c.len())[q] == s.subrange(k, k + c.len())[q] by {
                assert(s2[k + q] == s2.subrange(0, e)[k + q]);
                assert(s[k + q] == s.subrange(0, e)[k + q]);
            }
        }
    } else {
        if occurs_at(s2, k, c) {
            assert(s2.subrange(k, k + c.len()) =~= s.subrange(k, k + c.len())) by {
                assert forall|q: int| 0 <= q < c.len() implies #[trigger] s2.subrange(k, k + c.len())[q] == s.subrange(k, k + c.len())[q] by {
                    assert(s2[k + q] == s2.subrange(0, e)[k + q]);
                    assert(s[k + q] == s.subrange(0, e)[k + q]);
                }
            }
        }
        lemma_close_from_prefix(s, s2, c, k + 1, e);
    }
}

/// A notice is found again in any content that begins with it.
proof fn lemma_notice_prefix(s: Seq<char>, s2: Seq<char>, author: Seq<char>, style: CommentStyle)
    requires
        notice_end(s, author, style) is Some,
        notice_end(s, author, style).unwrap() <= s2.len(),
        s2.subrange(0, notice_end(s, author, style).unwrap()) == s.subrange(
            0,
            notice_end(s, author, style).unwrap(),
        ),
    ensures
        notice_end(s2, author, style) == notice_end(s, author, style),
        years_at(s2, style) == years_at(s, style),
        end_year(s2, years_at(s2, style)) == end_year(s, years_at(s, style)),
{
    let e = notice_end(s, author, style).unwrap();
    let c = style.close_spec();
    let o = style.open_spec().len() as int;
    let a = author_end(s, author, style);
    lemma_close_from(s, c, a);
    lemma_skip_space(s, o);
    let w = skip_space(s, o);
    lemma_skip_space_prefix(s, s2, o, e);
    let y = w + 14;
    assert forall|q: int| 0 <= q < a implies #[trigger] s2[q] == s[q] by {
        assert(s2[q] == s2.subrange(0, e)[q]);
        assert(s[q] == s.subrange(0, e)[q]);
    }
    assert(s2.subrange(0, o) =~= s.subrange(0, o));
    assert(s2.subrange(w, y) =~= s.subrange(w, y));
    let ye = years_end(s, y);
    assert(s[ye] == s.subrange(ye, a)[0]);
    assert(s2[y + 4] == s[y + 4]);
    if is_range_at(s, y) {
        assert(s2[y + 5] == s[y + 5]);
        assert(s2[y + 6] == s[y + 6]);
        assert(s2[y + 7] == s[y + 7]);
        assert(s2[y + 8] == s[y + 8]);
    }
    assert(s2[y] == s[y]);
    assert(s2[y + 1] == s[y + 1]);
    assert(s2[y + 2] == s[y + 2]);
    assert(s2[y + 3] == s[y + 3]);
    assert(is_range_at(s2, y) == is_range_at(s, y));
    assert(s2.subrange(ye, a) =~= s.subrange(ye, a));
    lemma_close_from_prefix(s, s2, c, a, e);
}

/// Every line break among the first `e` characters of a file whose notice
/// ends at `e` stands in the whitespace after the opening marker, when the
/// author's name holds none.
proof fn lemma_notice_breaks(s: Seq<char>, author: Seq<char>, style: CommentStyle)
    requires
        notice_end(s, author, style) is Some,
        no_break(author),
    ensures
        ({
            let e = notice_end(s, author, style).unwrap();
            let o = style.open_spec().len() as int;
            &&& 0 < e <= s.len()
            &&& !is_space(s[e - 1])
            &&& forall|m: int| 0 <= m < e ==> !occurs_at(s, m, footer_head(style))
        }),
{
    let e = notice_end(s, author, style).unwrap();
    let c = style.close_spec();
    let op = style.open_spec();
    let o = op.len() as int;
    let a = author_end(s, author, style);
    lemma_close_from(s, c, a);
    lemma_skip_space(s, o);
    let w = skip_space(s, o);
    let y = w + 14;
    let ye = years_end(s, y);
    assert(s[e - 1] == s.subrange(e - c.len(), e)[c.len() - 1]);
    assert(s[w] == s.subrange(w, y)[0]);
    assert forall|q: int| 0 <= q < e && s[q] == '\n' implies o <= q < w by {
        if q < o {
            assert(s[q] == s.subrange(0, o)[q]);
        } else if y - 14 <= q < y {
            assert(s[q] == s.subrange(y - 14, y)[q - (y - 14)]);
        } else if ye <= q < a {
            assert(s[q] == s.subrange(ye, a)[q - ye]);
            assert((seq![' '] + author)[q - ye] == s.subrange(ye, a)[q - ye]);
            if q > ye {
                assert((seq![' '] + author)[q - ye] == author[q - ye - 1]);
            }
        } else if e - c.len() <= q {
            assert(s[q] == s.subrange(e - c.len(), e)[q - (e - c.len())]);
        }
    }
    assert forall|m: int| 0 <= m < e implies !occurs_at(s, m, footer_head(style)) by {
        if occurs_at(s, m, footer_head(style)) {
            let h = footer_head(style);
            assert(s[m] == s.subrange(m, m + h.len())[0]);
            assert(s[m + 1] == s.subrange(m, m + h.len())[1]);
            assert(s[m + 2] == s.subrange(m, m + h.len())[2]);
            assert(h[2] == op[0]);
        }
    }
}

/// Running again over a file whose notice ends in the current year and whose
/// license block is the one for the current license text changes nothing.
proof fn law_current_file_unchanged(
    before: Seq<char>,
    author: Seq<char>,
    lines: Seq<Seq<char>>,
    style: CommentStyle,
    year: nat,
)
    requires
        forall|t: int| 0 <= t < lines.len() ==> no_break(#[trigger] lines[t]),
        notice_end(before + footer_text(lines, style), author, style) is Some,
        end_year(
            before + footer_text(lines, style),
            years_at(before + footer_text(lines, style), style),
        ) == year,
    ensures
        transformed(before + footer_text(lines, style), author, lines, style, year) == before
            + footer_text(lines, style),
{
    lemma_footer_again(before, lines, style);
}

/// A second run with the same author, license, style and year changes
/// nothing.
proof fn law_second_run_changes_nothing(
    content: Seq<char>,
    author: Seq<char>,
    lines: Seq<Seq<char>>,
    style: CommentStyle,
    year: nat,
)
    requires
        1000 <= year <= 9999,
        no_break(author),
        forall|t: int| 0 <= t < lines.len() ==> no_break(#[trigger] lines[t]),
    ensures
        ({
            let once = transformed(content, author, lines, style, year);
            transformed(once, author, lines, style, year) == once
        }),
{
    let x = with_notice(content, author, style, year);
    law_notice_ends_in_current_year(content, author, style, year);
    lemma_notice_breaks(x, author, style);
    let e = notice_end(x, author, style).unwrap();
    lemma_footer_keeps_prefix(x, lines, style, e);
    let z = with_footer(x, lines, style);
    lemma_notice_prefix(x, z, author, style);
    assert(with_notice(z, author, style, year) == z);
    let f = footer_text(lines, style);
    let before = if exists|m: int| is_last_footer_at(x, m, style) {
        x.subrange(0, choose|m: int| is_last_footer_at(x, m, style))
    } else {
        trim_end(x)
    };
    assert(z == before + f);
    lemma_footer_again(before, lines, style);
}

proof fn lemma_lines_from_no_break(t: Seq<char>, start: int, i: int)
    requires
        0 <= start <= i <= t.len(),
        forall|q: int| start <= q < i ==> #[trigger] t[q] != '\n',
    ensures
        forall|k: int| 0 <= k < lines_from(t, start, i).len() ==> no_break(
            #[trigger] lines_from(t, start, i)[k],
        ),
    decreases t.len() - i,
{
    let ls = lines_from(t, start, i);
    if i >= t.len() {
        if start < t.len() {
            let l = t.subrange(start, t.len() as int);
            assert(ls[0] == l);
            assert forall|q: int| 0 <= q < l.len() implies l[q] != '\n' by {
                assert(l[q] == t[start + q]);
            }
            assert(no_break(l));
            assert(ls.len() == 1);
        } else {
            assert(ls.len() == 0);
        }
    } else if t[i] == '\n' {
        lemma_lines_from_no_break(t, i + 1, i + 1);
        let l = strip_cr(t.subrange(start, i));
        assert forall|q: int| 0 <= q < l.len() implies l[q] != '\n' by {
            assert(l[q] == t[start + q]);
        }
        assert(ls[0] == l);
        assert(no_break(l));
        assert forall|k: int| 0 <= k < ls.len() implies no_break(#[trigger] ls[k]) by {
            if k > 0 {
                assert(ls[k] == lines_from(t, i + 1, i + 1)[k - 1]);
            }
        }
    } else {
        lemma_lines_from_no_break(t, start, i + 1);
        assert(ls == lines_from(t, start, i + 1));
    }
}

/// The lines of a text hold no line breaks.
proof fn lemma_lines_no_break(t: Seq<char>)
    ensures
        forall|k: int| 0 <= k < lines_of(t).len() ==> no_break(#[trigger] lines_of(t)[k]),
{
    lemma_lines_from_no_break(t, 0, 0);
}

/// A second run over the output with the same author, license text, style
/// and year changes nothing, when the year has four digits and the author's
/// name holds no line break.
pub proof fn law_idempotent(
    content: Seq<char>,
    author: Seq<char>,
    license: Seq<char>,
    style: CommentStyle,
    year: nat,
)
    requires
        1000 <= year <= 9999,
        no_break(author),
    ensures
        ({
            let once = transformed(content, author, lines_of(license), style, year);
            transformed(once, author, lines_of(license), style, year) == once
        }),
{
    lemma_lines_no_break(license);
    law_second_run_changes_nothing(content, author, lines_of(license), style, year);
}

/// Content whose notice ends in the current year and which ends with the
/// license block for the current license text is left as it is.
pub proof fn law_no_op_when_current(
    before: Seq<char>,
    author: Seq<char>,
    license: Seq<char>,
    style: CommentStyle,
    year: nat,
)
    requires
        ({
            let c = before + footer_text(lines_of(license), style);
            &&& notice_end(c, author, style) is Some
            &&& end_year(c, years_at(c, style)) == year
        }),
    ensures
        transformed(before + footer_text(lines_of(license), style), author, lines_of(license), style, year)
            == before + footer_text(lines_of(license), style),
{
    lemma_lines_no_break(license);
    law_current_file_unchanged(before, author, lines_of(license), style, year);
}

} // verus!
