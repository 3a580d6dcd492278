//! Comment syntax chosen from a file's extension.

use crate::text::{chars_of, same};
use vstd::prelude::*;

verus! {

/// The three markers with which a file type writes a block comment.
#[derive(Clone, Copy, Debug, PartialEq, Eq, Structural)]
pub enum CommentStyle {
    /// `/*`, ` * `, ` */`
    Slash,
    /// `#`, `# `, `#`
    Hash,
    /// `--[[`, `-- `, `--]]`
    Lua,
    /// `<!--`, ` `, `-->`
    Markup,
}

impl CommentStyle {
    /// The marker that opens a block comment.
    pub open spec fn open_spec(self) -> Seq<char> {
        match self {
            CommentStyle::Slash => seq!['/', '*'],
            CommentStyle::Hash => seq!['#'],
            CommentStyle::Lua => seq!['-', '-', '[', '['],
            CommentStyle::Markup => seq!['<', '!', '-', '-'],
        }
    }

    /// The text written before each line inside a block comment.
    pub open spec fn prefix_spec(self) -> Seq<char> {
        match self {
            CommentStyle::Slash => seq![' ', '*', ' '],
            CommentStyle::Hash => seq!['#', ' '],
            CommentStyle::Lua => seq!['-', '-', ' '],
            CommentStyle::Markup => seq![' '],
        }
    }

    /// The marker that closes a block comment.
    pub open spec fn close_spec(self) -> Seq<char> {
        match self {
            CommentStyle::Slash => seq![' ', '*', '/'],
            CommentStyle::Hash => seq!['#'],
            CommentStyle::Lua => seq!['-', '-', ']', ']'],
            CommentStyle::Markup => seq!['-', '-', '>'],
        }
    }

    pub fn block_start(&self) -> (r: Vec<char>)
        ensures
            r@ == self.open_spec(),
    {
        match self {
            CommentStyle::Slash => vec!['/', '*'],
            CommentStyle::Hash => vec!['#'],
            CommentStyle::Lua => vec!['-', '-', '[', '['],
            CommentStyle::Markup => vec!['<', '!', '-', '-'],
        }
    }

    pub fn line_prefix(&self) -> (r: Vec<char>)
        ensures
            r@ == self.prefix_spec(),
    {
        match self {
            CommentStyle::Slash => vec![' ', '*', ' '],
            CommentStyle::Hash => vec!['#', ' '],
            CommentStyle::Lua => vec!['-', '-', ' '],
            CommentStyle::Markup => vec![' '],
        }
    }

    pub fn block_end(&self) -> (r: Vec<char>)
        ensures
            r@ == self.close_spec(),
    {
        match self {
            CommentStyle::Slash => vec![' ', '*', '/'],
            CommentStyle::Hash => vec!['#'],
            CommentStyle::Lua => vec!['-', '-', ']', ']'],
            CommentStyle::Markup => vec!['-', '-', '>'],
        }
    }
}

/// What `str::to_lowercase` makes of a string.
pub uninterp spec fn lower_of(s: Seq<char>) -> Seq<char>;

/// Relies on `str::to_lowercase`: the result depends on the characters alone.
#[verifier::external_body]
fn lowercase(s: &str) -> (r: String)
    ensures
        r@ == lower_of(s@),
{
    s.to_lowercase()
}

/// Extensions written with `/* ... */` comments.
pub open spec fn is_slash_ext(ext: Seq<char>) -> bool {
    ext == seq!['r', 's'] ||
        ext == seq!['c'] ||
        ext == seq!['c', 'p', 'p'] ||
        ext == seq!['h'] ||
        ext == seq!['h', 'p', 'p'] ||
        ext == seq!['j', 's'] ||
        ext == seq!['j', 's', 'x'] ||
        ext == seq!['t', 's'] ||
        ext == seq!['t', 's', 'x'] ||
        ext == seq!['g', 'o'] ||
        ext == seq!['j', 'a', 'v', 'a'] ||
        ext == seq!['s', 'w', 'i', 'f', 't'] ||
        ext == seq!['k', 't'] ||
        ext == seq!['s', 'c', 'a', 'l', 'a'] ||
        ext == seq!['c', 's', 's'] ||
        ext == seq!['s', 'c', 's', 's'] ||
        ext == seq!['c', 's']
}

/// Extensions written with `#` comments.
pub open spec fn is_hash_ext(ext: Seq<char>) -> bool {
    ext == seq!['p', 'y'] ||
        ext == seq!['r', 'b'] ||
        ext == seq!['s', 'h'] ||
        ext == seq!['b', 'a', 's', 'h'] ||
        ext == seq!['p', 'l'] ||
        ext == seq!['p', 'm'] ||
        ext == seq!['p', 'h', 'p']
}

/// Extensions written with `<!-- ... -->` comments.
pub open spec fn is_markup_ext(ext: Seq<char>) -> bool {
    ext == seq!['h', 't', 'm', 'l'] ||
        ext == seq!['x', 'm', 'l']
}

/// Extensions of the files that get a notice.
pub open spec fn is_source_ext(ext: Seq<char>) -> bool {
    ext == seq!['r', 's'] ||
        ext == seq!['p', 'y'] ||
        ext == seq!['j', 's'] ||
        ext == seq!['j', 's', 'x'] ||
        ext == seq!['t', 's'] ||
        ext == seq!['t', 's', 'x'] ||
        ext == seq!['c'] ||
        ext == seq!['c', 'p', 'p'] ||
        ext == seq!['h'] ||
        ext == seq!['h', 'p', 'p'] ||
        ext == seq!['j', 'a', 'v', 'a'] ||
        ext == seq!['g', 'o'] ||
        ext == seq!['r', 'b'] ||
        ext == seq!['p', 'h', 'p'] ||
        ext == seq!['s', 'w', 'i', 'f', 't'] ||
        ext == seq!['k', 't'] ||
        ext == seq!['c', 's'] ||
        ext == seq!['s', 'h'] ||
        ext == seq!['b', 'a', 's', 'h'] ||
        ext == seq!['p', 'l'] ||
        ext == seq!['p', 'm'] ||
        ext == seq!['l', 'u', 'a'] ||
        ext == seq!['s', 'c', 'a', 'l', 'a'] ||
        ext == seq!['c', 's', 's'] ||
        ext == seq!['s', 'c', 's', 's'] ||
        ext == seq!['h', 't', 'm', 'l'] ||
        ext == seq!['x', 'm', 'l'] ||
        ext == seq!['j', 's', 'o', 'n']
}

/// The style of a lower-case extension.
pub open spec fn style_of_lowered(ext: Seq<char>) -> CommentStyle {
    if is_slash_ext(ext) {
        CommentStyle::Slash
    } else if is_hash_ext(ext) {
        CommentStyle::Hash
    } else if ext == seq!['l', 'u', 'a'] {
        CommentStyle::Lua
    } else if is_markup_ext(ext) {
        CommentStyle::Markup
    } else {
        CommentStyle::Slash
    }
}

/// The style of a file with the given extension (`None`: it has none).
pub open spec fn style_of(ext: Option<Seq<char>>) -> CommentStyle {
    match ext {
        None => CommentStyle::Hash,
        Some(e) => style_of_lowered(lower_of(e)),
    }
}

fn slash_ext(ext: &Vec<char>) -> (r: bool)
    ensures
        r == is_slash_ext(ext@),
{
    let w = vec!['r', 's'];
    assert(w@ =~= seq!['r', 's']);
    if same(ext, &w) {
        return true;
    }
    let w = vec!['c'];
    assert(w@ =~= seq!['c']);
    if same(ext, &w) {
        return true;
    }
    let w = vec!['c', 'p', 'p'];
    assert(w@ =~= seq!['c', 'p', 'p']);
    if same(ext, &w) {
        return true;
    }
    let w = vec!['h'];
    assert(w@ =~= seq!['h']);
    if same(ext, &w) {
        return true;
    }
    let w = vec!['h', 'p', 'p'];
    assert(w@ =~= seq!['h', 'p', 'p']);
    if same(ext, &w) {
        return true;
    }
    let w = vec!['j', 's'];
    assert(w@ =~= seq!['j', 's']);
    if same(ext, &w) {
        return true;
    }
    let w = vec!['j', 's', 'x'];
    assert(w@ =~= seq!['j', 's', 'x']);
    if same(ext, &w) {
        return true;
    }
    let w = vec!['t', 's'];
    assert(w@ =~= seq!['t', 's']);
    if same(ext, &w) {
        return true;
    }
    let w = vec!['t', 's', 'x'];
    assert(w@ =~= seq!['t', 's', 'x']);
    if same(ext, &w) {
        return true;
    }
    let w = vec!['g', 'o'];
    assert(w@ =~= seq!['g', 'o']);
    if same(ext, &w) {
        return true;
    }
    let w = vec!['j', 'a', 'v', 'a'];
    assert(w@ =~= seq!['j', 'a', 'v', 'a']);
    if same(ext, &w) {
        return true;
    }
    let w = vec!['s', 'w', 'i', 'f', 't'];
    assert(w@ =~= seq!['s', 'w', 'i', 'f', 't']);
    if same(ext, &w) {
        return true;
    }
    let w = vec!['k', 't'];
    assert(w@ =~= seq!['k', 't']);
    if same(ext, &w) {
        return true;
    }
    let w = vec!['s', 'c', 'a', 'l', 'a'];
    assert(w@ =~= seq!['s', 'c', 'a', 'l', 'a']);
    if same(ext, &w) {
        return true;
    }
    let w = vec!['c', 's', 's'];
    assert(w@ =~= seq!['c', 's', 's']);
    if same(ext, &w) {
        return true;
    }
    let w = vec!['s', 'c', 's', 's'];
    assert(w@ =~= seq!['s', 'c', 's', 's']);
    if same(ext, &w) {
        return true;
    }
    let w = vec!['c', 's'];
    assert(w@ =~= seq!['c', 's']);
    if same(ext, &w) {
        return true;
    }
    false
}

fn hash_ext(ext: &Vec<char>) -> (r: bool)
    ensures
        r == is_hash_ext(ext@),
{
    let w = vec!['p', 'y'];
    assert(w@ =~= seq!['p', 'y']);
    if same(ext, &w) {
        return true;
    }
    let w = vec!['r', 'b'];
    assert(w@ =~= seq!['r', 'b']);
    if same(ext, &w) {
        return true;
    }
    let w = vec!['s', 'h'];
    assert(w@ =~= seq!['s', 'h']);
    if same(ext, &w) {
        return true;
    }
    let w = vec!['b', 'a', 's', 'h'];
    assert(w@ =~= seq!['b', 'a', 's', 'h']);
    if same(ext, &w) {
        return true;
    }
    let w = vec!['p', 'l'];
    assert(w@ =~= seq!['p', 'l']);
    if same(ext, &w) {
        return true;
    }
    let w = vec!['p', 'm'];
    assert(w@ =~= seq!['p', 'm']);
    if same(ext, &w) {
        return true;
    }
    let w = vec!['p', 'h', 'p'];
    assert(w@ =~= seq!['p', 'h', 'p']);
    if same(ext, &w) {
        return true;
    }
    false
}

fn markup_ext(ext: &Vec<char>) -> (r: bool)
    ensures
        r == is_markup_ext(ext@),
{
    let w = vec!['h', 't', 'm', 'l'];
    assert(w@ =~= seq!['h', 't', 'm', 'l']);
    if same(ext, &w) {
        return true;
    }
    let w = vec!['x', 'm', 'l'];
    assert(w@ =~= seq!['x', 'm', 'l']);
    if same(ext, &w) {
        return true;
    }
    false
}

fn source_ext(ext: &Vec<char>) -> (r: bool)
    ensures
        r == is_source_ext(ext@),
{
    let w = vec!['r', 's'];
    assert(w@ =~= seq!['r', 's']);
    if same(ext, &w) {
        return true;
    }
    let w = vec!['p', 'y'];
    assert(w@ =~= seq!['p', 'y']);
    if same(ext, &w) {
        return true;
    }
    let w = vec!['j', 's'];
    assert(w@ =~= seq!['j', 's']);
    if same(ext, &w) {
        return true;
    }
    let w = vec!['j', 's', 'x'];
    assert(w@ =~= seq!['j', 's', 'x']);
    if same(ext, &w) {
        return true;
    }
    let w = vec!['t', 's'];
    assert(w@ =~= seq!['t', 's']);
    if same(ext, &w) {
        return true;
    }
    let w = vec!['t', 's', 'x'];
    assert(w@ =~= seq!['t', 's', 'x']);
    if same(ext, &w) {
        return true;
    }
    let w = vec!['c'];
    assert(w@ =~= seq!['c']);
    if same(ext, &w) {
        return true;
    }
    let w = vec!['c', 'p', 'p'];
    assert(w@ =~= seq!['c', 'p', 'p']);
    if same(ext, &w) {
        return true;
    }
    let w = vec!['h'];
    assert(w@ =~= seq!['h']);
    if same(ext, &w) {
        return true;
    }
    let w = vec!['h', 'p', 'p'];
    assert(w@ =~= seq!['h', 'p', 'p']);
    if same(ext, &w) {
        return true;
    }
    let w = vec!['j', 'a', 'v', 'a'];
    assert(w@ =~= seq!['j', 'a', 'v', 'a']);
    if same(ext, &w) {
        return true;
    }
    let w = vec!['g', 'o'];
    assert(w@ =~= seq!['g', 'o']);
    if same(ext, &w) {
        return true;
    }
    let w = vec!['r', 'b'];
    assert(w@ =~= seq!['r', 'b']);
    if same(ext, &w) {
        return true;
    }
    let w = vec!['p', 'h', 'p'];
    assert(w@ =~= seq!['p', 'h', 'p']);
    if same(ext, &w) {
        return true;
    }
    let w = vec!['s', 'w', 'i', 'f', 't'];
    assert(w@ =~= seq!['s', 'w', 'i', 'f', 't']);
    if same(ext, &w) {
        return true;
    }
    let w = vec!['k', 't'];
    assert(w@ =~= seq!['k', 't']);
    if same(ext, &w) {
        return true;
    }
    let w = vec!['c', 's'];
    assert(w@ =~= seq!['c', 's']);
    if same(ext, &w) {
        return true;
    }
    let w = vec!['s', 'h'];
    assert(w@ =~= seq!['s', 'h']);
    if same(ext, &w) {
        return true;
    }
    let w = vec!['b', 'a', 's', 'h'];
    assert(w@ =~= seq!['b', 'a', 's', 'h']);
    if same(ext, &w) {
        return true;
    }
    let w = vec!['p', 'l'];
    assert(w@ =~= seq!['p', 'l']);
    if same(ext, &w) {
        return true;
    }
    let w = vec!['p', 'm'];
    assert(w@ =~= seq!['p', 'm']);
    if same(ext, &w) {
        return true;
    }
    let w = vec!['l', 'u', 'a'];
    assert(w@ =~= seq!['l', 'u', 'a']);
    if same(ext, &w) {
        return true;
    }
    let w = vec!['s', 'c', 'a', 'l', 'a'];
    assert(w@ =~= seq!['s', 'c', 'a', 'l', 'a']);
    if same(ext, &w) {
        return true;
    }
    let w = vec!['c', 's', 's'];
    assert(w@ =~= seq!['c', 's', 's']);
    if same(ext, &w) {
        return true;
    }
    let w = vec!['s', 'c', 's', 's'];
    assert(w@ =~= seq!['s', 'c', 's', 's']);
    if same(ext, &w) {
        return true;
    }
    let w = vec!['h', 't', 'm', 'l'];
    assert(w@ =~= seq!['h', 't', 'm', 'l']);
    if same(ext, &w) {
        return true;
    }
    let w = vec!['x', 'm', 'l'];
    assert(w@ =~= seq!['x', 'm', 'l']);
    if same(ext, &w) {
        return true;
    }
    let w = vec!['j', 's', 'o', 'n'];
    assert(w@ =~= seq!['j', 's', 'o', 'n']);
    if same(ext, &w) {
        return true;
    }
    false
}

/// The comment style of an extension already in lower case.
pub fn style_for_extension(lowered: &str) -> (r: CommentStyle)
    ensures
        r == style_of_lowered(lowered@),
{
    let ext = chars_of(lowered);
    let lua = vec!['l', 'u', 'a'];
    assert(lua@ =~= seq!['l', 'u', 'a']);
    if slash_ext(&ext) {
        CommentStyle::Slash
    } else if hash_ext(&ext) {
        CommentStyle::Hash
    } else if same(&ext, &lua) {
        CommentStyle::Lua
    } else if markup_ext(&ext) {
        CommentStyle::Markup
    } else {
        CommentStyle::Slash
    }
}

/// Whether an extension already in lower case belongs to a source file.
pub fn is_source_extension(lowered: &str) -> (r: bool)
    ensures
        r == is_source_ext(lowered@),
{
    let ext = chars_of(lowered);
    source_ext(&ext)
}

/// The comment style of a file whose extension is `ext` (`None`: the file has
/// none). Extensions are compared without regard to case.
pub fn get_comment_style(ext: Option<&str>) -> (r: CommentStyle)
    ensures
        r == style_of(match ext { Some(e) => Some(e@), None => None }),
{
    match ext {
        None => CommentStyle::Hash,
        Some(e) => {
            let lowered = lowercase(e);
            style_for_extension(lowered.as_str())
        },
    }
}

/// Whether a file with extension `ext` is a source file that gets a notice.
/// Extensions are compared without regard to case.
pub fn is_source_file(ext: Option<&str>) -> (r: bool)
    ensures
        r == match ext {
            Some(e) => is_source_ext(lower_of(e@)),
            None => false,
        },
{
    match ext {
        None => false,
        Some(e) => {
            let lowered = lowercase(e);
            is_source_extension(lowered.as_str())
        },
    }
}

} // verus!
