//! The Markdown file a note is edited in outside the editor: `# title`, a
//! blank line, then the body.
use vstd::prelude::*;
use crate::text::{
    is_blank, blank, lines, lines_of, views, join, join_with, trim, trimmed, starts_with,
    has_prefix, chars_of, string_of, slice_range, push_str, push_chars, trim_start_char,
    trimmed_start_char,
};

verus! {

/// The Markdown text of a note: `# title` and a line break, then a blank line
/// and the body unless the body is blank.
pub open spec fn markdown_of(title: Seq<char>, body: Seq<char>) -> Seq<char> {
    if is_blank(body) {
        "# "@ + title + "\n"@
    } else {
        "# "@ + title + "\n\n"@ + body
    }
}

/// The Markdown text a note is edited as.
pub fn note_markdown(title: &str, body: &str) -> (r: String)
    ensures
        r@ == markdown_of(title@, body@),
{
    let bc = chars_of(body);
    let mut r = String::new();
    push_str(&mut r, "# ");
    push_str(&mut r, title);
    if blank(bc.as_slice()) {
        push_str(&mut r, "\n");
    } else {
        push_str(&mut r, "\n\n");
        push_str(&mut r, body);
    }
    r
}

/// The title and body read back from a Markdown file: the first line,
/// trimmed, without a leading `# `, trimmed again; and the other lines joined
/// by line breaks, without leading line breaks.
pub open spec fn markdown_parts(content: Seq<char>) -> (Seq<char>, Seq<char>) {
    let ls = lines(content);
    let first = if ls.len() > 0 {
        trim(ls[0])
    } else {
        seq![]
    };
    let title = trim(
        if starts_with(first, "# "@) {
            first.skip(2)
        } else {
            first
        },
    );
    let rest = if ls.len() > 0 {
        ls.drop_first()
    } else {
        seq![]
    };
    (title, trim_start_char(join(rest, "\n"@), '\n'))
}

/// Reads a note's title and body back from its Markdown text.
pub fn parse_note_markdown(content: &str) -> (r: (String, String))
    ensures
        (r.0@, r.1@) == markdown_parts(content@),
{
    let cs = chars_of(content);
    let mut ls = lines_of(cs.as_slice());
    let ghost lv = views(ls@);
    let first = if ls.len() > 0 {
        trimmed(ls[0].as_slice())
    } else {
        Vec::new()
    };
    let hash = chars_of("# ");
    proof {
        reveal_strlit("# ");
    }
    let title = if has_prefix(first.as_slice(), hash.as_slice()) {
        let rest = slice_range(first.as_slice(), 2, first.len());
        assert(rest@ =~= first@.skip(2));
        trimmed(rest.as_slice())
    } else {
        trimmed(first.as_slice())
    };
    if ls.len() > 0 {
        ls.remove(0);
        assert(views(ls@) =~= lv.drop_first());
    }
    let nl = chars_of("\n");
    let joined = join_with(&ls, nl.as_slice());
    let body = trimmed_start_char(joined.as_slice(), '\n');
    proof {
        if lv.len() == 0 {
            assert(first@ =~= Seq::<char>::empty());
            assert(views(ls@) =~= Seq::<Seq<char>>::empty());
        }
    }
    (string_of(title.as_slice()), string_of(body.as_slice()))
}

} // verus!
