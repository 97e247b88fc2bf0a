//! The first heading of a page.
use vstd::prelude::*;

use crate::text;

verus! {

/// A first-level markdown heading.
pub const MD_H1: &'static str = r"(?m)^#\s+(.+)$";

/// A first-level HTML heading.
pub const HTML_H1: &'static str = r"(?is)<h1\b[^>]*>(.*?)</h1>";

/// What the first group of a pattern captures where the pattern first matches in
/// a text, as [`regex::Regex::captures`] finds it.
pub uninterp spec fn first_capture(pattern: Seq<char>, s: Seq<char>) -> Option<Seq<char>>;

/// Calls [`regex::Regex::captures`] with one of the two heading patterns and takes
/// the first group. The contract says that the result is fixed by the pattern and
/// the text, and that what is captured stands in the text.
#[verifier::external_body]
fn capture(pattern: &str, s: &str) -> (r: Option<String>)
    requires
        pattern@ == MD_H1@ || pattern@ == HTML_H1@,
    ensures
        match r {
            Some(t) => first_capture(pattern@, s@) == Some(t@),
            None => first_capture(pattern@, s@) is None,
        },
        r matches Some(t) ==> text::occurs(t@, s@),
{
    let found = regex::Regex::new(pattern).unwrap().captures(s)?;
    found.get(1).map(|m| m.as_str().to_string())
}

/// A text without its tags: everything from a `<` up to the next `>` is dropped,
/// and every `>`. `inside` tells whether the text begins within a tag.
pub open spec fn untagged(s: Seq<char>, inside: bool) -> Seq<char>
    decreases s.len(),
{
    if s.len() == 0 {
        Seq::empty()
    } else {
        let c = s.first();
        let rest = s.drop_first();
        if c == '<' {
            untagged(rest, true)
        } else if c == '>' {
            untagged(rest, false)
        } else if inside {
            untagged(rest, inside)
        } else {
            seq![c] + untagged(rest, inside)
        }
    }
}

/// Drops the tags of an HTML text.
pub fn strip_html_tags(s: &str) -> (out: String)
    ensures
        out@ == untagged(s@, false),
{
    let v: Vec<char> = text::chars_of(s);
    let mut out: String = String::new();
    let mut in_tag: bool = false;
    assert(v@.skip(0) =~= v@);
    assert(out@ + untagged(v@, false) =~= untagged(v@, false));
    for i in 0..v.len()
        invariant
            v@ == s@,
            out@ + untagged(v@.skip(i as int), in_tag) == untagged(v@, false),
    {
        let c: char = v[i];
        let ghost rest = v@.skip(i as int);
        assert(rest.drop_first() =~= v@.skip(i + 1));
        let ghost before = out@;
        if c == '<' {
            in_tag = true;
        } else if c == '>' {
            in_tag = false;
        } else if !in_tag {
            out.push(c);
            assert(before.push(c) + untagged(v@.skip(i + 1), false) =~= before + (seq![c] + untagged(
                v@.skip(i + 1),
                false,
            )));
        }
    }
    assert(out@ + untagged(v@.skip(v@.len() as int), in_tag) =~= out@);
    out
}

/// The heading of a page, given what the two patterns capture in its body: the
/// markdown heading comes first, then the HTML heading without its tags.
pub open spec fn heading_of(md: Option<Seq<char>>, html: Option<Seq<char>>) -> Seq<char> {
    match (md, html) {
        (Some(s), _) => text::trim_of(s),
        (None, Some(s)) => text::trim_of(untagged(s, false)),
        (None, None) => Seq::empty(),
    }
}

/// The heading of a page, given what the two patterns capture in its body.
pub fn heading_from(md: Option<String>, html: Option<String>) -> (h: String)
    ensures
        h@ == heading_of(text::opt_view(md), text::opt_view(html)),
{
    match md {
        Some(s) => text::trim(s.as_str()),
        None => match html {
            Some(s) => text::trim(strip_html_tags(s.as_str()).as_str()),
            None => String::new(),
        },
    }
}

/// The first heading of a body, in markdown or else in HTML; empty where there
/// is none.
pub fn extract_h1(body: &str) -> (h: String)
    ensures
        h@ == heading_of(first_capture(MD_H1@, body@), first_capture(HTML_H1@, body@)),
{
    let md: Option<String> = capture(MD_H1, body);
    let html: Option<String> = if md.is_some() {
        None
    } else {
        capture(HTML_H1, body)
    };
    heading_from(md, html)
}

// ---- what holds of tags and headings ----

/// Whether a text has no angle bracket.
pub open spec fn without_brackets(s: Seq<char>) -> bool {
    !s.contains('<') && !s.contains('>')
}

/// What stands outside of tags is kept as it is, and what stands between a `<` and the
/// next `>` is dropped with them; a `<` without a `>` after it drops the rest, and a `>`
/// without a `<` before it only itself.
pub proof fn law_tags_are_dropped(plain: Seq<char>, tag: Seq<char>, rest: Seq<char>)
    requires
        without_brackets(plain),
        !tag.contains('>'),
    ensures
        untagged(plain, false) == plain,
        untagged(plain + rest, false) == plain + untagged(rest, false),
        untagged(seq!['<'] + tag + seq!['>'] + rest, false) == untagged(rest, false),
        untagged(seq!['<'] + tag, false).len() == 0,
        untagged(seq!['>'] + rest, false) == untagged(rest, false),
{
    let none = Seq::<char>::empty();
    lemma_plain_is_kept(plain, rest);
    lemma_plain_is_kept(plain, none);
    assert(plain + none =~= plain);
    assert(plain + untagged(none, false) =~= plain);
    let close = seq!['>'] + rest;
    let open = seq!['<'] + tag + seq!['>'] + rest;
    assert(open.drop_first() =~= tag + close);
    lemma_tag_is_dropped(tag, close);
    assert(close.drop_first() =~= rest);
    let cut = seq!['<'] + tag;
    assert(cut.drop_first() =~= tag + none);
    lemma_tag_is_dropped(tag, none);
}

proof fn lemma_plain_is_kept(plain: Seq<char>, rest: Seq<char>)
    requires
        without_brackets(plain),
    ensures
        untagged(plain + rest, false) == plain + untagged(rest, false),
    decreases plain.len(),
{
    let all = plain + rest;
    if plain.len() == 0 {
        assert(all =~= rest);
        assert(plain + untagged(rest, false) =~= untagged(rest, false));
    } else {
        let less = plain.drop_first();
        assert(plain.contains(plain[0]));
        assert forall|c: char| less.contains(c) implies plain.contains(c) by {
            let i = choose|i: int| 0 <= i < less.len() && less[i] == c;
            assert(plain[i + 1] == c);
        }
        lemma_plain_is_kept(less, rest);
        assert(all.drop_first() =~= less + rest);
        assert(seq![plain[0]] + (less + untagged(rest, false)) =~= plain + untagged(rest, false));
    }
}

proof fn lemma_tag_is_dropped(tag: Seq<char>, rest: Seq<char>)
    requires
        !tag.contains('>'),
    ensures
        untagged(tag + rest, true) == untagged(rest, true),
    decreases tag.len(),
{
    let all = tag + rest;
    if tag.len() == 0 {
        assert(all =~= rest);
    } else {
        let less = tag.drop_first();
        assert(tag.contains(tag[0]));
        assert forall|c: char| less.contains(c) implies tag.contains(c) by {
            let i = choose|i: int| 0 <= i < less.len() && less[i] == c;
            assert(tag[i + 1] == c);
        }
        lemma_tag_is_dropped(less, rest);
        assert(all.drop_first() =~= less + rest);
    }
}

/// A markdown heading is the heading of a page whatever stands in HTML, and an HTML
/// heading is it only without one, and without its tags. No white space stands around a
/// heading, and a page with neither has none.
pub proof fn law_heading(md: Seq<char>, html: Seq<char>, other: Option<Seq<char>>)
    ensures
        heading_of(Some(md), other) == text::trim_of(md),
        without_brackets(html) ==> heading_of(None, Some(html)) == text::trim_of(html),
        heading_of(None, Some(html)) == text::trim_of(untagged(html, false)),
        heading_of(None, None).len() == 0,
{
    if without_brackets(html) {
        law_tags_are_dropped(html, Seq::empty(), Seq::empty());
    }
}

/// The patterns that find a heading: a line that begins with one `#`, white space and
/// something more; and what an `h1` element holds, in any case and over lines.
pub proof fn law_heading_patterns()
    ensures
        MD_H1@ == r"(?m)^#\s+(.+)$"@,
        HTML_H1@ == r"(?is)<h1\b[^>]*>(.*?)</h1>"@,
{
}

} // verus!
