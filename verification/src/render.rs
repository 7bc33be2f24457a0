//! Rendering: markdown to an HTML fragment through the external renderer, and
//! substitution of the fragment into a template at its single marker.

use vstd::prelude::*;
use vstd::string::*;
use crate::{ErrorKind, QuiltError};
use crate::compose::Page;

verus! {

/// What the markdown renderer yields: the HTML fragment is a function of the
/// markdown text alone.
pub uninterp spec fn html_of_md(md: Seq<char>) -> Seq<char>;

/// Relies on `pulldown_cmark::Parser::new` and `pulldown_cmark::html::push_html`:
/// rendering markdown to HTML is a function of the input text alone.
#[verifier::external_body]
pub(crate) fn render_markdown(md: &str) -> (r: String)
    ensures
        r@ == html_of_md(md@),
{
    let parser = pulldown_cmark::Parser::new(md);
    let mut out = String::new();
    pulldown_cmark::html::push_html(&mut out, parser);
    out
}

/// The literal substitution marker inside a template.
pub open spec fn marker() -> Seq<char> {
    "{{content}}"@
}

/// The built-in template's text before the marker.
pub open spec fn builtin_prefix() -> Seq<char> {
    "<html><body><article>"@
}

/// The built-in template's text after the marker.
pub open spec fn builtin_suffix() -> Seq<char> {
    "</article></body></html>"@
}

/// The marker occurs in `s` at position `i`.
pub open spec fn is_match(s: Seq<char>, i: int) -> bool {
    &&& 0 <= i
    &&& i + marker().len() <= s.len()
    &&& s.subrange(i, i + marker().len() as int) == marker()
}

/// Number of marker occurrences in `s` at positions `i` or later.
pub open spec fn occ_from(s: Seq<char>, i: int) -> nat
    decreases s.len() + 11 - i,
    when 0 <= i
{
    if i + marker().len() > s.len() {
        0
    } else {
        (if is_match(s, i) {
            1nat
        } else {
            0nat
        }) + occ_from(s, i + 1)
    }
}

/// Number of marker occurrences in `s`.
pub open spec fn occ(s: Seq<char>) -> nat {
    occ_from(s, 0)
}

/// Position of the first marker occurrence at `i` or later, if any.
pub open spec fn first_match_from(s: Seq<char>, i: int) -> Option<int>
    decreases s.len() + 11 - i,
    when 0 <= i
{
    if i + marker().len() > s.len() {
        None
    } else if is_match(s, i) {
        Some(i)
    } else {
        first_match_from(s, i + 1)
    }
}

/// The template text with the fragment substituted at the first marker.
pub open spec fn wrapped(tpl: Seq<char>, frag: Seq<char>) -> Seq<char> {
    let i = first_match_from(tpl, 0)->0;
    tpl.take(i) + frag + tpl.skip(i + marker().len() as int)
}

/// A first match is a match, at or after where the scan began.
proof fn lemma_first_match_props(s: Seq<char>, i: int)
    requires
        0 <= i,
    ensures
        match first_match_from(s, i) {
            Some(f) => is_match(s, f) && i <= f,
            None => true,
        },
    decreases s.len() + 11 - i,
{
    if i + marker().len() <= s.len() && !is_match(s, i) {
        lemma_first_match_props(s, i + 1);
    }
}

/// A position that matches, with no earlier match, is the first match.
proof fn lemma_first_match(s: Seq<char>, i: int, f: int)
    requires
        0 <= i <= f,
        is_match(s, f),
        forall|k: int| i <= k < f ==> !is_match(s, k),
    ensures
        first_match_from(s, i) == Some(f),
    decreases f - i,
{
    if i < f {
        lemma_first_match(s, i + 1, f);
    }
}

/// When no position at `i` or later matches, nothing is counted.
proof fn lemma_no_match(s: Seq<char>, i: int)
    requires
        0 <= i,
        forall|k: int| i <= k ==> !is_match(s, k),
    ensures
        first_match_from(s, i) is None,
        occ_from(s, i) == 0,
    decreases s.len() + 11 - i,
{
    if i + marker().len() <= s.len() {
        lemma_no_match(s, i + 1);
    }
}

/// True iff the marker occurs in `s` at position `i`.
fn match_at(s: &str, i: usize) -> (r: bool)
    requires
        s@.len() <= usize::MAX,
        i + 11 <= s@.len(),
    ensures
        marker().len() == 11,
        r == is_match(s@, i as int),
{
    let m = "{{content}}";
    proof {
        reveal_strlit("{{content}}");
    }
    let mut j: usize = 0;
    while j < 11
        invariant
            m@ == marker(),
            m@.len() == 11,
            s@.len() <= usize::MAX,
            i + 11 <= s@.len(),
            j <= 11,
            forall|k: int| 0 <= k < j ==> s@[i + k] == marker()[k],
        decreases 11 - j,
    {
        if s.get_char(i + j) != m.get_char(j) {
            proof {
                assert(s@.subrange(i as int, i + 11)[j as int] == s@[i + j]);
            }
            return false;
        }
        j += 1;
    }
    proof {
        assert(s@.subrange(i as int, i + 11) =~= marker());
    }
    true
}

/// Scans `s` for the marker: returns how often it occurs and, when it does,
/// the position of its first occurrence.
fn scan_marker(s: &str) -> (r: (usize, usize))
    ensures
        r.0 == occ(s@),
        occ(s@) > 0 ==> first_match_from(s@, 0) == Some(r.1 as int),
{
    let len = s.unicode_len();
    proof {
        reveal_strlit("{{content}}");
    }
    if len < 11 {
        proof {
            lemma_no_match(s@, 0);
        }
        return (0, 0);
    }
    let mut count: usize = 0;
    let mut first: usize = 0;
    let mut found = false;
    let mut i: usize = 0;
    while i <= len - 11
        invariant
            marker().len() == 11,
            len == s@.len(),
            11 <= len,
            i <= len - 10,
            count <= i,
            occ(s@) == count + occ_from(s@, i as int),
            !found ==> count == 0 && (forall|k: int| 0 <= k < i ==> !is_match(s@, k)),
            found ==> count > 0 && is_match(s@, first as int) && (forall|k: int|
                0 <= k < first ==> !is_match(s@, k)),
        decreases len - i,
    {
        if match_at(s, i) {
            if !found {
                first = i;
                found = true;
            }
            count += 1;
        }
        i += 1;
    }
    proof {
        assert forall|k: int| i <= k implies !is_match(s@, k) by {
            assert(k + marker().len() > s@.len());
        }
        lemma_no_match(s@, i as int);
        if count > 0 {
            lemma_first_match(s@, 0, first as int);
        }
    }
    (count, first)
}

/// A template read from disk: its path as displayed in diagnostics, and its
/// text.
pub struct Template {
    pub path: String,
    pub text: String,
}

/// The diagnostic for a template without exactly one marker.
pub open spec fn invalid_template_msg(path: Seq<char>) -> Seq<char> {
    "Invalid Template "@ + path + ": no {{content}}."@
}

/// Renders a page body: converts the markdown `in_buf` to an HTML fragment
/// and substitutes it into the template (the built-in shell when `temp` is
/// `None`). A template without exactly one marker is rejected with an error
/// naming its path.
pub fn render_page(in_buf: &str, temp: Option<&Template>) -> (r: Result<String, QuiltError>)
    ensures
        temp is None ==> (r matches Ok(out) && out@ == builtin_prefix() + html_of_md(in_buf@)
            + builtin_suffix()),
        temp matches Some(t) ==> ({
            &&& occ(t.text@) == 1 ==> (r matches Ok(out) && out@ == wrapped(
                t.text@,
                html_of_md(in_buf@),
            ) && out@.len() == t.text@.len() - marker().len() + html_of_md(in_buf@).len())
            &&& occ(t.text@) != 1 ==> (r matches Err(e) && e.kind == ErrorKind::Generator
                && e.message@ == invalid_template_msg(t.path@))
        }),
{
    render_page_inner(in_buf, temp)
}

impl Page {
    /// Renders this page's markdown body against the resolved template, as
    /// [`render_page`] does.
    pub fn generate(&self, in_buf: &str, temp: Option<&Template>) -> (r: Result<
        String,
        QuiltError,
    >)
        ensures
            temp is None ==> (r matches Ok(out) && out@ == builtin_prefix() + html_of_md(in_buf@)
                + builtin_suffix()),
            temp matches Some(t) ==> ({
                &&& occ(t.text@) == 1 ==> (r matches Ok(out) && out@ == wrapped(
                    t.text@,
                    html_of_md(in_buf@),
                ) && out@.len() == t.text@.len() - marker().len() + html_of_md(in_buf@).len())
                &&& occ(t.text@) != 1 ==> (r matches Err(e) && e.kind == ErrorKind::Generator
                    && e.message@ == invalid_template_msg(t.path@))
            }),
    {
        render_page_inner(in_buf, temp)
    }
}

/// The one rendering path behind [`render_page`] and [`Page::generate`].
fn render_page_inner(in_buf: &str, temp: Option<&Template>) -> (r: Result<String, QuiltError>)
    ensures
        temp is None ==> (r matches Ok(out) && out@ == builtin_prefix() + html_of_md(in_buf@)
            + builtin_suffix()),
        temp matches Some(t) ==> ({
            &&& occ(t.text@) == 1 ==> (r matches Ok(out) && out@ == wrapped(
                t.text@,
                html_of_md(in_buf@),
            ) && out@.len() == t.text@.len() - marker().len() + html_of_md(in_buf@).len())
            &&& occ(t.text@) != 1 ==> (r matches Err(e) && e.kind == ErrorKind::Generator
                && e.message@ == invalid_template_msg(t.path@))
        }),
    {
        let parse_buf = render_markdown(in_buf);
        match temp {
            None => {
                let mut out = String::from_str("<html><body><article>");
                out.append(parse_buf.as_str());
                out.append("</article></body></html>");
                proof {
                    reveal_strlit("<html><body><article>");
                    reveal_strlit("</article></body></html>");
                }
                Ok(out)
            },
            Some(t) => {
                let (count, first) = scan_marker(t.text.as_str());
                if count == 1 {
                    let len = t.text.as_str().unicode_len();
                    proof {
                        reveal_strlit("{{content}}");
                        lemma_first_match_props(t.text@, 0);
                        assert(is_match(t.text@, first as int));
                    }
                    let mut out = String::from_str(t.text.as_str().substring_char(0, first));
                    out.append(parse_buf.as_str());
                    out.append(t.text.as_str().substring_char(first + 11, len));
                    proof {
                        assert(t.text@.subrange(0, first as int) =~= t.text@.take(first as int));
                        assert(t.text@.subrange(first + 11, t.text@.len() as int) =~= t.text@.skip(
                            first + marker().len(),
                        ));
                    }
                    Ok(out)
                } else {
                    let mut message = String::from_str("Invalid Template ");
                    message.append(t.path.as_str());
                    message.append(": no {{content}}.");
                    proof {
                        reveal_strlit("Invalid Template ");
                        reveal_strlit(": no {{content}}.");
                    }
                    Err(QuiltError { kind: ErrorKind::Generator, message })
                }
            },
        }
    }

} // verus!
