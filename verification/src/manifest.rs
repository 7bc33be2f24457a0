//! The build manifest: a line-oriented record of the previous build's
//! artifacts, written in an order that makes replaying its deletions safe.
//!
//! A line starting with `!` names a directory to delete recursively; a line
//! starting with `#` is a comment; any other line names a file to delete, or
//! an empty directory to delete non-recursively.

use vstd::prelude::*;
use vstd::string::*;
use crate::{ErrorKind, QuiltError};

verus! {

/// One manifest record: a path to delete non-recursively (a file or an empty
/// directory), or a directory to delete with all its contents.
#[derive(Debug)]
pub enum ManifestEntry {
    Plain(String),
    Recursive(String),
}

/// The mathematical model of a manifest record.
#[verifier::ext_equal]
pub enum SpecManifestEntry {
    Plain(Seq<char>),
    Recursive(Seq<char>),
}

impl View for ManifestEntry {
    type V = SpecManifestEntry;

    open spec fn view(&self) -> SpecManifestEntry {
        match self {
            ManifestEntry::Plain(p) => SpecManifestEntry::Plain(p@),
            ManifestEntry::Recursive(p) => SpecManifestEntry::Recursive(p@),
        }
    }
}

/// The model of an entry list.
pub open spec fn entries_view(v: Seq<ManifestEntry>) -> Seq<SpecManifestEntry> {
    Seq::new(v.len(), |i: int| v[i]@)
}

/// The text of one manifest line.
pub open spec fn render_line(e: SpecManifestEntry) -> Seq<char> {
    match e {
        SpecManifestEntry::Plain(p) => p,
        SpecManifestEntry::Recursive(p) => "!"@ + p,
    }
}

/// The manifest text: the entries' lines joined with line breaks.
pub open spec fn manifest_text(es: Seq<SpecManifestEntry>) -> Seq<char>
    decreases es.len(),
{
    if es.len() == 0 {
        Seq::<char>::empty()
    } else if es.len() == 1 {
        render_line(es[0])
    } else {
        render_line(es[0]) + seq!['\n'] + manifest_text(es.drop_first())
    }
}

/// Appending one entry appends a line break and its line.
pub proof fn lemma_manifest_text_push(es: Seq<SpecManifestEntry>, e: SpecManifestEntry)
    requires
        es.len() >= 1,
    ensures
        manifest_text(es.push(e)) == manifest_text(es) + seq!['\n'] + render_line(e),
    decreases es.len(),
{
    if es.len() == 1 {
        assert(es.push(e).drop_first() =~= seq![e]);
        assert(manifest_text(seq![e]) == render_line(e));
        assert(es.push(e)[0] == es[0]);
    } else {
        lemma_manifest_text_push(es.drop_first(), e);
        assert(es.push(e).drop_first() =~= es.drop_first().push(e));
        assert(manifest_text(es) + seq!['\n'] + render_line(e) =~= render_line(es[0])
            + seq!['\n'] + (manifest_text(es.drop_first()) + seq!['\n'] + render_line(e)));
    }
}

/// Renders the manifest text for the entry list.
pub fn render_manifest(entries: &Vec<ManifestEntry>) -> (r: String)
    ensures
        r@ == manifest_text(entries_view(entries@)),
{
    let ghost ev = entries_view(entries@);
    let mut out = String::new();
    if entries.len() == 0 {
        proof {
            assert(out@ =~= manifest_text(ev));
        }
        return out;
    }
    out = render_one(&entries[0]);
    proof {
        assert(ev.take(1) =~= seq![ev[0]]);
    }
    let mut i: usize = 1;
    while i < entries.len()
        invariant
            ev == entries_view(entries@),
            1 <= i <= entries@.len(),
            out@ == manifest_text(ev.take(i as int)),
        decreases entries@.len() - i,
    {
        out.append("\n");
        let line = render_one(&entries[i]);
        out.append(line.as_str());
        proof {
            reveal_strlit("\n");
            lemma_manifest_text_push(ev.take(i as int), ev[i as int]);
            assert(ev.take(i as int).push(ev[i as int]) =~= ev.take(i + 1));
            assert(out@ =~= manifest_text(ev.take(i as int)) + seq!['\n'] + render_line(
                ev[i as int],
            ));
        }
        i += 1;
    }
    proof {
        assert(ev.take(ev.len() as int) =~= ev);
    }
    out
}

/// Renders one manifest line.
fn render_one(e: &ManifestEntry) -> (r: String)
    ensures
        r@ == render_line(e@),
{
    match e {
        ManifestEntry::Plain(p) => p.clone(),
        ManifestEntry::Recursive(p) => {
            let mut out = String::from_str("!");
            out.append(p.as_str());
            out
        },
    }
}

/// Position of the first line break at `i` or later.
pub open spec fn first_nl_from(s: Seq<char>, i: int) -> Option<int>
    decreases s.len() - i,
    when 0 <= i <= s.len()
{
    if i >= s.len() {
        None
    } else if s[i] == '\n' {
        Some(i)
    } else {
        first_nl_from(s, i + 1)
    }
}

/// The text split into lines at `\n`, as `str::lines` splits it: a trailing
/// line break does not open a final empty line.
pub open spec fn split_lines(text: Seq<char>) -> Seq<Seq<char>>
    decreases text.len(),
{
    if text.len() == 0 {
        Seq::<Seq<char>>::empty()
    } else {
        match first_nl_from(text, 0) {
            None => seq![text],
            Some(i) => if 0 <= i < text.len() {
                seq![text.take(i)] + split_lines(text.skip(i + 1))
            } else {
                seq![text]
            },
        }
    }
}

/// How one line is read: a comment is dropped, a `!` line names a recursive
/// deletion, anything else a plain one.
pub open spec fn classify_line(l: Seq<char>) -> Option<SpecManifestEntry> {
    if l.len() > 0 && l[0] == '!' {
        Some(SpecManifestEntry::Recursive(l.drop_first()))
    } else if l.len() > 0 && l[0] == '#' {
        None
    } else {
        Some(SpecManifestEntry::Plain(l))
    }
}

/// The records a manifest text holds: its classified lines, comments dropped.
pub open spec fn parse_manifest_spec(text: Seq<char>) -> Seq<SpecManifestEntry> {
    split_lines(text).filter(|l: Seq<char>| classify_line(l) is Some).map_values(
        |l: Seq<char>| classify_line(l)->0,
    )
}

/// Position of the first line break at `pos` or later in the text.
fn find_nl(text: &str, pos: usize) -> (j: usize)
    requires
        text@.len() <= usize::MAX,
        pos <= text@.len(),
    ensures
        pos <= j <= text@.len(),
        j < text@.len() ==> text@[j as int] == '\n' && first_nl_from(text@, pos as int) == Some(
            j as int,
        ),
        j == text@.len() ==> first_nl_from(text@, pos as int) is None,
{
    let len = text.unicode_len();
    let mut j: usize = pos;
    while j < len && text.get_char(j) != '\n'
        invariant
            len == text@.len(),
            pos <= j <= len,
            first_nl_from(text@, pos as int) == first_nl_from(text@, j as int),
            forall|k: int| pos <= k < j ==> text@[k] != '\n',
        decreases len - j,
    {
        j += 1;
    }
    j
}

/// Parses a manifest text into its records.
pub fn parse_manifest(text: &str) -> (r: Vec<ManifestEntry>)
    ensures
        entries_view(r@) == parse_manifest_spec(text@),
{
    let len = text.unicode_len();
    let mut out: Vec<ManifestEntry> = Vec::new();
    let mut pos: usize = 0;
    proof {
        assert(text@.skip(0) =~= text@);
        assert(entries_view(out@) =~= Seq::<SpecManifestEntry>::empty());
        assert(entries_view(out@) + entries_of(split_lines(text@)) =~= entries_of(
            split_lines(text@),
        ));
    }
    while pos < len
        invariant
            len == text@.len(),
            pos <= len,
            parse_manifest_spec(text@) =~= entries_view(out@) + entries_of(
                split_lines(text@.skip(pos as int)),
            ),
        decreases len - pos,
    {
        let ghost rest = text@.skip(pos as int);
        let j = find_nl(text, pos);
        let line_str = text.substring_char(pos, j);
        let line = String::from_str(line_str);
        let ghost lv = line@;
        let next: usize = if j < len {
            j + 1
        } else {
            len
        };
        let ghost tail = split_lines(text@.skip(next as int));
        proof {
            lemma_first_nl_skip(text@, pos as int);
            assert(lv =~= rest.take(j - pos));
            if j < len {
                assert(first_nl_from(rest, 0) == Some(j - pos));
                assert(rest.skip(j - pos + 1) =~= text@.skip(next as int));
                assert(split_lines(rest) == seq![lv] + tail);
            } else {
                assert(first_nl_from(rest, 0) is None);
                assert(rest.len() > 0);
                assert(split_lines(rest) == seq![rest]);
                assert(rest =~= lv);
                assert(text@.skip(len as int) =~= Seq::<char>::empty());
                assert(tail =~= Seq::<Seq<char>>::empty());
                assert(split_lines(rest) =~= seq![lv] + tail);
            }
            lemma_entries_of_cons(lv, tail);
        }
        let ghost prev_out = entries_view(out@);
        let llen = line.as_str().unicode_len();
        if llen > 0 && line.as_str().get_char(0) == '!' {
            let tail_str = line.as_str().substring_char(1, llen);
            proof {
                assert(tail_str@ =~= lv.drop_first());
            }
            out.push(ManifestEntry::Recursive(String::from_str(tail_str)));
            proof {
                let e = SpecManifestEntry::Recursive(lv.drop_first());
                assert(classify_line(lv) == Some(e));
                assert(entries_view(out@) =~= prev_out.push(e));
                assert(prev_out.push(e) + entries_of(tail) =~= prev_out + (seq![e] + entries_of(
                    tail,
                )));
            }
        } else if llen > 0 && line.as_str().get_char(0) == '#' {
            proof {
                assert(classify_line(lv) is None);
            }
        } else {
            out.push(ManifestEntry::Plain(line));
            proof {
                let e = SpecManifestEntry::Plain(lv);
                assert(classify_line(lv) == Some(e));
                assert(entries_view(out@) =~= prev_out.push(e));
                assert(prev_out.push(e) + entries_of(tail) =~= prev_out + (seq![e] + entries_of(
                    tail,
                )));
            }
        }
        pos = next;
    }
    proof {
        assert(text@.skip(len as int) =~= Seq::<char>::empty());
        assert(split_lines(Seq::<char>::empty()) =~= Seq::<Seq<char>>::empty());
        reveal(Seq::filter);
        assert(entries_of(Seq::<Seq<char>>::empty()) =~= Seq::<SpecManifestEntry>::empty());
        assert(entries_view(out@) =~= parse_manifest_spec(text@));
    }
    out
}

/// The records a line list holds.
pub open spec fn entries_of(lines: Seq<Seq<char>>) -> Seq<SpecManifestEntry> {
    lines.filter(|l: Seq<char>| classify_line(l) is Some).map_values(
        |l: Seq<char>| classify_line(l)->0,
    )
}

/// Reading one more line prepends its record, if it has one.
proof fn lemma_entries_of_cons(l: Seq<char>, rest: Seq<Seq<char>>)
    ensures
        classify_line(l) matches Some(e) ==> entries_of(seq![l] + rest) =~= seq![e] + entries_of(
            rest,
        ),
        classify_line(l) is None ==> entries_of(seq![l] + rest) =~= entries_of(rest),
{
    let p = |x: Seq<char>| classify_line(x) is Some;
    reveal(Seq::filter);
    Seq::filter_distributes_over_add(seq![l], rest, p);
    assert(seq![l].drop_last() =~= Seq::<Seq<char>>::empty());
    assert(Seq::<Seq<char>>::empty().filter(p) == Seq::<Seq<char>>::empty());
    assert(seq![l].last() == l);
    if classify_line(l) is Some {
        assert(seq![l].filter(p) =~= seq![l]);
        assert((seq![l] + rest).filter(p) =~= seq![l] + rest.filter(p));
        assert(entries_of(seq![l] + rest) =~= seq![classify_line(l)->0] + entries_of(rest));
    } else {
        assert(seq![l].filter(p) =~= Seq::<Seq<char>>::empty());
        assert((seq![l] + rest).filter(p) =~= rest.filter(p));
        assert(entries_of(seq![l] + rest) =~= entries_of(rest));
    }
}

/// `first_nl_from` looks the same through `skip`.
proof fn lemma_first_nl_skip(s: Seq<char>, pos: int)
    requires
        0 <= pos <= s.len(),
    ensures
        first_nl_from(s.skip(pos), 0) == match first_nl_from(s, pos) {
            Some(i) => Some(i - pos),
            None => None,
        },
    decreases s.len() - pos,
{
    if pos < s.len() {
        if s[pos] != '\n' {
            lemma_first_nl_skip(s, pos + 1);
            assert(s.skip(pos).drop_first() =~= s.skip(pos + 1));
            lemma_first_nl_shift(s.skip(pos));
        }
    }
}

/// Scanning past a non-matching head advances the result by one.
proof fn lemma_first_nl_shift(s: Seq<char>)
    requires
        s.len() > 0,
        s[0] != '\n',
    ensures
        first_nl_from(s, 0) == match first_nl_from(s.drop_first(), 0) {
            Some(i) => Some(i + 1),
            None => None,
        },
    decreases s.len(),
{
    lemma_first_nl_align(s, 1);
}

/// Positions in the tail align with positions after the head.
proof fn lemma_first_nl_align(s: Seq<char>, i: int)
    requires
        1 <= i <= s.len(),
    ensures
        first_nl_from(s, i) == match first_nl_from(s.drop_first(), i - 1) {
            Some(k) => Some(k + 1),
            None => None,
        },
    decreases s.len() - i,
{
    if i < s.len() {
        if s[i] != '\n' {
            lemma_first_nl_align(s, i + 1);
        }
    }
}

/// The filesystem action one manifest record calls for, given whether its
/// target is a directory. A recursive record naming a non-directory is the
/// fatal manifest-integrity failure.
#[derive(Clone, Copy, Debug, PartialEq, Eq, Structural)]
pub enum CleanAction {
    RemoveDirAll,
    RemoveDir,
    RemoveFile,
}

/// Decides how to delete one manifest record's target.
pub fn clean_action(entry: &ManifestEntry, is_dir: bool) -> (r: Result<CleanAction, QuiltError>)
    ensures
        match entry@ {
            SpecManifestEntry::Recursive(_) => {
                if is_dir {
                    r == Ok::<CleanAction, QuiltError>(CleanAction::RemoveDirAll)
                } else {
                    r matches Err(e) && e.kind == ErrorKind::Manifest && e.message@
                        == "Bad _quilt file: ! precedes a file name."@
                }
            },
            SpecManifestEntry::Plain(_) => r == Ok::<CleanAction, QuiltError>(
                if is_dir {
                    CleanAction::RemoveDir
                } else {
                    CleanAction::RemoveFile
                },
            ),
        },
{
    match entry {
        ManifestEntry::Recursive(_) => {
            if is_dir {
                Ok(CleanAction::RemoveDirAll)
            } else {
                Err(
                    QuiltError {
                        kind: ErrorKind::Manifest,
                        message: String::from_str("Bad _quilt file: ! precedes a file name."),
                    },
                )
            }
        },
        ManifestEntry::Plain(_) => {
            if is_dir {
                Ok(CleanAction::RemoveDir)
            } else {
                Ok(CleanAction::RemoveFile)
            }
        },
    }
}

/// A record the round trip preserves: its path holds no line break, and a
/// plain path is non-empty and does not open like a marker or comment line.
pub open spec fn wf_entry(e: SpecManifestEntry) -> bool {
    match e {
        SpecManifestEntry::Plain(p) => p.len() > 0 && p[0] != '!' && p[0] != '#' && (forall|i: int|
            0 <= i < p.len() ==> p[i] != '\n'),
        SpecManifestEntry::Recursive(p) => forall|i: int| 0 <= i < p.len() ==> p[i] != '\n',
    }
}

/// A well-formed record renders to a line that reads back as that record.
proof fn lemma_render_line_wf(e: SpecManifestEntry)
    requires
        wf_entry(e),
    ensures
        render_line(e).len() > 0,
        forall|i: int| 0 <= i < render_line(e).len() ==> render_line(e)[i] != '\n',
        classify_line(render_line(e)) == Some(e),
{
    reveal_strlit("!");
    match e {
        SpecManifestEntry::Plain(p) => {
            assert(classify_line(p) == Some(SpecManifestEntry::Plain(p)));
        },
        SpecManifestEntry::Recursive(p) => {
            let l = "!"@ + p;
            assert("!"@.len() == 1);
            assert(l[0] == '!');
            assert(l.drop_first() =~= p);
            assert(forall|i: int| 0 <= i < l.len() ==> l[i] != '\n') by {
                assert(forall|i: int| 1 <= i < l.len() ==> l[i] == p[i - 1]);
            }
            assert(classify_line(l) == Some(SpecManifestEntry::Recursive(p)));
        },
    }
}

/// A text without line breaks past `i` has no line break to find.
proof fn lemma_first_nl_none_from(s: Seq<char>, i: int)
    requires
        0 <= i <= s.len(),
        forall|k: int| i <= k < s.len() ==> s[k] != '\n',
    ensures
        first_nl_from(s, i) is None,
    decreases s.len() - i,
{
    if i < s.len() {
        lemma_first_nl_none_from(s, i + 1);
    }
}

/// A line break at `f` with none before it is the first one.
proof fn lemma_first_nl_at(s: Seq<char>, i: int, f: int)
    requires
        0 <= i <= f < s.len(),
        s[f] == '\n',
        forall|k: int| i <= k < f ==> s[k] != '\n',
    ensures
        first_nl_from(s, i) == Some(f),
    decreases f - i,
{
    if i < f {
        lemma_first_nl_at(s, i + 1, f);
    }
}

/// Law: a rendered manifest parses back to exactly its records, so the clean
/// step of the next build sees precisely the artifacts this build recorded.
pub proof fn lemma_manifest_round_trip(es: Seq<SpecManifestEntry>)
    requires
        forall|i: int| 0 <= i < es.len() ==> wf_entry(#[trigger] es[i]),
    ensures
        parse_manifest_spec(manifest_text(es)) =~= es,
    decreases es.len(),
{
    reveal(Seq::filter);
    if es.len() == 0 {
        assert(manifest_text(es).len() == 0);
        assert(split_lines(manifest_text(es)) =~= Seq::<Seq<char>>::empty());
        assert(parse_manifest_spec(manifest_text(es)) =~= Seq::<SpecManifestEntry>::empty());
    } else if es.len() == 1 {
        let l = render_line(es[0]);
        lemma_render_line_wf(es[0]);
        lemma_first_nl_none_from(l, 0);
        assert(split_lines(l) =~= seq![l]);
        lemma_entries_of_cons(l, Seq::<Seq<char>>::empty());
        assert(entries_of(Seq::<Seq<char>>::empty()) =~= Seq::<SpecManifestEntry>::empty());
        assert(seq![l] + Seq::<Seq<char>>::empty() =~= seq![l]);
        assert(parse_manifest_spec(l) =~= seq![es[0]]);
        assert(seq![es[0]] =~= es);
    } else {
        let l = render_line(es[0]);
        let rest = manifest_text(es.drop_first());
        let text = manifest_text(es);
        assert(text == l + seq!['\n'] + rest);
        lemma_render_line_wf(es[0]);
        assert(forall|k: int| 0 <= k < l.len() ==> text[k] == l[k]);
        assert(text[l.len() as int] == '\n');
        lemma_first_nl_at(text, 0, l.len() as int);
        assert(text.take(l.len() as int) =~= l);
        assert(text.skip(l.len() as int + 1) =~= rest);
        assert(split_lines(text) == seq![l] + split_lines(rest));
        lemma_manifest_round_trip(es.drop_first());
        lemma_entries_of_cons(l, split_lines(rest));
        assert(parse_manifest_spec(text) =~= seq![es[0]] + parse_manifest_spec(rest));
        assert(seq![es[0]] + es.drop_first() =~= es);
    }
}

} // verus!
