//! Site composition: one pass over the walk of a source tree classifies the
//! reserved top-level roots, collects the ordered section list, and pairs
//! content and configuration files into pages.
//!
//! The pass is specified as a fold of [`compose_step`] over the walk entries;
//! [`Job::compose`] is proved to compute exactly that fold.

use vstd::prelude::*;
use vstd::string::*;
use crate::{ErrorKind, QuiltError};
use crate::config::{PageToml, parse_page_toml, toml_page_config};
use crate::paths::RelPath;
use crate::strutil::{split_ext, split_ext_spec, str_eq};

verus! {

/// One entry of the walk of the source tree, in walk order: its path relative
/// to the source root, whether it is a directory, and, for files the walker
/// read, the file's text.
pub struct Entry {
    pub path: RelPath,
    pub is_dir: bool,
    pub content: Option<String>,
}

/// The mathematical model of a walk entry.
#[verifier::ext_equal]
pub struct SpecEntry {
    pub path: Seq<Seq<char>>,
    pub is_dir: bool,
    pub content: Option<Seq<char>>,
}

impl View for Entry {
    type V = SpecEntry;

    open spec fn view(&self) -> SpecEntry {
        SpecEntry { path: self.path@, is_dir: self.is_dir, content: self.content.deep_view() }
    }
}

/// One logical content unit: its display name, the index of its owning
/// section, its configuration, and which of its two backing files exist.
#[derive(Debug)]
pub struct Page {
    pub name: String,
    pub section_id: usize,
    pub page_toml: PageToml,
    pub has_toml: bool,
    pub has_md: bool,
}

/// The mathematical model of a page.
#[verifier::ext_equal]
pub struct SpecPage {
    pub name: Seq<char>,
    pub section_id: int,
    pub theme: Option<Seq<char>>,
    pub template: Option<Seq<char>>,
    pub has_toml: bool,
    pub has_md: bool,
}

impl View for Page {
    type V = SpecPage;

    open spec fn view(&self) -> SpecPage {
        SpecPage {
            name: self.name@,
            section_id: self.section_id as int,
            theme: self.page_toml.theme.deep_view(),
            template: self.page_toml.template.deep_view(),
            has_toml: self.has_toml,
            has_md: self.has_md,
        }
    }
}

/// The composed site model: the reserved roots that were found, the ordered
/// section list (content-root-relative; index 0 is the root section), and the
/// pages keyed by their content-root-relative path.
#[derive(Debug)]
pub struct Site {
    pub site_dir: RelPath,
    pub static_dir: Option<RelPath>,
    pub themes_dir: Option<RelPath>,
    pub sections: Vec<RelPath>,
    pub pages: Vec<(RelPath, Page)>,
}

/// The mathematical model of a site.
#[verifier::ext_equal]
pub struct SpecSite {
    pub site_dir: Seq<Seq<char>>,
    pub static_dir: Option<Seq<Seq<char>>>,
    pub themes_dir: Option<Seq<Seq<char>>>,
    pub sections: Seq<Seq<Seq<char>>>,
    pub pages: Seq<(Seq<Seq<char>>, SpecPage)>,
}

/// The model of a section list.
pub open spec fn paths_view(v: Seq<RelPath>) -> Seq<Seq<Seq<char>>> {
    Seq::new(v.len(), |i: int| v[i]@)
}

/// The model of a page list.
pub open spec fn pages_view(v: Seq<(RelPath, Page)>) -> Seq<(Seq<Seq<char>>, SpecPage)> {
    Seq::new(v.len(), |i: int| (v[i].0@, v[i].1@))
}

/// The model of a walk.
pub open spec fn entries_view(v: Seq<Entry>) -> Seq<SpecEntry> {
    Seq::new(v.len(), |i: int| v[i]@)
}

impl View for Site {
    type V = SpecSite;

    open spec fn view(&self) -> SpecSite {
        SpecSite {
            site_dir: self.site_dir@,
            static_dir: match self.static_dir {
                Some(p) => Some(p@),
                None => None,
            },
            themes_dir: match self.themes_dir {
                Some(p) => Some(p@),
                None => None,
            },
            sections: paths_view(self.sections@),
            pages: pages_view(self.pages@),
        }
    }
}

impl Site {
    /// An empty site model, to be filled by composition.
    pub fn init() -> (r: Self)
        ensures
            r@.site_dir == seq!["site"@],
            r@.static_dir is None,
            r@.themes_dir is None,
            r@.sections == Seq::<Seq<Seq<char>>>::empty(),
            r@.pages == Seq::<(Seq<Seq<char>>, SpecPage)>::empty(),
    {
        let mut site_dir = RelPath::empty();
        site_dir.push_part(String::from_str("site"));
        let r = Site {
            site_dir,
            static_dir: None,
            themes_dir: None,
            sections: Vec::new(),
            pages: Vec::new(),
        };
        proof {
            assert(r@.site_dir =~= seq!["site"@]);
            assert(r@.sections =~= Seq::<Seq<Seq<char>>>::empty());
            assert(r@.pages =~= Seq::<(Seq<Seq<char>>, SpecPage)>::empty());
        }
        r
    }
}

/// One build job: where the source tree lies, where the output goes, and the
/// site composed from the source tree.
pub struct Job<'args> {
    pub from_path: &'args str,
    pub to_path: &'args str,
    pub site: Site,
}

/// The state threaded through the composition fold.
#[verifier::ext_equal]
pub struct ComposeState {
    pub cursec: Seq<Seq<char>>,
    pub cursec_id: int,
    pub has_site: bool,
    pub has_static: bool,
    pub has_themes: bool,
    pub sections: Seq<Seq<Seq<char>>>,
    pub pages: Seq<(Seq<Seq<char>>, SpecPage)>,
}

/// A fatal composition failure, carrying the offending entry's path.
#[verifier::ext_equal]
pub enum ComposeErr {
    /// A content-root file whose extension is neither `md` nor `toml`.
    NotAPageFile(Seq<Seq<char>>),
    /// A second file of a kind the page already has.
    UnexpectedFile(Seq<Seq<char>>),
    /// A configuration file the TOML parser rejected.
    ConfigDecode(Seq<Seq<char>>),
    /// A configuration file whose text the walker did not supply.
    MissingContent(Seq<Seq<char>>),
}

/// The subsystem each composition failure is charged to.
pub open spec fn compose_err_kind(e: ComposeErr) -> ErrorKind {
    match e {
        ComposeErr::NotAPageFile(_) => ErrorKind::Composition,
        ComposeErr::UnexpectedFile(_) => ErrorKind::Composition,
        ComposeErr::ConfigDecode(_) => ErrorKind::Toml,
        ComposeErr::MissingContent(_) => ErrorKind::Io,
    }
}

/// The diagnostic for each composition failure.
pub open spec fn compose_err_msg(e: ComposeErr) -> Seq<char> {
    match e {
        ComposeErr::NotAPageFile(p) => crate::paths::join_rel(p) + " is not a valid pagefile."@,
        ComposeErr::UnexpectedFile(p) => "Unexpected File: "@ + crate::paths::join_rel(p),
        ComposeErr::ConfigDecode(p) => "Could not decode "@ + crate::paths::join_rel(p),
        ComposeErr::MissingContent(p) => "Could not read "@ + crate::paths::join_rel(p),
    }
}

/// The state before any entry: the root section is pre-seeded at index 0 and
/// is the current section.
pub open spec fn init_state() -> ComposeState {
    ComposeState {
        cursec: Seq::<Seq<char>>::empty(),
        cursec_id: 0,
        has_site: false,
        has_static: false,
        has_themes: false,
        sections: seq![Seq::<Seq<char>>::empty()],
        pages: Seq::<(Seq<Seq<char>>, SpecPage)>::empty(),
    }
}

/// Index of the most recent section equal to `p` at position `i` or below;
/// `fallback` when none matches.
pub open spec fn resolve_from(
    sections: Seq<Seq<Seq<char>>>,
    p: Seq<Seq<char>>,
    i: int,
    fallback: int,
) -> int
    decreases i + 1,
    when i < sections.len()
{
    if i < 0 {
        fallback
    } else if sections[i] == p {
        i
    } else {
        resolve_from(sections, p, i - 1, fallback)
    }
}

/// Index of the most recent section equal to `p`; `fallback` when none
/// matches.
pub open spec fn resolve_id(
    sections: Seq<Seq<Seq<char>>>,
    p: Seq<Seq<char>>,
    fallback: int,
) -> int {
    resolve_from(sections, p, sections.len() - 1, fallback)
}

/// Index of the first page keyed `key` at position `i` or later.
pub open spec fn find_page_from(
    pages: Seq<(Seq<Seq<char>>, SpecPage)>,
    key: Seq<Seq<char>>,
    i: int,
) -> Option<int>
    decreases pages.len() - i,
    when 0 <= i
{
    if i >= pages.len() {
        None
    } else if pages[i].0 == key {
        Some(i)
    } else {
        find_page_from(pages, key, i + 1)
    }
}

/// What one content-root file does to the composition state: an ignored
/// extension-less entry, a page creation or update, or a fatal failure.
pub open spec fn compose_step_file(
    st: ComposeState,
    full: Seq<Seq<char>>,
    content: Option<Seq<char>>,
) -> Result<ComposeState, ComposeErr> {
    let rel = full.drop_first();
    let name = rel.last();
    let parent = rel.drop_last();
    let stem = split_ext_spec(name).0;
    let ext = split_ext_spec(name).1;
    if ext.len() == 0 {
        Ok(st)
    } else {
        let st1 = if parent == st.cursec {
            st
        } else {
            ComposeState {
                cursec: parent,
                cursec_id: resolve_id(st.sections, parent, st.cursec_id),
                ..st
            }
        };
        if ext == "md"@ || ext == "toml"@ {
            let key = parent.push(stem);
            match find_page_from(st1.pages, key, 0) {
                Some(i) => {
                    let p = st1.pages[i].1;
                    if ext == "md"@ {
                        if p.has_md {
                            Err(ComposeErr::UnexpectedFile(full))
                        } else {
                            Ok(
                                ComposeState {
                                    pages: st1.pages.update(
                                        i,
                                        (key, SpecPage { has_md: true, ..p }),
                                    ),
                                    ..st1
                                },
                            )
                        }
                    } else {
                        if p.has_toml {
                            Err(ComposeErr::UnexpectedFile(full))
                        } else {
                            match content {
                                None => Err(ComposeErr::MissingContent(full)),
                                Some(text) => match toml_page_config(text) {
                                    None => Err(ComposeErr::ConfigDecode(full)),
                                    Some(cfg) => Ok(
                                        ComposeState {
                                            pages: st1.pages.update(
                                                i,
                                                (
                                                    key,
                                                    SpecPage {
                                                        theme: cfg.0,
                                                        template: cfg.1,
                                                        has_toml: true,
                                                        ..p
                                                    },
                                                ),
                                            ),
                                            ..st1
                                        },
                                    ),
                                },
                            }
                        }
                    }
                },
                None => {
                    if ext == "md"@ {
                        Ok(
                            ComposeState {
                                pages: st1.pages.push(
                                    (
                                        key,
                                        SpecPage {
                                            name: stem,
                                            section_id: st1.cursec_id,
                                            theme: None,
                                            template: None,
                                            has_toml: false,
                                            has_md: true,
                                        },
                                    ),
                                ),
                                ..st1
                            },
                        )
                    } else {
                        match content {
                            None => Err(ComposeErr::MissingContent(full)),
                            Some(text) => match toml_page_config(text) {
                                None => Err(ComposeErr::ConfigDecode(full)),
                                Some(cfg) => Ok(
                                    ComposeState {
                                        pages: st1.pages.push(
                                            (
                                                key,
                                                SpecPage {
                                                    name: stem,
                                                    section_id: st1.cursec_id,
                                                    theme: cfg.0,
                                                    template: cfg.1,
                                                    has_toml: true,
                                                    has_md: false,
                                                },
                                            ),
                                        ),
                                        ..st1
                                    },
                                ),
                            },
                        }
                    }
                },
            }
        } else {
            Err(ComposeErr::NotAPageFile(full))
        }
    }
}

/// What one walk entry does to the composition state. A top-level directory
/// is classified against the three reserved names; entries under the content
/// root are sections or page files; everything else is skipped.
pub open spec fn compose_step(st: ComposeState, e: SpecEntry) -> Result<
    ComposeState,
    ComposeErr,
> {
    if e.path.len() == 0 {
        Ok(st)
    } else if e.path.len() == 1 {
        if e.is_dir {
            if e.path[0] == "static"@ {
                Ok(ComposeState { has_static: true, ..st })
            } else if e.path[0] == "site"@ {
                Ok(ComposeState { has_site: true, ..st })
            } else if e.path[0] == "themes"@ {
                Ok(ComposeState { has_themes: true, ..st })
            } else {
                Ok(st)
            }
        } else {
            Ok(st)
        }
    } else if e.path[0] == "site"@ {
        if e.is_dir {
            let rel = e.path.drop_first();
            Ok(
                ComposeState {
                    cursec: rel,
                    cursec_id: st.sections.len() as int,
                    sections: st.sections.push(rel),
                    ..st
                },
            )
        } else {
            compose_step_file(st, e.path, e.content)
        }
    } else {
        Ok(st)
    }
}

/// The composition fold over a walk.
pub open spec fn compose_fold(entries: Seq<SpecEntry>) -> Result<ComposeState, ComposeErr>
    decreases entries.len(),
{
    if entries.len() == 0 {
        Ok(init_state())
    } else {
        match compose_fold(entries.drop_last()) {
            Err(e) => Err(e),
            Ok(st) => compose_step(st, entries.last()),
        }
    }
}

/// Once the fold fails, every longer prefix fails the same way.
pub proof fn lemma_fold_err_extends(entries: Seq<SpecEntry>, j: int, k: int, ce: ComposeErr)
    requires
        0 <= j <= k <= entries.len(),
        compose_fold(entries.take(j)) == Err::<ComposeState, ComposeErr>(ce),
    ensures
        compose_fold(entries.take(k)) == Err::<ComposeState, ComposeErr>(ce),
    decreases k - j,
{
    if j < k {
        assert(entries.take(j + 1).drop_last() =~= entries.take(j));
        lemma_fold_err_extends(entries, j + 1, k, ce);
    }
}

/// The composed site a successful fold describes.
pub open spec fn site_of_state(st: ComposeState, site: SpecSite) -> bool {
    &&& site.site_dir == seq!["site"@]
    &&& site.sections == st.sections
    &&& site.pages == st.pages
    &&& site.static_dir == if st.has_static {
        Some(seq!["static"@])
    } else {
        None
    }
    &&& site.themes_dir == if st.has_themes {
        Some(seq!["themes"@])
    } else {
        None
    }
}

/// What `Job::compose` returns and leaves in `self.site`, for every outcome
/// of the fold.
pub open spec fn compose_post(
    entries: Seq<SpecEntry>,
    site: SpecSite,
    r: Result<(), QuiltError>,
) -> bool {
    match compose_fold(entries) {
        Ok(st) => {
            if st.has_site {
                r is Ok && site_of_state(st, site)
            } else {
                r matches Err(e) && e.kind == ErrorKind::Composition && e.message@
                    == "/site directory not found"@
            }
        },
        Err(ce) => r matches Err(e) && e.kind == compose_err_kind(ce) && e.message@
            == compose_err_msg(ce),
    }
}

/// Index of the most recent section equal to `p`; `fallback` when none
/// matches.
fn resolve_section(sections: &Vec<RelPath>, p: &RelPath, fallback: usize) -> (r: usize)
    ensures
        r as int == resolve_id(paths_view(sections@), p@, fallback as int),
{
    let ghost pv = paths_view(sections@);
    let mut i: usize = sections.len();
    while i > 0
        invariant
            pv == paths_view(sections@),
            i <= sections@.len(),
            resolve_from(pv, p@, pv.len() - 1, fallback as int) == resolve_from(
                pv,
                p@,
                i - 1,
                fallback as int,
            ),
        decreases i,
    {
        if sections[i - 1].eq_path(p) {
            proof {
                assert(pv[i - 1] == p@);
            }
            return i - 1;
        }
        proof {
            assert(pv[i - 1] != p@);
        }
        i -= 1;
    }
    fallback
}

/// Index of the page keyed `key`, if one exists.
fn find_page(pages: &Vec<(RelPath, Page)>, key: &RelPath) -> (r: Option<usize>)
    ensures
        match r {
            Some(i) => i < pages@.len() && find_page_from(pages_view(pages@), key@, 0) == Some(
                i as int,
            ) && pages_view(pages@)[i as int].0 == key@,
            None => find_page_from(pages_view(pages@), key@, 0) is None,
        },
{
    let ghost pv = pages_view(pages@);
    let mut i: usize = 0;
    while i < pages.len()
        invariant
            pv == pages_view(pages@),
            i <= pages@.len(),
            find_page_from(pv, key@, 0) == find_page_from(pv, key@, i as int),
        decreases pages@.len() - i,
    {
        if pages[i].0.eq_path(key) {
            proof {
                assert(pv[i as int].0 == key@);
            }
            return Some(i);
        }
        proof {
            assert(pv[i as int].0 != key@);
        }
        i += 1;
    }
    None
}

/// A fatal error whose message is `prefix` followed by the joined path.
fn err_path(kind: ErrorKind, prefix: &str, path: &RelPath) -> (r: QuiltError)
    ensures
        r.kind == kind,
        r.message@ == prefix@ + crate::paths::join_rel(path@),
{
    let mut message = String::from_str(prefix);
    message.append(path.joined().as_str());
    QuiltError { kind, message }
}

/// A fatal error whose message is the joined path followed by `suffix`.
fn err_path_suffix(kind: ErrorKind, path: &RelPath, suffix: &str) -> (r: QuiltError)
    ensures
        r.kind == kind,
        r.message@ == crate::paths::join_rel(path@) + suffix@,
{
    let mut message = path.joined();
    message.append(suffix);
    QuiltError { kind, message }
}

impl<'args> Job<'args> {
    /// A job with an empty site model.
    pub fn init(from_path: &'args str, to_path: &'args str) -> (r: Self)
        ensures
            r.from_path@ == from_path@,
            r.to_path@ == to_path@,
            r.site@.sections == Seq::<Seq<Seq<char>>>::empty(),
            r.site@.pages == Seq::<(Seq<Seq<char>>, SpecPage)>::empty(),
    {
        let site = Site::init();
        Job { from_path, to_path, site }
    }

    /// Composes the site model from the walk of the source tree: classifies
    /// the reserved top-level roots, collects sections in walk order, pairs
    /// page files, and parses page configuration. Exactly the fold of
    /// [`compose_step`]; a missing content root is fatal.
    pub fn compose(&mut self, entries: &Vec<Entry>) -> (r: Result<(), QuiltError>)
        ensures
            final(self).from_path == old(self).from_path,
            final(self).to_path == old(self).to_path,
            compose_post(entries_view(entries@), final(self).site@, r),
            r is Err ==> final(self).site == old(self).site,
    {
        let ghost ev = entries_view(entries@);
        let mut cursec = RelPath::empty();
        let mut cursec_id: usize = 0;
        let mut has_site = false;
        let mut has_static = false;
        let mut has_themes = false;
        let mut sections: Vec<RelPath> = Vec::new();
        sections.push(RelPath::empty());
        let mut pages: Vec<(RelPath, Page)> = Vec::new();

        proof {
            assert(paths_view(sections@) =~= seq![Seq::<Seq<char>>::empty()]);
            assert(pages_view(pages@) =~= Seq::<(Seq<Seq<char>>, SpecPage)>::empty());
            assert(ev.take(0) =~= Seq::<SpecEntry>::empty());
            assert(mk_state(
                cursec@,
                cursec_id as int,
                has_site,
                has_static,
                has_themes,
                paths_view(sections@),
                pages_view(pages@),
            ) =~= init_state());
        }

        let mut idx: usize = 0;
        while idx < entries.len()
            invariant
                ev == entries_view(entries@),
                idx <= entries@.len(),
                cursec_id <= usize::MAX,
                compose_fold(ev.take(idx as int)) == Ok::<ComposeState, ComposeErr>(
                    mk_state(
                        cursec@,
                        cursec_id as int,
                        has_site,
                        has_static,
                        has_themes,
                        paths_view(sections@),
                        pages_view(pages@),
                    ),
                ),
            decreases entries@.len() - idx,
        {
            let ghost st0 = mk_state(
                cursec@,
                cursec_id as int,
                has_site,
                has_static,
                has_themes,
                paths_view(sections@),
                pages_view(pages@),
            );
            proof {
                assert(ev.take(idx + 1).drop_last() =~= ev.take(idx as int));
                assert(ev.take(idx + 1).last() == ev[idx as int]);
                assert(compose_fold(ev.take(idx + 1)) == compose_step(st0, ev[idx as int]));
            }
            let e = &entries[idx];
            proof {
                assert(e@ == ev[idx as int]);
            }
            let elen = e.path.len();
            if elen == 0 {
                // the source root itself: skipped
            } else if elen == 1 {
                if e.is_dir {
                    if str_eq(e.path.part(0).as_str(), "static") {
                        has_static = true;
                    } else if str_eq(e.path.part(0).as_str(), "site") {
                        has_site = true;
                    } else if str_eq(e.path.part(0).as_str(), "themes") {
                        has_themes = true;
                    }
                }
                // any other top-level entry is skipped, subtree and all
            } else if str_eq(e.path.part(0).as_str(), "site") {
                if e.is_dir {
                    let rel = e.path.subpath(1, elen);
                    cursec_id = sections.len();
                    cursec = rel.dup();
                    sections.push(rel);
                    proof {
                        assert(e@.path.drop_first() =~= e.path@.subrange(1, elen as int));
                        assert(paths_view(sections@) =~= paths_view(
                            sections@.take(sections@.len() - 1),
                        ).push(cursec@));
                        assert(paths_view(sections@.take(sections@.len() - 1)) =~= st0.sections);
                    }
                } else {
                    match self.step_file(
                        e,
                        &mut cursec,
                        &mut cursec_id,
                        &mut sections,
                        &mut pages,
                        Ghost(st0),
                    ) {
                        Ok(()) => (),
                        Err(qe) => {
                            proof {
                                let ce = compose_step(st0, ev[idx as int])->Err_0;
                                lemma_fold_err_extends(ev, idx + 1, ev.len() as int, ce);
                                assert(ev.take(ev.len() as int) =~= ev);
                            }
                            return Err(qe);
                        },
                    }
                }
            } else {
                // under the static root, the themes root, or an unclassified
                // top-level directory: skipped
                proof {
                    assert(e@.path[0] != "site"@);
                }
            }
            idx += 1;
        }
        proof {
            assert(ev.take(ev.len() as int) =~= ev);
        }

        let qa = quilt_assert_site(has_site);
        match qa {
            Ok(()) => (),
            Err(qe) => {
                return Err(qe);
            },
        }

        let mut site = Site::init();
        site.static_dir = if has_static {
            let mut p = RelPath::empty();
            p.push_part(String::from_str("static"));
            proof {
                assert(p@ =~= seq!["static"@]);
            }
            Some(p)
        } else {
            None
        };
        site.themes_dir = if has_themes {
            let mut p = RelPath::empty();
            p.push_part(String::from_str("themes"));
            proof {
                assert(p@ =~= seq!["themes"@]);
            }
            Some(p)
        } else {
            None
        };
        site.sections = sections;
        site.pages = pages;
        self.site = site;
        Ok(())
    }

    /// Applies one content-root file entry to the composition state, exactly
    /// as [`compose_step_file`] describes.
    fn step_file(
        &self,
        e: &Entry,
        cursec: &mut RelPath,
        cursec_id: &mut usize,
        sections: &mut Vec<RelPath>,
        pages: &mut Vec<(RelPath, Page)>,
        Ghost(st0): Ghost<ComposeState>,
    ) -> (r: Result<(), QuiltError>)
        requires
            e@.path.len() >= 2,
            e@.path[0] == "site"@,
            !e@.is_dir,
            st0.cursec == old(cursec)@,
            st0.cursec_id == *old(cursec_id) as int,
            st0.sections == paths_view(old(sections)@),
            st0.pages == pages_view(old(pages)@),
        ensures
            final(sections)@ == old(sections)@,
            match r {
                Ok(()) => compose_step_file(st0, e@.path, e@.content) == Ok::<
                    ComposeState,
                    ComposeErr,
                >(
                    mk_state(
                        final(cursec)@,
                        final(cursec_id)@ as int,
                        st0.has_site,
                        st0.has_static,
                        st0.has_themes,
                        paths_view(final(sections)@),
                        pages_view(final(pages)@),
                    ),
                ),
                Err(qe) => {
                    &&& compose_step_file(st0, e@.path, e@.content) matches Err(ce)
                    &&& qe.kind == compose_err_kind(
                        compose_step_file(st0, e@.path, e@.content)->Err_0,
                    )
                    &&& qe.message@ == compose_err_msg(
                        compose_step_file(st0, e@.path, e@.content)->Err_0,
                    )
                },
            },
    {
        let elen = e.path.len();
        let name = e.path.part(elen - 1);
        let (stem, ext) = split_ext(name.as_str());
        proof {
            assert(e@.path.drop_first().last() == e@.path[e@.path.len() - 1]);
        }
        if ext.as_str().unicode_len() == 0 {
            return Ok(());
        }
        let parent = e.path.subpath(1, elen - 1);
        proof {
            assert(e@.path.drop_first().drop_last() =~= e.path@.subrange(1, elen - 1));
        }
        if !parent.eq_path(cursec) {
            *cursec_id = resolve_section(sections, &parent, *cursec_id);
            *cursec = parent.dup();
        }
        let is_md = str_eq(ext.as_str(), "md");
        let is_toml = str_eq(ext.as_str(), "toml");
        if !is_md && !is_toml {
            return Err(err_path_suffix(
                ErrorKind::Composition,
                &e.path,
                " is not a valid pagefile.",
            ));
        }
        let mut key = cursec.dup();
        key.push_part(stem.clone());
        let found = find_page(pages, &key);
        match found {
            Some(i) => {
                if is_md {
                    if pages[i].1.has_md {
                        return Err(err_path(ErrorKind::Composition, "Unexpected File: ", &e.path));
                    }
                    pages[i].1.has_md = true;
                    proof {
                        let p = pages_view(old(pages)@)[i as int].1;
                        assert(pages_view(pages@) =~= pages_view(old(pages)@).update(
                            i as int,
                            (key@, SpecPage { has_md: true, ..p }),
                        ));
                    }
                    Ok(())
                } else {
                    if pages[i].1.has_toml {
                        return Err(err_path(ErrorKind::Composition, "Unexpected File: ", &e.path));
                    }
                    let text = match &e.content {
                        Some(t) => t,
                        None => {
                            return Err(err_path(ErrorKind::Io, "Could not read ", &e.path));
                        },
                    };
                    match parse_page_toml(text.as_str()) {
                        Some(cfg) => {
                            pages[i].1.page_toml = cfg;
                            pages[i].1.has_toml = true;
                            proof {
                                let p = pages_view(old(pages)@)[i as int].1;
                                let c = toml_page_config(text@)->0;
                                assert(pages_view(pages@) =~= pages_view(old(pages)@).update(
                                    i as int,
                                    (
                                        key@,
                                        SpecPage {
                                            theme: c.0,
                                            template: c.1,
                                            has_toml: true,
                                            ..p
                                        },
                                    ),
                                ));
                            }
                            Ok(())
                        },
                        None => {
                            return Err(err_path(ErrorKind::Toml, "Could not decode ", &e.path));
                        },
                    }
                }
            },
            None => {
                if is_md {
                    let page = Page {
                        name: stem,
                        section_id: *cursec_id,
                        page_toml: PageToml::empty(),
                        has_toml: false,
                        has_md: true,
                    };
                    pages.push((key, page));
                    proof {
                        assert(pages_view(pages@) =~= pages_view(
                            pages@.take(pages@.len() - 1),
                        ).push(pages_view(pages@).last()));
                        assert(pages_view(pages@.take(pages@.len() - 1)) =~= pages_view(
                            old(pages)@,
                        ));
                    }
                    Ok(())
                } else {
                    let text = match &e.content {
                        Some(t) => t,
                        None => {
                            return Err(err_path(ErrorKind::Io, "Could not read ", &e.path));
                        },
                    };
                    match parse_page_toml(text.as_str()) {
                        Some(cfg) => {
                            let page = Page {
                                name: stem,
                                section_id: *cursec_id,
                                page_toml: cfg,
                                has_toml: true,
                                has_md: false,
                            };
                            pages.push((key, page));
                            proof {
                                assert(pages_view(pages@) =~= pages_view(
                                    pages@.take(pages@.len() - 1),
                                ).push(pages_view(pages@).last()));
                                assert(pages_view(pages@.take(pages@.len() - 1)) =~= pages_view(
                                    old(pages)@,
                                ));
                            }
                            Ok(())
                        },
                        None => {
                            return Err(err_path(ErrorKind::Toml, "Could not decode ", &e.path));
                        },
                    }
                }
            },
        }
    }
}

/// Packs the loop's locals into the fold's state.
pub open spec fn mk_state(
    cursec: Seq<Seq<char>>,
    cursec_id: int,
    has_site: bool,
    has_static: bool,
    has_themes: bool,
    sections: Seq<Seq<Seq<char>>>,
    pages: Seq<(Seq<Seq<char>>, SpecPage)>,
) -> ComposeState {
    ComposeState { cursec, cursec_id, has_site, has_static, has_themes, sections, pages }
}

/// Checks that the content root was seen.
fn quilt_assert_site(has_site: bool) -> (r: Result<(), QuiltError>)
    ensures
        has_site ==> r is Ok,
        !has_site ==> (r matches Err(e) && e.kind == ErrorKind::Composition && e.message@
            == "/site directory not found"@),
{
    crate::quilt_assert(has_site, "/site directory not found")
}

} // verus!
