//! The manifest-tracked build plan: which directories to create, which pages
//! to render and where, which theme assets to merge, the replacement name for
//! an unmanaged output directory, and the manifest to write — in an order
//! whose replay is proved safe.
//!
//! The plan is pure: the front end executes it against the filesystem.

use vstd::prelude::*;
use vstd::string::*;
use crate::compose::{Job, SpecPage, SpecSite};
use crate::manifest::{ManifestEntry, SpecManifestEntry};
use crate::paths::{RelPath, join_rel, is_proper_prefix};
use crate::strutil::{split_ext, split_ext_spec};

verus! {

/// The decimal digit character for `d`.
pub open spec fn digit_char(d: nat) -> char {
    if d == 0 {
        '0'
    } else if d == 1 {
        '1'
    } else if d == 2 {
        '2'
    } else if d == 3 {
        '3'
    } else if d == 4 {
        '4'
    } else if d == 5 {
        '5'
    } else if d == 6 {
        '6'
    } else if d == 7 {
        '7'
    } else if d == 8 {
        '8'
    } else {
        '9'
    }
}

/// The decimal representation of `n`, most significant digit first.
pub open spec fn dec_u64(n: nat) -> Seq<char>
    decreases n,
{
    if n < 10 {
        seq![digit_char(n)]
    } else {
        dec_u64(n / 10).push(digit_char(n % 10))
    }
}

/// The decimal representation of a signed value.
pub open spec fn dec_i64(v: int) -> Seq<char> {
    if v < 0 {
        seq!['-'] + dec_u64((-v) as nat)
    } else {
        dec_u64(v as nat)
    }
}

/// One decimal digit as text.
fn digit_str(d: u64) -> (r: &'static str)
    requires
        d < 10,
    ensures
        r@ == seq![digit_char(d as nat)],
{
    proof {
        reveal_strlit("0");
        reveal_strlit("1");
        reveal_strlit("2");
        reveal_strlit("3");
        reveal_strlit("4");
        reveal_strlit("5");
        reveal_strlit("6");
        reveal_strlit("7");
        reveal_strlit("8");
        reveal_strlit("9");
    }
    let r = match d {
        0 => "0",
        1 => "1",
        2 => "2",
        3 => "3",
        4 => "4",
        5 => "5",
        6 => "6",
        7 => "7",
        8 => "8",
        _ => "9",
    };
    proof {
        assert(r@ =~= seq![digit_char(d as nat)]);
    }
    r
}

/// Writes `n` in decimal.
pub fn u64_to_dec(n: u64) -> (r: String)
    ensures
        r@ == dec_u64(n as nat),
    decreases n,
{
    if n < 10 {
        String::from_str(digit_str(n))
    } else {
        let mut s = u64_to_dec(n / 10);
        s.append(digit_str(n % 10));
        proof {
            assert(s@ =~= dec_u64((n / 10) as nat).push(digit_char((n % 10) as nat)));
        }
        s
    }
}

/// Writes a signed value in decimal.
pub fn i64_to_dec(n: i64) -> (r: String)
    ensures
        r@ == dec_i64(n as int),
{
    if n >= 0 {
        u64_to_dec(n as u64)
    } else {
        let mag: u64 = (-(n as i128)) as u64;
        let mut s = String::from_str("-");
        s.append(u64_to_dec(mag).as_str());
        proof {
            reveal_strlit("-");
            assert(s@ =~= seq!['-'] + dec_u64(mag as nat));
        }
        s
    }
}

/// Relies on `time::OffsetDateTime::now_utc` and `unix_timestamp`: the current
/// time in whole seconds. Nothing is promised of the value.
#[verifier::external_body]
fn now_unix_seconds() -> (r: i64) {
    time::OffsetDateTime::now_utc().unix_timestamp()
}

/// The sibling name an unmanaged output directory is renamed to, for a given
/// timestamp.
pub fn stale_build_name_at(prefix: &str, ts: i64) -> (r: String)
    ensures
        r@ == prefix@ + "-old-"@ + dec_i64(ts as int),
{
    let mut s = String::from_str(prefix);
    s.append("-old-");
    s.append(i64_to_dec(ts).as_str());
    s
}

/// The sibling name an unmanaged output directory is renamed to, stamped with
/// the time of the call.
pub fn stale_build_name(prefix: &str) -> (r: String)
    ensures
        exists|ts: int| r@ == prefix@ + "-old-"@ + dec_i64(ts),
{
    let ts = now_unix_seconds();
    let r = stale_build_name_at(prefix, ts);
    proof {
        assert(r@ == prefix@ + "-old-"@ + dec_i64(ts as int));
    }
    r
}

/// One page to render: where its markdown lies, where its HTML goes, the
/// theme and template it requests, and the template file to look for.
#[derive(Debug)]
pub struct PageJob {
    pub out_path: RelPath,
    pub md_path: RelPath,
    pub name: String,
    pub pair: Option<(String, String)>,
    pub candidate: Option<RelPath>,
}

/// The mathematical model of a page job.
#[verifier::ext_equal]
pub struct SpecPageJob {
    pub out_path: Seq<Seq<char>>,
    pub md_path: Seq<Seq<char>>,
    pub name: Seq<char>,
    pub pair: Option<(Seq<char>, Seq<char>)>,
    pub candidate: Option<Seq<Seq<char>>>,
}

impl View for PageJob {
    type V = SpecPageJob;

    open spec fn view(&self) -> SpecPageJob {
        SpecPageJob {
            out_path: self.out_path@,
            md_path: self.md_path@,
            name: self.name@,
            pair: match self.pair {
                Some((t, p)) => Some((t@, p@)),
                None => None,
            },
            candidate: match self.candidate {
                Some(c) => Some(c@),
                None => None,
            },
        }
    }
}

/// The model of a job list.
pub open spec fn jobs_view(v: Seq<PageJob>) -> Seq<SpecPageJob> {
    Seq::new(v.len(), |i: int| v[i]@)
}

/// The page's output path: its key with `.html` appended to the stem.
pub open spec fn out_of_key(key: Seq<Seq<char>>) -> Seq<Seq<char>> {
    key.drop_last().push(key.last() + ".html"@)
}

/// The page's content file: under the content root, its key with `.md`
/// appended to the stem.
pub open spec fn md_of_key(key: Seq<Seq<char>>) -> Seq<Seq<char>> {
    seq!["site"@] + key.drop_last().push(key.last() + ".md"@)
}

/// The job for one page with content.
pub open spec fn job_of(site: SpecSite, key: Seq<Seq<char>>, p: SpecPage) -> SpecPageJob {
    SpecPageJob {
        out_path: out_of_key(key),
        md_path: md_of_key(key),
        name: p.name,
        pair: match (p.theme, p.template) {
            (Some(th), Some(tp)) => Some((th, tp)),
            _ => None,
        },
        candidate: if site.themes_dir is Some && p.theme is Some && p.template is Some {
            Some(seq!["themes"@, p.theme->0, split_ext_spec(p.template->0).0 + ".html"@])
        } else {
            None
        },
    }
}

/// The jobs of a site: one per page with content, in page order.
pub open spec fn jobs_spec(site: SpecSite) -> Seq<SpecPageJob> {
    site.pages.filter(|kp: (Seq<Seq<char>>, SpecPage)| kp.1.has_md).map_values(
        |kp: (Seq<Seq<char>>, SpecPage)| job_of(site, kp.0, kp.1),
    )
}

/// The pages skipped for want of content: their names and keys, in page
/// order.
pub open spec fn skipped_spec(site: SpecSite) -> Seq<(Seq<char>, Seq<Seq<char>>)> {
    site.pages.filter(|kp: (Seq<Seq<char>>, SpecPage)| !kp.1.has_md).map_values(
        |kp: (Seq<Seq<char>>, SpecPage)| (kp.1.name, kp.0),
    )
}

/// The sections other than the root section.
pub open spec fn nonroot_sections(secs: Seq<Seq<Seq<char>>>) -> Seq<Seq<Seq<char>>> {
    secs.filter(|s: Seq<Seq<char>>| s.len() > 0)
}

/// The given paths as plain records, last path first.
pub open spec fn rev_plain_lines(paths: Seq<Seq<Seq<char>>>) -> Seq<SpecManifestEntry> {
    Seq::new(paths.len(), |i: int| SpecManifestEntry::Plain(join_rel(paths[paths.len() - 1 - i])))
}

/// The manifest for a build that created the given section directories and
/// page files: the recursive static record first, then the page files newest
/// first, then the section directories deepest first.
pub open spec fn manifest_list(dirs: Seq<Seq<Seq<char>>>, outs: Seq<Seq<Seq<char>>>) -> Seq<
    SpecManifestEntry,
> {
    seq![SpecManifestEntry::Recursive("static"@)] + rev_plain_lines(outs) + rev_plain_lines(dirs)
}

/// The output paths of a job list.
pub open spec fn outs_of(jobs: Seq<SpecPageJob>) -> Seq<Seq<Seq<char>>> {
    Seq::new(jobs.len(), |i: int| jobs[i].out_path)
}

/// Position of section directory `i`'s record in the manifest.
pub open spec fn dir_pos(dirs: Seq<Seq<Seq<char>>>, outs: Seq<Seq<Seq<char>>>, i: int) -> int {
    1 + outs.len() + (dirs.len() - 1 - i)
}

/// Position of page file `j`'s record in the manifest.
pub open spec fn out_pos(outs: Seq<Seq<Seq<char>>>, j: int) -> int {
    1 + (outs.len() - 1 - j)
}

/// Law: replaying the manifest top to bottom is safe. Every page file's
/// record stands strictly before every section directory's record, and a
/// subsection's record stands strictly before its ancestor's, provided the
/// directories were discovered parents-first. So when a directory's
/// non-recursive deletion comes, everything the build put beneath it is
/// already gone, and `remove_dir` never meets a non-empty directory.
pub proof fn lemma_deletion_order_safe(
    dirs: Seq<Seq<Seq<char>>>,
    outs: Seq<Seq<Seq<char>>>,
    i: int,
    j: int,
)
    requires
        forall|a: int, b: int|
            0 <= a < dirs.len() && 0 <= b < dirs.len() && is_proper_prefix(
                #[trigger] dirs[a],
                #[trigger] dirs[b],
            ) ==> a < b,
        0 <= i < dirs.len(),
    ensures
        manifest_list(dirs, outs)[dir_pos(dirs, outs, i)] == SpecManifestEntry::Plain(
            join_rel(dirs[i]),
        ),
        1 <= dir_pos(dirs, outs, i) < manifest_list(dirs, outs).len(),
        0 <= j < outs.len() ==> manifest_list(dirs, outs)[out_pos(outs, j)]
            == SpecManifestEntry::Plain(join_rel(outs[j])) && out_pos(outs, j) < dir_pos(
            dirs,
            outs,
            i,
        ),
        0 <= j < dirs.len() && is_proper_prefix(dirs[i], dirs[j]) ==> dir_pos(dirs, outs, j)
            < dir_pos(dirs, outs, i),
{
    let lst = manifest_list(dirs, outs);
    assert(lst[dir_pos(dirs, outs, i)] == rev_plain_lines(dirs)[dirs.len() - 1 - i]);
    if 0 <= j < outs.len() {
        assert(lst[out_pos(outs, j)] == rev_plain_lines(outs)[outs.len() - 1 - j]);
    }
    if 0 <= j < dirs.len() && is_proper_prefix(dirs[i], dirs[j]) {
        assert(i < j);
    }
}

/// The paths a theme pair's assets come from and go to: the theme's
/// directory, its static subdirectory, and the template's own asset
/// directory, with their destinations under the staged static tree.
#[derive(Debug)]
pub struct ThemeAssets {
    pub theme_dir: RelPath,
    pub theme_static: RelPath,
    pub template_dir: RelPath,
    pub dst_theme: RelPath,
    pub dst_template: RelPath,
}

/// Where a referenced theme pair's assets lie and belong.
pub fn theme_asset_paths(theme: &str, template: &str) -> (r: ThemeAssets)
    ensures
        r.theme_dir@ == seq!["themes"@, theme@],
        r.theme_static@ == seq!["themes"@, theme@, "static"@],
        r.template_dir@ == seq!["themes"@, theme@, template@],
        r.dst_theme@ == seq!["themes"@, theme@],
        r.dst_template@ == seq!["themes"@, theme@, template@],
{
    let mut theme_dir = RelPath::empty();
    theme_dir.push_part(String::from_str("themes"));
    theme_dir.push_part(String::from_str(theme));
    let mut theme_static = theme_dir.dup();
    theme_static.push_part(String::from_str("static"));
    let mut template_dir = theme_dir.dup();
    template_dir.push_part(String::from_str(template));
    let dst_theme = theme_dir.dup();
    let dst_template = template_dir.dup();
    let r = ThemeAssets { theme_dir, theme_static, template_dir, dst_theme, dst_template };
    proof {
        assert(r.theme_dir@ =~= seq!["themes"@, theme@]);
        assert(r.theme_static@ =~= seq!["themes"@, theme@, "static"@]);
        assert(r.template_dir@ =~= seq!["themes"@, theme@, template@]);
    }
    r
}

/// The distinct theme pairs of the successfully resolved jobs, in first-use
/// order.
pub open spec fn pairs_spec(jobs: Seq<SpecPageJob>, resolved: Seq<bool>) -> Seq<
    (Seq<char>, Seq<char>),
>
    decreases jobs.len(),
{
    if jobs.len() == 0 {
        Seq::<(Seq<char>, Seq<char>)>::empty()
    } else {
        let rest = pairs_spec(jobs.drop_last(), resolved.drop_last());
        if resolved[jobs.len() - 1] && jobs.last().pair is Some && !rest.contains(
            jobs.last().pair->0,
        ) {
            rest.push(jobs.last().pair->0)
        } else {
            rest
        }
    }
}

/// The model of a pair list.
pub open spec fn pairs_view(v: Seq<(String, String)>) -> Seq<(Seq<char>, Seq<char>)> {
    Seq::new(v.len(), |i: int| (v[i].0@, v[i].1@))
}

/// True iff the list already holds the pair.
fn pairs_contain(pairs: &Vec<(String, String)>, theme: &str, template: &str) -> (r: bool)
    ensures
        r == pairs_view(pairs@).contains((theme@, template@)),
{
    let mut i: usize = 0;
    while i < pairs.len()
        invariant
            i <= pairs@.len(),
            forall|k: int| 0 <= k < i ==> pairs_view(pairs@)[k] != (theme@, template@),
        decreases pairs@.len() - i,
    {
        if crate::strutil::str_eq(pairs[i].0.as_str(), theme) && crate::strutil::str_eq(
            pairs[i].1.as_str(),
            template,
        ) {
            proof {
                assert(pairs_view(pairs@)[i as int] == (theme@, template@));
            }
            return true;
        }
        proof {
            assert(pairs_view(pairs@)[i as int] != (theme@, template@));
        }
        i += 1;
    }
    proof {
        assert(!pairs_view(pairs@).contains((theme@, template@)));
    }
    false
}

/// The distinct (theme, template) pairs among the jobs whose template
/// resolved, in first-use order: the themes whose assets the build merges.
pub fn static_pairs(jobs: &Vec<PageJob>, resolved: &Vec<bool>) -> (r: Vec<(String, String)>)
    requires
        jobs@.len() == resolved@.len(),
    ensures
        pairs_view(r@) == pairs_spec(jobs_view(jobs@), resolved@),
{
    let mut out: Vec<(String, String)> = Vec::new();
    let mut i: usize = 0;
    proof {
        assert(jobs_view(jobs@).take(0) =~= Seq::<SpecPageJob>::empty());
        assert(resolved@.take(0) =~= Seq::<bool>::empty());
        assert(pairs_view(out@) =~= pairs_spec(jobs_view(jobs@).take(0), resolved@.take(0)));
    }
    while i < jobs.len()
        invariant
            jobs@.len() == resolved@.len(),
            i <= jobs@.len(),
            pairs_view(out@) == pairs_spec(jobs_view(jobs@).take(i as int), resolved@.take(i as int)),
        decreases jobs@.len() - i,
    {
        let ghost jv = jobs_view(jobs@);
        proof {
            assert(jv.take(i + 1).drop_last() =~= jv.take(i as int));
            assert(resolved@.take(i + 1).drop_last() =~= resolved@.take(i as int));
            assert(jv.take(i + 1).last() == jv[i as int]);
            assert(resolved@.take(i + 1)[jv.take(i + 1).len() - 1] == resolved@[i as int]);
        }
        if resolved[i] {
            match &jobs[i].pair {
                Some((theme, template)) => {
                    if !pairs_contain(&out, theme.as_str(), template.as_str()) {
                        let ghost prev = pairs_view(out@);
                        out.push((theme.clone(), template.clone()));
                        proof {
                            assert(pairs_view(out@) =~= prev.push((theme@, template@)));
                            assert(jv[i as int].pair->0 == (theme@, template@));
                        }
                    }
                },
                None => (),
            }
        }
        i += 1;
    }
    proof {
        assert(jobs_view(jobs@).take(jobs@.len() as int) =~= jobs_view(jobs@));
        assert(resolved@.take(resolved@.len() as int) =~= resolved@);
    }
    out
}

/// The model of a skipped-page list.
pub open spec fn skipped_view(v: Seq<(String, RelPath)>) -> Seq<(Seq<char>, Seq<Seq<char>>)> {
    Seq::new(v.len(), |i: int| (v[i].0@, v[i].1@))
}

/// The key's components with `ext` appended to its last one.
fn with_last_ext(key: &RelPath, ext: &str) -> (r: RelPath)
    requires
        key@.len() > 0,
    ensures
        r@ == key@.drop_last().push(key@.last() + ext@),
{
    let klen = key.len();
    let mut r = key.subpath(0, klen - 1);
    let mut last = key.part(klen - 1).clone();
    last.append(ext);
    r.push_part(last);
    proof {
        assert(key@.subrange(0, key@.len() - 1) =~= key@.drop_last());
    }
    r
}

/// The page's content file path for its key.
fn md_path_of(key: &RelPath) -> (r: RelPath)
    requires
        key@.len() > 0,
    ensures
        r@ == md_of_key(key@),
{
    let klen = key.len();
    let mut r = RelPath::empty();
    r.push_part(String::from_str("site"));
    proof {
        assert(r@ =~= seq!["site"@] + key@.take(0));
    }
    let mut j: usize = 0;
    while j < klen - 1
        invariant
            klen == key@.len(),
            klen >= 1,
            j <= klen - 1,
            r@ == seq!["site"@] + key@.take(j as int),
        decreases klen - j,
    {
        r.push_part(key.part(j).clone());
        proof {
            assert(r@ =~= seq!["site"@] + key@.take(j + 1));
        }
        j += 1;
    }
    let mut last = key.part(klen - 1).clone();
    last.append(".md");
    r.push_part(last);
    proof {
        assert(key@.take(key@.len() - 1) =~= key@.drop_last());
        assert(r@ =~= seq!["site"@] + key@.drop_last().push(key@.last() + ".md"@));
    }
    r
}

/// Everything one build performs, in order: the directories to create, the
/// pages to render, the pages skipped for want of content, and the manifest
/// recording what the build makes.
#[derive(Debug)]
pub struct BuildPlan {
    pub section_dirs: Vec<RelPath>,
    pub jobs: Vec<PageJob>,
    pub skipped: Vec<(String, RelPath)>,
    pub manifest: Vec<ManifestEntry>,
}

impl<'args> Job<'args> {
    /// Plans the build of the composed site: one output directory per
    /// section, one render job per page with content, a diagnostic record per
    /// page without, and the manifest of everything the build will create, in
    /// an order whose replay [`lemma_deletion_order_safe`] proves safe.
    pub fn build_plan(&self) -> (r: BuildPlan)
        requires
            forall|i: int|
                0 <= i < self.site@.pages.len() ==> (#[trigger] self.site@.pages[i]).0.len() > 0,
        ensures
            crate::compose::paths_view(r.section_dirs@) == self.site@.sections,
            jobs_view(r.jobs@) == jobs_spec(self.site@),
            skipped_view(r.skipped@) == skipped_spec(self.site@),
            crate::manifest::entries_view(r.manifest@) == manifest_list(
                nonroot_sections(self.site@.sections),
                outs_of(jobs_spec(self.site@)),
            ),
    {
        let ghost sv = self.site@;
        let ghost has_md_pred = |kp: (Seq<Seq<char>>, SpecPage)| kp.1.has_md;
        let ghost no_md_pred = |kp: (Seq<Seq<char>>, SpecPage)| !kp.1.has_md;
        let ghost job_fn = |kp: (Seq<Seq<char>>, SpecPage)| job_of(sv, kp.0, kp.1);
        let ghost skip_fn = |kp: (Seq<Seq<char>>, SpecPage)| (kp.1.name, kp.0);

        // the output directory of every section, in section order
        let mut section_dirs: Vec<RelPath> = Vec::new();
        let mut i: usize = 0;
        while i < self.site.sections.len()
            invariant
                i <= self.site.sections@.len(),
                sv == self.site@,
                crate::compose::paths_view(section_dirs@) =~= sv.sections.take(i as int),
            decreases self.site.sections@.len() - i,
        {
            let ghost prev = crate::compose::paths_view(section_dirs@);
            let d = self.site.sections[i].dup();
            let ghost dv = d@;
            section_dirs.push(d);
            proof {
                assert(prev.len() == i as int);
                assert(section_dirs@.len() == i + 1);
                assert(sv.sections[i as int] == self.site.sections@[i as int]@);
                assert(dv == sv.sections[i as int]);
                assert forall|k: int|
                    0 <= k < section_dirs@.len() implies crate::compose::paths_view(
                    section_dirs@,
                )[k] == sv.sections.take(i + 1)[k] by {
                    if k < i {
                        assert(section_dirs@[k] == section_dirs@.drop_last()[k]);
                        assert(crate::compose::paths_view(section_dirs@)[k] == prev[k]);
                    } else {
                        assert(section_dirs@[k]@ == dv);
                    }
                }
                assert(crate::compose::paths_view(section_dirs@) =~= sv.sections.take(i + 1));
            }
            i += 1;
        }
        proof {
            assert(sv.sections.take(sv.sections.len() as int) =~= sv.sections);
        }

        // one render job per page with content, in page order
        let mut jobs: Vec<PageJob> = Vec::new();
        let mut skipped: Vec<(String, RelPath)> = Vec::new();
        let mut p: usize = 0;
        proof {
            reveal(Seq::filter);
            assert(sv.pages.take(0) =~= Seq::<(Seq<Seq<char>>, SpecPage)>::empty());
            assert(jobs_view(jobs@) =~= sv.pages.take(0).filter(has_md_pred).map_values(job_fn));
            assert(skipped_view(skipped@) =~= sv.pages.take(0).filter(no_md_pred).map_values(
                skip_fn,
            ));
        }
        while p < self.site.pages.len()
            invariant
                p <= self.site.pages@.len(),
                sv == self.site@,
                has_md_pred == (|kp: (Seq<Seq<char>>, SpecPage)| kp.1.has_md),
                no_md_pred == (|kp: (Seq<Seq<char>>, SpecPage)| !kp.1.has_md),
                job_fn == (|kp: (Seq<Seq<char>>, SpecPage)| job_of(sv, kp.0, kp.1)),
                skip_fn == (|kp: (Seq<Seq<char>>, SpecPage)| (kp.1.name, kp.0)),
                forall|k: int| 0 <= k < sv.pages.len() ==> (#[trigger] sv.pages[k]).0.len() > 0,
                jobs_view(jobs@) == sv.pages.take(p as int).filter(has_md_pred).map_values(job_fn),
                skipped_view(skipped@) == sv.pages.take(p as int).filter(no_md_pred).map_values(
                    skip_fn,
                ),
            decreases self.site.pages@.len() - p,
        {
            proof {
                reveal(Seq::filter);
                assert(sv.pages.take(p + 1).drop_last() =~= sv.pages.take(p as int));
                assert(sv.pages.take(p + 1).last() == sv.pages[p as int]);
            }
            let key = &self.site.pages[p].0;
            let page = &self.site.pages[p].1;
            proof {
                assert((key@, page@) == sv.pages[p as int]);
            }
            if page.has_md {
                let out_path = with_last_ext(key, ".html");
                let md_path = md_path_of(key);
                let name = page.name.clone();
                let pair: Option<(String, String)> = match (
                    &page.page_toml.theme,
                    &page.page_toml.template,
                ) {
                    (Some(t), Some(tp)) => Some((t.clone(), tp.clone())),
                    _ => None,
                };
                let candidate: Option<RelPath> = match (&self.site.themes_dir, &pair) {
                    (Some(_), Some((theme, template))) => {
                        let (tstem, _text) = split_ext(template.as_str());
                        let mut last = tstem;
                        last.append(".html");
                        let mut c = RelPath::empty();
                        c.push_part(String::from_str("themes"));
                        c.push_part(theme.clone());
                        c.push_part(last);
                        proof {
                            assert(c@ =~= seq![
                                "themes"@,
                                page@.theme->0,
                                split_ext_spec(page@.template->0).0 + ".html"@,
                            ]);
                        }
                        Some(c)
                    },
                    _ => None,
                };
                let job = PageJob { out_path, md_path, name, pair, candidate };
                proof {
                    assert(job@ =~= job_of(sv, key@, page@));
                }
                let ghost prev = jobs_view(jobs@);
                jobs.push(job);
                proof {
                    assert(jobs_view(jobs@) =~= prev.push(job_of(sv, key@, page@)));
                    assert(sv.pages.take(p + 1).filter(has_md_pred) == sv.pages.take(
                        p as int,
                    ).filter(has_md_pred).push(sv.pages[p as int]));
                    assert(jobs_view(jobs@) =~= sv.pages.take(p + 1).filter(
                        has_md_pred,
                    ).map_values(job_fn));
                    assert(sv.pages.take(p + 1).filter(no_md_pred) == sv.pages.take(
                        p as int,
                    ).filter(no_md_pred));
                }
            } else {
                let ghost prev = skipped_view(skipped@);
                skipped.push((page.name.clone(), key.dup()));
                proof {
                    assert(skipped_view(skipped@) =~= prev.push((page@.name, key@)));
                    assert(sv.pages.take(p + 1).filter(no_md_pred) == sv.pages.take(
                        p as int,
                    ).filter(no_md_pred).push(sv.pages[p as int]));
                    assert(skipped_view(skipped@) =~= sv.pages.take(p + 1).filter(
                        no_md_pred,
                    ).map_values(skip_fn));
                    assert(sv.pages.take(p + 1).filter(has_md_pred) == sv.pages.take(
                        p as int,
                    ).filter(has_md_pred));
                }
            }
            p += 1;
        }
        proof {
            assert(sv.pages.take(sv.pages.len() as int) =~= sv.pages);
            assert(jobs_view(jobs@) =~= jobs_spec(sv));
            assert(skipped_view(skipped@) =~= skipped_spec(sv));
        }

        // the manifest: static first, then page files newest first, then
        // section directories deepest first
        let ghost outs = outs_of(jobs_spec(sv));
        proof {
            assert(outs.len() == jobs@.len());
        }
        let mut secs_nr: Vec<RelPath> = Vec::new();
        let mut q: usize = 0;
        proof {
            reveal(Seq::filter);
            assert(sv.sections.take(0) =~= Seq::<Seq<Seq<char>>>::empty());
            assert(crate::compose::paths_view(secs_nr@) =~= nonroot_sections(sv.sections.take(0)));
        }
        while q < self.site.sections.len()
            invariant
                q <= self.site.sections@.len(),
                sv == self.site@,
                crate::compose::paths_view(secs_nr@) == nonroot_sections(sv.sections.take(q as int)),
            decreases self.site.sections@.len() - q,
        {
            proof {
                reveal(Seq::filter);
                assert(sv.sections.take(q + 1).drop_last() =~= sv.sections.take(q as int));
                assert(sv.sections.take(q + 1).last() == sv.sections[q as int]);
            }
            if self.site.sections[q].len() > 0 {
                let ghost prev = crate::compose::paths_view(secs_nr@);
                secs_nr.push(self.site.sections[q].dup());
                proof {
                    assert(crate::compose::paths_view(secs_nr@) =~= prev.push(
                        sv.sections[q as int],
                    ));
                    assert(crate::compose::paths_view(secs_nr@) =~= nonroot_sections(
                        sv.sections.take(q + 1),
                    ));
                }
            }
            q += 1;
        }
        proof {
            assert(sv.sections.take(sv.sections.len() as int) =~= sv.sections);
        }
        let ghost dirs = nonroot_sections(sv.sections);

        let mut manifest: Vec<ManifestEntry> = Vec::new();
        manifest.push(ManifestEntry::Recursive(String::from_str("static")));
        proof {
            assert(crate::manifest::entries_view(manifest@) =~= seq![
                SpecManifestEntry::Recursive("static"@),
            ] + rev_plain_lines(outs).take(0));
        }
        let mut k: usize = jobs.len();
        while k > 0
            invariant
                sv == self.site@,
                outs == outs_of(jobs_spec(sv)),
                jobs_view(jobs@) == jobs_spec(sv),
                k <= jobs@.len(),
                outs.len() == jobs@.len(),
                crate::manifest::entries_view(manifest@) =~= seq![
                    SpecManifestEntry::Recursive("static"@),
                ] + rev_plain_lines(outs).take(jobs@.len() - k),
            decreases k,
        {
            k -= 1;
            let line = jobs[k].out_path.joined();
            let ghost prev = crate::manifest::entries_view(manifest@);
            manifest.push(ManifestEntry::Plain(line));
            proof {
                assert(jobs_view(jobs@)[k as int].out_path == outs[k as int]);
                assert(rev_plain_lines(outs)[jobs@.len() - k - 1] == SpecManifestEntry::Plain(
                    join_rel(outs[k as int]),
                ));
                assert(crate::manifest::entries_view(manifest@) =~= prev.push(
                    SpecManifestEntry::Plain(join_rel(outs[k as int])),
                ));
                assert(crate::manifest::entries_view(manifest@) =~= seq![
                    SpecManifestEntry::Recursive("static"@),
                ] + rev_plain_lines(outs).take(jobs@.len() - k));
            }
        }
        proof {
            assert(rev_plain_lines(outs).take(jobs@.len() as int) =~= rev_plain_lines(outs));
        }
        let mut m: usize = secs_nr.len();
        while m > 0
            invariant
                sv == self.site@,
                outs == outs_of(jobs_spec(sv)),
                dirs == nonroot_sections(sv.sections),
                crate::compose::paths_view(secs_nr@) == dirs,
                m <= secs_nr@.len(),
                dirs.len() == secs_nr@.len(),
                crate::manifest::entries_view(manifest@) =~= seq![
                    SpecManifestEntry::Recursive("static"@),
                ] + rev_plain_lines(outs) + rev_plain_lines(dirs).take(secs_nr@.len() - m),
            decreases m,
        {
            m -= 1;
            let line = secs_nr[m].joined();
            let ghost prev = crate::manifest::entries_view(manifest@);
            manifest.push(ManifestEntry::Plain(line));
            proof {
                assert(crate::compose::paths_view(secs_nr@)[m as int] == dirs[m as int]);
                assert(rev_plain_lines(dirs)[secs_nr@.len() - m - 1] == SpecManifestEntry::Plain(
                    join_rel(dirs[m as int]),
                ));
                assert(crate::manifest::entries_view(manifest@) =~= prev.push(
                    SpecManifestEntry::Plain(join_rel(dirs[m as int])),
                ));
                assert(crate::manifest::entries_view(manifest@) =~= seq![
                    SpecManifestEntry::Recursive("static"@),
                ] + rev_plain_lines(outs) + rev_plain_lines(dirs).take(secs_nr@.len() - m));
            }
        }
        proof {
            assert(rev_plain_lines(dirs).take(dirs.len() as int) =~= rev_plain_lines(dirs));
            assert(crate::manifest::entries_view(manifest@) =~= manifest_list(dirs, outs));
        }

        BuildPlan { section_dirs, jobs, skipped, manifest }
    }
}

} // verus!
