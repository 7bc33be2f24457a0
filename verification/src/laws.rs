//! Laws of the composition and the build plan: every content file renders to
//! exactly one output file, and a page never accepts two files of one kind.

use vstd::prelude::*;
use crate::compose::{
    compose_fold, compose_step, compose_step_file, find_page_from, ComposeErr, ComposeState,
    SpecEntry, SpecSite, site_of_state,
};
use crate::plan::{jobs_spec, out_of_key};
use crate::strutil::split_ext_spec;

verus! {

/// No two pages share a key.
pub open spec fn keys_unique(pages: Seq<(Seq<Seq<char>>, crate::compose::SpecPage)>) -> bool {
    forall|a: int, b: int|
        0 <= a < b < pages.len() ==> (#[trigger] pages[a]).0 != (#[trigger] pages[b]).0
}

/// Every page key has at least its stem.
pub open spec fn keys_nonempty(pages: Seq<(Seq<Seq<char>>, crate::compose::SpecPage)>) -> bool {
    forall|a: int| 0 <= a < pages.len() ==> (#[trigger] pages[a]).0.len() > 0
}

/// The page key a content-root file entry maps to: its section joined with
/// its stem.
pub open spec fn page_key_of(path: Seq<Seq<char>>) -> Seq<Seq<char>> {
    path.drop_first().drop_last().push(split_ext_spec(path.drop_first().last()).0)
}

/// A markdown content file under the content root.
pub open spec fn is_md_entry(e: SpecEntry) -> bool {
    &&& !e.is_dir
    &&& e.path.len() >= 2
    &&& e.path[0] == "site"@
    &&& split_ext_spec(e.path.drop_first().last()).1 == "md"@
}

/// A configuration file under the content root.
pub open spec fn is_toml_entry(e: SpecEntry) -> bool {
    &&& !e.is_dir
    &&& e.path.len() >= 2
    &&& e.path[0] == "site"@
    &&& split_ext_spec(e.path.drop_first().last()).1 == "toml"@
}

/// What a found index means, and what not finding one means.
proof fn lemma_find_page_props(
    pages: Seq<(Seq<Seq<char>>, crate::compose::SpecPage)>,
    key: Seq<Seq<char>>,
    i: int,
)
    requires
        0 <= i,
    ensures
        match find_page_from(pages, key, i) {
            Some(f) => i <= f < pages.len() && pages[f].0 == key,
            None => forall|k: int| i <= k < pages.len() ==> (#[trigger] pages[k]).0 != key,
        },
    decreases pages.len() - i,
{
    if i < pages.len() && pages[i].0 != key {
        lemma_find_page_props(pages, key, i + 1);
    }
}

/// Every state a successful fold reaches has pages with unique, non-empty
/// keys.
pub proof fn lemma_fold_wf(entries: Seq<SpecEntry>)
    requires
        compose_fold(entries) is Ok,
    ensures
        keys_unique(compose_fold(entries)->Ok_0.pages),
        keys_nonempty(compose_fold(entries)->Ok_0.pages),
    decreases entries.len(),
{
    reveal_strlit("md");
    reveal_strlit("toml");
    if entries.len() > 0 {
        lemma_fold_wf(entries.drop_last());
        let st = compose_fold(entries.drop_last())->Ok_0;
        let e = entries.last();
        let st2 = compose_fold(entries)->Ok_0;
        assert(compose_step(st, e) == Ok::<ComposeState, ComposeErr>(st2));
        if e.path.len() >= 2 && e.path[0] == "site"@ && !e.is_dir {
            let rel = e.path.drop_first();
            let name = rel.last();
            let parent = rel.drop_last();
            let ext = split_ext_spec(name).1;
            if ext.len() != 0 && (ext == "md"@ || ext == "toml"@) {
                let key = parent.push(split_ext_spec(name).0);
                lemma_find_page_props(st.pages, key, 0);
                match find_page_from(st.pages, key, 0) {
                    Some(f) => {
                        assert(forall|a: int|
                            0 <= a < st2.pages.len() ==> (#[trigger] st2.pages[a]).0
                                == st.pages[a].0);
                    },
                    None => {
                        assert(st2.pages.drop_last() =~= st.pages);
                        assert(st2.pages.last().0 == key);
                        assert(key.len() > 0);
                    },
                }
            }
        }
    }
}

/// With no configuration files, a successful fold's pages are exactly the
/// markdown files it processed, each with content.
#[verifier::rlimit(50)]
pub proof fn lemma_fold_md_pages(entries: Seq<SpecEntry>)
    requires
        compose_fold(entries) is Ok,
        forall|i: int| 0 <= i < entries.len() ==> !is_toml_entry(#[trigger] entries[i]),
    ensures
        forall|a: int|
            0 <= a < compose_fold(entries)->Ok_0.pages.len() ==> (#[trigger] compose_fold(
                entries,
            )->Ok_0.pages[a]).1.has_md,
        forall|a: int|
            0 <= a < compose_fold(entries)->Ok_0.pages.len() ==> exists|i: int|
                0 <= i < entries.len() && is_md_entry(#[trigger] entries[i]) && (
                #[trigger] compose_fold(entries)->Ok_0.pages[a]).0 == page_key_of(
                    entries[i].path,
                ),
        forall|i: int|
            0 <= i < entries.len() && is_md_entry(#[trigger] entries[i]) ==> exists|a: int|
                0 <= a < compose_fold(entries)->Ok_0.pages.len() && (#[trigger] compose_fold(
                    entries,
                )->Ok_0.pages[a]).0 == page_key_of(entries[i].path),
    decreases entries.len(),
{
    reveal_strlit("md");
    reveal_strlit("toml");
    if entries.len() > 0 {
        let prefix = entries.drop_last();
        assert(forall|i: int| 0 <= i < prefix.len() ==> prefix[i] == entries[i]);
        lemma_fold_md_pages(prefix);
        let st = compose_fold(prefix)->Ok_0;
        let e = entries.last();
        let st2 = compose_fold(entries)->Ok_0;
        assert(compose_step(st, e) == Ok::<ComposeState, ComposeErr>(st2));
        if e.path.len() >= 2 && e.path[0] == "site"@ && !e.is_dir {
            let rel = e.path.drop_first();
            let name = rel.last();
            let parent = rel.drop_last();
            let ext = split_ext_spec(name).1;
            assert(!is_toml_entry(e));
            if ext.len() != 0 {
                if ext == "md"@ {
                    assert(is_md_entry(e));
                    let key = parent.push(split_ext_spec(name).0);
                    assert(page_key_of(e.path) == key);
                    lemma_find_page_props(st.pages, key, 0);
                    match find_page_from(st.pages, key, 0) {
                        Some(f) => {
                            assert(st.pages[f].1.has_md);
                            assert(compose_step_file(st, e.path, e.content) is Err);
                            assert(false);
                        },
                        None => {
                            assert(st2.pages.drop_last() =~= st.pages);
                            assert(st2.pages.last().0 == key && st2.pages.last().1.has_md);
                            assert forall|a: int| 0 <= a < st2.pages.len() implies exists|i: int|
                                0 <= i < entries.len() && is_md_entry(#[trigger] entries[i]) && (
                            #[trigger] st2.pages[a]).0 == page_key_of(entries[i].path) by {
                                if a < st.pages.len() {
                                    let i = choose|i: int|
                                        0 <= i < prefix.len() && is_md_entry(#[trigger] prefix[i])
                                            && st.pages[a].0 == page_key_of(prefix[i].path);
                                    assert(0 <= i < entries.len() && is_md_entry(entries[i])
                                        && st2.pages[a].0 == page_key_of(entries[i].path));
                                } else {
                                    let i = entries.len() - 1;
                                    assert(entries[i] == e);
                                    assert(0 <= i < entries.len() && is_md_entry(entries[i])
                                        && st2.pages[a].0 == page_key_of(entries[i].path));
                                }
                            }
                        },
                    }
                } else if ext == "toml"@ {
                    assert(is_toml_entry(e));
                    assert(false);
                } else {
                    assert(compose_step_file(st, e.path, e.content) is Err);
                    assert(false);
                }
            } else {
                assert(st2 == st);
            }
        } else {
            assert(st2.pages == st.pages);
        }
        assert forall|i: int|
            0 <= i < entries.len() && is_md_entry(#[trigger] entries[i]) implies exists|a: int|
            0 <= a < st2.pages.len() && (#[trigger] st2.pages[a]).0 == page_key_of(
                entries[i].path,
            ) by {
            if i < entries.len() - 1 {
                let a = choose|a: int|
                    0 <= a < st.pages.len() && (#[trigger] st.pages[a]).0 == page_key_of(
                        prefix[i].path,
                    );
                assert(st2.pages[a].0 == st.pages[a].0);
            }
        }
    }
}

/// Appending `.html` to the stem keeps distinct keys distinct.
proof fn lemma_out_key_injective(k1: Seq<Seq<char>>, k2: Seq<Seq<char>>)
    requires
        k1.len() > 0,
        k2.len() > 0,
        out_of_key(k1) == out_of_key(k2),
    ensures
        k1 == k2,
{
    assert(out_of_key(k1).len() == k1.len());
    assert(k1.len() == k2.len());
    let e1 = k1.last() + ".html"@;
    let e2 = k2.last() + ".html"@;
    assert(out_of_key(k1).last() == e1);
    assert(out_of_key(k2).last() == e2);
    assert(e1 == e2);
    assert(e1.len() == k1.last().len() + ".html"@.len());
    assert(k1.last().len() == k2.last().len());
    assert(k1.last() =~= e1.take(k1.last().len() as int));
    assert(k2.last() =~= e2.take(k2.last().len() as int));
    assert(k1 =~= k1.drop_last().push(k1.last()));
    assert(k2 =~= k2.drop_last().push(k2.last()));
    assert(k1.drop_last() =~= out_of_key(k1).drop_last());
    assert(k2.drop_last() =~= out_of_key(k2).drop_last());
}

/// Keeping every element is no filter at all.
proof fn lemma_filter_all_md(pages: Seq<(Seq<Seq<char>>, crate::compose::SpecPage)>)
    requires
        forall|a: int| 0 <= a < pages.len() ==> (#[trigger] pages[a]).1.has_md,
    ensures
        pages.filter(|kp: (Seq<Seq<char>>, crate::compose::SpecPage)| kp.1.has_md) == pages,
    decreases pages.len(),
{
    reveal(Seq::filter);
    if pages.len() > 0 {
        lemma_filter_all_md(pages.drop_last());
        assert(pages.filter(|kp: (Seq<Seq<char>>, crate::compose::SpecPage)| kp.1.has_md)
            =~= pages.drop_last().push(pages.last()));
        assert(pages.drop_last().push(pages.last()) =~= pages);
    }
}

/// Law: over a source tree with a content root and no configuration files, a
/// successful composition plans exactly one output file per markdown content
/// file, at the mirrored relative path with `.html` in place of `.md`, and no
/// others: distinct pages get distinct output paths, every content file's
/// mirrored path is planned, and every planned path mirrors some content
/// file.
pub proof fn lemma_every_content_file_renders_once(
    entries: Seq<SpecEntry>,
    st: ComposeState,
    site: SpecSite,
)
    requires
        compose_fold(entries) == Ok::<ComposeState, ComposeErr>(st),
        site_of_state(st, site),
        forall|i: int| 0 <= i < entries.len() ==> !is_toml_entry(#[trigger] entries[i]),
    ensures
        jobs_spec(site).len() == site.pages.len(),
        forall|i: int|
            0 <= i < entries.len() && is_md_entry(#[trigger] entries[i]) ==> exists|j: int|
                0 <= j < jobs_spec(site).len() && (#[trigger] jobs_spec(site)[j]).out_path
                    == out_of_key(page_key_of(entries[i].path)),
        forall|a: int, b: int|
            0 <= a < b < jobs_spec(site).len() ==> (#[trigger] jobs_spec(site)[a]).out_path != (
            #[trigger] jobs_spec(site)[b]).out_path,
        forall|j: int|
            0 <= j < jobs_spec(site).len() ==> exists|i: int|
                0 <= i < entries.len() && is_md_entry(#[trigger] entries[i]) && (
                #[trigger] jobs_spec(site)[j]).out_path == out_of_key(page_key_of(entries[i].path)),
{
    lemma_fold_wf(entries);
    lemma_fold_md_pages(entries);
    lemma_filter_all_md(st.pages);
    let jobs = jobs_spec(site);
    assert(site.pages == st.pages);
    assert(site.pages.filter(|kp: (Seq<Seq<char>>, crate::compose::SpecPage)| kp.1.has_md)
        == site.pages);
    assert(jobs.len() == site.pages.len());
    assert(forall|a: int|
        0 <= a < jobs.len() ==> (#[trigger] jobs[a]).out_path == out_of_key(site.pages[a].0));
    assert forall|a: int, b: int| 0 <= a < b < jobs.len() implies (#[trigger] jobs[a]).out_path
        != (#[trigger] jobs[b]).out_path by {
        if jobs[a].out_path == jobs[b].out_path {
            lemma_out_key_injective(site.pages[a].0, site.pages[b].0);
        }
    }
    assert forall|i: int|
        0 <= i < entries.len() && is_md_entry(#[trigger] entries[i]) implies exists|j: int|
        0 <= j < jobs.len() && (#[trigger] jobs[j]).out_path == out_of_key(
            page_key_of(entries[i].path),
        ) by {
        let a = choose|a: int|
            0 <= a < st.pages.len() && (#[trigger] st.pages[a]).0 == page_key_of(entries[i].path);
        assert(jobs[a].out_path == out_of_key(page_key_of(entries[i].path)));
    }
    assert forall|j: int| 0 <= j < jobs.len() implies exists|i: int|
        0 <= i < entries.len() && is_md_entry(#[trigger] entries[i]) && (
    #[trigger] jobs[j]).out_path == out_of_key(page_key_of(entries[i].path)) by {
        let i = choose|i: int|
            0 <= i < entries.len() && is_md_entry(#[trigger] entries[i]) && st.pages[j].0
                == page_key_of(entries[i].path);
        assert(jobs[j].out_path == out_of_key(page_key_of(entries[i].path)));
    }
}

/// Law: a second content file for a page that already has content is rejected
/// with a composition error naming the file, whether or not the page also has
/// configuration.
pub proof fn lemma_second_content_file_rejected(st: ComposeState, e: SpecEntry, i: int)
    requires
        is_md_entry(e),
        0 <= i < st.pages.len(),
        st.pages[i].0 == page_key_of(e.path),
        st.pages[i].1.has_md,
        keys_unique(st.pages),
    ensures
        compose_step(st, e) == Err::<ComposeState, ComposeErr>(ComposeErr::UnexpectedFile(e.path)),
{
    reveal_strlit("md");
    let key = page_key_of(e.path);
    lemma_find_page_props(st.pages, key, 0);
    let f = find_page_from(st.pages, key, 0)->0;
    assert(st.pages[f].0 == key);
    if f != i {
        assert(st.pages[f].0 != st.pages[i].0);
        assert(false);
    }
}

/// Law: a second configuration file for a page that already has one is
/// rejected with a composition error naming the file.
pub proof fn lemma_second_config_file_rejected(st: ComposeState, e: SpecEntry, i: int)
    requires
        is_toml_entry(e),
        0 <= i < st.pages.len(),
        st.pages[i].0 == page_key_of(e.path),
        st.pages[i].1.has_toml,
        keys_unique(st.pages),
    ensures
        compose_step(st, e) == Err::<ComposeState, ComposeErr>(ComposeErr::UnexpectedFile(e.path)),
{
    reveal_strlit("toml");
    reveal_strlit("md");
    let key = page_key_of(e.path);
    lemma_find_page_props(st.pages, key, 0);
    let f = find_page_from(st.pages, key, 0)->0;
    assert(st.pages[f].0 == key);
    if f != i {
        assert(st.pages[f].0 != st.pages[i].0);
        assert(false);
    }
    assert(split_ext_spec(e.path.drop_first().last()).1 != "md"@);
}

} // verus!
