use quilt::compose::{Entry, Job};
use quilt::manifest::{clean_action, parse_manifest, render_manifest, CleanAction, ManifestEntry};
use quilt::paths::RelPath;
use quilt::plan::{stale_build_name, stale_build_name_at, static_pairs, theme_asset_paths, u64_to_dec, i64_to_dec};
use quilt::profile::{Config, ConfigBuild};
use quilt::render::{render_page, Template};
use quilt::{false_val, quilt_assert, ErrorKind, QuiltError};

fn rel(parts: &[&str]) -> RelPath {
    RelPath { parts: parts.iter().map(|p| p.to_string()).collect() }
}

fn dir(parts: &[&str]) -> Entry {
    Entry { path: rel(parts), is_dir: true, content: None }
}

fn file(parts: &[&str]) -> Entry {
    Entry { path: rel(parts), is_dir: false, content: None }
}

fn file_with(parts: &[&str], text: &str) -> Entry {
    Entry { path: rel(parts), is_dir: false, content: Some(text.to_string()) }
}

fn joined(p: &RelPath) -> String {
    p.joined()
}

/// The walk of the scenario tree: a content root with `intro.md`, a `guide`
/// section holding `start.md` + `start.toml`, and a themes root.
fn scenario_entries() -> Vec<Entry> {
    vec![
        dir(&["site"]),
        file_with(&["site", "intro.md"], "# Hi"),
        dir(&["site", "guide"]),
        file_with(&["site", "guide", "start.md"], "# Hi"),
        file_with(&["site", "guide", "start.toml"], "theme = \"basic\"\ntemplate = \"post\"\n"),
        dir(&["themes"]),
        dir(&["themes", "basic"]),
        file(&["themes", "basic", "post.html"]),
    ]
}

#[test]
fn compose_scenario_builds_site_model() {
    let mut job = Job::init("./", "build");
    let entries = scenario_entries();
    job.compose(&entries).unwrap();
    let site = &job.site;
    assert!(site.static_dir.is_none());
    assert!(site.themes_dir.is_some());
    let secs: Vec<String> = site.sections.iter().map(joined).collect();
    assert_eq!(secs, vec!["".to_string(), "guide".to_string()]);
    assert_eq!(site.pages.len(), 2);
    let keys: Vec<String> = site.pages.iter().map(|kp| joined(&kp.0)).collect();
    assert_eq!(keys, vec!["intro".to_string(), "guide/start".to_string()]);
    let intro = &site.pages[0].1;
    assert!(intro.has_md && !intro.has_toml);
    assert_eq!(intro.name, "intro");
    assert_eq!(intro.section_id, 0);
    let start = &site.pages[1].1;
    assert!(start.has_md && start.has_toml);
    assert_eq!(start.section_id, 1);
    assert_eq!(start.page_toml.theme.as_deref(), Some("basic"));
    assert_eq!(start.page_toml.template.as_deref(), Some("post"));
}

#[test]
fn compose_without_content_root_is_fatal() {
    let mut job = Job::init("./", "build");
    let entries = vec![dir(&["themes"]), dir(&["extra"])];
    let err = job.compose(&entries).unwrap_err();
    assert_eq!(err.kind, ErrorKind::Composition);
    assert_eq!(err.message, "/site directory not found");
}

#[test]
fn compose_skips_subtrees_outside_content_root() {
    let mut job = Job::init("./", "build");
    let entries = vec![
        dir(&["static"]),
        file(&["static", "logo.png"]),
        dir(&["site"]),
        file_with(&["site", "a.md"], "x"),
        dir(&["notes"]),
        file(&["notes", "todo.txt"]),
        dir(&["themes"]),
        file(&["themes", "basic", "post.html"]),
    ];
    job.compose(&entries).unwrap();
    assert!(job.site.static_dir.is_some());
    assert!(job.site.themes_dir.is_some());
    assert_eq!(job.site.pages.len(), 1);
}

#[test]
fn compose_ignores_extensionless_files() {
    let mut job = Job::init("./", "build");
    let entries = vec![dir(&["site"]), file(&["site", "README"]), file_with(&["site", "a.md"], "x")];
    job.compose(&entries).unwrap();
    assert_eq!(job.site.pages.len(), 1);
    assert_eq!(joined(&job.site.pages[0].0), "a");
}

#[test]
fn second_content_file_is_rejected() {
    let mut job = Job::init("./", "build");
    let entries = vec![
        dir(&["site"]),
        file_with(&["site", "a.md"], "x"),
        file_with(&["site", "a.md"], "y"),
    ];
    let err = job.compose(&entries).unwrap_err();
    assert_eq!(err.kind, ErrorKind::Composition);
    assert_eq!(err.message, "Unexpected File: site/a.md");
}

#[test]
fn content_config_content_is_rejected() {
    let mut job = Job::init("./", "build");
    let entries = vec![
        dir(&["site"]),
        file_with(&["site", "a.md"], "x"),
        file_with(&["site", "a.toml"], ""),
        file_with(&["site", "a.md"], "y"),
    ];
    let err = job.compose(&entries).unwrap_err();
    assert_eq!(err.kind, ErrorKind::Composition);
    assert_eq!(err.message, "Unexpected File: site/a.md");
}

#[test]
fn second_config_file_is_rejected() {
    let mut job = Job::init("./", "build");
    let entries = vec![
        dir(&["site"]),
        file_with(&["site", "a.toml"], ""),
        file_with(&["site", "a.md"], "x"),
        file_with(&["site", "a.toml"], ""),
    ];
    let err = job.compose(&entries).unwrap_err();
    assert_eq!(err.kind, ErrorKind::Composition);
    assert_eq!(err.message, "Unexpected File: site/a.toml");
}

#[test]
fn unknown_extension_is_rejected() {
    let mut job = Job::init("./", "build");
    let entries = vec![dir(&["site"]), file(&["site", "x.txt"])];
    let err = job.compose(&entries).unwrap_err();
    assert_eq!(err.kind, ErrorKind::Composition);
    assert_eq!(err.message, "site/x.txt is not a valid pagefile.");
}

#[test]
fn bad_toml_is_fatal_and_names_the_path() {
    let mut job = Job::init("./", "build");
    let entries = vec![dir(&["site"]), file_with(&["site", "a.toml"], "theme = [not toml")];
    let err = job.compose(&entries).unwrap_err();
    assert_eq!(err.kind, ErrorKind::Toml);
    assert_eq!(err.message, "Could not decode site/a.toml");
}

#[test]
fn non_string_config_field_is_fatal() {
    let mut job = Job::init("./", "build");
    let entries = vec![dir(&["site"]), file_with(&["site", "a.toml"], "theme = 5")];
    let err = job.compose(&entries).unwrap_err();
    assert_eq!(err.kind, ErrorKind::Toml);
}

#[test]
fn unread_config_file_is_an_io_error() {
    let mut job = Job::init("./", "build");
    let entries = vec![dir(&["site"]), file(&["site", "a.toml"])];
    let err = job.compose(&entries).unwrap_err();
    assert_eq!(err.kind, ErrorKind::Io);
    assert_eq!(err.message, "Could not read site/a.toml");
}

#[test]
fn every_content_file_gets_one_output() {
    // a tree with a content root and no config files: one output per content
    // file, at the mirrored path
    let mut job = Job::init("./", "build");
    let entries = vec![
        dir(&["site"]),
        file_with(&["site", "one.md"], "a"),
        dir(&["site", "s"]),
        file_with(&["site", "s", "two.md"], "b"),
        dir(&["site", "s", "t"]),
        file_with(&["site", "s", "t", "three.md"], "c"),
    ];
    job.compose(&entries).unwrap();
    let plan = job.build_plan();
    let outs: Vec<String> = plan.jobs.iter().map(|j| joined(&j.out_path)).collect();
    assert_eq!(outs, vec!["one.html".to_string(), "s/two.html".to_string(), "s/t/three.html".to_string()]);
    let mds: Vec<String> = plan.jobs.iter().map(|j| joined(&j.md_path)).collect();
    assert_eq!(mds, vec!["site/one.md".to_string(), "site/s/two.md".to_string(), "site/s/t/three.md".to_string()]);
}

#[test]
fn plan_scenario_outputs_manifest_and_candidates() {
    let mut job = Job::init("./", "build");
    let entries = scenario_entries();
    job.compose(&entries).unwrap();
    let plan = job.build_plan();
    let dirs: Vec<String> = plan.section_dirs.iter().map(joined).collect();
    assert_eq!(dirs, vec!["".to_string(), "guide".to_string()]);
    assert_eq!(plan.jobs.len(), 2);
    assert!(plan.skipped.is_empty());
    assert_eq!(joined(&plan.jobs[0].out_path), "intro.html");
    assert!(plan.jobs[0].pair.is_none());
    assert!(plan.jobs[0].candidate.is_none());
    assert_eq!(joined(&plan.jobs[1].out_path), "guide/start.html");
    assert_eq!(
        plan.jobs[1].pair,
        Some(("basic".to_string(), "post".to_string()))
    );
    assert_eq!(joined(plan.jobs[1].candidate.as_ref().unwrap()), "themes/basic/post.html");
    let text = render_manifest(&plan.manifest);
    assert_eq!(text, "!static\nguide/start.html\nintro.html\nguide");
}

#[test]
fn page_without_content_is_skipped_not_fatal() {
    let mut job = Job::init("./", "build");
    let entries = vec![dir(&["site"]), file_with(&["site", "lonely.toml"], "theme = \"basic\"")];
    job.compose(&entries).unwrap();
    let plan = job.build_plan();
    assert!(plan.jobs.is_empty());
    assert_eq!(plan.skipped.len(), 1);
    assert_eq!(plan.skipped[0].0, "lonely");
    assert_eq!(joined(&plan.skipped[0].1), "lonely");
}

#[test]
fn build_twice_gives_identical_plans() {
    // unchanged source: composing and planning twice yields the same output
    // paths and the same manifest text
    let entries1 = scenario_entries();
    let entries2 = scenario_entries();
    let mut job1 = Job::init("./", "build");
    let mut job2 = Job::init("./", "build");
    job1.compose(&entries1).unwrap();
    job2.compose(&entries2).unwrap();
    let plan1 = job1.build_plan();
    let plan2 = job2.build_plan();
    let outs1: Vec<String> = plan1.jobs.iter().map(|j| joined(&j.out_path)).collect();
    let outs2: Vec<String> = plan2.jobs.iter().map(|j| joined(&j.out_path)).collect();
    assert_eq!(outs1, outs2);
    assert_eq!(render_manifest(&plan1.manifest), render_manifest(&plan2.manifest));
}

#[test]
fn manifest_round_trips_through_text() {
    let mut job = Job::init("./", "build");
    let entries = scenario_entries();
    job.compose(&entries).unwrap();
    let plan = job.build_plan();
    let text = render_manifest(&plan.manifest);
    let parsed = parse_manifest(&text);
    assert_eq!(parsed.len(), plan.manifest.len());
    for (a, b) in parsed.iter().zip(plan.manifest.iter()) {
        match (a, b) {
            (ManifestEntry::Plain(x), ManifestEntry::Plain(y)) => assert_eq!(x, y),
            (ManifestEntry::Recursive(x), ManifestEntry::Recursive(y)) => assert_eq!(x, y),
            _ => panic!("entry kinds differ"),
        }
    }
}

#[test]
fn manifest_parse_drops_comments_and_classifies_lines() {
    let parsed = parse_manifest("# a comment\n!static\npages/a.html\nsec");
    assert_eq!(parsed.len(), 3);
    assert!(matches!(&parsed[0], ManifestEntry::Recursive(p) if p == "static"));
    assert!(matches!(&parsed[1], ManifestEntry::Plain(p) if p == "pages/a.html"));
    assert!(matches!(&parsed[2], ManifestEntry::Plain(p) if p == "sec"));
}

#[test]
fn clean_replays_file_then_directory() {
    // a manifest listing one file and one section directory: the file's
    // deletion comes first, and the directory is removed non-recursively
    let parsed = parse_manifest("a.html\nsec");
    assert_eq!(parsed.len(), 2);
    let first = clean_action(&parsed[0], false).unwrap();
    assert_eq!(first, CleanAction::RemoveFile);
    let second = clean_action(&parsed[1], true).unwrap();
    assert_eq!(second, CleanAction::RemoveDir);
}

#[test]
fn recursive_entry_on_a_file_is_a_manifest_error() {
    let entry = ManifestEntry::Recursive("static".to_string());
    let err = clean_action(&entry, false).unwrap_err();
    assert_eq!(err.kind, ErrorKind::Manifest);
    assert_eq!(err.message, "Bad _quilt file: ! precedes a file name.");
    let ok = clean_action(&entry, true).unwrap();
    assert_eq!(ok, CleanAction::RemoveDirAll);
}

#[test]
fn stale_name_appends_old_and_timestamp() {
    assert_eq!(stale_build_name_at("build", 1700000000), "build-old-1700000000");
    assert_eq!(stale_build_name_at("out", 0), "out-old-0");
    assert_eq!(stale_build_name_at("out", -5), "out-old--5");
    let name = stale_build_name("build");
    let rest = name.strip_prefix("build-old-").unwrap();
    assert!(!rest.is_empty());
    assert!(rest.chars().all(|c| c.is_ascii_digit() || c == '-'));
}

#[test]
fn decimal_rendering_is_exact() {
    assert_eq!(u64_to_dec(0), "0");
    assert_eq!(u64_to_dec(7), "7");
    assert_eq!(u64_to_dec(1234567890), "1234567890");
    assert_eq!(u64_to_dec(u64::MAX), "18446744073709551615");
    assert_eq!(i64_to_dec(-42), "-42");
    assert_eq!(i64_to_dec(i64::MIN), "-9223372036854775808");
}

#[test]
fn static_pairs_dedups_resolved_themes() {
    let mut job = Job::init("./", "build");
    let entries = vec![
        dir(&["site"]),
        file_with(&["site", "a.md"], "x"),
        file_with(&["site", "a.toml"], "theme = \"basic\"\ntemplate = \"post\""),
        file_with(&["site", "b.md"], "x"),
        file_with(&["site", "b.toml"], "theme = \"basic\"\ntemplate = \"post\""),
        file_with(&["site", "c.md"], "x"),
        file_with(&["site", "c.toml"], "theme = \"basic\"\ntemplate = \"page\""),
        dir(&["themes"]),
    ];
    job.compose(&entries).unwrap();
    let plan = job.build_plan();
    assert_eq!(plan.jobs.len(), 3);
    let resolved = vec![true, true, false];
    let pairs = static_pairs(&plan.jobs, &resolved);
    assert_eq!(pairs, vec![("basic".to_string(), "post".to_string())]);
}

#[test]
fn theme_asset_paths_name_the_directories() {
    let assets = theme_asset_paths("basic", "post");
    assert_eq!(assets.theme_dir.joined(), "themes/basic");
    assert_eq!(assets.theme_static.joined(), "themes/basic/static");
    assert_eq!(assets.template_dir.joined(), "themes/basic/post");
    assert_eq!(assets.dst_theme.joined(), "themes/basic");
    assert_eq!(assets.dst_template.joined(), "themes/basic/post");
}

#[test]
fn get_build_selects_by_name_then_default() {
    let config = Config {
        build: vec![
            ConfigBuild { default: false, name: "dev".to_string(), out: "out-dev".to_string() },
            ConfigBuild { default: true, name: "prod".to_string(), out: "out-prod".to_string() },
        ],
    };
    let by_name = quilt::profile::get_build(&config, Some(&"dev".to_string())).unwrap();
    assert_eq!(by_name.out, "out-dev");
    let by_default = quilt::profile::get_build(&config, None).unwrap();
    assert_eq!(by_default.out, "out-prod");
    assert!(quilt::profile::get_build(&config, Some(&"missing".to_string())).is_none());
    let empty = Config { build: vec![] };
    assert!(quilt::profile::get_build(&empty, None).is_none());
}

#[test]
fn quilt_assert_reports_composition_errors() {
    assert!(quilt_assert(true, "fine").is_ok());
    let err = quilt_assert(false, "broken").unwrap_err();
    assert_eq!(err.kind, ErrorKind::Composition);
    assert_eq!(err.message, "broken");
    assert!(!false_val());
}

#[test]
fn error_sources_name_their_subsystem() {
    let kinds = [
        (ErrorKind::Io, "IO"),
        (ErrorKind::Walk, "WalkDir"),
        (ErrorKind::Toml, "Toml"),
        (ErrorKind::Composition, "Composition"),
        (ErrorKind::Generator, "Generator"),
        (ErrorKind::Manifest, "Manifest"),
    ];
    for (kind, label) in kinds {
        let e = QuiltError { kind, message: String::new() };
        assert_eq!(e.source_name(), label);
    }
}

#[test]
fn render_without_template_uses_builtin_shell() {
    let out = render_page("# Hi", None).unwrap();
    assert_eq!(out, "<html><body><article><h1>Hi</h1>\n</article></body></html>");
}

#[test]
fn render_with_template_substitutes_at_marker() {
    let tpl = Template { path: "themes/basic/post.html".to_string(), text: "<div>{{content}}</div>".to_string() };
    let out = render_page("# Hi", Some(&tpl)).unwrap();
    assert_eq!(out, "<div><h1>Hi</h1>\n</div>");
    // the result length equals template length minus marker length plus
    // fragment length
    let frag = "<h1>Hi</h1>\n";
    assert_eq!(out.len(), tpl.text.len() - "{{content}}".len() + frag.len());
}

#[test]
fn render_without_marker_is_a_template_error() {
    let tpl = Template { path: "themes/basic/post.html".to_string(), text: "<div>no marker</div>".to_string() };
    let err = render_page("# Hi", Some(&tpl)).unwrap_err();
    assert_eq!(err.kind, ErrorKind::Generator);
    assert_eq!(err.message, "Invalid Template themes/basic/post.html: no {{content}}.");
}

#[test]
fn render_with_two_markers_is_a_template_error() {
    let tpl = Template { path: "t.html".to_string(), text: "{{content}}{{content}}".to_string() };
    let err = render_page("x", Some(&tpl)).unwrap_err();
    assert_eq!(err.kind, ErrorKind::Generator);
    assert_eq!(err.message, "Invalid Template t.html: no {{content}}.");
}

#[test]
fn page_generate_matches_render_page() {
    let mut job = Job::init("./", "build");
    let entries = scenario_entries();
    job.compose(&entries).unwrap();
    let page = &job.site.pages[0].1;
    let out = page.generate("*hey*", None).unwrap();
    assert_eq!(out, "<html><body><article><p><em>hey</em></p>\n</article></body></html>");
}
