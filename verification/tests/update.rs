use cargo_release_oxc::changelog::{prepend, validate_tag, Changelog, ChangelogOptions, Release};
use cargo_release_oxc::commit::Commit;
use cargo_release_oxc::config::{ReleaseSet, VersionedContent, VersionedFile, VersionedPackage};
use cargo_release_oxc::scope::ScopeError;
use cargo_release_oxc::update::{
    tag_pattern, tag_pattern_source, GitTag, HistoryError, Update, UpdateError,
};
use cargo_release_oxc::version::BumpError;
use cargo_release_oxc::{Options, ReleaseCommand};

fn commit(message: &str) -> Commit {
    Commit { id: "abc".to_string(), message: message.to_string(), paths: vec![] }
}

fn tags(raw: &[(&str, &str)]) -> Vec<(String, String)> {
    raw.iter().map(|(sha, name)| (sha.to_string(), name.to_string())).collect()
}

fn release_set(scopes: Option<Vec<String>>) -> ReleaseSet {
    let manifest = "[package]\nname = \"oxc_ast\"\nversion = \"0.30.1\"\n";
    ReleaseSet {
        name: "crates".to_string(),
        scopes_for_breaking_change: scopes,
        versioned_files: vec![
            VersionedFile {
                path: "crates/oxc_ast/Cargo.toml".to_string(),
                content: VersionedContent::read("/ws/crates/oxc_ast/Cargo.toml", manifest, &vec![]).unwrap(),
            },
            VersionedFile {
                path: "npm/package.json".to_string(),
                content: VersionedContent::read("/ws/npm/package.json", "{\"name\": \"oxc-parser\"}", &vec![]).unwrap(),
            },
        ],
    }
}

fn update(scopes: Option<Vec<String>>) -> Update {
    let raw = tags(&[("111", "crates_v0.29.0"), ("222", "crates_v0.30.0"), ("333", "crates_v0.30.1")]);
    Update::new("/ws".to_string(), release_set(scopes), &raw).unwrap()
}

#[test]
fn tag_version_follows_the_release_prefix() {
    let tag = GitTag::new("abc".to_string(), "crates_v1.2.3".to_string()).unwrap();
    assert_eq!(tag.version, "1.2.3");
    assert_eq!(tag.sha, "abc");
    let tag = GitTag::new("abc".to_string(), "_v0.1.0".to_string()).unwrap();
    assert_eq!(tag.version, "0.1.0");
    let tag = GitTag::new("abc".to_string(), "2.0.0".to_string()).unwrap();
    assert_eq!(tag.version, "2.0.0");
    let tag = GitTag::new("abc".to_string(), "crates_v1.0.0-dev.1+very".to_string()).unwrap();
    assert_eq!(tag.version, "1.0.0-dev.1+very");
}

#[test]
fn release_name_may_hold_the_letter_of_the_prefix() {
    let tag = GitTag::new("abc123".to_string(), "vscode_v1.0.0".to_string()).unwrap();
    assert_eq!(tag.version, "1.0.0");
    assert_eq!(tag.sha, "abc123");
    let tag = GitTag::new("abc".to_string(), "javascript_v0.30.1".to_string()).unwrap();
    assert_eq!(tag.version, "0.30.1");
    let tag = GitTag::new("abc".to_string(), "dev_vm_v2.1.0".to_string()).unwrap();
    assert_eq!(tag.version, "2.1.0");
    let raw = tags(&[("111", "vscode_v0.9.0"), ("222", "vscode_v1.0.0")]);
    let update = Update::new("/ws".to_string(), release_set(None), &raw).unwrap();
    assert_eq!(update.current_version(), "1.0.0");
}

#[test]
fn tag_without_a_semantic_version_is_refused() {
    assert!(matches!(
        GitTag::new("abc".to_string(), "crates_vnext".to_string()),
        Err(HistoryError::UnparsableVersion)
    ));
    assert!(matches!(
        GitTag::new("abc".to_string(), "crates_v1.0.0_v".to_string()),
        Err(HistoryError::UnparsableVersion)
    ));
    assert!(matches!(
        GitTag::new("abc".to_string(), "crates-1.0.0".to_string()),
        Err(HistoryError::UnparsableVersion)
    ));
    assert!(matches!(GitTag::new("abc".to_string(), "".to_string()), Err(HistoryError::UnparsableVersion)));
    assert!(matches!(GitTag::new("abc".to_string(), "v".to_string()), Err(HistoryError::UnparsableVersion)));
    assert!(matches!(GitTag::new("abc".to_string(), "_v".to_string()), Err(HistoryError::UnparsableVersion)));
}

#[test]
fn tag_pattern_selects_the_tags_of_a_release() {
    let text = tag_pattern("crates").unwrap();
    assert_eq!(text, "^crates_v[0-9]*");
    let pattern = regex::Regex::new(&text).unwrap();
    assert!(pattern.is_match("crates_v0.30.1"));
    assert!(!pattern.is_match("npm_v0.30.1"));
}

#[test]
fn tag_pattern_source_is_built_from_the_name() {
    assert_eq!(tag_pattern_source("crates"), "^crates_v[0-9]*");
    assert_eq!(tag_pattern_source(""), "^_v[0-9]*");
}

#[test]
fn tag_pattern_refuses_a_name_that_is_no_pattern() {
    assert!(matches!(tag_pattern("crates("), Err(HistoryError::InvalidTagPattern)));
}

#[test]
fn update_takes_the_last_tag_as_current() {
    let update = update(None);
    assert_eq!(update.current_version(), "0.30.1");
    assert_eq!(update.commits_range(), "crates_v0.30.1..HEAD");
}

#[test]
fn update_needs_tags() {
    let none = tags(&[]);
    assert!(matches!(
        Update::new("/ws".to_string(), release_set(None), &none),
        Err(HistoryError::NoTags)
    ));
    let bad = tags(&[("111", "crates_v0.29.0"), ("222", "crates_vwrong")]);
    assert!(matches!(
        Update::new("/ws".to_string(), release_set(None), &bad),
        Err(HistoryError::UnparsableVersion)
    ));
}

#[test]
fn update_calculates_the_next_version() {
    let commits = vec![commit("feat(parser): one"), commit("fix(ast): two")];
    assert_eq!(update(None).calculate_next_version(&commits), Ok("0.31.0".to_string()));
    let scoped = update(Some(vec!["ast".to_string()]));
    assert_eq!(scoped.calculate_next_version(&commits), Ok("0.30.2".to_string()));
    assert_eq!(update(None).calculate_next_version(&vec![]), Err(BumpError::NoCommits));
}

#[test]
fn include_pattern_of_a_package() {
    let update = update(None);
    let package = VersionedPackage {
        name: "oxc_ast".to_string(),
        dir: "/ws/crates/oxc_ast".to_string(),
        path: "/ws/crates/oxc_ast/Cargo.toml".to_string(),
    };
    assert_eq!(update.get_include_pattern(&package), Ok("crates/oxc_ast/**".to_string()));
    let outside = VersionedPackage {
        name: "x".to_string(),
        dir: "/other/x".to_string(),
        path: "/other/x/Cargo.toml".to_string(),
    };
    assert_eq!(update.get_include_pattern(&outside), Err(ScopeError::NotUnderRoot));
    let odd = VersionedPackage {
        name: "x".to_string(),
        dir: "/ws/a[b".to_string(),
        path: "/ws/a[b/Cargo.toml".to_string(),
    };
    assert_eq!(update.get_include_pattern(&odd), Err(ScopeError::InvalidPattern));
}

#[test]
fn changelog_jobs_cover_every_package() {
    let jobs = update(None).changelog_jobs().unwrap();
    assert_eq!(jobs.len(), 2);
    assert_eq!(jobs[0].package.name, "oxc_ast");
    assert_eq!(jobs[0].pattern, "crates/oxc_ast/**");
    assert_eq!(jobs[0].changelog_path, "/ws/crates/oxc_ast/CHANGELOG.md");
    assert_eq!(jobs[1].package.name, "oxc-parser");
    assert_eq!(jobs[1].pattern, "npm/**");
    assert_eq!(jobs[1].changelog_path, "/ws/npm/CHANGELOG.md");
}

#[test]
fn changelog_jobs_fail_on_a_package_outside_the_root() {
    let raw = tags(&[("111", "crates_v0.29.0")]);
    let update = Update::new("/elsewhere".to_string(), release_set(None), &raw).unwrap();
    assert!(matches!(update.changelog_jobs(), Err(ScopeError::NotUnderRoot)));
}

#[test]
fn regeneration_walks_pairs_of_tags() {
    let steps = update(None).regenerate_changelogs();
    assert_eq!(steps.len(), 2);
    assert_eq!(steps[0].range, "111..222");
    assert_eq!(steps[0].version, "0.30.0");
    assert_eq!(steps[0].sha, "222");
    assert_eq!(steps[1].range, "222..333");
    assert_eq!(steps[1].version, "0.30.1");
    assert_eq!(steps[1].sha, "333");
}

#[test]
fn regeneration_is_repeatable() {
    let update = update(None);
    let first: Vec<(String, String, String)> =
        update.regenerate_changelogs().into_iter().map(|s| (s.range, s.version, s.sha)).collect();
    let second: Vec<(String, String, String)> =
        update.regenerate_changelogs().into_iter().map(|s| (s.range, s.version, s.sha)).collect();
    assert_eq!(first, second);
}

#[test]
fn one_tag_gives_nothing_to_regenerate() {
    let raw = tags(&[("111", "crates_v0.29.0")]);
    let update = Update::new("/ws".to_string(), release_set(None), &raw).unwrap();
    assert!(update.regenerate_changelogs().is_empty());
}

#[test]
fn run_plans_the_release() {
    let commits = vec![commit("fix(ast): two")];
    let plan = update(None).run(&commits).unwrap();
    assert_eq!(plan.next_version, "0.30.2");
    assert_eq!(plan.changelogs.len(), 2);
    let paths: Vec<&str> = plan.edits.iter().map(|e| e.path.as_str()).collect();
    assert_eq!(paths, vec!["/ws/crates/oxc_ast/Cargo.toml", "/ws/npm/package.json"]);
    assert!(plan.edits.iter().all(|e| e.version == "0.30.2"));
}

#[test]
fn run_fails_without_commits_or_scope() {
    assert!(matches!(update(None).run(&vec![]), Err(UpdateError::Bump(BumpError::NoCommits))));
    let raw = tags(&[("111", "crates_v0.29.0")]);
    let elsewhere = Update::new("/elsewhere".to_string(), release_set(None), &raw).unwrap();
    assert!(matches!(
        elsewhere.run(&vec![commit("fix: x")]),
        Err(UpdateError::Scope(ScopeError::NotUnderRoot))
    ));
}

#[test]
fn changelog_for_release_carries_the_next_version() {
    let commits = vec![commit("feat: one")];
    let release = update(None).changelog_for_release(commits, 1700000000).unwrap();
    assert_eq!(release.version, Some("0.31.0".to_string()));
    assert_eq!(release.commits.len(), 1);
    assert_eq!(release.timestamp, 1700000000);
    assert!(matches!(update(None).changelog_for_release(vec![], 5), Err(BumpError::NoCommits)));
}

#[test]
fn tag_must_start_with_v() {
    assert!(validate_tag(&"v1.0.0".to_string()));
    assert!(validate_tag(&"v".to_string()));
    assert!(!validate_tag(&"1.0.0".to_string()));
    assert!(!validate_tag(&"".to_string()));
    assert!(!validate_tag(&"V1".to_string()));
}

#[test]
fn new_text_comes_before_the_old() {
    assert_eq!(prepend("## 2.0.0\n", "## 1.0.0\n"), "## 2.0.0\n## 1.0.0\n");
    assert_eq!(prepend("## 2.0.0\n", ""), "## 2.0.0\n");
    assert_eq!(prepend("", "old"), "old");
}

#[test]
fn changelog_run_checks_its_tag() {
    let options = ChangelogOptions { tag: "1.0.0".to_string(), path: "/ws".to_string() };
    assert!(Changelog::checked(options, 7).is_none());
    let options = ChangelogOptions { tag: "v1.0.0".to_string(), path: "/ws".to_string() };
    let run = Changelog::checked(options, 7).unwrap();
    assert_eq!(run.get_include_pattern("/ws/crates/a"), Ok("crates/a/**".to_string()));
    let release = run.release_for(vec![commit("fix: x")]);
    assert_eq!(release.version, Some("v1.0.0".to_string()));
    assert_eq!(release.timestamp, 7);
    assert_eq!(release.commits.len(), 1);
    assert_eq!(release.previous_version, None);
}

#[test]
fn releases_are_built_from_plain_values() {
    let release = Release::new("1.2.3", vec![], 42);
    assert_eq!(release.version, Some("1.2.3".to_string()));
    assert_eq!(release.timestamp, 42);
    let open = Release::unreleased("1.2.3", vec![commit("fix: x")]);
    assert_eq!(open.version, None);
    assert_eq!(open.previous_version, Some("1.2.3".to_string()));
    assert_eq!(open.commits.len(), 1);
}

#[test]
fn command_hands_out_its_options() {
    let options = Options { release: "crates".to_string(), path: "/ws".to_string(), dry_run: true };
    let command = ReleaseCommand::Publish(options.clone());
    assert_eq!(command.options().release, "crates");
    assert!(command.options().dry_run);
    let command = ReleaseCommand::Update(options);
    assert_eq!(command.options().path, "/ws");
}

fn touching(id: &str, path: &str) -> Commit {
    Commit { id: id.to_string(), message: "fix: a".to_string(), paths: vec![path.to_string()] }
}

#[test]
fn commits_of_a_package_lie_under_its_directory() {
    let update = update(None);
    let commits = vec![
        touching("1", "crates/oxc_ast/src/lib.rs"),
        touching("2", "npm/index.js"),
        touching("3", "README.md"),
        touching("4", "crates/oxc_ast/Cargo.toml"),
    ];
    let jobs = update.changelog_jobs().unwrap();
    let found = update.get_commits_for_package(&jobs[0].package, &commits).unwrap();
    let ids: Vec<&str> = found.iter().map(|c| c.id.as_str()).collect();
    assert_eq!(ids, vec!["1", "4"]);
    let found = update.get_commits_for_package(&jobs[1].package, &commits).unwrap();
    let ids: Vec<&str> = found.iter().map(|c| c.id.as_str()).collect();
    assert_eq!(ids, vec!["2"]);
}

#[test]
fn commits_of_a_release_touch_any_of_its_packages() {
    let update = update(None);
    let commits = vec![
        touching("1", "crates/oxc_ast/src/lib.rs"),
        touching("2", "npm/index.js"),
        touching("3", "README.md"),
        touching("4", "tasks/bench/main.rs"),
    ];
    let found = update.get_commits_for_release(&commits).unwrap();
    let ids: Vec<&str> = found.iter().map(|c| c.id.as_str()).collect();
    assert_eq!(ids, vec!["1", "2"]);
}

#[test]
fn commits_cannot_be_scoped_outside_the_root() {
    let raw = tags(&[("111", "crates_v0.29.0")]);
    let update = Update::new("/elsewhere".to_string(), release_set(None), &raw).unwrap();
    let commits = vec![touching("1", "crates/oxc_ast/src/lib.rs")];
    assert!(matches!(update.get_commits_for_release(&commits), Err(ScopeError::NotUnderRoot)));
    let package = VersionedPackage {
        name: "oxc_ast".to_string(),
        dir: "/ws/crates/oxc_ast".to_string(),
        path: "/ws/crates/oxc_ast/Cargo.toml".to_string(),
    };
    assert!(matches!(
        update.get_commits_for_package(&package, &commits),
        Err(ScopeError::NotUnderRoot)
    ));
}
