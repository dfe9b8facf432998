use cargo_release_oxc::commit::{classify_commits, Commit, ConventionalCommit};
use cargo_release_oxc::version::{
    bump_for, manual_bump, next_semver, next_version, Bump, BumpError, SemVer,
};

fn commit(message: &str) -> Commit {
    Commit { id: "0123abc".to_string(), message: message.to_string(), paths: vec![] }
}

fn conventional(kind: &str, scope: Option<&str>, breaking: bool) -> ConventionalCommit {
    ConventionalCommit { kind: kind.to_string(), scope: scope.map(|s| s.to_string()), breaking }
}

fn semver(major: u64, minor: u64, patch: u64) -> SemVer {
    SemVer { major, minor, patch, pre: String::new(), build: String::new() }
}

#[test]
fn breaking_before_one_point_zero_raises_minor() {
    let commits = vec![commit("fix!: drop the old entry point")];
    assert_eq!(next_version("0.5.2", &commits, &None), Ok("0.6.0".to_string()));
}

#[test]
fn breaking_after_one_point_zero_raises_major() {
    let commits = vec![commit("refactor!: drop the old entry point")];
    assert_eq!(next_version("1.5.2", &commits, &None), Ok("2.0.0".to_string()));
}

#[test]
fn breaking_footer_counts_as_breaking() {
    let commits = vec![commit("fix: new layout\n\nBREAKING CHANGE: the layout changed")];
    assert_eq!(next_version("1.5.2", &commits, &None), Ok("2.0.0".to_string()));
}

#[test]
fn feature_raises_minor() {
    let commits = vec![commit("feat: add a flag")];
    assert_eq!(next_version("1.0.0", &commits, &None), Ok("1.1.0".to_string()));
}

#[test]
fn fix_raises_patch() {
    let commits = vec![commit("fix: handle empty input")];
    assert_eq!(next_version("1.0.0", &commits, &None), Ok("1.0.1".to_string()));
}

#[test]
fn largest_request_wins() {
    let commits = vec![
        commit("fix: one"),
        commit("feat(ui): two"),
        commit("docs: three"),
    ];
    assert_eq!(next_version("2.3.4", &commits, &None), Ok("2.4.0".to_string()));
    let commits = vec![commit("feat: one"), commit("fix(core)!: two")];
    assert_eq!(next_version("2.3.4", &commits, &None), Ok("3.0.0".to_string()));
}

#[test]
fn feature_before_one_point_zero_raises_minor() {
    let commits = vec![commit("feat: add a flag")];
    assert_eq!(next_version("0.5.2", &commits, &None), Ok("0.6.0".to_string()));
}

#[test]
fn breaking_in_zero_zero_raises_minor() {
    let commits = vec![commit("fix!: change")];
    assert_eq!(next_version("0.0.7", &commits, &None), Ok("0.1.0".to_string()));
}

#[test]
fn no_commits_is_an_error() {
    let commits: Vec<Commit> = vec![];
    assert_eq!(next_version("1.0.0", &commits, &None), Err(BumpError::NoCommits));
}

#[test]
fn commits_outside_the_grammar_are_not_counted() {
    let commits = vec![commit("just some words"), commit("Merge branch 'main'")];
    assert_eq!(next_version("1.0.0", &commits, &None), Err(BumpError::NoCommits));
    let commits = vec![commit("just some words"), commit("chore: tidy")];
    assert_eq!(next_version("1.0.0", &commits, &None), Ok("1.0.1".to_string()));
}

#[test]
fn version_that_is_no_semver_is_an_error() {
    let commits = vec![commit("fix: one")];
    assert_eq!(next_version("one.two", &commits, &None), Err(BumpError::InvalidVersion));
    assert_eq!(next_version("1.2", &commits, &None), Err(BumpError::InvalidVersion));
    assert_eq!(next_version("", &commits, &None), Err(BumpError::InvalidVersion));
}

#[test]
fn breaking_commit_out_of_scope_raises_nothing() {
    let scopes = Some(vec!["core".to_string()]);
    let commits = vec![commit("feat(ui)!: new widgets"), commit("fix(core): handle empty input")];
    assert_eq!(next_version("1.4.0", &commits, &scopes), Ok("1.4.1".to_string()));
    let without = vec![commit("fix(core): handle empty input")];
    assert_eq!(next_version("1.4.0", &without, &scopes), Ok("1.4.1".to_string()));
}

#[test]
fn only_commits_out_of_scope_is_no_commits() {
    let scopes = Some(vec!["core".to_string()]);
    let commits = vec![commit("feat(ui)!: new widgets"), commit("fix: no scope at all")];
    assert_eq!(next_version("1.4.0", &commits, &scopes), Err(BumpError::NoCommits));
}

#[test]
fn scope_counts_when_it_holds_a_filter_text() {
    let scopes = Some(vec!["lint".to_string(), "core".to_string()]);
    let commits = vec![commit("feat(linter/rules)!: rename a rule")];
    assert_eq!(next_version("1.4.0", &commits, &scopes), Ok("2.0.0".to_string()));
    let empty = Some(vec![]);
    assert_eq!(next_version("1.4.0", &commits, &empty), Err(BumpError::NoCommits));
}

#[test]
fn feature_type_in_any_case() {
    let commits = vec![conventional("Feat", None, false)];
    assert_eq!(bump_for(&semver(1, 0, 0), &commits, &None), Some(Bump::Minor));
    let commits = vec![conventional("FEAT", None, false)];
    assert_eq!(bump_for(&semver(1, 0, 0), &commits, &None), Some(Bump::Minor));
    let commits = vec![conventional("feature", None, false)];
    assert_eq!(bump_for(&semver(1, 0, 0), &commits, &None), Some(Bump::Patch));
    let commits: Vec<ConventionalCommit> = vec![];
    assert_eq!(bump_for(&semver(1, 0, 0), &commits, &None), None);
}

#[test]
fn next_semver_on_classified_commits() {
    let commits = vec![conventional("fix", Some("core"), true)];
    let next = next_semver(&semver(0, 5, 2), &commits, &None).unwrap();
    assert_eq!((next.major, next.minor, next.patch), (0, 6, 0));
    let next = next_semver(&semver(3, 5, 2), &commits, &None).unwrap();
    assert_eq!((next.major, next.minor, next.patch), (4, 0, 0));
    let none: Vec<ConventionalCommit> = vec![];
    assert!(matches!(next_semver(&semver(3, 5, 2), &none, &None), Err(BumpError::NoCommits)));
}

#[test]
fn raising_a_full_part_overflows() {
    let commits = vec![conventional("fix", None, false)];
    let full = semver(1, 2, u64::MAX);
    assert!(matches!(next_semver(&full, &commits, &None), Err(BumpError::Overflow)));
    assert!(matches!(semver(u64::MAX, 0, 0).bump(Bump::Major), Err(BumpError::Overflow)));
    assert!(semver(u64::MAX, 0, 0).bump(Bump::Minor).is_ok());
    assert_eq!(
        next_version("1.2.18446744073709551615", &vec![commit("fix: x")], &None),
        Err(BumpError::Overflow)
    );
}

#[test]
fn manual_bump_raises_one_part() {
    assert_eq!(manual_bump("1.2.3", Bump::Major), Ok("2.0.0".to_string()));
    assert_eq!(manual_bump("1.2.3", Bump::Minor), Ok("1.3.0".to_string()));
    assert_eq!(manual_bump("1.2.3", Bump::Patch), Ok("1.2.4".to_string()));
    assert_eq!(manual_bump("0.9.9", Bump::Major), Ok("1.0.0".to_string()));
    assert_eq!(manual_bump("v1", Bump::Patch), Err(BumpError::InvalidVersion));
}

#[test]
fn bump_drops_pre_release_and_build() {
    assert_eq!(manual_bump("1.2.3-rc.1+build.5", Bump::Patch), Ok("1.2.4".to_string()));
}

#[test]
fn parse_reads_all_parts() {
    let v = SemVer::parse("10.20.30-alpha.1+exp.sha").unwrap();
    assert_eq!((v.major, v.minor, v.patch), (10, 20, 30));
    assert_eq!(v.pre, "alpha.1");
    assert_eq!(v.build, "exp.sha");
    assert!(SemVer::parse("01.2.3").is_none());
    assert!(SemVer::parse("1.2.3.4").is_none());
}

#[test]
fn render_writes_what_parse_reads() {
    for text in ["0.0.0", "1.2.3", "10.200.3000", "1.0.0-rc.1", "1.0.0+b7", "1.0.0-a+b", "18446744073709551615.0.9"] {
        assert_eq!(SemVer::parse(text).unwrap().render(), text);
    }
    assert_eq!(semver(4, 0, 12).render(), "4.0.12");
}

#[test]
fn classification_reads_type_scope_and_flag() {
    let commits = vec![
        commit("feat(parser)!: new syntax"),
        commit("not conventional"),
        commit("fix: plain"),
    ];
    let found = classify_commits(&commits);
    assert_eq!(found.len(), 2);
    assert_eq!(found[0].kind, "feat");
    assert_eq!(found[0].scope, Some("parser".to_string()));
    assert!(found[0].breaking);
    assert_eq!(found[1].kind, "fix");
    assert_eq!(found[1].scope, None);
    assert!(!found[1].breaking);
}
