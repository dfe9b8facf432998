use cargo_release_oxc::config::{
    ConfigError, ReleaseConfig, ReleaseSet, VersionedContent, VersionedFile, VersionedPackage,
};
use cargo_release_oxc::versioning::cargo::{
    is_workspace_manifest, set_package_version, set_workspace_dependency_version,
    set_workspace_dependency_versions, CargoToml, WorkspaceMember,
};
use cargo_release_oxc::versioning::package_json::{set_json_version, PackageJson};
use cargo_release_oxc::versioning::{Change, ManifestEdit, ManifestError};

const PACKAGE: &str = "[package]\nname = \"oxc_ast\" # the tree\nversion = \"0.1.0\"\n\n[dependencies]\nserde = \"1\"\n";

const WORKSPACE: &str = "[workspace]\nmembers = [\"crates/*\"]\n\n[workspace.dependencies]\noxc_ast = { version = \"0.1.0\", path = \"crates/oxc_ast\" }\noxc_parser = { version = \"0.1.0\", path = \"crates/oxc_parser\" }\nserde = \"1\"\n";

fn member(name: &str, publishable: bool) -> WorkspaceMember {
    WorkspaceMember {
        name: name.to_string(),
        manifest_path: format!("/ws/crates/{name}/Cargo.toml"),
        publishable,
    }
}

fn summary(packages: &[VersionedPackage]) -> Vec<(String, String, String)> {
    packages.iter().map(|p| (p.name.clone(), p.dir.clone(), p.path.clone())).collect()
}

fn triple(name: &str, dir: &str, path: &str) -> (String, String, String) {
    (name.to_string(), dir.to_string(), path.to_string())
}

#[test]
fn package_version_is_replaced_in_place() {
    let next = set_package_version(PACKAGE, "0.2.0").unwrap();
    assert_eq!(next, PACKAGE.replace("version = \"0.1.0\"", "version = \"0.2.0\""));
}

#[test]
fn package_version_errors() {
    assert_eq!(set_package_version("[package\n", "0.2.0"), Err(ManifestError::Parse));
    assert_eq!(
        set_package_version("[package]\nname = \"x\"\n", "0.2.0"),
        Err(ManifestError::MissingPackageVersion)
    );
    assert_eq!(set_package_version("", "0.2.0"), Err(ManifestError::MissingPackageVersion));
}

#[test]
fn workspace_dependency_versions_are_replaced() {
    let names = vec!["oxc_ast".to_string(), "oxc_parser".to_string()];
    let next = set_workspace_dependency_versions(WORKSPACE, &names, "0.2.0").unwrap();
    assert_eq!(next, WORKSPACE.replace("version = \"0.1.0\"", "version = \"0.2.0\""));
    let one = vec!["oxc_parser".to_string()];
    let next = set_workspace_dependency_versions(WORKSPACE, &one, "0.2.0").unwrap();
    assert!(next.contains("oxc_ast = { version = \"0.1.0\""));
    assert!(next.contains("oxc_parser = { version = \"0.2.0\""));
    let none: Vec<String> = vec![];
    assert_eq!(set_workspace_dependency_versions(WORKSPACE, &none, "0.2.0"), Ok(WORKSPACE.to_string()));
}

#[test]
fn workspace_dependency_errors() {
    let names = vec!["oxc_ast".to_string(), "missing".to_string()];
    assert_eq!(
        set_workspace_dependency_versions(WORKSPACE, &names, "0.2.0"),
        Err(ManifestError::MissingWorkspaceDependency { name: "missing".to_string() })
    );
    let plain = vec!["serde".to_string()];
    assert_eq!(
        set_workspace_dependency_versions(WORKSPACE, &plain, "0.2.0"),
        Err(ManifestError::MissingWorkspaceDependency { name: "serde".to_string() })
    );
    let names = vec!["oxc_ast".to_string()];
    assert_eq!(
        set_workspace_dependency_versions(PACKAGE, &names, "0.2.0"),
        Err(ManifestError::MissingWorkspaceDependencies)
    );
    assert_eq!(set_workspace_dependency_versions("= 1", &names, "0.2.0"), Err(ManifestError::Parse));
    let none: Vec<String> = vec![];
    assert_eq!(set_workspace_dependency_versions("= 1", &none, "0.2.0"), Err(ManifestError::Parse));
}

#[test]
fn missing_workspace_dependency_is_named() {
    let names = vec!["absent".to_string(), "oxc_ast".to_string(), "gone".to_string()];
    assert_eq!(
        set_workspace_dependency_versions(WORKSPACE, &names, "0.2.0"),
        Err(ManifestError::MissingWorkspaceDependency { name: "absent".to_string() })
    );
    assert_eq!(
        set_workspace_dependency_version(WORKSPACE, "gone", "0.2.0"),
        Err(ManifestError::MissingWorkspaceDependency { name: "gone".to_string() })
    );
    assert_eq!(
        set_workspace_dependency_version("[workspace]\nmembers = []\n", "oxc_ast", "0.2.0"),
        Err(ManifestError::MissingWorkspaceDependencies)
    );
    assert_eq!(
        set_workspace_dependency_version("[workspace]\ndependencies = 1\n", "oxc_ast", "0.2.0"),
        Err(ManifestError::MissingWorkspaceDependencies)
    );
    let next = set_workspace_dependency_version(WORKSPACE, "oxc_parser", "0.2.0").unwrap();
    assert!(next.contains("oxc_ast = { version = \"0.1.0\""));
    assert!(next.contains("oxc_parser = { version = \"0.2.0\""));
    let edit = ManifestEdit {
        path: "/ws/Cargo.toml".to_string(),
        change: Change::WorkspaceDependencies { names: vec!["nowhere".to_string()] },
        version: "0.2.0".to_string(),
    };
    assert_eq!(
        edit.apply(WORKSPACE),
        Err(ManifestError::MissingWorkspaceDependency { name: "nowhere".to_string() })
    );
}

#[test]
fn manifests_are_made_from_what_was_read() {
    let members = vec![member("oxc_ast", true), member("oxc_macros", false)];
    let root = CargoToml::from_parts("/ws/Cargo.toml", true, None, &members).unwrap();
    let governed = root.packages();
    assert_eq!(governed.len(), 1);
    assert_eq!(governed[0].name, "oxc_ast");
    assert_eq!(root.update_version("1.0.0").len(), 2);
    let single =
        CargoToml::from_parts("/ws/crates/x/Cargo.toml", false, Some("x".to_string()), &members).unwrap();
    let governed = single.packages();
    assert_eq!(governed.len(), 1);
    assert_eq!(governed[0].name, "x");
    assert_eq!(governed[0].dir, "/ws/crates/x");
    assert_eq!(governed[0].path, "/ws/crates/x/Cargo.toml");
    assert_eq!(single.update_version("1.0.0").len(), 1);
    assert!(matches!(
        CargoToml::from_parts("/ws/crates/x/Cargo.toml", false, None, &members),
        Err(ManifestError::MissingPackageName)
    ));
    assert!(matches!(
        CargoToml::from_parts("", true, None, &members),
        Err(ManifestError::NoFileName)
    ));
    let descriptor = PackageJson::from_parts("/ws/npm/package.json", Some("oxc".to_string())).unwrap();
    assert_eq!(descriptor.packages()[0].name, "oxc");
    assert_eq!(descriptor.packages()[0].dir, "/ws/npm");
    assert!(matches!(
        PackageJson::from_parts("/ws/npm/package.json", None),
        Err(ManifestError::MissingPackageName)
    ));
    assert!(matches!(
        PackageJson::from_parts("", Some("oxc".to_string())),
        Err(ManifestError::NoFileName)
    ));
}

#[test]
fn workspace_manifest_is_recognised() {
    assert_eq!(is_workspace_manifest(WORKSPACE), Ok(true));
    assert_eq!(is_workspace_manifest(PACKAGE), Ok(false));
    assert_eq!(is_workspace_manifest("[["), Err(ManifestError::Parse));
}

#[test]
fn single_package_manifest_governs_itself() {
    let manifest = CargoToml::new("/ws/crates/oxc_ast/Cargo.toml", PACKAGE, &vec![]).unwrap();
    assert_eq!(
        summary(&manifest.packages()),
        vec![triple("oxc_ast", "/ws/crates/oxc_ast", "/ws/crates/oxc_ast/Cargo.toml")]
    );
    let edits = manifest.update_version("0.2.0");
    assert_eq!(edits.len(), 1);
    assert_eq!(edits[0].path, "/ws/crates/oxc_ast/Cargo.toml");
    assert_eq!(edits[0].version, "0.2.0");
    assert!(matches!(edits[0].change, Change::PackageVersion));
}

#[test]
fn workspace_manifest_governs_publishable_members() {
    let members = vec![member("oxc_ast", true), member("tasks", false), member("oxc_parser", true)];
    let manifest = CargoToml::new("/ws/Cargo.toml", WORKSPACE, &members).unwrap();
    assert_eq!(
        summary(&manifest.packages()),
        vec![
            triple("oxc_ast", "/ws/crates/oxc_ast", "/ws/crates/oxc_ast/Cargo.toml"),
            triple("oxc_parser", "/ws/crates/oxc_parser", "/ws/crates/oxc_parser/Cargo.toml"),
        ]
    );
    let edits = manifest.update_version("0.2.0");
    assert_eq!(edits.len(), 3);
    assert_eq!(edits[0].path, "/ws/Cargo.toml");
    match &edits[0].change {
        Change::WorkspaceDependencies { names } => assert_eq!(names, &vec!["oxc_ast", "oxc_parser"]),
        _ => panic!("the workspace manifest comes first"),
    }
    assert_eq!(edits[1].path, "/ws/crates/oxc_ast/Cargo.toml");
    assert!(matches!(edits[1].change, Change::PackageVersion));
    assert_eq!(edits[2].path, "/ws/crates/oxc_parser/Cargo.toml");
    assert!(matches!(edits[2].change, Change::PackageVersion));
    assert_eq!(edits[0].apply(WORKSPACE).unwrap(), WORKSPACE.replace("\"0.1.0\"", "\"0.2.0\""));
    assert_eq!(edits[1].apply(PACKAGE).unwrap(), PACKAGE.replace("\"0.1.0\"", "\"0.2.0\""));
}

#[test]
fn cargo_manifest_errors() {
    assert!(matches!(CargoToml::new("/ws/Cargo.toml", "[x", &vec![]), Err(ManifestError::Parse)));
    assert!(matches!(
        CargoToml::new("/ws/Cargo.toml", "[lib]\n", &vec![]),
        Err(ManifestError::MissingPackageName)
    ));
    assert!(matches!(CargoToml::new("", PACKAGE, &vec![]), Err(ManifestError::NoFileName)));
    let broken = vec![WorkspaceMember { name: "x".to_string(), manifest_path: String::new(), publishable: true }];
    assert!(matches!(CargoToml::new("/ws/Cargo.toml", WORKSPACE, &broken), Err(ManifestError::NoFileName)));
}

#[test]
fn descriptor_names_its_package() {
    let descriptor = PackageJson::new("/ws/npm/oxc/package.json", "{\"name\": \"oxc-parser\", \"version\": \"0.1.0\"}").unwrap();
    assert_eq!(
        summary(&descriptor.packages()),
        vec![triple("oxc-parser", "/ws/npm/oxc", "/ws/npm/oxc/package.json")]
    );
    let edits = descriptor.update_version("0.2.0");
    assert_eq!(edits.len(), 1);
    assert_eq!(edits[0].path, "/ws/npm/oxc/package.json");
    assert_eq!(edits[0].version, "0.2.0");
    assert!(matches!(edits[0].change, Change::JsonVersion));
}

#[test]
fn descriptor_errors() {
    assert!(matches!(PackageJson::new("/ws/package.json", "[1, 2]", ), Err(ManifestError::Parse)));
    assert!(matches!(PackageJson::new("/ws/package.json", "{", ), Err(ManifestError::Parse)));
    assert!(matches!(
        PackageJson::new("/ws/package.json", "{\"version\": \"1\"}"),
        Err(ManifestError::MissingPackageName)
    ));
    assert!(matches!(
        PackageJson::new("/ws/package.json", "{\"name\": 7}"),
        Err(ManifestError::MissingPackageName)
    ));
    assert!(matches!(PackageJson::new("", "{\"name\": \"x\"}"), Err(ManifestError::NoFileName)));
}

#[test]
fn json_version_is_set() {
    let next = set_json_version("{\"name\": \"oxc-parser\", \"version\": \"0.1.0\"}", "0.2.0").unwrap();
    let value: serde_json::Value = serde_json::from_str(&next).unwrap();
    assert_eq!(value["version"], "0.2.0");
    assert_eq!(value["name"], "oxc-parser");
    let next = set_json_version("{\"name\": \"x\"}", "3.0.0").unwrap();
    let value: serde_json::Value = serde_json::from_str(&next).unwrap();
    assert_eq!(value["version"], "3.0.0");
    assert!(next.contains('\n'));
    assert_eq!(set_json_version("nothing", "0.2.0"), Err(ManifestError::Parse));
}

#[test]
fn edit_applies_its_change() {
    let edit = ManifestEdit {
        path: "/ws/npm/package.json".to_string(),
        change: Change::JsonVersion,
        version: "9.9.9".to_string(),
    };
    let next = edit.apply("{\"name\": \"x\", \"version\": \"1.0.0\"}").unwrap();
    assert!(next.contains("\"9.9.9\""));
    assert!(!next.contains("\"1.0.0\""));
    let edit = ManifestEdit {
        path: "/ws/Cargo.toml".to_string(),
        change: Change::PackageVersion,
        version: "9.9.9".to_string(),
    };
    assert_eq!(edit.apply("x = ["), Err(ManifestError::Parse));
}

#[test]
fn content_is_read_by_file_name() {
    let cargo = VersionedContent::read("/ws/crates/oxc_ast/Cargo.toml", PACKAGE, &vec![]).unwrap();
    assert!(matches!(cargo, VersionedContent::Cargo(_)));
    assert_eq!(cargo.versioned_packages().len(), 1);
    let json = VersionedContent::read("/ws/npm/package.json", "{\"name\": \"x\"}", &vec![]).unwrap();
    assert!(matches!(json, VersionedContent::PackageJson(_)));
    assert_eq!(json.versioned_packages()[0].name, "x");
    assert!(matches!(
        VersionedContent::read("/ws/setup.py", "", &vec![]),
        Err(ManifestError::Unrecognized)
    ));
    assert!(matches!(VersionedContent::read("/ws/", "", &vec![]), Err(ManifestError::NoFileName)));
    assert!(matches!(
        VersionedContent::read("/ws/Cargo.toml", "[[[", &vec![]),
        Err(ManifestError::Parse)
    ));
}

#[test]
fn content_that_was_not_read_governs_nothing() {
    let nothing = VersionedContent::default();
    assert!(matches!(nothing, VersionedContent::Nothing));
    assert!(nothing.versioned_packages().is_empty());
    assert!(nothing.update_version("1.0.0").is_empty());
}

fn release_set(name: &str) -> ReleaseSet {
    let members = vec![member("oxc_ast", true), member("oxc_parser", true)];
    ReleaseSet {
        name: name.to_string(),
        scopes_for_breaking_change: None,
        versioned_files: vec![
            VersionedFile {
                path: "Cargo.toml".to_string(),
                content: VersionedContent::read("/ws/Cargo.toml", WORKSPACE, &members).unwrap(),
            },
            VersionedFile {
                path: "npm/package.json".to_string(),
                content: VersionedContent::read("/ws/npm/package.json", "{\"name\": \"oxc-parser\"}", &vec![]).unwrap(),
            },
        ],
    }
}

#[test]
fn release_set_gathers_packages_file_by_file() {
    let set = release_set("crates");
    let names: Vec<String> = set.versioned_packages().iter().map(|p| p.name.clone()).collect();
    assert_eq!(names, vec!["oxc_ast", "oxc_parser", "oxc-parser"]);
}

#[test]
fn release_set_gathers_edits_file_by_file() {
    let set = release_set("crates");
    let edits = set.update_version("0.2.0");
    let paths: Vec<&str> = edits.iter().map(|e| e.path.as_str()).collect();
    assert_eq!(
        paths,
        vec![
            "/ws/Cargo.toml",
            "/ws/crates/oxc_ast/Cargo.toml",
            "/ws/crates/oxc_parser/Cargo.toml",
            "/ws/npm/package.json",
        ]
    );
    assert!(edits.iter().all(|e| e.version == "0.2.0"));
}

#[test]
fn commits_range_starts_at_the_release_tag() {
    let set = release_set("crates");
    assert_eq!(set.commits_range("0.30.1"), "crates_v0.30.1..HEAD");
    assert_eq!(release_set("").commits_range(""), "_v..HEAD");
}

#[test]
fn get_release_finds_the_first_of_a_name() {
    let mut first = release_set("crates");
    first.scopes_for_breaking_change = Some(vec!["first".to_string()]);
    let config = ReleaseConfig { release_sets: vec![release_set("npm"), first, release_set("crates")] };
    let found = config.get_release("crates").unwrap();
    assert_eq!(found.name, "crates");
    assert_eq!(found.scopes_for_breaking_change, Some(vec!["first".to_string()]));
}

#[test]
fn get_release_fails_without_the_name() {
    let config = ReleaseConfig { release_sets: vec![release_set("npm")] };
    assert!(matches!(config.get_release("crates"), Err(ConfigError::ReleaseNotFound)));
    let empty = ReleaseConfig { release_sets: vec![] };
    assert!(matches!(empty.get_release(""), Err(ConfigError::ReleaseNotFound)));
}
