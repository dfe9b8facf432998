use cargo_release_oxc::cargo_command::{judge_publish, CargoCommand, CmdOutput};
use cargo_release_oxc::order::{Dependency, DependencyKind, Package};
use cargo_release_oxc::publish::{Action, Event, PipelineError, Publish, SetupError};

fn package(name: &str, version: &str, publishable: bool, deps: &[&str]) -> Package {
    Package {
        name: name.to_string(),
        version: version.to_string(),
        root_dir: format!("/ws/{name}"),
        manifest_path: format!("/ws/{name}/Cargo.toml"),
        publishable,
        dependencies: deps
            .iter()
            .map(|n| Dependency {
                name: n.to_string(),
                kind: DependencyKind::Normal,
                feature_gated: false,
            })
            .collect(),
    }
}

fn uploaded() -> CmdOutput {
    CmdOutput { success: true, stderr: "   Packaging x\n   Uploading x v1.2.3".to_string() }
}

fn run_of(names: &[&str], dry_run: bool) -> Publish {
    Publish::start(
        "oxc".to_string(),
        names.iter().map(|n| n.to_string()).collect(),
        "1.2.3".to_string(),
        dry_run,
    )
}

fn versions(held: &[&str]) -> Event {
    Event::Registry { versions: Some(held.iter().map(|v| v.to_string()).collect()) }
}

#[test]
fn publish_arguments() {
    assert_eq!(
        CargoCommand::publish_args("oxc_ast", false),
        vec!["--color", "always", "publish", "-p", "oxc_ast"]
    );
    assert_eq!(
        CargoCommand::publish_args("oxc_ast", true),
        vec!["--color", "always", "publish", "-p", "oxc_ast", "--dry-run"]
    );
}

#[test]
fn cargo_command_keeps_its_directory() {
    let cargo = CargoCommand::new("/ws".to_string());
    assert_eq!(cargo.current_dir(), "/ws");
}

#[test]
fn publish_needs_success_upload_and_no_error() {
    let cargo = CargoCommand::new("/ws".to_string());
    assert!(cargo.publish("a", &uploaded()).is_ok());
    let failed = CmdOutput { success: false, stderr: "   Uploading a v1.2.3".to_string() };
    assert!(cargo.publish("a", &failed).is_err());
    let silent = CmdOutput { success: true, stderr: "   Packaging a".to_string() };
    assert!(cargo.publish("a", &silent).is_err());
    let both = CmdOutput { success: true, stderr: "   Uploading a\nerror: denied".to_string() };
    assert!(cargo.publish("a", &both).is_err());
    let nothing = CmdOutput { success: false, stderr: String::new() };
    assert!(cargo.publish("a", &nothing).is_err());
}

#[test]
fn publish_error_carries_package_and_stream() {
    let both = CmdOutput { success: true, stderr: "   Uploading a\nerror: denied".to_string() };
    let error = judge_publish("oxc_ast", &both).unwrap_err();
    assert_eq!(error.package, "oxc_ast");
    assert_eq!(error.diagnostic, "   Uploading a\nerror: denied");
}

#[test]
fn run_publishes_in_order() {
    let mut run = run_of(&["a", "b"], false);
    assert_eq!(run.next_action(), Action::QueryRegistry(0));
    assert_eq!(run.package(0), "a");
    assert!(run.on_event(versions(&["1.0.0", "1.2.2"])).is_ok());
    assert_eq!(run.next_action(), Action::Publish(0));
    assert!(run.on_event(Event::Published { output: uploaded() }).is_ok());
    assert_eq!(run.next_action(), Action::QueryRegistry(1));
    assert!(run.on_event(Event::Registry { versions: None }).is_ok());
    assert_eq!(run.next_action(), Action::Publish(1));
    assert!(run.on_event(Event::Published { output: uploaded() }).is_ok());
    assert_eq!(run.next_action(), Action::Finish);
}

#[test]
fn published_version_is_skipped_without_a_publish_call() {
    let mut run = run_of(&["a", "b"], false);
    assert_eq!(run.next_action(), Action::QueryRegistry(0));
    assert!(run.on_event(versions(&["1.2.2", "1.2.3"])).is_ok());
    assert_eq!(run.next_action(), Action::QueryRegistry(1));
    assert!(run.on_event(versions(&["1.2.3"])).is_ok());
    assert_eq!(run.next_action(), Action::Finish);
}

#[test]
fn dry_run_checks_each_package_first() {
    let mut run = run_of(&["a"], true);
    assert!(run.dry_run());
    assert_eq!(run.next_action(), Action::Check(0));
    assert!(run.on_event(Event::Checked { success: true, diagnostic: String::new() }).is_ok());
    assert_eq!(run.next_action(), Action::QueryRegistry(0));
    assert!(run.on_event(versions(&[])).is_ok());
    assert_eq!(run.next_action(), Action::Publish(0));
    assert!(run.on_event(Event::Published { output: uploaded() }).is_ok());
    assert_eq!(run.next_action(), Action::Finish);
}

#[test]
fn failed_check_stops_the_run() {
    let mut run = run_of(&["a", "b"], true);
    let result = run.on_event(Event::Checked { success: false, diagnostic: "error[E0432]".to_string() });
    match result {
        Err(PipelineError::CheckFailed(e)) => {
            assert_eq!(e.package, "a");
            assert_eq!(e.diagnostic, "error[E0432]");
        }
        _ => panic!("the check failed"),
    }
    assert_eq!(run.next_action(), Action::Finish);
}

#[test]
fn failed_publish_stops_the_run() {
    let mut run = run_of(&["a", "b"], false);
    assert!(run.on_event(versions(&[])).is_ok());
    let output = CmdOutput { success: false, stderr: "error: network".to_string() };
    match run.on_event(Event::Published { output }) {
        Err(PipelineError::PublishFailed(e)) => {
            assert_eq!(e.package, "a");
            assert_eq!(e.diagnostic, "error: network");
        }
        _ => panic!("publishing failed"),
    }
    assert_eq!(run.next_action(), Action::Finish);
    assert!(matches!(run.on_event(versions(&[])), Err(PipelineError::UnexpectedEvent)));
}

#[test]
fn event_that_was_not_asked_for_changes_nothing() {
    let mut run = run_of(&["a"], false);
    let result = run.on_event(Event::Published { output: uploaded() });
    assert!(matches!(result, Err(PipelineError::UnexpectedEvent)));
    assert_eq!(run.next_action(), Action::QueryRegistry(0));
    let result = run.on_event(Event::Checked { success: true, diagnostic: String::new() });
    assert!(matches!(result, Err(PipelineError::UnexpectedEvent)));
    assert_eq!(run.next_action(), Action::QueryRegistry(0));
}

#[test]
fn empty_run_is_finished() {
    let run = run_of(&[], false);
    assert_eq!(run.next_action(), Action::Finish);
    assert_eq!(run.version_tag(), "oxc_v1.2.3");
    assert_eq!(run.version(), "1.2.3");
}

#[test]
fn new_orders_packages_and_takes_the_root_version() {
    let oxc = package("oxc", "0.30.1", true, &["oxc_ast", "oxc_parser"]);
    let ast = package("oxc_ast", "0.30.1", true, &[]);
    let parser = package("oxc_parser", "0.30.1", true, &["oxc_ast"]);
    let input = vec![&oxc, &ast, &parser];
    let run = Publish::new("crates", &input, "oxc", true).unwrap();
    assert_eq!(run.version(), "0.30.1");
    assert_eq!(run.version_tag(), "crates_v0.30.1");
    assert_eq!(run.package(0), "oxc_ast");
    assert_eq!(run.package(1), "oxc_parser");
    assert_eq!(run.package(2), "oxc");
    assert_eq!(run.next_action(), Action::Check(0));
}

#[test]
fn new_needs_the_root_package() {
    let ast = package("oxc_ast", "0.30.1", true, &[]);
    let input = vec![&ast];
    assert!(matches!(Publish::new("crates", &input, "oxc", false), Err(SetupError::RootPackageNotFound)));
}

#[test]
fn new_refuses_cycles() {
    let oxc = package("oxc", "0.30.1", true, &["oxc_ast"]);
    let ast = package("oxc_ast", "0.30.1", true, &["oxc"]);
    let input = vec![&oxc, &ast];
    assert!(matches!(Publish::new("crates", &input, "oxc", false), Err(SetupError::Cycle(_))));
}

#[test]
fn only_publishable_packages_are_released() {
    let packages = vec![
        package("a", "1.0.0", true, &[]),
        package("internal", "1.0.0", false, &[]),
        package("b", "1.0.0", true, &[]),
    ];
    let found = Publish::get_packages(&packages);
    let names: Vec<&str> = found.iter().map(|p| p.name.as_str()).collect();
    assert_eq!(names, vec!["a", "b"]);
}
