//! The `cargo publish` call: its arguments, and the verdict on its outcome.
use crate::text::{contains, contains_text};
use vstd::prelude::*;
use vstd::string::*;

verus! {

/// What a finished `cargo` process left behind.
#[derive(Debug)]
pub struct CmdOutput {
    /// The process exited with success.
    pub success: bool,
    /// Everything the process wrote to its error stream.
    pub stderr: String,
}

/// A publish call that did not succeed.
#[derive(Debug)]
pub struct PublishError {
    pub package: String,
    /// The captured error stream of the call.
    pub diagnostic: String,
}

/// Runs `cargo` in a fixed directory.
#[derive(Debug)]
pub struct CargoCommand {
    current_dir: String,
}

/// A publish call succeeded when the process exited with success, its error
/// stream confirms an upload, and the stream reports no error.
pub open spec fn publish_succeeded(success: bool, stderr: Seq<char>) -> bool {
    success && contains_text(stderr, "Uploading"@) && !contains_text(stderr, "error:"@)
}

/// The arguments of the publish call for a package.
pub open spec fn publish_arguments(package_name: Seq<char>, dry_run: bool) -> Seq<Seq<char>> {
    let always = seq!["--color"@, "always"@, "publish"@, "-p"@, package_name];
    if dry_run {
        always.push("--dry-run"@)
    } else {
        always
    }
}

/// Judges the outcome of publishing `package_name`: the call succeeded only
/// if the process exited with success, its error stream holds `Uploading` and
/// does not hold `error:`. Otherwise the error carries the stream.
pub fn judge_publish(package_name: &str, output: &CmdOutput) -> (r: Result<(), PublishError>)
    ensures
        r is Ok <==> publish_succeeded(output.success, output.stderr@),
        r matches Err(e) ==> e.package@ == package_name@ && e.diagnostic@ == output.stderr@,
{
    if !output.success || !contains(output.stderr.as_str(), "Uploading") || contains(
        output.stderr.as_str(),
        "error:",
    ) {
        return Err(
            PublishError {
                package: String::from_str(package_name),
                diagnostic: output.stderr.clone(),
            },
        );
    }
    Ok(())
}

impl CargoCommand {
    /// The directory in which `cargo` runs.
    pub closed spec fn dir(&self) -> Seq<char> {
        self.current_dir@
    }

    pub fn new(current_dir: String) -> (r: Self)
        ensures
            r.dir() == current_dir@,
    {
        Self { current_dir }
    }

    /// The directory in which `cargo` runs.
    pub fn current_dir(&self) -> (r: &String)
        ensures
            r@ == self.dir(),
    {
        &self.current_dir
    }

    /// The arguments with which `cargo` publishes `package_name`.
    pub fn publish_args(package_name: &str, dry_run: bool) -> (r: Vec<String>)
        ensures
            r@.map_values(|a: String| a@) == publish_arguments(package_name@, dry_run),
    {
        let mut args: Vec<String> = Vec::new();
        args.push(String::from_str("--color"));
        args.push(String::from_str("always"));
        args.push(String::from_str("publish"));
        args.push(String::from_str("-p"));
        args.push(String::from_str(package_name));
        if dry_run {
            args.push(String::from_str("--dry-run"));
        }
        assert(args@.map_values(|a: String| a@) =~= publish_arguments(package_name@, dry_run));
        args
    }

    /// Judges the outcome of publishing `package_name`: the call succeeded
    /// only if the process exited with success, its error stream holds
    /// `Uploading` and does not hold `error:`. Otherwise the error carries
    /// the stream.
    pub fn publish(&self, package_name: &str, output: &CmdOutput) -> (r: Result<(), PublishError>)
        ensures
            r is Ok <==> publish_succeeded(output.success, output.stderr@),
            r matches Err(e) ==> e.package@ == package_name@ && e.diagnostic@ == output.stderr@,
    {
        judge_publish(package_name, output)
    }
}

} // verus!
