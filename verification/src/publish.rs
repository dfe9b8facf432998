//! The publish run: the packages in release order, each one checked (in a
//! dry run), looked up in the registry, and published unless the registry
//! already holds the version.
//!
//! The run itself talks to no one. It says what to do next and is told what
//! came of it.
use crate::cargo_command::{judge_publish, publish_succeeded, CmdOutput, PublishError};
use crate::order::{
    dependency_graph, package_views, release_order, release_order_indices, CycleError, CycleView,
    Package,
};
use crate::graph::has_cycle;
use crate::text::same_text;
use vstd::prelude::*;
use vstd::string::*;

verus! {

/// How far the run has come with one package.
#[derive(Clone, Copy, Debug, PartialEq, Eq, Structural)]
pub enum Stage {
    Pending,
    /// The compile check of a dry run has passed.
    Checked,
    /// The registry does not hold the version; the package is to be published.
    SkipCheck,
    Published,
    /// The registry already holds the version.
    Skipped,
}

/// What the run asks for next. The number is the position of the package in
/// the release order.
#[derive(Clone, Copy, Debug, PartialEq, Eq, Structural)]
pub enum Action {
    /// Compile the package on its own.
    Check(usize),
    /// Ask the registry which versions of the package it holds.
    QueryRegistry(usize),
    /// Call the publish command for the package.
    Publish(usize),
    /// Nothing is left to do.
    Finish,
}

/// What came of the action the run asked for.
#[derive(Debug)]
pub enum Event {
    /// The compile check ended.
    Checked { success: bool, diagnostic: String },
    /// The registry answered with the versions it holds, or could not be
    /// asked.
    Registry { versions: Option<Vec<String>> },
    /// The publish command ended.
    Published { output: CmdOutput },
}

/// Why the run stopped.
#[derive(Debug)]
pub enum PipelineError {
    /// The compile check of a package failed.
    CheckFailed(PublishError),
    /// Publishing a package failed.
    PublishFailed(PublishError),
    /// The event does not answer the action that the run asked for.
    UnexpectedEvent,
}

/// Why no run could be set up.
#[derive(Debug)]
pub enum SetupError {
    /// No package carries the name of the root package.
    RootPackageNotFound,
    /// The packages depend on each other in a circle.
    Cycle(CycleError),
}

/// A publish run over the packages of a release set.
#[derive(Debug)]
pub struct Publish {
    release_name: String,
    packages: Vec<String>,
    version: String,
    dry_run: bool,
    stages: Vec<Stage>,
    current: usize,
    failed: bool,
}

pub open spec fn done(stage: Stage) -> bool {
    stage is Published || stage is Skipped
}

/// The run as a value: the names in release order, the version to publish,
/// and how far each package has come.
pub struct PublishView {
    pub release_name: Seq<char>,
    pub packages: Seq<Seq<char>>,
    pub version: Seq<char>,
    pub dry_run: bool,
    pub stages: Seq<Stage>,
    pub current: int,
    pub failed: bool,
}

pub enum EventView {
    Checked { success: bool, diagnostic: Seq<char> },
    Registry { versions: Option<Seq<Seq<char>>> },
    Published { success: bool, stderr: Seq<char> },
}

pub open spec fn event_view(e: Event) -> EventView {
    match e {
        Event::Checked { success, diagnostic } => EventView::Checked {
            success,
            diagnostic: diagnostic@,
        },
        Event::Registry { versions } => EventView::Registry {
            versions: match versions {
                Some(v) => Some(v@.map_values(|s: String| s@)),
                None => None,
            },
        },
        Event::Published { output } => EventView::Published {
            success: output.success,
            stderr: output.stderr@,
        },
    }
}

impl PublishView {
    /// Every package before the current one is done, the current one is not,
    /// and none after it has been touched.
    pub open spec fn wf(self) -> bool {
        &&& self.stages.len() == self.packages.len()
        &&& self.packages.len() <= usize::MAX
        &&& 0 <= self.current <= self.packages.len()
        &&& forall|i: int| 0 <= i < self.current ==> done(#[trigger] self.stages[i])
        &&& forall|i: int|
            self.current < i < self.stages.len() ==> (#[trigger] self.stages[i]) is Pending
        &&& self.current < self.stages.len() ==> !done(self.stages[self.current])
    }

    /// The run is over: every package is done, or a step failed.
    pub open spec fn over(self) -> bool {
        self.failed || self.current >= self.packages.len()
    }

    /// What to do next.
    pub open spec fn next_action(self) -> Action {
        if self.over() {
            Action::Finish
        } else {
            match self.stages[self.current] {
                Stage::Pending => if self.dry_run {
                    Action::Check(self.current as usize)
                } else {
                    Action::QueryRegistry(self.current as usize)
                },
                Stage::Checked => Action::QueryRegistry(self.current as usize),
                Stage::SkipCheck => Action::Publish(self.current as usize),
                _ => Action::Finish,
            }
        }
    }

    /// The event answers the action asked for.
    pub open spec fn expects(self, e: EventView) -> bool {
        match self.next_action() {
            Action::Check(_) => e is Checked,
            Action::QueryRegistry(_) => e is Registry,
            Action::Publish(_) => e is Published,
            Action::Finish => false,
        }
    }

    /// The stage that the current package reaches by an expected event, or
    /// `None` where the event reports a failure.
    pub open spec fn stage_after(self, e: EventView) -> Option<Stage> {
        match e {
            EventView::Checked { success, .. } => if success {
                Some(Stage::Checked)
            } else {
                None
            },
            EventView::Registry { versions } => if versions matches Some(held)
                && held.contains(self.version) {
                Some(Stage::Skipped)
            } else {
                Some(Stage::SkipCheck)
            },
            EventView::Published { success, stderr } => if publish_succeeded(success, stderr) {
                Some(Stage::Published)
            } else {
                None
            },
        }
    }

    /// The run after an event. An event that was not asked for changes
    /// nothing; a failure stops the run; a package that is done hands over
    /// to the next.
    pub open spec fn step(self, e: EventView) -> PublishView {
        if !self.expects(e) {
            self
        } else {
            match self.stage_after(e) {
                None => PublishView { failed: true, ..self },
                Some(stage) => PublishView {
                    stages: self.stages.update(self.current, stage),
                    current: if done(stage) {
                        self.current + 1
                    } else {
                        self.current
                    },
                    ..self
                },
            }
        }
    }

    /// The position that an action is about, if any.
    pub open spec fn target(a: Action) -> Option<int> {
        match a {
            Action::Check(i) => Some(i as int),
            Action::QueryRegistry(i) => Some(i as int),
            Action::Publish(i) => Some(i as int),
            Action::Finish => None,
        }
    }
}

/// A step keeps the run well formed.
pub proof fn lemma_step_wf(s: PublishView, e: EventView)
    requires
        s.wf(),
    ensures
        s.step(e).wf(),
{
}

/// The run works on the packages strictly in release order: whatever it asks
/// for is about the current package, and every package before that one is
/// published or skipped.
pub proof fn lemma_order_is_kept(s: PublishView)
    requires
        s.wf(),
    ensures
        PublishView::target(s.next_action()) matches Some(k) ==> k == s.current && forall|i: int|
            0 <= i < k ==> done(#[trigger] s.stages[i]),
{
}

/// Where the registry already reports the version, the package goes straight
/// to `Skipped`, and what the run asks for next is not about it.
pub proof fn lemma_published_version_is_skipped(s: PublishView, held: Seq<Seq<char>>)
    requires
        s.wf(),
        s.next_action() is QueryRegistry,
        held.contains(s.version),
    ensures
        s.step(EventView::Registry { versions: Some(held) }).stages[s.current] is Skipped,
        PublishView::target(s.step(EventView::Registry { versions: Some(held) }).next_action())
            != Some(s.current),
{
}

/// A package that is published or skipped stays so, and the run never asks
/// for anything about it again: the publish command is not called for a
/// skipped package.
pub proof fn lemma_done_package_is_left_alone(s: PublishView, e: EventView, i: int)
    requires
        s.wf(),
        0 <= i < s.stages.len(),
        done(s.stages[i]),
    ensures
        s.step(e).stages[i] == s.stages[i],
        PublishView::target(s.next_action()) != Some(i),
        PublishView::target(s.step(e).next_action()) != Some(i),
{
}

/// A run that has just been set up starts with its first package: it asks to
/// check it in a dry run, and to ask the registry for it otherwise.
pub proof fn lemma_fresh_run_starts_at_the_front(s: PublishView)
    requires
        s.wf(),
        s.current == 0,
        !s.failed,
        s.packages.len() > 0,
        forall|i: int| 0 <= i < s.stages.len() ==> (#[trigger] s.stages[i]) is Pending,
    ensures
        s.next_action() == if s.dry_run {
            Action::Check(0)
        } else {
            Action::QueryRegistry(0)
        },
{
}

/// Publishing answers the registry: where a step makes the run ask to
/// publish a package, the run had asked the registry for that package, and
/// the registry did not report the version.
pub proof fn lemma_publish_follows_registry(s: PublishView, e: EventView, k: usize)
    requires
        s.wf(),
        s.next_action() != Action::Publish(k),
        s.step(e).next_action() == Action::Publish(k),
    ensures
        s.next_action() == Action::QueryRegistry(k),
        e matches EventView::Registry { versions } && !(versions matches Some(held)
            && held.contains(s.version)),
{
}

/// In a dry run the check comes first: where a step makes the run ask the
/// registry for a package, the run had asked to check that package, and the
/// check passed. Outside a dry run no check is asked for.
pub proof fn lemma_check_precedes_registry(s: PublishView, e: EventView, k: usize)
    requires
        s.wf(),
    ensures
        !s.dry_run ==> !(s.next_action() is Check),
        s.dry_run && s.next_action() != Action::QueryRegistry(k) && s.step(e).next_action()
            == Action::QueryRegistry(k) ==> s.next_action() == Action::Check(k) && (e matches EventView::Checked {
            success,
            ..
        } && success),
{
}

fn holds_version(versions: &Vec<String>, version: &str) -> (r: bool)
    ensures
        r == versions@.map_values(|s: String| s@).contains(version@),
{
    let ghost held = versions@.map_values(|s: String| s@);
    let mut i: usize = 0;
    while i < versions.len()
        invariant
            held == versions@.map_values(|s: String| s@),
            i <= versions.len(),
            forall|j: int| 0 <= j < i ==> held[j] != version@,
        decreases versions.len() - i,
    {
        assert(held[i as int] == versions@[i as int]@);
        if same_text(versions[i].as_str(), version) {
            return true;
        }
        i += 1;
    }
    false
}

/// The version of the first package called `root`, where there is one.
pub open spec fn root_version(packages: Seq<&Package>, root: Seq<char>, start: int) -> Option<
    Seq<char>,
>
    decreases packages.len() - start,
{
    if start < 0 || start >= packages.len() {
        None
    } else if packages[start].name@ == root {
        Some(packages[start].version@)
    } else {
        root_version(packages, root, start + 1)
    }
}

fn find_root_version(packages: &[&Package], root: &str) -> (r: Option<String>)
    ensures
        match root_version(packages@, root@, 0) {
            Some(v) => r matches Some(s) && s@ == v,
            None => r is None,
        },
{
    let mut i: usize = 0;
    while i < packages.len()
        invariant
            i <= packages.len(),
            root_version(packages@, root@, i as int) == root_version(packages@, root@, 0),
        decreases packages.len() - i,
    {
        if same_text(packages[i].name.as_str(), root) {
            return Some(packages[i].version.clone());
        }
        i += 1;
    }
    None
}

/// Of the first `upto` packages, those that may be published, in order.
pub open spec fn releasable(packages: Seq<Package>, upto: int) -> Seq<Package>
    decreases upto,
{
    if upto <= 0 {
        Seq::empty()
    } else if packages[upto - 1].publishable {
        releasable(packages, upto - 1).push(packages[upto - 1])
    } else {
        releasable(packages, upto - 1)
    }
}

impl View for Publish {
    type V = PublishView;

    closed spec fn view(&self) -> PublishView {
        PublishView {
            release_name: self.release_name@,
            packages: self.packages@.map_values(|s: String| s@),
            version: self.version@,
            dry_run: self.dry_run,
            stages: self.stages@,
            current: self.current as int,
            failed: self.failed,
        }
    }
}

impl Publish {
    /// A run that publishes the packages called `order`, in that order, as
    /// `version`.
    pub fn start(release_name: String, order: Vec<String>, version: String, dry_run: bool) -> (r:
        Publish)
        ensures
            r@.wf(),
            r@.release_name == release_name@,
            r@.packages == order@.map_values(|s: String| s@),
            r@.version == version@,
            r@.dry_run == dry_run,
            r@.current == 0,
            !r@.failed,
            forall|i: int| 0 <= i < r@.stages.len() ==> (#[trigger] r@.stages[i]) is Pending,
    {
        let mut stages: Vec<Stage> = Vec::new();
        let mut i: usize = 0;
        while i < order.len()
            invariant
                i <= order.len(),
                stages.len() == i,
                forall|j: int| 0 <= j < i ==> (#[trigger] stages[j]) is Pending,
            decreases order.len() - i,
        {
            stages.push(Stage::Pending);
            i += 1;
        }
        Publish {
            release_name,
            packages: order,
            version,
            dry_run,
            stages,
            current: 0,
            failed: false,
        }
    }

    /// The packages of the workspace that may be published, in the order
    /// given.
    pub fn get_packages<'a>(packages: &'a Vec<Package>) -> (r: Vec<&'a Package>)
        ensures
            r@.map_values(|p: &Package| *p) == releasable(packages@, packages@.len() as int),
    {
        let mut found: Vec<&'a Package> = Vec::new();
        let mut i: usize = 0;
        assert(found@.map_values(|p: &Package| *p) =~= releasable(packages@, 0));
        while i < packages.len()
            invariant
                i <= packages.len(),
                found@.map_values(|p: &Package| *p) == releasable(packages@, i as int),
            decreases packages.len() - i,
        {
            if packages[i].publishable {
                assert(found@.push(&packages[i as int]).map_values(|p: &Package| *p)
                    =~= found@.map_values(|p: &Package| *p).push(packages@[i as int]));
                found.push(&packages[i]);
            }
            i += 1;
        }
        found
    }

    /// A run over the releasable packages of a workspace: in release order,
    /// each as the version of the package called `root_package`. Fails where
    /// no package is so called, or where the packages depend on each other
    /// in a circle.
    pub fn new(release_name: &str, packages: &[&Package], root_package: &str, dry_run: bool) -> (r:
        Result<Publish, SetupError>)
        ensures
            match r {
                Ok(run) => {
                    &&& run@.wf()
                    &&& run@.current == 0
                    &&& !run@.failed
                    &&& forall|i: int|
                        0 <= i < run@.stages.len() ==> (#[trigger] run@.stages[i]) is Pending
                    &&& run@.dry_run == dry_run
                    &&& run@.release_name == release_name@
                    &&& root_version(packages@, root_package@, 0) == Some(run@.version)
                    &&& release_order_indices(package_views(packages@)) matches Ok(order)
                    &&& run@.packages.len() == order.len()
                    &&& forall|i: int|
                        0 <= i < order.len() ==> 0 <= #[trigger] order[i] < packages@.len()
                            && run@.packages[i] == packages@[order[i]].name@
                },
                Err(SetupError::RootPackageNotFound) => root_version(packages@, root_package@, 0)
                    is None,
                Err(SetupError::Cycle(e)) => {
                    &&& root_version(packages@, root_package@, 0) is Some
                    &&& has_cycle(dependency_graph(package_views(packages@)))
                    &&& release_order_indices(package_views(packages@)) matches Err((a, b))
                    &&& 0 <= a < packages@.len()
                    &&& 0 <= b < packages@.len()
                    &&& e@ == CycleView { from: packages@[a].name@, to: packages@[b].name@ }
                },
            },
    {
        let version = match find_root_version(packages, root_package) {
            Some(v) => v,
            None => {
                return Err(SetupError::RootPackageNotFound);
            },
        };
        let ordered = match release_order(packages) {
            Ok(o) => o,
            Err(e) => {
                return Err(SetupError::Cycle(e));
            },
        };
        let ghost order = release_order_indices(package_views(packages@))->Ok_0;
        let mut names: Vec<String> = Vec::new();
        let mut i: usize = 0;
        while i < ordered.len()
            invariant
                i <= ordered.len(),
                names.len() == i,
                forall|j: int| 0 <= j < i ==> (#[trigger] names@[j])@ == ordered@[j].name@,
            decreases ordered.len() - i,
        {
            names.push(ordered[i].name.clone());
            i += 1;
        }
        let run = Publish::start(String::from_str(release_name), names, version, dry_run);
        assert forall|i: int| 0 <= i < order.len() implies 0 <= #[trigger] order[i] < packages@.len()
            && run@.packages[i] == packages@[order[i]].name@ by {
            assert(names@.map_values(|s: String| s@)[i] == names@[i]@);
        }
        Ok(run)
    }

    /// The name of the package at a position of the release order.
    pub fn package(&self, i: usize) -> (r: &String)
        requires
            i < self@.packages.len(),
        ensures
            r@ == self@.packages[i as int],
    {
        &self.packages[i]
    }

    /// The version that the run publishes.
    pub fn version(&self) -> (r: &String)
        ensures
            r@ == self@.version,
    {
        &self.version
    }

    /// Whether the run publishes without uploading.
    pub fn dry_run(&self) -> (r: bool)
        ensures
            r == self@.dry_run,
    {
        self.dry_run
    }

    /// What to do next.
    pub fn next_action(&self) -> (r: Action)
        requires
            self@.wf(),
        ensures
            r == self@.next_action(),
            PublishView::target(r) matches Some(k) ==> k < self@.packages.len(),
    {
        if self.failed || self.current >= self.packages.len() {
            return Action::Finish;
        }
        match self.stages[self.current] {
            Stage::Pending => if self.dry_run {
                Action::Check(self.current)
            } else {
                Action::QueryRegistry(self.current)
            },
            Stage::Checked => Action::QueryRegistry(self.current),
            Stage::SkipCheck => Action::Publish(self.current),
            _ => Action::Finish,
        }
    }

    /// Takes in what came of the action asked for. A failed check or a failed
    /// publish call stops the run, and the error carries what the command
    /// wrote; an event that was not asked for is refused and changes nothing.
    pub fn on_event(&mut self, event: Event) -> (r: Result<(), PipelineError>)
        requires
            old(self)@.wf(),
        ensures
            final(self)@.wf(),
            final(self)@ == old(self)@.step(event_view(event)),
            !old(self)@.expects(event_view(event)) ==> r is Err && r->Err_0 is UnexpectedEvent,
            old(self)@.expects(event_view(event)) ==> match old(self)@.stage_after(
                event_view(event),
            ) {
                Some(_) => r is Ok,
                None => match r {
                    Err(PipelineError::CheckFailed(e)) => event matches Event::Checked {
                        diagnostic,
                        ..
                    } && e.diagnostic@ == diagnostic@ && e.package@ == old(
                        self,
                    )@.packages[old(self)@.current],
                    Err(PipelineError::PublishFailed(e)) => event matches Event::Published {
                        output,
                    } && e.diagnostic@ == output.stderr@ && e.package@ == old(
                        self,
                    )@.packages[old(self)@.current],
                    _ => false,
                },
            },
    {
        let action = self.next_action();
        let ghost before = self@;
        assert(before.packages.len() == self.packages.len());
        let ghost e = event_view(event);
        proof {
            lemma_step_wf(before, e);
        }
        match (action, event) {
            (Action::Check(i), Event::Checked { success, diagnostic }) => {
                if success {
                    self.stages.set(i, Stage::Checked);
                    assert(self@ == before.step(e));
                    Ok(())
                } else {
                    self.failed = true;
                    assert(self@ == before.step(e));
                    assert(before.packages[i as int] == self.packages@[i as int]@);
                    Err(
                        PipelineError::CheckFailed(
                            PublishError { package: self.packages[i].clone(), diagnostic },
                        ),
                    )
                }
            },
            (Action::QueryRegistry(i), Event::Registry { versions }) => {
                let held = match &versions {
                    Some(v) => holds_version(v, self.version.as_str()),
                    None => false,
                };
                if held {
                    self.stages.set(i, Stage::Skipped);
                    self.current = i + 1;
                } else {
                    self.stages.set(i, Stage::SkipCheck);
                }
                assert(self@ == before.step(e));
                Ok(())
            },
            (Action::Publish(i), Event::Published { output }) => {
                assert(before.packages[i as int] == self.packages@[i as int]@);
                match judge_publish(self.packages[i].as_str(), &output) {
                    Ok(()) => {
                        self.stages.set(i, Stage::Published);
                        self.current = i + 1;
                        assert(self@ == before.step(e));
                        Ok(())
                    },
                    Err(error) => {
                        self.failed = true;
                        assert(self@ == before.step(e));
                        Err(PipelineError::PublishFailed(error))
                    },
                }
            },
            _ => Err(PipelineError::UnexpectedEvent),
        }
    }

    /// The tag that names what the run published: `<release>_v<version>`.
    pub fn version_tag(&self) -> (r: String)
        ensures
            r@ == self@.release_name + "_v"@ + self@.version,
    {
        let mut r = self.release_name.clone();
        r.append("_v");
        r.append(self.version.as_str());
        r
    }
}

} // verus!
