//! The detection outcome and the environment patch that the build hands to
//! the orchestrator.

use vstd::prelude::*;
use vstd::string::*;
use crate::parse::{EnvEntryView, entries_view, parse_content, parse_env_file};

verus! {

/// Whether an environment modification applies at image build time, at
/// container launch time, or both.
#[derive(Clone, Copy, PartialEq, Eq, Debug)]
pub enum Scope {
    Build,
    Launch,
    All,
}

/// How a modification's value combines with an existing value of the same
/// name in the target environment.
#[derive(Clone, Copy, PartialEq, Eq, Debug)]
pub enum MergePolicy {
    OverwriteDefault,
    Append,
}

/// One modification of the target environment.
#[derive(Clone, Debug, PartialEq, Eq)]
pub struct EnvModification {
    pub name: String,
    pub value: String,
    pub scope: Scope,
    pub policy: MergePolicy,
}

/// The mathematical content of an `EnvModification`.
pub ghost struct EnvModificationView {
    pub name: Seq<char>,
    pub value: Seq<char>,
    pub scope: Scope,
    pub policy: MergePolicy,
}

impl View for EnvModification {
    type V = EnvModificationView;

    open spec fn view(&self) -> EnvModificationView {
        EnvModificationView {
            name: self.name@,
            value: self.value@,
            scope: self.scope,
            policy: self.policy,
        }
    }
}

/// An ordered collection of environment modifications, handed to the
/// orchestrator to be recorded as a layer's environment contribution.
#[derive(Clone, Debug, PartialEq, Eq)]
pub struct EnvironmentPatch {
    pub modifications: Vec<EnvModification>,
}

impl View for EnvironmentPatch {
    type V = Seq<EnvModificationView>;

    open spec fn view(&self) -> Seq<EnvModificationView> {
        self.modifications@.map_values(|m: EnvModification| m@)
    }
}

/// The patch that a sequence of parsed pairs yields: one modification per
/// pair, in order, applied at launch time with the append policy.
pub open spec fn patch_of(entries: Seq<EnvEntryView>) -> Seq<EnvModificationView> {
    entries.map_values(
        |e: EnvEntryView|
            EnvModificationView {
                name: e.name,
                value: e.value,
                scope: Scope::Launch,
                policy: MergePolicy::Append,
            },
    )
}

/// The orchestrator-facing flags of the layer this buildpack creates.
#[derive(Clone, Copy, Debug, PartialEq, Eq)]
pub struct LayerTypes {
    pub build: bool,
    pub launch: bool,
    pub cache: bool,
}

/// The one layer this buildpack contributes: the environment read from the
/// resolved `.env` file.
pub struct DotenvLayer;

impl DotenvLayer {
    /// The layer's static applicability: it contributes at build and launch
    /// time and is never cached.
    pub fn types(&self) -> (t: LayerTypes)
        ensures
            t.build,
            t.launch,
            !t.cache,
    {
        LayerTypes { build: true, launch: true, cache: false }
    }

    /// Build the layer's environment patch from the contents of the
    /// environment file: one launch-scoped, appending modification per
    /// successfully parsed `NAME=VALUE` line, in file order.
    pub fn create(&self, contents: &str) -> (patch: EnvironmentPatch)
        ensures
            patch@ == patch_of(parse_content(contents@)),
    {
        let entries = parse_env_file(contents);
        let n = entries.len();
        let mut modifications: Vec<EnvModification> = Vec::new();
        let mut i: usize = 0;
        while i < n
            invariant
                i <= n,
                n == entries@.len(),
                entries_view(entries@) == parse_content(contents@),
                modifications@.len() == i,
                forall|k: int|
                    0 <= k < i ==> modifications@[k]@ == (EnvModificationView {
                        name: entries@[k]@.name,
                        value: entries@[k]@.value,
                        scope: Scope::Launch,
                        policy: MergePolicy::Append,
                    }),
            decreases n - i,
        {
            let e = &entries[i];
            modifications.push(
                EnvModification {
                    name: e.name.clone(),
                    value: e.value.clone(),
                    scope: Scope::Launch,
                    policy: MergePolicy::Append,
                },
            );
            i = i + 1;
        }
        let patch = EnvironmentPatch { modifications };
        proof {
            assert(patch@ =~= patch_of(parse_content(contents@)));
        }
        patch
    }
}

/// The build plan a passing detection declares: the capabilities it
/// provides and the ones it requires, matched by the orchestrator by exact
/// string equality.
#[derive(Clone, Debug)]
pub struct BuildPlan {
    pub provided: Vec<String>,
    pub required: Vec<String>,
}

/// The outcome of detection: a pass with its build plan, or a fail that
/// makes the orchestrator skip this buildpack's build phase entirely.
#[derive(Clone, Debug)]
pub enum DetectOutcome {
    Pass(BuildPlan),
    Fail,
}

/// The buildpack itself: detection decides from the presence of the
/// environment file; the build turns the file's contents into a layer.
pub struct DotenvBuildpack;

impl DotenvBuildpack {
    /// Decide detection. `env_file_is_present` says whether the resolved
    /// file name exists as a regular file directly under the application
    /// directory. Detection passes exactly then, and the declared plan both
    /// provides and requires the one capability `"dotenv"`, so the buildpack
    /// satisfies its own requirement. Absence is a normal negative outcome,
    /// not an error.
    pub fn detect(&self, env_file_is_present: bool) -> (r: DetectOutcome)
        ensures
            env_file_is_present <==> r is Pass,
            r matches DetectOutcome::Pass(plan) ==> {
                &&& plan.provided@.len() == 1
                &&& plan.provided@[0]@ == "dotenv"@
                &&& plan.required@.len() == 1
                &&& plan.required@[0]@ == "dotenv"@
            },
    {
        if env_file_is_present {
            let mut provided: Vec<String> = Vec::new();
            provided.push(String::from_str("dotenv"));
            let mut required: Vec<String> = Vec::new();
            required.push(String::from_str("dotenv"));
            DetectOutcome::Pass(BuildPlan { provided, required })
        } else {
            DetectOutcome::Fail
        }
    }
}

} // verus!
