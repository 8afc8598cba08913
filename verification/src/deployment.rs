//! The deployment descriptor: one version of a user function, with the
//! hostnames it answers on, its static assets and the limits its isolate
//! runs under.

use crate::table::{texts, StrTable};
use crate::text::{clone_strings, contains_str, str_eq};
use vstd::prelude::*;

verus! {

/// What an isolate is built from, apart from the code itself. An isolate
/// built under one set of settings does not serve a deployment with another.
#[derive(Debug)]
pub struct Settings {
    pub code_key: String,
    pub environment_variables: StrTable<String>,
    pub memory_limit: u64,
    pub timeout: u64,
}

#[verifier::ext_equal]
pub struct SettingsView {
    pub code_key: Seq<char>,
    pub environment_variables: Map<Seq<char>, Seq<char>>,
    pub memory_limit: u64,
    pub timeout: u64,
}

impl View for Settings {
    type V = SettingsView;

    open spec fn view(&self) -> SettingsView {
        SettingsView {
            code_key: self.code_key@,
            environment_variables: texts(self.environment_variables@),
            memory_limit: self.memory_limit,
            timeout: self.timeout,
        }
    }
}

/// The two labels that every metric of a request carries.
#[derive(Debug)]
pub struct Labels {
    pub deployment: String,
    pub function: String,
}

pub struct LabelsView {
    pub deployment: Seq<char>,
    pub function: Seq<char>,
}

impl View for Labels {
    type V = LabelsView;

    open spec fn view(&self) -> LabelsView {
        LabelsView { deployment: self.deployment@, function: self.function@ }
    }
}

/// A deployment descriptor.
#[derive(Debug)]
pub struct Deployment {
    /// Stable identifier of the deployment.
    pub id: String,
    /// The function that this deployment is a version of.
    pub function_id: String,
    /// The hostnames that resolve to this deployment.
    pub hostnames: Vec<String>,
    /// The relative paths served as static content.
    pub assets: Vec<String>,
    /// The environment handed to the isolate.
    pub environment_variables: StrTable<String>,
    /// The memory ceiling of the isolate.
    pub memory_limit: u64,
    /// The time allowed to one request, in milliseconds.
    pub timeout: u64,
    /// Where the blob store keeps the compiled script bundle.
    pub code_key: String,
}

#[verifier::ext_equal]
pub struct DeploymentView {
    pub id: Seq<char>,
    pub function_id: Seq<char>,
    pub hostnames: Seq<Seq<char>>,
    pub assets: Seq<Seq<char>>,
    pub environment_variables: Map<Seq<char>, Seq<char>>,
    pub memory_limit: u64,
    pub timeout: u64,
    pub code_key: Seq<char>,
}

impl DeploymentView {
    /// The settings under which an isolate of this deployment is built.
    pub open spec fn settings(self) -> SettingsView {
        SettingsView {
            code_key: self.code_key,
            environment_variables: self.environment_variables,
            memory_limit: self.memory_limit,
            timeout: self.timeout,
        }
    }

    /// The labels of the metrics of a request that this deployment answers.
    pub open spec fn labels(self) -> LabelsView {
        LabelsView { deployment: self.id, function: self.function_id }
    }

    /// Whether the deployment serves `path` as a static asset: the path has
    /// to equal one of the asset paths, character for character.
    pub open spec fn has_asset(self, path: Seq<char>) -> bool {
        self.assets.contains(path)
    }
}

impl View for Deployment {
    type V = DeploymentView;

    open spec fn view(&self) -> DeploymentView {
        DeploymentView {
            id: self.id@,
            function_id: self.function_id@,
            hostnames: self.hostnames.deep_view(),
            assets: self.assets.deep_view(),
            environment_variables: texts(self.environment_variables@),
            memory_limit: self.memory_limit,
            timeout: self.timeout,
            code_key: self.code_key@,
        }
    }
}

impl Clone for Deployment {
    fn clone(&self) -> (copy: Self)
        ensures
            copy@ == self@,
    {
        Deployment {
            id: self.id.clone(),
            function_id: self.function_id.clone(),
            hostnames: clone_strings(&self.hostnames),
            assets: clone_strings(&self.assets),
            environment_variables: self.environment_variables.duplicate(),
            memory_limit: self.memory_limit,
            timeout: self.timeout,
            code_key: self.code_key.clone(),
        }
    }
}

impl Deployment {
    /// Whether `path` is one of the deployment's assets.
    pub fn has_asset(&self, path: &str) -> (found: bool)
        ensures
            found == self@.has_asset(path@),
    {
        contains_str(&self.assets, path)
    }

    /// The settings under which an isolate of this deployment is built.
    pub fn settings(&self) -> (settings: Settings)
        ensures
            settings@ == self@.settings(),
    {
        Settings {
            code_key: self.code_key.clone(),
            environment_variables: self.environment_variables.duplicate(),
            memory_limit: self.memory_limit,
            timeout: self.timeout,
        }
    }

    /// The labels of the metrics of a request that this deployment answers.
    pub fn labels(&self) -> (labels: Labels)
        ensures
            labels@ == self@.labels(),
    {
        Labels { deployment: self.id.clone(), function: self.function_id.clone() }
    }

    /// Whether an isolate built for `self` can serve `other`: the code, the
    /// environment and both limits are the same.
    pub fn same_settings(&self, other: &Deployment) -> (same: bool)
        ensures
            same == (self@.settings() == other@.settings()),
    {
        str_eq(self.code_key.as_str(), other.code_key.as_str())
            && self.memory_limit == other.memory_limit && self.timeout == other.timeout
            && self.environment_variables.agrees_with(&other.environment_variables)
    }
}

} // verus!
