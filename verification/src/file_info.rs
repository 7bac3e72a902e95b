//! What is known of a file beside its symbols.
use vstd::prelude::*;

use crate::constants::BuildSteps;
use crate::diagnostics::{diagnostic_views, Diagnostic, DiagnosticView};

verus! {

/// Diagnostics, apart for each build step.
pub struct StepDiagnostics {
    pub syntax: Option<Vec<Diagnostic>>,
    pub arch: Option<Vec<Diagnostic>>,
    pub arch_eval: Option<Vec<Diagnostic>>,
    pub validation: Option<Vec<Diagnostic>>,
}

impl StepDiagnostics {
    /// The diagnostics of one step, if that step has left any list.
    pub open spec fn at(self, step: BuildSteps) -> Option<Seq<DiagnosticView>> {
        let list = match step {
            BuildSteps::SYNTAX => self.syntax,
            BuildSteps::ARCH => self.arch,
            BuildSteps::ARCH_EVAL => self.arch_eval,
            BuildSteps::VALIDATION => self.validation,
        };
        match list {
            Some(list) => Some(diagnostic_views(list@)),
            None => None,
        }
    }

    /// No list for any step.
    pub fn new() -> (r: StepDiagnostics)
        ensures
            forall|step: BuildSteps| r.at(step) is None,
    {
        StepDiagnostics { syntax: None, arch: None, arch_eval: None, validation: None }
    }

    /// Stores the diagnostics of a step in place of its earlier ones.
    pub fn replace(&mut self, step: BuildSteps, diagnostics: Vec<Diagnostic>)
        ensures
            final(self).at(step) == Some(diagnostic_views(diagnostics@)),
            forall|other: BuildSteps| other != step ==> final(self).at(other) == old(self).at(
                other,
            ),
    {
        match step {
            BuildSteps::SYNTAX => {
                self.syntax = Some(diagnostics);
            },
            BuildSteps::ARCH => {
                self.arch = Some(diagnostics);
            },
            BuildSteps::ARCH_EVAL => {
                self.arch_eval = Some(diagnostics);
            },
            BuildSteps::VALIDATION => {
                self.validation = Some(diagnostics);
            },
        }
    }
}

/// A file of the workspace.
pub struct FileInfo {
    pub uri: String,
    pub diagnostics: StepDiagnostics,
}

impl FileInfo {
    /// A file without diagnostics.
    pub fn new(uri: String) -> (r: FileInfo)
        ensures
            r.uri == uri,
            forall|step: BuildSteps| r.diagnostics.at(step) is None,
    {
        FileInfo { uri, diagnostics: StepDiagnostics::new() }
    }

    /// Stores the diagnostics of a step in place of its earlier ones.
    pub fn replace_diagnostics(&mut self, step: BuildSteps, diagnostics: Vec<Diagnostic>)
        ensures
            final(self).uri == old(self).uri,
            final(self).diagnostics.at(step) == Some(diagnostic_views(diagnostics@)),
            forall|other: BuildSteps|
                other != step ==> final(self).diagnostics.at(other) == old(self).diagnostics.at(
                    other,
                ),
    {
        self.diagnostics.replace(step, diagnostics);
    }
}

} // verus!
