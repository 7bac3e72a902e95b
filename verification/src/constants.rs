//! Enumerations shared by the whole crate.
use vstd::prelude::*;

verus! {

/// Position of a symbol in the symbol table. A symbol that was dropped leaves its
/// position empty, so a position may outlive its symbol.
pub type SymbolId = usize;

/// Position of a model in the model table.
pub type ModelId = usize;

/// What a symbol stands for.
#[allow(non_camel_case_types)]
#[derive(Clone, Copy, Debug, PartialEq, Eq, Structural)]
pub enum SymType {
    ROOT,
    DISK_DIR,
    NAMESPACE,
    PACKAGE,
    FILE,
    COMPILED,
    VARIABLE,
    CLASS,
    FUNCTION,
    XML_FILE,
    CSV_FILE,
}

/// The sequential steps of a build.
#[allow(non_camel_case_types)]
#[derive(Clone, Copy, Debug, PartialEq, Eq, Structural)]
pub enum BuildSteps {
    SYNTAX,
    ARCH,
    ARCH_EVAL,
    VALIDATION,
}

/// How far a build step of a symbol has come.
#[allow(non_camel_case_types)]
#[derive(Clone, Copy, Debug, PartialEq, Eq, Structural)]
pub enum BuildStatus {
    PENDING,
    IN_PROGRESS,
    INVALID,
    DONE,
}

/// How a file came to be known to the server.
#[derive(Clone, Copy, Debug, PartialEq, Eq, Structural)]
pub enum EntryPointType {
    MAIN,
    BUILTIN,
    PUBLIC,
    ADDON,
    CUSTOM,
}

impl EntryPointType {
    /// Whether files of such an entry point take part in the project proper.
    pub open spec fn is_project(self) -> bool {
        self == EntryPointType::MAIN || self == EntryPointType::ADDON
    }
}

/// Importance of a message for the client's log.
#[derive(Clone, Copy, Debug, PartialEq, Eq, Structural)]
pub enum MessageType {
    ERROR,
    WARNING,
    INFO,
    LOG,
}

} // verus!
