use vstd::prelude::*;

pub mod config;
pub mod grammar;
pub mod jsonenc;
pub mod repo;
pub mod shell;
pub mod sync;
pub mod text;

verus! {

/// The failure taxonomy of the library. Every fallible operation reports one
/// of these kinds; server and I/O messages are preserved verbatim.
#[derive(Debug, Clone, PartialEq, Eq)]
pub enum AppError {
    HomeDirUnresolved,
    IoError(String),
    DuplicateName,
    UnsupportedShell,
    AuthMissing,
    ConfigMissing,
    RemoteError(String),
}

/// One shell alias: a short name standing for a command line.
#[derive(Debug, Clone, PartialEq, Eq)]
pub struct Alias {
    pub name: String,
    pub command: String,
}

/// Spec-level image of an [`Alias`]: both fields as character sequences.
pub struct AliasView {
    pub name: Seq<char>,
    pub command: Seq<char>,
}

impl View for Alias {
    type V = AliasView;

    open spec fn view(&self) -> AliasView {
        AliasView { name: self.name@, command: self.command@ }
    }
}

} // verus!
