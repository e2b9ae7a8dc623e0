use vstd::prelude::*;

verus! {

// The plan edit step blocks on an external, user-driven editor process.
// The engine only depends on this interface: text goes out, edited text
// comes back, or the edit is abandoned. Running the process is outside
// the library; implementations live with the caller.
#[derive(Debug, PartialEq, Eq)]
pub enum EditorError {
    CannotEdit(&'static str),
}

/// The user interface the engine hands a plan to.
pub trait Editor {
    /// Let the user edit the given content, with the given help text
    /// appended; returns the edited content.
    fn edit(&self, content: String, footer: &'static str) -> Result<String, EditorError>;
}

/// An editor taken from the repository configuration: the command to run
/// on the plan file.
#[derive(Debug, PartialEq, Eq)]
pub struct GitEditor {
    pub editor: String,
}

impl GitEditor {
    pub fn new(editor: String) -> (r: GitEditor)
        ensures
            r.editor@ == editor@,
    {
        GitEditor { editor }
    }
}

/// A terminal editor: the configured command, run on a temporary file.
#[derive(Debug, PartialEq, Eq)]
pub struct Terminal {
    pub command: String,
}

impl Terminal {
    pub fn new(config: &crate::config::GitConfig) -> (r: Terminal)
        ensures
            r.command@ == config.core.editor@,
    {
        Terminal { command: config.core.editor.clone() }
    }
}

} // verus!
