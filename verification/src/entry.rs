//! The database entry type, its mathematical view, and entry construction.

use vstd::prelude::*;

verus! {

/// Mathematical model of one compilation database entry.
pub ghost struct EntryView {
    pub directory: Seq<char>,
    pub arguments: Seq<Seq<char>>,
    pub file: Seq<char>,
}

/// One record of a compilation database: the working directory, the exact
/// argument vector of a compiler invocation, and the source file compiled,
/// which is by construction the last argument.
pub struct CompDbEntry {
    pub directory: String,
    pub arguments: Vec<String>,
    pub file: String,
}

/// An ordered sequence of entries; duplicates are legal and preserved.
pub type CompDb = Vec<CompDbEntry>;

impl View for CompDbEntry {
    type V = EntryView;

    open spec fn view(&self) -> EntryView {
        EntryView {
            directory: self.directory@,
            arguments: self.arguments.deep_view(),
            file: self.file@,
        }
    }
}

impl DeepView for CompDbEntry {
    type V = EntryView;

    open spec fn deep_view(&self) -> EntryView {
        self.view()
    }
}

/// A well-formed entry has a non-empty argument vector whose last element
/// is recorded as the source file.
pub open spec fn entry_wf(e: EntryView) -> bool {
    &&& e.arguments.len() > 0
    &&& e.file == e.arguments.last()
}

/// Every failure the pipeline can report; all of them are fatal.
#[derive(Clone, Copy, Debug, PartialEq, Eq, Structural)]
pub enum Error {
    /// A required parameter for the selected mode is missing.
    Configuration,
    /// Unterminated quoting or a trailing escape in a command string.
    Tokenize,
    /// A tokenized command yielded no arguments, so no file value exists.
    EntryConstruction,
}

/// The entry built from a non-empty token vector and a working directory.
pub open spec fn built_entry(tokens: Seq<Seq<char>>, directory: Seq<char>) -> EntryView
    recommends
        tokens.len() > 0,
{
    EntryView { directory: directory, arguments: tokens, file: tokens.last() }
}

/// Builds one database entry from a token vector and a working directory.
/// The directory and the tokens are taken verbatim; the file is the last
/// token. An empty token vector yields no file value and is rejected.
pub fn build_entry(arguments: Vec<String>, directory: String) -> (r: Result<CompDbEntry, Error>)
    ensures
        arguments.deep_view().len() > 0 ==> {
            &&& r is Ok
            &&& r->Ok_0@ == built_entry(arguments.deep_view(), directory@)
            &&& entry_wf(r->Ok_0@)
        },
        arguments.deep_view().len() == 0 ==> r == Err::<CompDbEntry, Error>(Error::EntryConstruction),
{
    if arguments.len() == 0 {
        Err(Error::EntryConstruction)
    } else {
        let file = arguments[arguments.len() - 1].clone();
        assert(file@ == arguments.deep_view().last());
        Ok(CompDbEntry { directory, arguments, file })
    }
}

} // verus!
