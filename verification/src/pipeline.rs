//! The pipeline: command strings to database entries, and the two
//! mutually exclusive ingestion modes.

use vstd::prelude::*;
use crate::entry::build_entry;
use crate::entry::built_entry;
use crate::entry::entry_wf;
use crate::entry::CompDb;
use crate::entry::EntryView;
use crate::entry::Error;
use crate::extract::extract_commands_from_lines;
use crate::extract::extracted_of;
use crate::filter::extract_matched_patterns;
use crate::filter::filtered;
use crate::strutil::str_eq;
use crate::tokenize::shell_tokens;
use crate::tokenize::split_command_to_arguments;

verus! {

/// The two input kinds the pipeline accepts, told apart by the input
/// file's extension.
#[derive(Clone, Copy, Debug, PartialEq, Eq, Structural)]
pub enum InputKind {
    BuildLog,
    Database,
}

/// The kind an input file's extension declares: `ninja` is a build log,
/// `json` an existing database, anything else is unsupported.
pub open spec fn kind_of_extension(ext: Seq<char>) -> Option<InputKind> {
    if ext == "ninja"@ {
        Some(InputKind::BuildLog)
    } else if ext == "json"@ {
        Some(InputKind::Database)
    } else {
        None
    }
}

/// Maps an input file's extension to the ingestion mode it selects.
pub fn input_kind(extension: &str) -> (r: Option<InputKind>)
    ensures
        r == kind_of_extension(extension@),
{
    if str_eq(extension, "ninja") {
        Some(InputKind::BuildLog)
    } else if str_eq(extension, "json") {
        Some(InputKind::Database)
    } else {
        None
    }
}

/// The entry one command string yields: its shell tokens as the argument
/// vector, or the error that word splitting or entry construction raises.
pub open spec fn entry_of_command(cmd: Seq<char>, dir: Seq<char>) -> Result<EntryView, Error> {
    match shell_tokens(cmd) {
        Option::None => Err(Error::Tokenize),
        Option::Some(toks) => if toks.len() == 0 {
            Err(Error::EntryConstruction)
        } else {
            Ok(built_entry(toks, dir))
        },
    }
}

/// The database built from command strings in order, all sharing one
/// working directory; the first failing command decides the error.
pub open spec fn database_of(cmds: Seq<Seq<char>>, dir: Seq<char>) -> Result<
    Seq<EntryView>,
    Error,
>
    decreases cmds.len(),
{
    if cmds.len() == 0 {
        Ok(Seq::empty())
    } else {
        match database_of(cmds.drop_last(), dir) {
            Err(e) => Err(e),
            Ok(s) => match entry_of_command(cmds.last(), dir) {
                Err(e) => Err(e),
                Ok(ev) => Ok(s.push(ev)),
            },
        }
    }
}

/// An error in a prefix of the command sequence is the error of the whole
/// sequence.
proof fn lemma_database_of_err_prefix(cmds: Seq<Seq<char>>, dir: Seq<char>, j: int)
    requires
        0 <= j <= cmds.len(),
        database_of(cmds.take(j), dir) is Err,
    ensures
        database_of(cmds, dir) == database_of(cmds.take(j), dir),
    decreases cmds.len() - j,
{
    if j == cmds.len() {
        assert(cmds.take(j) =~= cmds);
    } else {
        assert(cmds.take(j + 1).drop_last() =~= cmds.take(j));
        lemma_database_of_err_prefix(cmds, dir, j + 1);
    }
}

/// Builds one database entry per command string, in order; every entry
/// gets the same working directory, taken verbatim. Fails with the first
/// command that cannot be split or yields no arguments.
pub fn build_database(commands: &Vec<String>, directory: &str) -> (r: Result<CompDb, Error>)
    ensures
        match r {
            Ok(db) => {
                &&& database_of(commands.deep_view(), directory@) == Ok::<Seq<EntryView>, Error>(
                    db.deep_view(),
                )
                &&& forall|m: int|
                    0 <= m < db.deep_view().len() ==> entry_wf(#[trigger] db.deep_view()[m])
            },
            Err(e) => database_of(commands.deep_view(), directory@) == Err::<Seq<EntryView>, Error>(
                e,
            ),
        },
{
    let ghost cmds = commands.deep_view();
    let mut db: CompDb = Vec::new();
    let mut i: usize = 0;
    proof {
        assert(cmds.take(0) =~= Seq::<Seq<char>>::empty());
        assert(db.deep_view() =~= Seq::<EntryView>::empty());
    }
    while i < commands.len()
        invariant
            0 <= i <= commands.len(),
            cmds == commands.deep_view(),
            cmds.len() == commands.len(),
            database_of(cmds.take(i as int), directory@) == Ok::<Seq<EntryView>, Error>(
                db.deep_view(),
            ),
            forall|m: int| 0 <= m < db.deep_view().len() ==> entry_wf(#[trigger] db.deep_view()[m]),
        decreases commands.len() - i,
    {
        let ghost prev = db.deep_view();
        proof {
            assert(cmds.take(i + 1).drop_last() =~= cmds.take(i as int));
            assert(cmds.take(i + 1).last() == cmds[i as int]);
            assert(cmds[i as int] == commands[i as int]@);
        }
        match split_command_to_arguments(commands[i].as_str()) {
            Err(e) => {
                proof {
                    lemma_database_of_err_prefix(cmds, directory@, i + 1);
                }
                return Err(e);
            },
            Ok(tokens) => {
                assert(shell_tokens(cmds[i as int]) == Some(tokens.deep_view()));
                assert(tokens.deep_view().len() == tokens.len());
                match build_entry(tokens, String::from_str(directory)) {
                    Err(e) => {
                        proof {
                            lemma_database_of_err_prefix(cmds, directory@, i + 1);
                        }
                        return Err(e);
                    },
                    Ok(entry) => {
                        db.push(entry);
                        proof {
                            assert(db.deep_view() =~= prev.push(entry@));
                        }
                    },
                }
            },
        }
        i += 1;
    }
    proof {
        assert(cmds.take(commands.len() as int) =~= cmds);
    }
    Ok(db)
}

/// What log-ingestion mode produces from the log's lines: the database of
/// every matching line's command, filtered when patterns were supplied.
pub open spec fn log_mode_result(
    lines: Seq<Seq<char>>,
    dir: Seq<char>,
    pats: Seq<Seq<char>>,
) -> Result<Seq<EntryView>, Error> {
    match database_of(extracted_of(lines), dir) {
        Err(e) => Err(e),
        Ok(db) => if pats.len() > 0 {
            Ok(filtered(db, pats))
        } else {
            Ok(db)
        },
    }
}

/// Log-ingestion mode: recognizes the compiler invocations among the
/// lines, splits each command into its argument vector, and builds the
/// database in log order; a non-empty pattern set then filters it. A log
/// with no matching lines yields an empty database, reported as success.
pub fn run_log_mode(lines: &Vec<String>, directory: &str, patterns: Vec<String>) -> (r: Result<
    CompDb,
    Error,
>)
    ensures
        match r {
            Ok(db) => log_mode_result(lines.deep_view(), directory@, patterns.deep_view())
                == Ok::<Seq<EntryView>, Error>(db.deep_view()),
            Err(e) => log_mode_result(lines.deep_view(), directory@, patterns.deep_view())
                == Err::<Seq<EntryView>, Error>(e),
        },
{
    let commands = extract_commands_from_lines(lines);
    match build_database(&commands, directory) {
        Err(e) => Err(e),
        Ok(db) => {
            if patterns.len() > 0 {
                assert(patterns.deep_view().len() == patterns.len());
                Ok(extract_matched_patterns(db, patterns))
            } else {
                assert(patterns.deep_view().len() == patterns.len());
                Ok(db)
            }
        },
    }
}

/// What database-filter mode produces: the filtered database, or a
/// configuration error when no pattern was supplied.
pub open spec fn filter_mode_result(db: Seq<EntryView>, pats: Seq<Seq<char>>) -> Result<
    Seq<EntryView>,
    Error,
> {
    if pats.len() == 0 {
        Err(Error::Configuration)
    } else {
        Ok(filtered(db, pats))
    }
}

/// Database-filter mode: keeps the entries of an existing database whose
/// file matches a pattern. The pattern set must be non-empty; an empty one
/// is a configuration error, never a silently empty result.
pub fn run_filter_mode(db: CompDb, patterns: Vec<String>) -> (r: Result<CompDb, Error>)
    ensures
        match r {
            Ok(out) => filter_mode_result(db.deep_view(), patterns.deep_view()) == Ok::<
                Seq<EntryView>,
                Error,
            >(out.deep_view()),
            Err(e) => filter_mode_result(db.deep_view(), patterns.deep_view()) == Err::<
                Seq<EntryView>,
                Error,
            >(e),
        },
{
    if patterns.len() == 0 {
        assert(patterns.deep_view().len() == 0);
        Err(Error::Configuration)
    } else {
        assert(patterns.deep_view().len() == patterns.len());
        Ok(extract_matched_patterns(db, patterns))
    }
}

/// A log from which no command is extracted is a success with an empty
/// database, whatever the patterns, never an error.
pub proof fn lemma_empty_extraction_is_success(
    lines: Seq<Seq<char>>,
    dir: Seq<char>,
    pats: Seq<Seq<char>>,
)
    requires
        extracted_of(lines).len() == 0,
    ensures
        log_mode_result(lines, dir, pats) == Ok::<Seq<EntryView>, Error>(
            Seq::<EntryView>::empty(),
        ),
{
    assert(extracted_of(lines) =~= Seq::<Seq<char>>::empty());
    assert(filtered(Seq::<EntryView>::empty(), pats) =~= Seq::<EntryView>::empty());
}

} // verus!
