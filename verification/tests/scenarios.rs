use compdb::entry::build_entry;
use compdb::entry::CompDbEntry;
use compdb::entry::Error;
use compdb::extract::extract_command_from_line;
use compdb::extract::extract_commands_from_lines;
use compdb::filter::extract_matched_patterns;
use compdb::pipeline::build_database;
use compdb::pipeline::input_kind;
use compdb::pipeline::run_filter_mode;
use compdb::pipeline::run_log_mode;
use compdb::pipeline::InputKind;
use compdb::tokenize::split_command_to_arguments;

fn strings(words: &[&str]) -> Vec<String> {
    words.iter().map(|w| w.to_string()).collect()
}

fn entry(directory: &str, arguments: &[&str]) -> CompDbEntry {
    build_entry(strings(arguments), directory.to_string()).unwrap()
}

#[test]
fn extraction_end_to_end() {
    let lines = strings(&[
        "command = /bin/bash -c \"PWD=/proc/self/cwd toolchain/bin/clang -I inc\"",
        " command = /bin/bash -c \"PWD=/proc/self/cwd toolchain/bin/clang++ -I inc\"",
        "build foo: cc bar",
        "random text that should be ignored",
    ]);
    let commands = extract_commands_from_lines(&lines);
    assert_eq!(
        commands,
        strings(&["toolchain/bin/clang -I inc", "toolchain/bin/clang++ -I inc"])
    );
}

#[test]
fn extraction_rejects_near_miss_lines() {
    // Missing closing quote.
    assert!(extract_command_from_line(
        "command = /bin/bash -c \"PWD=/proc/self/cwd clang -c x.c"
    )
    .is_none());
    // Missing opening quote.
    assert!(extract_command_from_line(
        "command = /bin/bash -c PWD=/proc/self/cwd clang -c x.c\""
    )
    .is_none());
    // Different program in the fixed text.
    assert!(extract_command_from_line(
        "command = /bin/sh -c \"PWD=/proc/self/cwd clang -c x.c\""
    )
    .is_none());
    // Payload does not start with PWD=.
    assert!(extract_command_from_line("command = /bin/bash -c \"clang -c x.c\"").is_none());
    // Compiler name only as part of a longer word.
    assert!(extract_command_from_line(
        "command = /bin/bash -c \"PWD=/proc/self/cwd bin/clangd --check x.c\""
    )
    .is_none());
    assert!(extract_command_from_line(
        "command = /bin/bash -c \"PWD=/proc/self/cwd myclang -c x.c\""
    )
    .is_none());
    // Text after the closing quote.
    assert!(extract_command_from_line(
        "command = /bin/bash -c \"PWD=/proc/self/cwd clang -c x.c\" && true"
    )
    .is_none());
    // A prefix differing in one space.
    assert!(extract_command_from_line(
        "command =  /bin/bash -c \"PWD=/proc/self/cwd clang -c x.c\""
    )
    .is_none());
}

#[test]
fn extraction_accepts_boundary_forms() {
    // clang at the very end of the payload, punctuation boundary before it.
    let r = extract_command_from_line("command = /bin/bash -c \"PWD=/proc/self/cwd bin/clang\"");
    assert_eq!(r.unwrap(), "bin/clang".to_string());
    // Tab-indented line.
    let r = extract_command_from_line(
        "\tcommand = /bin/bash -c \"PWD=/proc/self/cwd clang++ -c x.c\"",
    );
    assert_eq!(r.unwrap(), "clang++ -c x.c".to_string());
}

#[test]
fn extraction_strips_one_cwd_prefix() {
    // Exactly one leading occurrence is stripped.
    let r = extract_command_from_line(
        "command = /bin/bash -c \"PWD=/proc/self/cwd PWD=/proc/self/cwd clang\"",
    );
    assert_eq!(r.unwrap(), "PWD=/proc/self/cwd clang".to_string());
    // A payload with another PWD value is passed through unchanged.
    let r = extract_command_from_line("command = /bin/bash -c \"PWD=/home/x clang -c x.c\"");
    assert_eq!(r.unwrap(), "PWD=/home/x clang -c x.c".to_string());
}

#[test]
fn extraction_is_deterministic() {
    let lines = strings(&[
        "command = /bin/bash -c \"PWD=/proc/self/cwd clang a.c\"",
        "command = /bin/bash -c \"PWD=/proc/self/cwd clang b.c\"",
    ]);
    let first = extract_commands_from_lines(&lines);
    let second = extract_commands_from_lines(&lines);
    assert_eq!(first, second);
    assert_eq!(first, strings(&["clang a.c", "clang b.c"]));
}

#[test]
fn tokenization_splits_plain_words() {
    let tokens = split_command_to_arguments("toolchain/bin/clang -I inc").unwrap();
    assert_eq!(tokens, strings(&["toolchain/bin/clang", "-I", "inc"]));
    let tokens = split_command_to_arguments("a b c d e").unwrap();
    assert_eq!(tokens.len(), 5);
}

#[test]
fn tokenization_honors_quotes() {
    let tokens = split_command_to_arguments("cc -DX='a b' \"c  d\" e").unwrap();
    assert_eq!(tokens, strings(&["cc", "-DX=a b", "c  d", "e"]));
    let tokens = split_command_to_arguments("a\"b c\"d").unwrap();
    assert_eq!(tokens, strings(&["ab cd"]));
    let tokens = split_command_to_arguments("x \\ y").unwrap();
    assert_eq!(tokens, strings(&["x", " y"]));
}

#[test]
fn tokenization_fails_on_open_quoting() {
    assert_eq!(
        split_command_to_arguments("cc 'unterminated"),
        Err(Error::Tokenize)
    );
    assert_eq!(
        split_command_to_arguments("cc \"unterminated"),
        Err(Error::Tokenize)
    );
    assert_eq!(split_command_to_arguments("cc trailing\\"), Err(Error::Tokenize));
}

#[test]
fn entry_builder_uses_last_token() {
    let e = entry("/root", &["toolchain/bin/clang", "-I", "inc"]);
    assert_eq!(e.directory, "/root".to_string());
    assert_eq!(e.arguments, strings(&["toolchain/bin/clang", "-I", "inc"]));
    assert_eq!(e.file, "inc".to_string());
}

#[test]
fn entry_builder_rejects_empty_arguments() {
    assert!(matches!(
        build_entry(Vec::new(), "/root".to_string()),
        Err(Error::EntryConstruction)
    ));
}

#[test]
fn filter_keeps_matching_entries_in_order() {
    let db = vec![entry("/r", &["cc", "a/b.c"]), entry("/r", &["cc", "x/y.c"])];
    let kept = extract_matched_patterns(db, strings(&["b.c"]));
    assert_eq!(kept.len(), 1);
    assert_eq!(kept[0].file, "a/b.c".to_string());
}

#[test]
fn filter_is_idempotent() {
    let db = vec![
        entry("/r", &["cc", "a/b.c"]),
        entry("/r", &["cc", "x/y.c"]),
        entry("/r", &["cc", "a/b2.c"]),
    ];
    let pats = strings(&["b", "y.c"]);
    let once = extract_matched_patterns(db, pats.clone());
    let files: Vec<String> = once.iter().map(|e| e.file.clone()).collect();
    let twice = extract_matched_patterns(once, pats);
    let files_again: Vec<String> = twice.iter().map(|e| e.file.clone()).collect();
    assert_eq!(files, files_again);
    assert_eq!(files, strings(&["a/b.c", "x/y.c", "a/b2.c"]));
}

#[test]
fn filter_retains_entry_on_full_file_pattern() {
    let db = vec![entry("/r", &["cc", "a/b.c"])];
    let kept = extract_matched_patterns(db, strings(&["a/b.c"]));
    assert_eq!(kept.len(), 1);
}

#[test]
fn filter_with_multiple_matches_keeps_entry_once() {
    let db = vec![entry("/r", &["cc", "a/b.c"])];
    let kept = extract_matched_patterns(db, strings(&["a/", "b.c"]));
    assert_eq!(kept.len(), 1);
}

#[test]
fn log_mode_builds_database() {
    let lines = strings(&[
        "command = /bin/bash -c \"PWD=/proc/self/cwd toolchain/bin/clang -I inc\"",
        "junk",
    ]);
    let db = run_log_mode(&lines, "/root", Vec::new()).unwrap();
    assert_eq!(db.len(), 1);
    assert_eq!(db[0].directory, "/root".to_string());
    assert_eq!(db[0].arguments, strings(&["toolchain/bin/clang", "-I", "inc"]));
    assert_eq!(db[0].file, "inc".to_string());
}

#[test]
fn log_mode_applies_patterns_when_given() {
    let lines = strings(&[
        "command = /bin/bash -c \"PWD=/proc/self/cwd clang a/b.c\"",
        "command = /bin/bash -c \"PWD=/proc/self/cwd clang x/y.c\"",
    ]);
    let db = run_log_mode(&lines, "/root", strings(&["b.c"])).unwrap();
    assert_eq!(db.len(), 1);
    assert_eq!(db[0].file, "a/b.c".to_string());
}

#[test]
fn log_mode_patterns_can_filter_everything() {
    let lines = strings(&["command = /bin/bash -c \"PWD=/proc/self/cwd clang a/b.c\""]);
    let db = run_log_mode(&lines, "/root", strings(&["nowhere"])).unwrap();
    assert!(db.is_empty());
}

#[test]
fn log_mode_with_no_matches_is_empty_success() {
    let lines = strings(&["build foo: cc bar", "random text"]);
    let db = run_log_mode(&lines, "/root", Vec::new()).unwrap();
    assert!(db.is_empty());
}

#[test]
fn log_mode_reports_tokenize_error() {
    let lines = strings(&["command = /bin/bash -c \"PWD=/proc/self/cwd clang 'x\""]);
    assert!(matches!(
        run_log_mode(&lines, "/root", Vec::new()),
        Err(Error::Tokenize)
    ));
}

#[test]
fn build_database_reports_entry_construction_error() {
    // A command that splits into zero words yields no file value.
    let commands = strings(&["   "]);
    assert!(matches!(
        build_database(&commands, "/root"),
        Err(Error::EntryConstruction)
    ));
}

#[test]
fn filter_mode_requires_patterns() {
    let db = vec![entry("/r", &["cc", "a/b.c"])];
    assert!(matches!(
        run_filter_mode(db, Vec::new()),
        Err(Error::Configuration)
    ));
}

#[test]
fn filter_mode_filters_database() {
    let db = vec![entry("/r", &["cc", "a/b.c"]), entry("/r", &["cc", "x/y.c"])];
    let kept = run_filter_mode(db, strings(&["y.c"])).unwrap();
    assert_eq!(kept.len(), 1);
    assert_eq!(kept[0].file, "x/y.c".to_string());
}

#[test]
fn input_kind_follows_extension() {
    assert_eq!(input_kind("ninja"), Some(InputKind::BuildLog));
    assert_eq!(input_kind("json"), Some(InputKind::Database));
    assert_eq!(input_kind("txt"), None);
    assert_eq!(input_kind(""), None);
}
