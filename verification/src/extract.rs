//! Recognition of compiler-invocation lines in a build log.
//!
//! A line matches when, after any leading whitespace, it has the exact
//! shape `command = /bin/bash -c "<payload>"`, where the payload begins
//! with `PWD=` and contains the standalone word `clang` (which also covers
//! `clang++`, since the two extra pluses sit outside the word boundary).
//! The captured payload is the text between the outer quotes; one leading
//! `PWD=/proc/self/cwd ` occurrence is stripped from it, and nothing else.

use vstd::prelude::*;
use crate::strutil::matches_at;

verus! {

/// The fixed text that must follow the leading whitespace of a matching
/// line, up to and including the opening quote of the payload.
pub open spec fn cmd_prefix() -> Seq<char> {
    "command = /bin/bash -c \""@
}

/// The assignment that every payload must begin with.
pub open spec fn pwd_prefix() -> Seq<char> {
    "PWD="@
}

/// The working-directory assignment stripped from the front of a payload.
pub open spec fn cwd_prefix() -> Seq<char> {
    "PWD=/proc/self/cwd "@
}

/// The compiler word a payload must contain, standalone.
pub open spec fn clang_word() -> Seq<char> {
    "clang"@
}

/// Whitespace that may precede the fixed line text.
pub open spec fn is_space(c: char) -> bool {
    c == ' ' || c == '\t' || c == '\n' || c == '\r' || c == '\x0B' || c == '\x0C'
}

/// A word character for the standalone-word check: an ASCII letter, digit
/// or underscore.
pub open spec fn is_word_char(c: char) -> bool {
    ||| 'a' as int <= c as int && c as int <= 'z' as int
    ||| 'A' as int <= c as int && c as int <= 'Z' as int
    ||| '0' as int <= c as int && c as int <= '9' as int
    ||| c == '_'
}

/// The word `clang` occurs in `s` with no word character on either side.
pub open spec fn has_clang_token(s: Seq<char>) -> bool {
    exists|i: int|
        {
            &&& 0 <= i
            &&& i + clang_word().len() as int <= s.len()
            &&& #[trigger] s.subrange(i, i + clang_word().len() as int) == clang_word()
            &&& (i == 0 || !is_word_char(s[i - 1]))
            &&& (i + clang_word().len() as int == s.len() || !is_word_char(
                s[i + clang_word().len() as int],
            ))
        }
}

/// The payload of a line whose fixed text starts at `k`: the characters
/// between the opening quote and the closing quote at the end of the line.
pub open spec fn payload_at(line: Seq<char>, k: int) -> Seq<char> {
    line.subrange(k + cmd_prefix().len() as int, line.len() - 1)
}

/// The fixed line shape holds with its prefix starting at position `k`.
pub open spec fn shaped_at(line: Seq<char>, k: int) -> bool {
    &&& 0 <= k
    &&& k + (cmd_prefix().len() as int) + (pwd_prefix().len() as int) < line.len()
    &&& line.subrange(k, k + cmd_prefix().len() as int) == cmd_prefix()
    &&& line[line.len() - 1] == '"'
    &&& payload_at(line, k).subrange(0, pwd_prefix().len() as int) == pwd_prefix()
    &&& has_clang_token(payload_at(line, k))
}

/// Everything before position `k` is whitespace.
pub open spec fn leading_ws(line: Seq<char>, k: int) -> bool {
    forall|i: int| 0 <= i < k ==> is_space(#[trigger] line[i])
}

/// A line that the extractor recognizes: leading whitespace, the fixed
/// text, and a quoted payload that begins with `PWD=` and mentions the
/// compiler as a standalone word.
pub open spec fn matches_line(line: Seq<char>) -> bool {
    exists|k: int| leading_ws(line, k) && #[trigger] shaped_at(line, k)
}

/// The position where the fixed text of a matching line starts.
pub open spec fn match_index(line: Seq<char>) -> int {
    choose|k: int| leading_ws(line, k) && #[trigger] shaped_at(line, k)
}

/// Strips exactly one leading `PWD=/proc/self/cwd ` occurrence; a payload
/// without that exact prefix is returned unchanged.
pub open spec fn strip_cwd(p: Seq<char>) -> Seq<char> {
    if p.len() >= cwd_prefix().len() && p.subrange(0, cwd_prefix().len() as int) == cwd_prefix() {
        p.subrange(cwd_prefix().len() as int, p.len() as int)
    } else {
        p
    }
}

/// The command string extracted from a matching line.
pub open spec fn extracted_command(line: Seq<char>) -> Seq<char> {
    strip_cwd(payload_at(line, match_index(line)))
}

/// The commands extracted from a sequence of lines, in line order,
/// non-matching lines silently skipped.
pub open spec fn extracted_of(lines: Seq<Seq<char>>) -> Seq<Seq<char>>
    decreases lines.len(),
{
    if lines.len() == 0 {
        Seq::empty()
    } else {
        let rest = extracted_of(lines.drop_last());
        if matches_line(lines.last()) {
            rest.push(extracted_command(lines.last()))
        } else {
            rest
        }
    }
}

/// Extraction is order-preserving and local: the commands of a log are
/// the commands of its parts, in the same order, however it is divided
/// into consecutive pieces.
pub proof fn lemma_extracted_of_app(a: Seq<Seq<char>>, b: Seq<Seq<char>>)
    ensures
        extracted_of(a + b) == extracted_of(a) + extracted_of(b),
    decreases b.len(),
{
    if b.len() == 0 {
        assert(a + b =~= a);
        assert(extracted_of(a) + extracted_of(b) =~= extracted_of(a));
    } else {
        lemma_extracted_of_app(a, b.drop_last());
        assert((a + b).drop_last() =~= a + b.drop_last());
        assert((a + b).last() == b.last());
        if matches_line(b.last()) {
            assert(extracted_of(a) + extracted_of(b) =~= (extracted_of(a) + extracted_of(
                b.drop_last(),
            )).push(extracted_command(b.last())));
        } else {
            assert(extracted_of(a) + extracted_of(b) =~= extracted_of(a) + extracted_of(
                b.drop_last(),
            ));
        }
    }
}

/// At most one position can carry the fixed text of a matching line: the
/// first non-whitespace position. So a line matches exactly when the shape
/// holds there, and extraction reads the payload from there.
proof fn lemma_match_at_first_nonspace(line: Seq<char>, k: int)
    requires
        0 <= k <= line.len(),
        leading_ws(line, k),
        k < line.len() ==> !is_space(line[k]),
    ensures
        matches_line(line) <==> (k < line.len() && shaped_at(line, k)),
        matches_line(line) ==> match_index(line) == k,
{
    reveal_strlit("command = /bin/bash -c \"");
    assert(cmd_prefix().len() == 24);
    assert forall|k2: int| leading_ws(line, k2) && #[trigger] shaped_at(line, k2) implies k2
        == k by {
        assert(line.subrange(k2, k2 + 24)[0] == line[k2]);
        assert(line[k2] == 'c');
        if k2 < k {
            assert(is_space(line[k2]));
        } else if k2 > k {
            assert(is_space(line[k]));
            assert(line.subrange(k2, k2 + 24).len() == 24);
        }
    }
    if k < line.len() && shaped_at(line, k) {
        assert(leading_ws(line, k) && shaped_at(line, k));
        assert(matches_line(line));
    }
    if matches_line(line) {
        let kw = choose|k2: int| leading_ws(line, k2) && #[trigger] shaped_at(line, k2);
        assert(shaped_at(line, kw));
        assert(kw == k);
        assert(k + 24 < line.len());
    }
}

/// Whether `c` is whitespace, as the line matcher counts it.
fn space_char(c: char) -> (b: bool)
    ensures
        b == is_space(c),
{
    c == ' ' || c == '\t' || c == '\n' || c == '\r' || c == '\x0B' || c == '\x0C'
}

/// Whether `c` is a word character for the standalone-word check.
fn word_char(c: char) -> (b: bool)
    ensures
        b == is_word_char(c),
{
    let u = c as u32;
    ('a' as u32) <= u && u <= ('z' as u32) || ('A' as u32) <= u && u <= ('Z' as u32) || ('0'
        as u32) <= u && u <= ('9' as u32) || c == '_'
}

/// Whether the standalone word `clang` occurs in the payload.
fn find_clang_token(payload: &str) -> (b: bool)
    ensures
        b == has_clang_token(payload@),
{
    let clang: &str = "clang";
    proof {
        reveal_strlit("clang");
        assert(clang@ == clang_word());
        assert(clang_word().len() == 5);
    }
    let n = payload.unicode_len();
    if n < 5 {
        return false;
    }
    let mut i: usize = 0;
    while i <= n - 5
        invariant
            n == payload@.len(),
            5 <= n,
            clang@ == clang_word(),
            clang_word().len() == 5,
            0 <= i <= n - 5 + 1,
            forall|j: int|
                0 <= j < i ==> !{
                    &&& #[trigger] payload@.subrange(j, j + 5) == clang_word()
                    &&& (j == 0 || !is_word_char(payload@[j - 1]))
                    &&& (j + 5 == payload@.len() || !is_word_char(payload@[j + 5]))
                },
        decreases n - 5 - i + 1,
    {
        let word_here = matches_at(payload, clang, i);
        let left_ok = i == 0 || !word_char(payload.get_char(i - 1));
        let right_ok = i + 5 == n || !word_char(payload.get_char(i + 5));
        if word_here && left_ok && right_ok {
            assert(has_clang_token(payload@));
            return true;
        }
        i += 1;
    }
    assert forall|j: int|
        {
            &&& 0 <= j
            &&& j + clang_word().len() as int <= payload@.len()
            &&& #[trigger] payload@.subrange(j, j + clang_word().len() as int) == clang_word()
        } implies !{
        &&& (j == 0 || !is_word_char(payload@[j - 1]))
        &&& (j + clang_word().len() as int == payload@.len() || !is_word_char(
            payload@[j + clang_word().len() as int],
        ))
    } by {
        assert(0 <= j < n - 5 + 1);
    }
    false
}

/// Recognizes one log line. Returns the extracted command string when the
/// line matches the fixed shape, and nothing otherwise.
pub fn extract_command_from_line(line: &str) -> (r: Option<String>)
    ensures
        match r {
            Some(cmd) => matches_line(line@) && cmd@ == extracted_command(line@),
            None => !matches_line(line@),
        },
{
    let prefix: &str = "command = /bin/bash -c \"";
    let pwd: &str = "PWD=";
    let cwd: &str = "PWD=/proc/self/cwd ";
    proof {
        reveal_strlit("command = /bin/bash -c \"");
        reveal_strlit("PWD=");
        reveal_strlit("PWD=/proc/self/cwd ");
        assert(prefix@ == cmd_prefix());
        assert(pwd@ == pwd_prefix());
        assert(cwd@ == cwd_prefix());
        assert(cmd_prefix().len() == 24);
        assert(pwd_prefix().len() == 4);
        assert(cwd_prefix().len() == 19);
    }
    let n = line.unicode_len();
    let mut k: usize = 0;
    while k < n && space_char(line.get_char(k))
        invariant
            n == line@.len(),
            0 <= k <= n,
            leading_ws(line@, k as int),
        decreases n - k,
    {
        k += 1;
    }
    proof {
        lemma_match_at_first_nonspace(line@, k as int);
    }
    if n - k < 29 {
        assert(!shaped_at(line@, k as int));
        return None;
    }
    if !matches_at(line, prefix, k) {
        assert(!shaped_at(line@, k as int));
        return None;
    }
    if line.get_char(n - 1) != '"' {
        assert(!shaped_at(line@, k as int));
        return None;
    }
    let payload = line.substring_char(k + 24, n - 1);
    proof {
        assert(payload@ == payload_at(line@, k as int));
    }
    if !matches_at(payload, pwd, 0) {
        assert(payload_at(line@, k as int).subrange(0, 4) != pwd_prefix());
        assert(!shaped_at(line@, k as int));
        return None;
    }
    if !find_clang_token(payload) {
        assert(!shaped_at(line@, k as int));
        return None;
    }
    assert(shaped_at(line@, k as int));
    assert(matches_line(line@) && match_index(line@) == k as int);
    let plen = payload.unicode_len();
    let command: &str = if plen >= 19 && matches_at(payload, cwd, 0) {
        let stripped = payload.substring_char(19, plen);
        assert(stripped@ == strip_cwd(payload@));
        stripped
    } else {
        assert(payload@ == strip_cwd(payload@));
        payload
    };
    Some(String::from_str(command))
}

/// Scans the lines of a build log in order and returns the command string
/// of every matching line; non-matching lines are skipped, not errors.
pub fn extract_commands_from_lines(lines: &Vec<String>) -> (r: Vec<String>)
    ensures
        r.deep_view() == extracted_of(lines.deep_view()),
{
    let mut r: Vec<String> = Vec::new();
    let mut j: usize = 0;
    proof {
        assert(lines.deep_view().take(0) =~= Seq::<Seq<char>>::empty());
        assert(r.deep_view() =~= Seq::<Seq<char>>::empty());
    }
    while j < lines.len()
        invariant
            0 <= j <= lines.len(),
            lines.deep_view().len() == lines.len(),
            r.deep_view() == extracted_of(lines.deep_view().take(j as int)),
        decreases lines.len() - j,
    {
        let ghost prev = r.deep_view();
        proof {
            assert(lines.deep_view().take(j + 1).drop_last() =~= lines.deep_view().take(j as int));
            assert(lines.deep_view().take(j + 1).last() == lines.deep_view()[j as int]);
            assert(lines.deep_view()[j as int] == lines[j as int]@);
        }
        match extract_command_from_line(lines[j].as_str()) {
            Some(cmd) => {
                r.push(cmd);
                assert(r.deep_view() =~= prev.push(extracted_command(lines.deep_view()[j as int])));
            },
            None => {},
        }
        j += 1;
    }
    proof {
        assert(lines.deep_view().take(lines.len() as int) =~= lines.deep_view());
    }
    r
}

} // verus!
