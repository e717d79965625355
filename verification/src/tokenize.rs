//! POSIX-style shell word splitting.
//!
//! A command string is split into words at unquoted blanks. Single quotes
//! group their contents literally; double quotes group their contents with
//! backslash escapes for `$`, backquote, `"`, `\` and line continuations;
//! an unquoted backslash escapes the next character (a backslash-newline
//! pair disappears); a word-initial `#` starts a comment running to the end
//! of the line. Quote characters themselves never reach the output. Input
//! that ends inside a quotation or right after a backslash is an error.
//! Splitting is purely lexical: no expansion of any kind is performed.

use vstd::prelude::*;
use crate::entry::Error;
use crate::strutil::push_char;

verus! {

/// Lexer mode: between words, inside a comment, inside an unquoted word,
/// inside single or double quotes, or right after an escaping backslash
/// (unquoted or inside double quotes).
#[derive(Clone, Copy, Debug, PartialEq, Eq, Structural)]
pub enum TokMode {
    Delim,
    Comment,
    Word,
    Single,
    Double,
    WordEsc,
    DoubleEsc,
}

/// Full lexer state: the mode, the word being accumulated, and the words
/// already emitted.
#[verifier::ext_equal]
pub ghost struct TokState {
    pub mode: TokMode,
    pub cur: Seq<char>,
    pub acc: Seq<Seq<char>>,
}

/// A blank that separates words.
pub open spec fn is_blank(c: char) -> bool {
    c == ' ' || c == '\t' || c == '\n'
}

/// The state before any input character.
pub open spec fn tok_init() -> TokState {
    TokState { mode: TokMode::Delim, cur: Seq::empty(), acc: Seq::empty() }
}

/// One transition of the word-splitting state machine.
pub open spec fn tok_step(st: TokState, c: char) -> TokState {
    match st.mode {
        TokMode::Delim => {
            if is_blank(c) {
                st
            } else if c == '#' {
                TokState { mode: TokMode::Comment, ..st }
            } else if c == '\'' {
                TokState { mode: TokMode::Single, cur: Seq::empty(), acc: st.acc }
            } else if c == '"' {
                TokState { mode: TokMode::Double, cur: Seq::empty(), acc: st.acc }
            } else if c == '\\' {
                TokState { mode: TokMode::WordEsc, cur: Seq::empty(), acc: st.acc }
            } else {
                TokState { mode: TokMode::Word, cur: seq![c], acc: st.acc }
            }
        },
        TokMode::Comment => {
            if c == '\n' {
                TokState { mode: TokMode::Delim, ..st }
            } else {
                st
            }
        },
        TokMode::Word => {
            if is_blank(c) {
                TokState { mode: TokMode::Delim, cur: Seq::empty(), acc: st.acc.push(st.cur) }
            } else if c == '\'' {
                TokState { mode: TokMode::Single, ..st }
            } else if c == '"' {
                TokState { mode: TokMode::Double, ..st }
            } else if c == '\\' {
                TokState { mode: TokMode::WordEsc, ..st }
            } else {
                TokState { mode: TokMode::Word, cur: st.cur.push(c), acc: st.acc }
            }
        },
        TokMode::Single => {
            if c == '\'' {
                TokState { mode: TokMode::Word, ..st }
            } else {
                TokState { mode: TokMode::Single, cur: st.cur.push(c), acc: st.acc }
            }
        },
        TokMode::Double => {
            if c == '"' {
                TokState { mode: TokMode::Word, ..st }
            } else if c == '\\' {
                TokState { mode: TokMode::DoubleEsc, ..st }
            } else {
                TokState { mode: TokMode::Double, cur: st.cur.push(c), acc: st.acc }
            }
        },
        TokMode::WordEsc => {
            if c == '\n' {
                TokState { mode: TokMode::Word, ..st }
            } else {
                TokState { mode: TokMode::Word, cur: st.cur.push(c), acc: st.acc }
            }
        },
        TokMode::DoubleEsc => {
            if c == '$' || c == '`' || c == '"' || c == '\\' {
                TokState { mode: TokMode::Double, cur: st.cur.push(c), acc: st.acc }
            } else if c == '\n' {
                TokState { mode: TokMode::Double, ..st }
            } else {
                TokState { mode: TokMode::Double, cur: st.cur.push('\\').push(c), acc: st.acc }
            }
        },
    }
}

/// The state machine run over a whole character sequence from `st`.
pub open spec fn tok_run_from(st: TokState, s: Seq<char>) -> TokState
    decreases s.len(),
{
    if s.len() == 0 {
        st
    } else {
        tok_run_from(tok_step(st, s.first()), s.drop_first())
    }
}

/// The token sequence of a command string: the words emitted by the state
/// machine, with a word still open at the end emitted as the last token.
/// `None` exactly when the input ends inside a quotation or right after a
/// backslash.
pub open spec fn shell_tokens(s: Seq<char>) -> Option<Seq<Seq<char>>> {
    let st = tok_run_from(tok_init(), s);
    match st.mode {
        TokMode::Delim => Some(st.acc),
        TokMode::Comment => Some(st.acc),
        TokMode::Word => Some(st.acc.push(st.cur)),
        _ => None,
    }
}

/// Running the machine over `s` and then one more character is one step
/// from the state after `s`.
pub proof fn lemma_tok_run_from_snoc(st: TokState, s: Seq<char>, c: char)
    ensures
        tok_run_from(st, s.push(c)) == tok_step(tok_run_from(st, s), c),
    decreases s.len(),
{
    reveal_with_fuel(tok_run_from, 3);
    if s.len() == 0 {
        assert(s.push(c).first() == c);
        assert(s.push(c).drop_first() =~= Seq::<char>::empty());
    } else {
        assert(s.push(c).first() == s.first());
        assert(s.push(c).drop_first() =~= s.drop_first().push(c));
        lemma_tok_run_from_snoc(tok_step(st, s.first()), s.drop_first(), c);
    }
}

/// Running the machine over a concatenation runs it over both parts in
/// turn.
pub proof fn lemma_tok_run_from_app(st: TokState, a: Seq<char>, b: Seq<char>)
    ensures
        tok_run_from(st, a + b) == tok_run_from(tok_run_from(st, a), b),
    decreases a.len(),
{
    if a.len() == 0 {
        assert(a + b =~= b);
    } else {
        assert((a + b).first() == a.first());
        assert((a + b).drop_first() =~= a.drop_first() + b);
        lemma_tok_run_from_app(tok_step(st, a.first()), a.drop_first(), b);
    }
}

/// A character with no special role in word splitting: not a blank, not a
/// quote, not a backslash, not a comment mark.
pub open spec fn plain_char(c: char) -> bool {
    !is_blank(c) && c != '#' && c != '\'' && c != '"' && c != '\\'
}

/// A non-empty word of plain characters.
pub open spec fn plain_word(w: Seq<char>) -> bool {
    w.len() > 0 && forall|j: int| 0 <= j < w.len() ==> plain_char(#[trigger] w[j])
}

/// The words joined by single spaces.
pub open spec fn joined_words(words: Seq<Seq<char>>) -> Seq<char>
    decreases words.len(),
{
    if words.len() == 0 {
        Seq::empty()
    } else if words.len() == 1 {
        words[0]
    } else {
        words[0] + seq![' '] + joined_words(words.drop_first())
    }
}

/// Plain characters fed to an open word extend it and change nothing else.
proof fn lemma_word_chars(st: TokState, w: Seq<char>)
    requires
        st.mode == TokMode::Word,
        forall|j: int| 0 <= j < w.len() ==> plain_char(#[trigger] w[j]),
    ensures
        tok_run_from(st, w) == (TokState { mode: TokMode::Word, cur: st.cur + w, acc: st.acc }),
    decreases w.len(),
{
    if w.len() == 0 {
        assert(st.cur + w =~= st.cur);
        assert(tok_run_from(st, w) =~= (TokState {
            mode: TokMode::Word,
            cur: st.cur + w,
            acc: st.acc,
        }));
    } else {
        let st1 = tok_step(st, w.first());
        assert(st1 == TokState { mode: TokMode::Word, cur: st.cur.push(w.first()), acc: st.acc });
        lemma_word_chars(st1, w.drop_first());
        assert(st.cur.push(w.first()) + w.drop_first() =~= st.cur + w);
    }
}

/// A sequence of plain words joined by single spaces, fed to the machine
/// between words, leaves the last word open and all the others emitted.
proof fn lemma_join_words(st: TokState, words: Seq<Seq<char>>)
    requires
        st.mode == TokMode::Delim,
        words.len() > 0,
        forall|m: int| 0 <= m < words.len() ==> plain_word(#[trigger] words[m]),
    ensures
        tok_run_from(st, joined_words(words)) == (TokState {
            mode: TokMode::Word,
            cur: words.last(),
            acc: st.acc + words.drop_last(),
        }),
    decreases words.len(),
{
    let w = words[0];
    assert(plain_word(w));
    let st1 = tok_step(st, w.first());
    assert(st1 == TokState { mode: TokMode::Word, cur: seq![w.first()], acc: st.acc });
    lemma_word_chars(st1, w.drop_first());
    assert(seq![w.first()] + w.drop_first() =~= w);
    let stw = TokState { mode: TokMode::Word, cur: w, acc: st.acc };
    assert(tok_run_from(st, w) == stw) by {
        assert(w.drop_first().len() == w.len() - 1);
    }
    if words.len() == 1 {
        assert(joined_words(words) == w);
        assert(st.acc + words.drop_last() =~= st.acc);
    } else {
        let rest = joined_words(words.drop_first());
        assert(joined_words(words) == w + seq![' '] + rest);
        assert(w + seq![' '] + rest =~= w + (seq![' '] + rest));
        lemma_tok_run_from_app(st, w, seq![' '] + rest);
        lemma_tok_run_from_app(stw, seq![' '], rest);
        let st_sp = tok_run_from(stw, seq![' ']);
        assert(st_sp == TokState {
            mode: TokMode::Delim,
            cur: Seq::empty(),
            acc: st.acc.push(w),
        }) by {
            reveal_with_fuel(tok_run_from, 3);
            assert(seq![' '].first() == ' ');
            assert(seq![' '].drop_first() =~= Seq::<char>::empty());
        }
        lemma_join_words(st_sp, words.drop_first());
        assert(words.drop_first().last() == words.last());
        assert(st.acc.push(w) + words.drop_first().drop_last() =~= st.acc + words.drop_last());
    }
}

/// Word splitting of an unquoted string of words separated by single
/// spaces yields exactly those words, in order: no character of any word
/// is lost, changed, merged or reordered.
pub proof fn lemma_split_plain_words(words: Seq<Seq<char>>)
    requires
        forall|m: int| 0 <= m < words.len() ==> plain_word(#[trigger] words[m]),
    ensures
        shell_tokens(joined_words(words)) == Some(words),
{
    if words.len() == 0 {
        assert(tok_run_from(tok_init(), joined_words(words)) == tok_init());
        assert(Seq::<Seq<char>>::empty() =~= words);
    } else {
        lemma_join_words(tok_init(), words);
        assert(Seq::<Seq<char>>::empty() + words.drop_last() =~= words.drop_last());
        assert(words.drop_last().push(words.last()) =~= words);
    }
}

/// Splits one command string into its argument vector by shell word
/// splitting. Fails, rather than truncating, on an unterminated quote or a
/// trailing unescaped backslash.
pub fn split_command_to_arguments(command: &str) -> (r: Result<Vec<String>, Error>)
    ensures
        match r {
            Ok(v) => shell_tokens(command@) == Some(v.deep_view()),
            Err(e) => shell_tokens(command@) is None && e == Error::Tokenize,
        },
{
    let n = command.unicode_len();
    let mut mode = TokMode::Delim;
    let mut cur = String::new();
    let mut acc: Vec<String> = Vec::new();
    let mut i: usize = 0;
    proof {
        assert(command@.take(0) =~= Seq::<char>::empty());
        assert(acc.deep_view() =~= Seq::<Seq<char>>::empty());
        assert(tok_run_from(tok_init(), command@.take(0)) =~= (TokState {
            mode: mode,
            cur: cur@,
            acc: acc.deep_view(),
        }));
    }
    while i < n
        invariant
            n == command@.len(),
            0 <= i <= n,
            tok_run_from(tok_init(), command@.take(i as int)) == (TokState {
                mode: mode,
                cur: cur@,
                acc: acc.deep_view(),
            }),
            mode == TokMode::Delim || mode == TokMode::Comment ==> cur@ == Seq::<char>::empty(),
        decreases n - i,
    {
        let ghost prev = TokState { mode: mode, cur: cur@, acc: acc.deep_view() };
        let c = command.get_char(i);
        proof {
            assert(command@.take(i + 1) =~= command@.take(i as int).push(command@[i as int]));
            lemma_tok_run_from_snoc(tok_init(), command@.take(i as int), c);
        }
        match mode {
            TokMode::Delim => {
                if c == ' ' || c == '\t' || c == '\n' {
                } else if c == '#' {
                    mode = TokMode::Comment;
                } else if c == '\'' {
                    mode = TokMode::Single;
                } else if c == '"' {
                    mode = TokMode::Double;
                } else if c == '\\' {
                    mode = TokMode::WordEsc;
                } else {
                    mode = TokMode::Word;
                    push_char(&mut cur, c);
                    assert(cur@ =~= seq![c]);
                }
            },
            TokMode::Comment => {
                if c == '\n' {
                    mode = TokMode::Delim;
                }
            },
            TokMode::Word => {
                if c == ' ' || c == '\t' || c == '\n' {
                    mode = TokMode::Delim;
                    acc.push(cur);
                    cur = String::new();
                    assert(acc.deep_view() =~= prev.acc.push(prev.cur));
                } else if c == '\'' {
                    mode = TokMode::Single;
                } else if c == '"' {
                    mode = TokMode::Double;
                } else if c == '\\' {
                    mode = TokMode::WordEsc;
                } else {
                    push_char(&mut cur, c);
                }
            },
            TokMode::Single => {
                if c == '\'' {
                    mode = TokMode::Word;
                } else {
                    push_char(&mut cur, c);
                }
            },
            TokMode::Double => {
                if c == '"' {
                    mode = TokMode::Word;
                } else if c == '\\' {
                    mode = TokMode::DoubleEsc;
                } else {
                    push_char(&mut cur, c);
                }
            },
            TokMode::WordEsc => {
                mode = TokMode::Word;
                if c == '\n' {
                } else {
                    push_char(&mut cur, c);
                }
            },
            TokMode::DoubleEsc => {
                mode = TokMode::Double;
                if c == '$' || c == '`' || c == '"' || c == '\\' {
                    push_char(&mut cur, c);
                } else if c == '\n' {
                } else {
                    push_char(&mut cur, '\\');
                    push_char(&mut cur, c);
                }
            },
        }
        i += 1;
    }
    proof {
        assert(command@.take(n as int) =~= command@);
    }
    match mode {
        TokMode::Delim => Ok(acc),
        TokMode::Comment => Ok(acc),
        TokMode::Word => {
            acc.push(cur);
            assert(acc.deep_view() =~= tok_run_from(tok_init(), command@).acc.push(
                tok_run_from(tok_init(), command@).cur,
            ));
            Ok(acc)
        },
        _ => Err(Error::Tokenize),
    }
}

} // verus!
