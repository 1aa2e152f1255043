//! Shell syntax: variable names, and words that are quoted for a POSIX shell.

use std::borrow::Cow;
use vstd::prelude::*;
use vstd::string::*;

verus! {

/// `c` may start the name of a shell variable.
pub open spec fn is_name_start(c: char) -> bool {
    c == '_' || 'a' <= c <= 'z' || 'A' <= c <= 'Z'
}

/// `c` may stand in the name of a shell variable.
pub open spec fn is_name_char(c: char) -> bool {
    is_name_start(c) || '0' <= c <= '9'
}

/// `s` is a name of a shell variable: `[a-zA-Z_][a-zA-Z0-9_]*`.
pub open spec fn valid_name(s: Seq<char>) -> bool {
    &&& s.len() > 0
    &&& is_name_start(s[0])
    &&& forall|i: int| 0 <= i < s.len() ==> is_name_char(#[trigger] s[i])
}

/// The names are the texts, of at least one character, of ASCII letters, digits and
/// underscores that do not start with a digit.
pub proof fn law_valid_names(s: Seq<char>)
    ensures
        valid_name(s) <==> {
            &&& s.len() > 0
            &&& !('0' <= s[0] <= '9')
            &&& forall|i: int|
                0 <= i < s.len() ==> '0' <= #[trigger] s[i] <= '9' || 'a' <= s[i] <= 'z' || 'A'
                    <= s[i] <= 'Z' || s[i] == '_'
        },
{
    if valid_name(s) {
        assert(forall|i: int| 0 <= i < s.len() ==> is_name_char(#[trigger] s[i]));
    } else if s.len() > 0 && is_name_start(s[0]) {
        let i = choose|i: int| 0 <= i < s.len() && !is_name_char(#[trigger] s[i]);
        assert(!is_name_char(s[i]));
    }
}

/// Validate that a string is a valid shell variable name (`[a-zA-Z_][a-zA-Z0-9_]*`).
pub fn is_valid_shell_var_name(name: &str) -> (res: bool)
    ensures
        res == valid_name(name@),
{
    let mut first = true;
    for c in it: name.chars()
        invariant
            it.seq() == name@,
            first == (it.index() == 0),
            it.index() > 0 ==> is_name_start(name@[0]),
            forall|i: int| 0 <= i < it.index() ==> is_name_char(#[trigger] name@[i]),
    {
        let start = c == '_' || ('a' <= c && c <= 'z') || ('A' <= c && c <= 'Z');
        if !(start || (!first && '0' <= c && c <= '9')) {
            return false;
        }
        first = false;
    }
    !first
}

/// `c` stands for itself in a shell word, without any quoting.
pub open spec fn is_literal_char(c: char) -> bool {
    ||| 'a' <= c <= 'z'
    ||| 'A' <= c <= 'Z'
    ||| '0' <= c <= '9'
    ||| c == '-'
    ||| c == '_'
    ||| c == '='
    ||| c == '/'
    ||| c == ','
    ||| c == '.'
    ||| c == '+'
}

/// `s` between single quotes: a quote or an exclamation mark is put behind a
/// backslash, outside of the quotes.
pub open spec fn quoted_body(s: Seq<char>) -> Seq<char>
    decreases s.len(),
{
    if s.len() == 0 {
        seq![]
    } else if s[0] == '\'' || s[0] == '!' {
        seq!['\'', '\\', s[0], '\''] + quoted_body(s.drop_first())
    } else {
        seq![s[0]] + quoted_body(s.drop_first())
    }
}

/// `s` as one shell word: as it is where it has characters and each stands for
/// itself, in single quotes otherwise.
pub open spec fn shell_escaped(s: Seq<char>) -> Seq<char> {
    if s.len() > 0 && forall|i: int| 0 <= i < s.len() ==> is_literal_char(#[trigger] s[i]) {
        s
    } else {
        seq!['\''] + quoted_body(s) + seq!['\'']
    }
}

/// Specifies `shell_escape::unix::escape`.
///
/// Claimed: the text is handed back where it is not empty and has only letters and
/// digits of ASCII and `-_=/,.+`; otherwise it comes in single quotes, with `'\\''`
/// and `'\\!'` in place of each quote and each exclamation mark.
pub assume_specification[ shell_escape::unix::escape ](s: Cow<str>) -> (res: Cow<str>)
    ensures
        res@ == shell_escaped(s@),
;

/// `c` in front of a word, where there is one.
pub open spec fn prepend(c: char, word: Option<Seq<char>>) -> Option<Seq<char>> {
    match word {
        Some(w) => Some(seq![c] + w),
        None => None,
    }
}

/// The word that a POSIX shell reads from `s`, where the whole of `s` is one word
/// that no expansion changes: single quotes and backslashes are removed. `None`
/// where the shell would see anything else, such as a separator or an unfinished
/// quote. `quoted` says whether `s` starts inside of single quotes.
pub open spec fn shell_word(s: Seq<char>, quoted: bool) -> Option<Seq<char>>
    decreases s.len(),
{
    if s.len() == 0 {
        if quoted {
            None
        } else {
            Some(seq![])
        }
    } else if s[0] == '\'' {
        shell_word(s.drop_first(), !quoted)
    } else if quoted || is_literal_char(s[0]) {
        prepend(s[0], shell_word(s.drop_first(), quoted))
    } else if s[0] == '\\' && s.len() > 1 && s[1] != '\n' {
        prepend(s[1], shell_word(s.skip(2), false))
    } else {
        None
    }
}

/// A text in front of a word, where there is one.
pub open spec fn prepend_all(s: Seq<char>, word: Option<Seq<char>>) -> Option<Seq<char>> {
    match word {
        Some(w) => Some(s + w),
        None => None,
    }
}

/// Inside of single quotes, the quoted form of a text reads as that text.
proof fn lemma_quoted_body_reads_back(s: Seq<char>, rest: Seq<char>)
    ensures
        shell_word(quoted_body(s) + rest, true) == prepend_all(s, shell_word(rest, true)),
    decreases s.len(),
{
    let after = shell_word(rest, true);
    if s.len() == 0 {
        assert(quoted_body(s) + rest =~= rest);
        assert(after is Some ==> s + after->0 =~= after->0);
    } else {
        let tail = quoted_body(s.drop_first()) + rest;
        lemma_quoted_body_reads_back(s.drop_first(), rest);
        let whole = quoted_body(s) + rest;
        assert(after is Some ==> seq![s[0]] + (s.drop_first() + after->0) =~= s + after->0);
        if s[0] == '\'' || s[0] == '!' {
            let opened = whole.drop_first();
            assert(opened[0] == '\\' && opened[1] == s[0]);
            assert(opened.skip(2).drop_first() =~= tail);
            assert(opened.skip(2)[0] == '\'');
            assert(shell_word(opened.skip(2), false) == shell_word(tail, true));
            assert(shell_word(opened, false) == prepend(s[0], shell_word(tail, true)));
            assert(shell_word(whole, true) == shell_word(opened, false));
        } else {
            assert(whole.drop_first() =~= tail);
            assert(shell_word(whole, true) == prepend(s[0], shell_word(tail, true)));
        }
    }
}

/// Characters that stand for themselves read as they are.
pub proof fn lemma_literals_read_back(s: Seq<char>, rest: Seq<char>)
    requires
        forall|i: int| 0 <= i < s.len() ==> is_literal_char(#[trigger] s[i]),
    ensures
        shell_word(s + rest, false) == prepend_all(s, shell_word(rest, false)),
    decreases s.len(),
{
    let after = shell_word(rest, false);
    if s.len() == 0 {
        assert(s + rest =~= rest);
        assert(after is Some ==> s + after->0 =~= after->0);
    } else {
        lemma_literals_read_back(s.drop_first(), rest);
        assert((s + rest).drop_first() =~= s.drop_first() + rest);
        assert(is_literal_char(s[0]));
        assert(after is Some ==> seq![s[0]] + (s.drop_first() + after->0) =~= s + after->0);
    }
}

/// The shell reads an escaped text as one word, which is that text: no character
/// of it ends the word or is read as syntax.
pub proof fn law_escaped_reads_back(s: Seq<char>)
    ensures
        shell_word(shell_escaped(s), false) == Some(s),
{
    let escaped = shell_escaped(s);
    let end: Seq<char> = seq!['\''];
    let nothing: Seq<char> = seq![];
    if s.len() > 0 && forall|i: int| 0 <= i < s.len() ==> is_literal_char(#[trigger] s[i]) {
        lemma_literals_read_back(s, nothing);
        assert(s + nothing =~= s);
    } else {
        lemma_quoted_body_reads_back(s, end);
        assert(escaped.drop_first() =~= quoted_body(s) + end);
        assert(end.drop_first() =~= nothing);
        assert(shell_word(end, true) == shell_word(nothing, false));
        assert(s + nothing =~= s);
    }
}

/// A text without quotes reads as it is between single quotes.
pub proof fn lemma_single_quoted(s: Seq<char>, rest: Seq<char>)
    requires
        !s.contains('\''),
    ensures
        shell_word(seq!['\''] + s + seq!['\''] + rest, false) == prepend_all(
            s,
            shell_word(rest, false),
        ),
{
    let whole = seq!['\''] + s + seq!['\''] + rest;
    let close = seq!['\''] + rest;
    assert(whole.drop_first() =~= s + close);
    lemma_quoted_text(s, close);
    assert(close.drop_first() =~= rest);
    assert(shell_word(close, true) == shell_word(rest, false));
    assert(shell_word(whole, false) == shell_word(s + close, true));
}

/// Inside of single quotes, a text without quotes reads as it is.
proof fn lemma_quoted_text(s: Seq<char>, rest: Seq<char>)
    requires
        !s.contains('\''),
    ensures
        shell_word(s + rest, true) == prepend_all(s, shell_word(rest, true)),
    decreases s.len(),
{
    let after = shell_word(rest, true);
    if s.len() == 0 {
        assert(s + rest =~= rest);
        assert(after is Some ==> s + after->0 =~= after->0);
    } else {
        assert(s.contains(s[0]));
        assert forall|c: char| s.drop_first().contains(c) implies s.contains(c) by {
            let i = choose|i: int| 0 <= i < s.drop_first().len() && s.drop_first()[i] == c;
            assert(s[i + 1] == c);
        }
        lemma_quoted_text(s.drop_first(), rest);
        assert((s + rest).drop_first() =~= s.drop_first() + rest);
        assert(after is Some ==> seq![s[0]] + (s.drop_first() + after->0) =~= s + after->0);
    }
}

/// The argument of `export` that sets a variable, `NAME=` and the escaped value,
/// is read as one word that holds the name and the value as they are.
pub proof fn law_assignment_reads_back(name: Seq<char>, value: Seq<char>)
    requires
        valid_name(name),
    ensures
        shell_word(name + seq!['='] + shell_escaped(value), false) == Some(
            name + seq!['='] + value,
        ),
{
    let front = name + seq!['='];
    assert forall|i: int| 0 <= i < front.len() implies is_literal_char(#[trigger] front[i]) by {
        if i < name.len() {
            assert(is_name_char(name[i]));
        }
    }
    lemma_literals_read_back(front, shell_escaped(value));
    law_escaped_reads_back(value);
}

/// Appends `value` as one shell word.
pub fn push_escaped(out: &mut String, value: &str)
    ensures
        final(out)@ == old(out)@ + shell_escaped(value@),
{
    match shell_escape::unix::escape(Cow::Borrowed(value)) {
        Cow::Borrowed(word) => out.append(word),
        Cow::Owned(word) => out.append(word.as_str()),
    }
}

} // verus!
