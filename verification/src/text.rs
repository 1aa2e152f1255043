//! Text as the task runner sees it: numbers in decimal, lines of terminal output,
//! surrounding whitespace and escape sequences.

use vstd::prelude::*;
use vstd::string::*;

verus! {

// Numbers

/// The character of the decimal digit `d`.
pub open spec fn digit_char(d: int) -> char
    recommends
        0 <= d < 10,
{
    ('0' as int + d) as char
}

/// `n` in decimal, without leading zeros.
pub open spec fn decimal(n: nat) -> Seq<char>
    decreases n,
{
    if n < 10 {
        seq![digit_char(n as int)]
    } else {
        decimal(n / 10).push(digit_char((n % 10) as int))
    }
}

/// `i` in decimal, with a minus sign in front where it is negative.
pub open spec fn signed_decimal(i: int) -> Seq<char> {
    if i < 0 {
        seq!['-'] + decimal((-i) as nat)
    } else {
        decimal(i as nat)
    }
}

/// `c` is a decimal digit.
pub open spec fn is_digit(c: char) -> bool {
    '0' <= c <= '9'
}

/// A decimal has at least one character, and all of them are digits.
pub proof fn lemma_decimal_digits(n: nat)
    ensures
        decimal(n).len() > 0,
        forall|i: int| 0 <= i < decimal(n).len() ==> is_digit(#[trigger] decimal(n)[i]),
    decreases n,
{
    if n >= 10 {
        lemma_decimal_digits(n / 10);
    }
}

/// Different numbers have different decimals.
pub proof fn lemma_decimal_injective(m: nat, n: nat)
    requires
        decimal(m) == decimal(n),
    ensures
        m == n,
    decreases m,
{
    lemma_decimal_digits(m / 10);
    lemma_decimal_digits(n / 10);
    let (s, t) = (decimal(m), decimal(n));
    assert(s.last() == digit_char((m % 10) as int));
    assert(t.last() == digit_char((n % 10) as int));
    if m >= 10 && n >= 10 {
        assert(s.drop_last() =~= decimal(m / 10));
        assert(t.drop_last() =~= decimal(n / 10));
        lemma_decimal_injective(m / 10, n / 10);
    } else {
        assert(s.len() == 1 <==> m < 10);
        assert(t.len() == 1 <==> n < 10);
    }
}

/// Different numbers have different signed decimals.
pub proof fn lemma_signed_decimal_injective(i: int, j: int)
    requires
        signed_decimal(i) == signed_decimal(j),
    ensures
        i == j,
{
    let (m, n) = (
        if i < 0 {
            -i
        } else {
            i
        },
        if j < 0 {
            -j
        } else {
            j
        },
    );
    lemma_decimal_digits(m as nat);
    lemma_decimal_digits(n as nat);
    let (s, t) = (decimal(m as nat), decimal(n as nat));
    assert(is_digit(s[0]) && is_digit(t[0]));
    assert(i < 0 ==> signed_decimal(i)[0] == '-' && s =~= signed_decimal(i).skip(1));
    assert(j < 0 ==> signed_decimal(j)[0] == '-' && t =~= signed_decimal(j).skip(1));
    lemma_decimal_injective(m as nat, n as nat);
}

/// The number that a text of decimal digits stands for.
pub open spec fn digits_value(s: Seq<char>) -> int
    decreases s.len(),
{
    if s.len() == 0 {
        0
    } else {
        10 * digits_value(s.drop_last()) + (s.last() as int - '0' as int)
    }
}

/// A decimal reads back as its number: it is a text of digits that stands for that
/// number, and it has no zero in front unless it is the zero.
pub proof fn law_decimal_reads_back(n: nat)
    ensures
        decimal(n).len() > 0,
        forall|i: int| 0 <= i < decimal(n).len() ==> '0' <= #[trigger] decimal(n)[i] <= '9',
        digits_value(decimal(n)) == n,
        decimal(n)[0] == '0' ==> n == 0 && decimal(n).len() == 1,
    decreases n,
{
    lemma_decimal_digits(n);
    assert forall|i: int| 0 <= i < decimal(n).len() implies '0' <= #[trigger] decimal(n)[i]
        <= '9' by {
        assert(is_digit(decimal(n)[i]));
    }
    let front = decimal(n).drop_last();
    if n >= 10 {
        law_decimal_reads_back(n / 10);
        assert(front =~= decimal(n / 10));
    } else {
        assert(front =~= seq![]);
        assert(digits_value(front) == 0);
    }
}

/// A number that is not negative is shown by its digits, which read back as it, and its
/// negative by a minus sign and the same digits.
pub proof fn law_signed_decimal_reads_back(n: nat)
    ensures
        digits_value(signed_decimal(n as int)) == n,
        signed_decimal(n as int).len() > 0,
        forall|i: int|
            0 <= i < signed_decimal(n as int).len() ==> '0' <= #[trigger] signed_decimal(
                n as int,
            )[i] <= '9',
        signed_decimal(n as int)[0] == '0' ==> signed_decimal(n as int).len() == 1,
        n > 0 ==> signed_decimal(-n) == seq!['-'] + signed_decimal(n as int),
{
    law_decimal_reads_back(n);
}

/// Calls `String::push`.
///
/// Claimed: the character is appended.
pub assume_specification[ String::push ](s: &mut String, c: char)
    ensures
        final(s)@ == old(s)@.push(c),
;

/// The character of a digit below ten.
fn digit(d: u64) -> (c: char)
    requires
        d < 10,
    ensures
        c == digit_char(d as int),
{
    match d {
        0 => '0',
        1 => '1',
        2 => '2',
        3 => '3',
        4 => '4',
        5 => '5',
        6 => '6',
        7 => '7',
        8 => '8',
        _ => '9',
    }
}

/// Appends `n` in decimal.
pub fn push_decimal(out: &mut String, n: u64)
    ensures
        final(out)@ == old(out)@ + decimal(n as nat),
    decreases n,
{
    if n >= 10 {
        push_decimal(out, n / 10);
    }
    out.push(digit(n % 10));
    assert(out@ =~= old(out)@ + decimal(n as nat));
}

/// Appends `i` in decimal.
pub fn push_signed_decimal(out: &mut String, i: i32)
    ensures
        final(out)@ == old(out)@ + signed_decimal(i as int),
{
    if i < 0 {
        out.push('-');
        push_decimal(out, (-(i as i64)) as u64);
        assert(out@ =~= old(out)@ + signed_decimal(i as int));
    } else {
        push_decimal(out, i as u64);
    }
}

// Lines

/// The lines of `s` that a newline ends, without it.
pub open spec fn complete_lines(s: Seq<char>) -> Seq<Seq<char>>
    decreases s.len(),
{
    if s.len() == 0 {
        seq![]
    } else if s.last() == '\n' {
        complete_lines(s.drop_last()).push(unfinished_line(s.drop_last()))
    } else {
        complete_lines(s.drop_last())
    }
}

/// What follows the last newline of `s`; all of `s` where it has none.
pub open spec fn unfinished_line(s: Seq<char>) -> Seq<char>
    decreases s.len(),
{
    if s.len() == 0 || s.last() == '\n' {
        seq![]
    } else {
        unfinished_line(s.drop_last()).push(s.last())
    }
}

/// A line without the carriage return at its end, where it has one.
pub open spec fn without_cr(line: Seq<char>) -> Seq<char> {
    if line.len() > 0 && line.last() == '\r' {
        line.drop_last()
    } else {
        line
    }
}

/// The lines of `s` as `str::lines` counts them: each ends with a newline or with
/// a carriage return and a newline, the last one may end with the text.
pub open spec fn text_lines(s: Seq<char>) -> Seq<Seq<char>> {
    let ended = complete_lines(s).map_values(|line: Seq<char>| without_cr(line));
    if unfinished_line(s).len() == 0 {
        ended
    } else {
        ended.push(unfinished_line(s))
    }
}

/// An unfinished line holds no newline.
pub proof fn lemma_unfinished_line(s: Seq<char>)
    ensures
        !unfinished_line(s).contains('\n'),
    decreases s.len(),
{
    if s.len() != 0 && s.last() != '\n' {
        let before = unfinished_line(s.drop_last());
        lemma_unfinished_line(s.drop_last());
        assert forall|i: int| 0 <= i < before.len() + 1 implies before.push(s.last())[i]
            != '\n' by {
            if i < before.len() {
                assert(before.contains(before[i]));
            }
        }
    }
}

/// A text without newlines has no complete line and is its own unfinished line.
pub proof fn lemma_no_newline(s: Seq<char>)
    requires
        !s.contains('\n'),
    ensures
        complete_lines(s) == Seq::<Seq<char>>::empty(),
        unfinished_line(s) == s,
    decreases s.len(),
{
    if s.len() > 0 {
        assert(s.contains(s.last()));
        assert forall|i: int| 0 <= i < s.len() - 1 implies s.drop_last()[i] != '\n' by {
            assert(s.contains(s[i]));
        }
        lemma_no_newline(s.drop_last());
        assert(s.drop_last().push(s.last()) =~= s);
    }
}

/// Text can be split into lines piece by piece: only the unfinished line of the
/// text so far matters to the text that follows.
pub proof fn law_lines_piecewise(s: Seq<char>, t: Seq<char>)
    ensures
        complete_lines(s + t) == complete_lines(s) + complete_lines(unfinished_line(s) + t),
        unfinished_line(s + t) == unfinished_line(unfinished_line(s) + t),
    decreases t.len(),
{
    let open = unfinished_line(s);
    if t.len() == 0 {
        assert(s + t =~= s);
        assert(open + t =~= open);
        lemma_unfinished_line(s);
        lemma_no_newline(open);
        assert(complete_lines(s) + complete_lines(open) =~= complete_lines(s));
    } else {
        law_lines_piecewise(s, t.drop_last());
        assert((s + t).drop_last() =~= s + t.drop_last());
        assert((open + t).drop_last() =~= open + t.drop_last());
        if t.last() == '\n' {
            let line = unfinished_line(open + t.drop_last());
            assert(complete_lines(s + t) =~= complete_lines(s) + complete_lines(
                open + t.drop_last(),
            ).push(line));
        }
    }
}

/// Lines, each with a newline behind it.
pub open spec fn joined(lines: Seq<Seq<char>>) -> Seq<char>
    decreases lines.len(),
{
    if lines.len() == 0 {
        seq![]
    } else {
        joined(lines.drop_last()) + lines.last() + seq!['\n']
    }
}

/// No line holds a newline.
pub open spec fn without_newlines(lines: Seq<Seq<char>>) -> bool {
    forall|i: int| 0 <= i < lines.len() ==> !(#[trigger] lines[i]).contains('\n')
}

/// Splitting undoes joining: the complete lines of lines that were joined are those
/// lines, and what stands behind them is unfinished.
pub proof fn law_joined_lines_are_split(lines: Seq<Seq<char>>, last: Seq<char>)
    requires
        without_newlines(lines),
        !last.contains('\n'),
    ensures
        complete_lines(joined(lines) + last) == lines,
        unfinished_line(joined(lines) + last) == last,
    decreases lines.len(),
{
    let s = joined(lines);
    let nothing: Seq<char> = seq![];
    if lines.len() == 0 {
        assert(s + last =~= last);
        lemma_no_newline(last);
    } else {
        let (front, line) = (lines.drop_last(), lines.last());
        assert forall|i: int| 0 <= i < front.len() implies !(#[trigger] front[i]).contains(
            '\n',
        ) by {
            assert(front[i] == lines[i]);
        }
        assert(!lines[lines.len() - 1].contains('\n'));
        law_joined_lines_are_split(front, line);
        assert(s.drop_last() =~= joined(front) + line);
        assert(s.last() == '\n');
        assert(front.push(line) =~= lines);
        law_lines_piecewise(s, last);
        assert(nothing + last =~= last);
        lemma_no_newline(last);
        assert(complete_lines(s) + complete_lines(last) =~= lines);
    }
}

/// Joining undoes splitting: every text is its complete lines, joined, and its
/// unfinished line.
pub proof fn law_split_lines_are_rejoined(s: Seq<char>)
    ensures
        s == joined(complete_lines(s)) + unfinished_line(s),
        without_newlines(complete_lines(s)),
        !unfinished_line(s).contains('\n'),
    decreases s.len(),
{
    lemma_unfinished_line(s);
    if s.len() > 0 {
        let front = s.drop_last();
        law_split_lines_are_rejoined(front);
        let (lines, open) = (complete_lines(front), unfinished_line(front));
        assert(front.push(s.last()) =~= s);
        if s.last() == '\n' {
            assert(lines.push(open).drop_last() =~= lines);
            assert(s =~= joined(complete_lines(s)) + unfinished_line(s));
        } else {
            assert(s =~= joined(lines) + open.push(s.last()));
        }
    } else {
        assert(s =~= joined(complete_lines(s)) + unfinished_line(s));
    }
}

/// Lines that end with a newline, or with a carriage return and a newline, are counted
/// without their endings; text behind the last ending is a line of its own.
pub proof fn law_lines_of_text(lines: Seq<Seq<char>>, raw: Seq<Seq<char>>, last: Seq<char>)
    requires
        raw.len() == lines.len(),
        without_newlines(raw),
        !last.contains('\n'),
        forall|i: int|
            0 <= i < lines.len() ==> {
                ||| #[trigger] raw[i] == lines[i].push('\r')
                ||| raw[i] == lines[i] && (lines[i].len() == 0 || lines[i].last() != '\r')
            },
    ensures
        text_lines(joined(raw) + last) == if last.len() == 0 {
            lines
        } else {
            lines.push(last)
        },
{
    law_joined_lines_are_split(raw, last);
    let ended = raw.map_values(|line: Seq<char>| without_cr(line));
    assert forall|i: int| 0 <= i < lines.len() implies ended[i] == lines[i] by {
        if raw[i] == lines[i].push('\r') {
            assert(raw[i].drop_last() =~= lines[i]);
        }
    }
    assert(ended =~= lines);
}

// Whitespace

/// `c` has the Unicode property White_Space.
pub open spec fn is_white_space(c: char) -> bool {
    ||| '\u{9}' <= c <= '\u{D}'
    ||| c == '\u{20}'
    ||| c == '\u{85}'
    ||| c == '\u{A0}'
    ||| c == '\u{1680}'
    ||| '\u{2000}' <= c <= '\u{200A}'
    ||| c == '\u{2028}'
    ||| c == '\u{2029}'
    ||| c == '\u{202F}'
    ||| c == '\u{205F}'
    ||| c == '\u{3000}'
}

/// `s` without the whitespace at its start.
pub open spec fn trimmed_start(s: Seq<char>) -> Seq<char>
    decreases s.len(),
{
    if s.len() > 0 && is_white_space(s.first()) {
        trimmed_start(s.drop_first())
    } else {
        s
    }
}

/// `s` without the whitespace at its end.
pub open spec fn trimmed_end(s: Seq<char>) -> Seq<char>
    decreases s.len(),
{
    if s.len() > 0 && is_white_space(s.last()) {
        trimmed_end(s.drop_last())
    } else {
        s
    }
}

/// `s` without the whitespace around it.
pub open spec fn trimmed(s: Seq<char>) -> Seq<char> {
    trimmed_end(trimmed_start(s))
}

/// All of `s` is whitespace.
pub open spec fn all_white(s: Seq<char>) -> bool {
    forall|i: int| 0 <= i < s.len() ==> is_white_space(#[trigger] s[i])
}

/// `s` neither starts nor ends with whitespace.
pub open spec fn no_white_ends(s: Seq<char>) -> bool {
    s.len() > 0 ==> !is_white_space(s.first()) && !is_white_space(s.last())
}

/// Only whitespace is trimmed at the start, and none is left there.
proof fn lemma_trimmed_start(s: Seq<char>) -> (pre: Seq<char>)
    ensures
        all_white(pre),
        s == pre + trimmed_start(s),
        trimmed_start(s).len() > 0 ==> !is_white_space(trimmed_start(s).first()),
    decreases s.len(),
{
    if s.len() > 0 && is_white_space(s.first()) {
        let rest = s.drop_first();
        let pre = lemma_trimmed_start(rest);
        assert(rest == pre + trimmed_start(rest));
        assert(s =~= seq![s.first()] + rest);
        assert(s =~= seq![s.first()] + pre + trimmed_start(rest));
        seq![s.first()] + pre
    } else {
        assert(s =~= Seq::<char>::empty() + s);
        seq![]
    }
}

/// Only whitespace is trimmed at the end, and none is left there.
proof fn lemma_trimmed_end(s: Seq<char>) -> (post: Seq<char>)
    ensures
        all_white(post),
        s == trimmed_end(s) + post,
        trimmed_end(s).len() > 0 ==> !is_white_space(trimmed_end(s).last()),
    decreases s.len(),
{
    if s.len() > 0 && is_white_space(s.last()) {
        let rest = s.drop_last();
        let post = lemma_trimmed_end(rest);
        assert(rest == trimmed_end(rest) + post);
        assert(s =~= rest.push(s.last()));
        assert(s =~= trimmed_end(rest) + post.push(s.last()));
        post.push(s.last())
    } else {
        assert(s =~= s + Seq::<char>::empty());
        seq![]
    }
}

/// Whitespace in front is trimmed.
proof fn lemma_trim_front(pre: Seq<char>, s: Seq<char>)
    requires
        all_white(pre),
        s.len() > 0 ==> !is_white_space(s.first()),
    ensures
        trimmed_start(pre + s) == s,
    decreases pre.len(),
{
    if pre.len() > 0 {
        assert(is_white_space(pre[0]));
        assert((pre + s).drop_first() =~= pre.drop_first() + s);
        lemma_trim_front(pre.drop_first(), s);
    } else {
        assert(pre + s =~= s);
    }
}

/// Whitespace behind is trimmed.
proof fn lemma_trim_back(s: Seq<char>, post: Seq<char>)
    requires
        all_white(post),
        s.len() > 0 ==> !is_white_space(s.last()),
    ensures
        trimmed_end(s + post) == s,
    decreases post.len(),
{
    if post.len() > 0 {
        assert(is_white_space(post[post.len() - 1]));
        assert((s + post).drop_last() =~= s + post.drop_last());
        lemma_trim_back(s, post.drop_last());
    } else {
        assert(s + post =~= s);
    }
}

/// What is left of a text when the whitespace around it is gone is `word` exactly where
/// the text is `word` between whitespace, and `word` has none at its ends.
proof fn lemma_trimmed_to(s: Seq<char>, word: Seq<char>)
    ensures
        trimmed(s) == word <==> no_white_ends(word) && exists|pre: Seq<char>, post: Seq<char>|
            #![trigger all_white(pre), all_white(post)]
            all_white(pre) && all_white(post) && s == pre + word + post,
{
    if trimmed(s) == word {
        let pre = lemma_trimmed_start(s);
        let post = lemma_trimmed_end(trimmed_start(s));
        assert(s =~= pre + word + post);
        assert(word.len() > 0 ==> word.first() == trimmed_start(s).first());
    }
    if no_white_ends(word) && exists|pre: Seq<char>, post: Seq<char>|
        #![trigger all_white(pre), all_white(post)]
        all_white(pre) && all_white(post) && s == pre + word + post {
        let (pre, post) = choose|pre: Seq<char>, post: Seq<char>|
            #![trigger all_white(pre), all_white(post)]
            all_white(pre) && all_white(post) && s == pre + word + post;
        if word.len() > 0 {
            assert(s =~= pre + (word + post));
            lemma_trim_front(pre, word + post);
            lemma_trim_back(word, post);
        } else {
            let white = pre + post;
            assert(s =~= white);
            assert forall|i: int| 0 <= i < white.len() implies is_white_space(
                #[trigger] white[i],
            ) by {
                if i < pre.len() {
                    assert(is_white_space(pre[i]));
                } else {
                    assert(is_white_space(post[i - pre.len()]));
                }
            }
            let nothing: Seq<char> = seq![];
            lemma_trim_front(white, nothing);
            assert(white + nothing =~= white);
            assert(word =~= nothing);
        }
    }
}

/// Calls `str::trim`.
///
/// Claimed: the characters with the property White_Space are removed from both
/// ends, and no others.
#[verifier::external_body]
pub(crate) fn trim<'a>(s: &'a str) -> (res: &'a str)
    ensures
        res@ == trimmed(s@),
{
    s.trim()
}

// Escape sequences

/// What `strip_ansi_escapes::strip_str` leaves of a text.
pub uninterp spec fn ansi_stripped(s: Seq<char>) -> Seq<char>;

/// `c` is kept outside of an escape sequence: it is a newline or no control
/// character of the C0 and C1 ranges.
pub open spec fn survives_stripping(c: char) -> bool {
    c == '\n' || !(c <= '\u{1F}' || '\u{80}' <= c <= '\u{9F}')
}

/// The characters of `s` that are kept outside of an escape sequence.
pub open spec fn surviving(s: Seq<char>) -> Seq<char> {
    s.filter(|c: char| survives_stripping(c))
}

/// Calls `strip_ansi_escapes::strip_str`.
///
/// Claimed: the result is a function of the text; of a text without the escape
/// character it keeps the newlines and what is no C0 or C1 control character. What
/// counts as an escape sequence is left unsaid.
#[verifier::external_body]
pub(crate) fn strip_str(s: &str) -> (res: String)
    ensures
        res@ == ansi_stripped(s@),
        !s@.contains('\u{1B}') ==> res@ == surviving(s@),
{
    strip_ansi_escapes::strip_str(s)
}

/// `s` has at least one character, and all of them are visible ASCII.
pub open spec fn is_visible_ascii(s: Seq<char>) -> bool {
    s.len() > 0 && forall|i: int| 0 <= i < s.len() ==> '!' <= #[trigger] s[i] <= '~'
}

/// Visible ASCII has nothing to trim.
proof fn lemma_visible_is_trimmed(s: Seq<char>)
    requires
        is_visible_ascii(s),
    ensures
        trimmed(s) == s,
{
    assert('!' <= s[0] <= '~');
    assert('!' <= s[s.len() - 1] <= '~');
}

/// Where every character is kept, the text stays as it is.
proof fn lemma_all_survive(s: Seq<char>)
    requires
        forall|i: int| 0 <= i < s.len() ==> survives_stripping(#[trigger] s[i]),
    ensures
        surviving(s) == s,
    decreases s.len(),
{
    reveal(Seq::filter);
    if s.len() > 0 {
        lemma_all_survive(s.drop_last());
        assert(s.drop_last().push(s.last()) =~= s);
    }
}

/// Trimming at the start keeps the last character, where that is no whitespace.
proof fn lemma_trimmed_start_keeps_last(s: Seq<char>)
    requires
        s.len() > 0,
        !is_white_space(s.last()),
    ensures
        trimmed_start(s).len() > 0,
        trimmed_start(s).last() == s.last(),
    decreases s.len(),
{
    if is_white_space(s.first()) {
        lemma_trimmed_start_keeps_last(s.drop_first());
    }
}

/// A line that ends with a visible character, but for a carriage return, says a word
/// that ends with it.
pub proof fn lemma_plain_line_end(line: Seq<char>, c: char, word: Seq<char>)
    requires
        '!' <= c <= '~',
        plain_line_says(line.push(c), word) || plain_line_says(line.push(c).push('\r'), word),
    ensures
        word.len() > 0,
        word.last() == c,
{
    reveal(Seq::filter);
    let shown = line.push(c);
    assert(shown.drop_last() =~= line);
    assert(shown.push('\r').drop_last() =~= shown);
    lemma_trimmed_start_keeps_last(surviving(shown));
}

/// What a line says once its escape sequences and the whitespace around it are
/// gone is `word`.
pub open spec fn line_says(line: Seq<char>, word: Seq<char>) -> bool {
    trimmed(ansi_stripped(line)) == word
}

/// A line without escape sequences says `word`.
pub open spec fn plain_line_says(line: Seq<char>, word: Seq<char>) -> bool {
    trimmed(surviving(line)) == word
}

/// A line says `word`: one without the escape character as it is, any other once its
/// escape sequences are gone.
pub open spec fn judged_line_says(line: Seq<char>, word: Seq<char>) -> bool {
    if line.contains('\u{1B}') {
        line_says(line, word)
    } else {
        plain_line_says(line, word)
    }
}

/// A line says a word exactly where the word, with whitespace around it at most, is all
/// that is left of the line: of one with the escape character once its escape sequences
/// are stripped, of any other once its control characters are.
pub proof fn law_line_says_only_its_word(line: Seq<char>, word: Seq<char>)
    ensures
        ({
            let left = if line.contains('\u{1B}') {
                ansi_stripped(line)
            } else {
                surviving(line)
            };
            judged_line_says(line, word) <==> no_white_ends(word) && exists|
                pre: Seq<char>,
                post: Seq<char>,
            |
                #![trigger all_white(pre), all_white(post)]
                all_white(pre) && all_white(post) && left == pre + word + post
        }),
        line_says(line, word) <==> trimmed(ansi_stripped(line)) == word,
        plain_line_says(line, word) <==> trimmed(surviving(line)) == word,
{
    if line.contains('\u{1B}') {
        lemma_trimmed_to(ansi_stripped(line), word);
    } else {
        lemma_trimmed_to(surviving(line), word);
    }
}

/// A line of characters that are no control characters says a word exactly where it is
/// that word with whitespace around it at most, also where a carriage return ends it.
pub proof fn law_printable_line_says_only_its_word(line: Seq<char>, word: Seq<char>)
    requires
        forall|i: int|
            0 <= i < line.len() ==> ' ' <= #[trigger] line[i] && !('\u{80}' <= line[i] <= '\u{9F}'),
    ensures
        judged_line_says(line, word) == judged_line_says(line.push('\r'), word),
        judged_line_says(line, word) <==> no_white_ends(word) && exists|
            pre: Seq<char>,
            post: Seq<char>,
        |
            #![trigger all_white(pre), all_white(post)]
            all_white(pre) && all_white(post) && line == pre + word + post,
{
    assert(!line.contains('\u{1B}'));
    assert(!line.push('\r').contains('\u{1B}'));
    lemma_all_survive(line);
    assert(surviving(line.push('\r')) == line) by {
        reveal(Seq::filter);
        assert(line.push('\r').drop_last() =~= line);
    }
    law_line_says_only_its_word(line, word);
}

/// A terminal that echoes a visible word, with or without a carriage return behind
/// it, prints a line that says that word.
pub proof fn law_echoed_word_is_said(word: Seq<char>)
    requires
        is_visible_ascii(word),
    ensures
        plain_line_says(word, word),
        plain_line_says(word.push('\r'), word),
{
    lemma_visible_is_trimmed(word);
    lemma_all_survive(word);
    reveal(Seq::filter);
    assert(word.push('\r').drop_last() =~= word);
}

/// Whether `clean` is `word` once the whitespace around it is gone.
pub fn is_word(clean: &str, word: &String) -> (res: bool)
    ensures
        res == (trimmed(clean@) == word@),
{
    trim(clean).to_owned() == *word
}

/// Whether a line says `word`, and nothing else, once its escape sequences and the
/// whitespace around it are gone.
pub fn says(line: &str, word: &String) -> (res: bool)
    ensures
        res == line_says(line@, word@),
        res == judged_line_says(line@, word@),
{
    let clean = strip_str(line);
    is_word(clean.as_str(), word)
}

} // verus!
