//! Draining pending PTY output with a fence.
//!
//! The fence is echoed twice by separate command lines, and output is read until
//! it appears twice. Reading until the second match ensures that the output of
//! PROMPT_COMMAND between them is consumed, leaving exactly one prompt in the
//! buffer. History is re-enabled after the second fence so the drain commands are
//! never recorded.

use crate::screen::{feed_shown, Screen};
use crate::task_runner::ready::PtyRead;
use crate::text::says;
use crate::utf8_accumulator::from_utf8_lossy;
use vstd::prelude::*;
use vstd::string::*;

verus! {

/// How long to wait for the fences.
pub const DRAIN_TIMEOUT_SECS: u64 = 5;

/// The line that marks the end of pending output.
pub open spec fn drain_fence_text() -> Seq<char> {
    "__DEVENV_DRAIN__"@
}

/// The lines that are typed into the shell to have the fence echoed twice.
pub open spec fn drain_line_text() -> Seq<char> {
    " echo '"@ + drain_fence_text() + "'\n echo '"@ + drain_fence_text() + "'; set -o history\n"@
}

/// The lines that are typed into the shell to have the fence echoed twice.
pub fn drain_line() -> (res: String)
    ensures
        res@ == drain_line_text(),
{
    let mut res = " echo '".to_owned();
    res.append("__DEVENV_DRAIN__");
    res.append("'\n echo '");
    res.append("__DEVENV_DRAIN__");
    res.append("'; set -o history\n");
    res
}

/// The number of lines of which `judge` holds.
pub open spec fn count_lines(lines: Seq<Seq<char>>, judge: spec_fn(Seq<char>) -> bool) -> nat
    decreases lines.len(),
{
    if lines.len() == 0 {
        0
    } else {
        count_lines(lines.drop_last(), judge) + if judge(lines.last()) {
            1nat
        } else {
            0nat
        }
    }
}

/// The number of lines of `text` that say `word`.
pub open spec fn said_count(text: Seq<char>, word: Seq<char>) -> nat {
    count_lines(
        crate::text::text_lines(text),
        |line: Seq<char>| crate::text::line_says(line, word),
    )
}

/// The number of lines of `text` that say `word`, where the lines without the escape
/// character are judged by what they show as they are.
pub open spec fn judged_count(text: Seq<char>, word: Seq<char>) -> nat {
    count_lines(
        crate::text::text_lines(text),
        |line: Seq<char>| crate::text::judged_line_says(line, word),
    )
}

/// The lines of `text` that are ended, without their line endings.
spec fn ended_lines(text: Seq<char>) -> Seq<Seq<char>> {
    crate::text::complete_lines(text).map_values(|line: Seq<char>| crate::text::without_cr(line))
}

/// More lines do not lower a count.
proof fn lemma_count_grows(a: Seq<Seq<char>>, b: Seq<Seq<char>>, judge: spec_fn(Seq<char>) -> bool)
    ensures
        count_lines(a, judge) <= count_lines(a + b, judge),
    decreases b.len(),
{
    if b.len() == 0 {
        assert(a + b =~= a);
    } else {
        lemma_count_grows(a, b.drop_last(), judge);
        assert((a + b).drop_last() =~= a + b.drop_last());
    }
}

/// The ended lines of the front of a text are the first lines of the text.
proof fn lemma_front_lines(front: Seq<char>, rest: Seq<char>, judge: spec_fn(Seq<char>) -> bool)
    ensures
        count_lines(ended_lines(front), judge) <= count_lines(
            crate::text::text_lines(front + rest),
            judge,
        ),
{
    let open = crate::text::unfinished_line(front);
    crate::text::law_lines_piecewise(front, rest);
    let more = ended_lines(open + rest);
    assert(ended_lines(front + rest) =~= ended_lines(front) + more);
    lemma_count_grows(ended_lines(front), more, judge);
    let last = crate::text::unfinished_line(front + rest);
    if last.len() > 0 {
        lemma_count_grows(ended_lines(front + rest), seq![last], judge);
        assert(ended_lines(front + rest) + seq![last] =~= crate::text::text_lines(front + rest));
    }
}

/// Whether at least two lines of `text` say `word`.
pub fn says_twice(text: &str, word: &String) -> (res: bool)
    ensures
        res == (said_count(text@, word@) >= 2),
        res == (judged_count(text@, word@) >= 2),
{
    let ghost judge = |line: Seq<char>| crate::text::line_says(line, word@);
    let ghost judged = |line: Seq<char>| crate::text::judged_line_says(line, word@);
    // The current line, but for a carriage return that it ends with.
    let mut line = String::new();
    let mut cr = false;
    let mut found: u8 = 0;
    assert(text@.take(0) =~= seq![]);
    assert(ended_lines(text@.take(0)) =~= seq![]);
    for c in it: text.chars()
        invariant
            it.seq() == text@,
            judge == (|line: Seq<char>| crate::text::line_says(line, word@)),
            judged == (|line: Seq<char>| crate::text::judged_line_says(line, word@)),
            found < 2,
            found == count_lines(ended_lines(text@.take(it.index())), judge),
            found == count_lines(ended_lines(text@.take(it.index())), judged),
            !cr ==> line@.len() == 0 || line@.last() != '\r',
            crate::text::unfinished_line(text@.take(it.index())) == (if cr {
                line@.push('\r')
            } else {
                line@
            }),
    {
        let ghost done = text@.take(it.index());
        let ghost next = text@.take(it.index() + 1);
        proof {
            assert(next.drop_last() =~= done);
            assert(next.last() == c);
        }
        if c == '\n' {
            let mut ended = String::new();
            std::mem::swap(&mut ended, &mut line);
            cr = false;
            proof {
                assert(crate::text::without_cr(crate::text::unfinished_line(done)) =~= ended@);
                assert(ended_lines(next) =~= ended_lines(done).push(ended@));
                assert(ended_lines(next).drop_last() =~= ended_lines(done));
            }
            if says(ended.as_str(), word) {
                found = found + 1;
                if found == 2 {
                    proof {
                        let rest = text@.skip(it.index() + 1);
                        assert(next + rest =~= text@);
                        lemma_front_lines(next, rest, judge);
                        lemma_front_lines(next, rest, judged);
                    }
                    return true;
                }
            }
        } else {
            assert(ended_lines(next) =~= ended_lines(done));
            if cr {
                line.push('\r');
            }
            cr = c == '\r';
            if !cr {
                line.push(c);
            }
        }
    }
    assert(text@.take(text@.len() as int) =~= text@);
    if cr {
        line.push('\r');
    }
    proof {
        let lines = crate::text::text_lines(text@);
        assert(lines.len() > 0 && line@.len() > 0 ==> lines.drop_last() =~= ended_lines(text@));
    }
    if line.as_str().is_empty() {
        return false;
    }
    says(line.as_str(), word) && found == 1
}

/// A count is at least one where a line is counted, and at least two where two are.
proof fn lemma_counted(
    lines: Seq<Seq<char>>,
    judge: spec_fn(Seq<char>) -> bool,
    i: int,
    j: int,
)
    requires
        0 <= i <= j < lines.len(),
        judge(lines[i]),
        judge(lines[j]),
    ensures
        count_lines(lines, judge) >= if i < j {
            2nat
        } else {
            1nat
        },
    decreases lines.len(),
{
    let before = lines.drop_last();
    if j < before.len() {
        lemma_counted(before, judge, i, j);
    } else if i < before.len() {
        lemma_counted(before, judge, i, i);
    }
}

/// Where two lines are counted, there are two of them.
proof fn lemma_counted_lines(lines: Seq<Seq<char>>, judge: spec_fn(Seq<char>) -> bool)
    ensures
        count_lines(lines, judge) >= 1 ==> exists|i: int|
            0 <= i < lines.len() && judge(#[trigger] lines[i]),
        count_lines(lines, judge) >= 2 ==> exists|i: int, j: int|
            0 <= i < j < lines.len() && judge(#[trigger] lines[i]) && judge(#[trigger] lines[j]),
    decreases lines.len(),
{
    if lines.len() > 0 {
        let before = lines.drop_last();
        let last = lines.len() - 1;
        lemma_counted_lines(before, judge);
        if count_lines(before, judge) >= 2 {
            let (i, j) = choose|i: int, j: int|
                0 <= i < j < before.len() && judge(#[trigger] before[i]) && judge(
                    #[trigger] before[j],
                );
            assert(judge(lines[i]) && judge(lines[j]));
        } else if count_lines(before, judge) >= 1 {
            let i = choose|i: int| 0 <= i < before.len() && judge(#[trigger] before[i]);
            assert(judge(lines[i]));
            assert(judge(lines[last]) ==> judge(lines[i]) && judge(lines[last]));
        } else {
            assert(judge(lines.last()) ==> judge(lines[last]));
        }
    }
}

/// Two lines are counted exactly where two different lines of the text say the word: as
/// they are where they have no escape character, once stripped otherwise.
pub proof fn law_two_lines_say_the_word(text: Seq<char>, word: Seq<char>)
    ensures
        ({
            let lines = crate::text::text_lines(text);
            judged_count(text, word) >= 2 <==> exists|i: int, j: int|
                {
                    &&& 0 <= i < j < lines.len()
                    &&& crate::text::judged_line_says(#[trigger] lines[i], word)
                    &&& crate::text::judged_line_says(#[trigger] lines[j], word)
                }
        }),
        ({
            let lines = crate::text::text_lines(text);
            said_count(text, word) >= 2 <==> exists|i: int, j: int|
                {
                    &&& 0 <= i < j < lines.len()
                    &&& crate::text::trimmed(
                        crate::text::ansi_stripped(#[trigger] lines[i]),
                    ) == word
                    &&& crate::text::trimmed(
                        crate::text::ansi_stripped(#[trigger] lines[j]),
                    ) == word
                }
        }),
{
    let lines = crate::text::text_lines(text);
    let judged = |line: Seq<char>| crate::text::judged_line_says(line, word);
    let said = |line: Seq<char>| crate::text::line_says(line, word);
    lemma_counted_lines(lines, judged);
    lemma_counted_lines(lines, said);
    if exists|i: int, j: int|
        {
            &&& 0 <= i < j < lines.len()
            &&& crate::text::judged_line_says(#[trigger] lines[i], word)
            &&& crate::text::judged_line_says(#[trigger] lines[j], word)
        } {
        let (i, j) = choose|i: int, j: int|
            {
                &&& 0 <= i < j < lines.len()
                &&& crate::text::judged_line_says(#[trigger] lines[i], word)
                &&& crate::text::judged_line_says(#[trigger] lines[j], word)
            };
        lemma_counted(lines, judged, i, j);
    }
    if exists|i: int, j: int|
        {
            &&& 0 <= i < j < lines.len()
            &&& crate::text::trimmed(crate::text::ansi_stripped(#[trigger] lines[i])) == word
            &&& crate::text::trimmed(crate::text::ansi_stripped(#[trigger] lines[j])) == word
        } {
        let (i, j) = choose|i: int, j: int|
            {
                &&& 0 <= i < j < lines.len()
                &&& crate::text::trimmed(crate::text::ansi_stripped(#[trigger] lines[i])) == word
                &&& crate::text::trimmed(crate::text::ansi_stripped(#[trigger] lines[j])) == word
            };
        lemma_counted(lines, said, i, j);
    }
}

/// The lines that a text is split into hold no character that the text does not hold.
proof fn lemma_lines_of_plain_text(text: Seq<char>)
    requires
        !text.contains('\u{1B}'),
    ensures
        forall|i: int|
            0 <= i < crate::text::text_lines(text).len() ==> !(#[trigger] crate::text::text_lines(
                text,
            )[i]).contains('\u{1B}'),
{
    lemma_split_lines_of_plain_text(text);
    let lines = crate::text::complete_lines(text);
    assert forall|i: int| 0 <= i < crate::text::text_lines(text).len() implies !(
    #[trigger] crate::text::text_lines(text)[i]).contains('\u{1B}') by {
        let line = crate::text::text_lines(text)[i];
        if i < lines.len() {
            assert(line == crate::text::without_cr(lines[i]));
            assert forall|k: int| 0 <= k < line.len() implies line[k] != '\u{1B}' by {
                assert(lines[i].contains(lines[i][k]));
            }
        }
    }
}

/// The complete lines and the unfinished line of a text without the escape character
/// hold none either.
proof fn lemma_split_lines_of_plain_text(text: Seq<char>)
    requires
        !text.contains('\u{1B}'),
    ensures
        !crate::text::unfinished_line(text).contains('\u{1B}'),
        forall|i: int|
            0 <= i < crate::text::complete_lines(text).len() ==> !(
            #[trigger] crate::text::complete_lines(text)[i]).contains('\u{1B}'),
    decreases text.len(),
{
    if text.len() > 0 {
        let front = text.drop_last();
        assert(text.contains(text.last()));
        assert forall|k: int| 0 <= k < front.len() implies front[k] != '\u{1B}' by {
            assert(text.contains(text[k]));
        }
        lemma_split_lines_of_plain_text(front);
        let open = crate::text::unfinished_line(front);
        assert forall|k: int| 0 <= k < open.len() + 1 implies open.push(text.last())[k]
            != '\u{1B}' by {
            if k < open.len() {
                assert(open.contains(open[k]));
            }
        }
        assert(!open.push(text.last()).contains('\u{1B}'));
        let lines = crate::text::complete_lines(front);
        assert forall|i: int| 0 <= i < crate::text::complete_lines(text).len() implies !(
        #[trigger] crate::text::complete_lines(text)[i]).contains('\u{1B}') by {
            if i < lines.len() {
                assert(crate::text::complete_lines(text)[i] == lines[i]);
            }
        }
    }
}

/// In output without the escape character, the drain is over exactly where two different
/// lines of it are the fence, with whitespace around it at most, once control characters
/// are gone.
pub proof fn law_drain_ends_with_second_fence(text: Seq<char>)
    requires
        !text.contains('\u{1B}'),
    ensures
        ({
            let lines = crate::text::text_lines(text);
            judged_count(text, drain_fence_text()) >= 2 <==> exists|i: int, j: int|
                {
                    &&& 0 <= i < j < lines.len()
                    &&& crate::text::trimmed(crate::text::surviving(#[trigger] lines[i]))
                        == drain_fence_text()
                    &&& crate::text::trimmed(crate::text::surviving(#[trigger] lines[j]))
                        == drain_fence_text()
                }
        }),
{
    let lines = crate::text::text_lines(text);
    let fence = drain_fence_text();
    law_two_lines_say_the_word(text, fence);
    lemma_lines_of_plain_text(text);
    assert(forall|i: int|
        0 <= i < lines.len() ==> crate::text::judged_line_says(#[trigger] lines[i], fence) == (
        crate::text::trimmed(crate::text::surviving(lines[i])) == fence));
    if judged_count(text, fence) >= 2 {
        let (i, j) = choose|i: int, j: int|
            {
                &&& 0 <= i < j < lines.len()
                &&& crate::text::judged_line_says(#[trigger] lines[i], fence)
                &&& crate::text::judged_line_says(#[trigger] lines[j], fence)
            };
        assert(crate::text::trimmed(crate::text::surviving(lines[i])) == fence);
        assert(crate::text::trimmed(crate::text::surviving(lines[j])) == fence);
    }
    if exists|i: int, j: int|
        {
            &&& 0 <= i < j < lines.len()
            &&& crate::text::trimmed(crate::text::surviving(#[trigger] lines[i])) == fence
            &&& crate::text::trimmed(crate::text::surviving(#[trigger] lines[j])) == fence
        } {
        let (i, j) = choose|i: int, j: int|
            {
                &&& 0 <= i < j < lines.len()
                &&& crate::text::trimmed(crate::text::surviving(#[trigger] lines[i])) == fence
                &&& crate::text::trimmed(crate::text::surviving(#[trigger] lines[j])) == fence
            };
        assert(crate::text::judged_line_says(lines[i], fence));
        assert(crate::text::judged_line_says(lines[j], fence));
    }
}

/// The two lines that are typed to drain are not taken for the fence when the terminal
/// echoes them, behind any prompt.
pub proof fn law_echoed_drain_line_is_no_fence(prompt: Seq<char>, k: int)
    requires
        0 <= k < 2,
    ensures
        ({
            let typed = crate::text::complete_lines(drain_line_text());
            &&& typed.len() == 2
            &&& crate::text::unfinished_line(drain_line_text()).len() == 0
            &&& !crate::text::plain_line_says(prompt + typed[k], drain_fence_text())
            &&& !crate::text::plain_line_says((prompt + typed[k]).push('\r'), drain_fence_text())
        }),
{
    reveal_strlit("__DEVENV_DRAIN__");
    reveal_strlit(" echo '");
    reveal_strlit("'\n echo '");
    reveal_strlit("'; set -o history\n");
    reveal_strlit("'; set -o history");
    let fence = drain_fence_text();
    let first = " echo '"@ + fence + seq!['\''];
    let second = " echo '"@ + fence + "'; set -o history"@;
    let typed = seq![first, second];
    let nothing: Seq<char> = seq![];
    assert(typed.drop_last() =~= seq![first]);
    assert(typed.drop_last().drop_last() =~= seq![]);
    assert(crate::text::joined(seq![first].drop_last()) =~= nothing);
    assert(crate::text::joined(seq![first]) =~= first + seq!['\n']);
    assert(crate::text::joined(typed) =~= first + seq!['\n'] + second + seq!['\n']);
    assert(drain_line_text() =~= crate::text::joined(typed) + nothing);
    assert(crate::text::without_newlines(typed)) by {
        assert(!first.contains('\n'));
        assert(!second.contains('\n'));
    }
    crate::text::law_joined_lines_are_split(typed, nothing);
    let line = prompt + typed[k];
    assert(line.drop_last().push(line.last()) =~= line);
    assert(line.last() == if k == 0 {
        '\''
    } else {
        'y'
    });
    assert(fence.last() == '_');
    if crate::text::plain_line_says(line, fence) || crate::text::plain_line_says(
        line.push('\r'),
        fence,
    ) {
        crate::text::lemma_plain_line_end(line.drop_last(), line.last(), fence);
    }
}

/// `line` ends with `tail`.
pub open spec fn ends_with(line: Seq<char>, tail: Seq<char>) -> bool {
    tail.len() <= line.len() && line.skip(line.len() - tail.len()) == tail
}

/// A single fence does not end the drain, however often the terminal has echoed the
/// typed lines, behind whatever prompts.
pub proof fn law_one_fence_does_not_end_drain(text: Seq<char>, at: int)
    requires
        forall|i: int|
            0 <= i < crate::text::text_lines(text).len() && i != at ==> {
                let line = #[trigger] crate::text::text_lines(text)[i];
                let typed = crate::text::complete_lines(drain_line_text());
                &&& !line.contains('\u{1B}')
                &&& ends_with(line, typed[0]) || ends_with(line, typed[1])
            },
    ensures
        judged_count(text, drain_fence_text()) < 2,
{
    let lines = crate::text::text_lines(text);
    let typed = crate::text::complete_lines(drain_line_text());
    let fence = drain_fence_text();
    law_two_lines_say_the_word(text, fence);
    assert forall|i: int| 0 <= i < lines.len() && i != at implies !crate::text::judged_line_says(
        #[trigger] lines[i],
        fence,
    ) by {
        let line = crate::text::text_lines(text)[i];
        let k: int = if ends_with(line, typed[0]) {
            0
        } else {
            1
        };
        let prompt = line.take(line.len() - typed[k].len());
        assert(prompt + typed[k] =~= line);
        law_echoed_drain_line_is_no_fence(prompt, k);
    }
}

/// The drain is over once the terminal has echoed the fence on two lines, whatever
/// stands on the others.
pub proof fn law_two_echoes_end_drain(text: Seq<char>, i: int, j: int)
    requires
        0 <= i < j < crate::text::text_lines(text).len(),
        crate::text::text_lines(text)[i] == drain_fence_text(),
        crate::text::text_lines(text)[j] == drain_fence_text(),
    ensures
        judged_count(text, drain_fence_text()) >= 2,
{
    let fence = drain_fence_text();
    reveal_strlit("__DEVENV_DRAIN__");
    assert(crate::text::is_visible_ascii(fence));
    crate::text::law_echoed_word_is_said(fence);
    lemma_counted(
        crate::text::text_lines(text),
        |line: Seq<char>| crate::text::judged_line_says(line, fence),
        i,
        j,
    );
}

/// What happens while pending output is drained.
pub enum DrainEvent {
    /// The drain lines could not be sent.
    NotSent,
    /// The time is over.
    TimedOut,
    /// A read from the PTY ended.
    Read(PtyRead),
}

/// The output that an event brings.
pub open spec fn drained_text(event: DrainEvent) -> Option<Seq<char>> {
    match event {
        DrainEvent::Read(read) => crate::task_runner::ready::read_text(read),
        DrainEvent::NotSent | DrainEvent::TimedOut => None,
    }
}

/// An event brings output exactly where a read gave bytes, and then the text of those
/// bytes.
pub proof fn law_drained_text(event: DrainEvent)
    ensures
        drained_text(event) == match event {
            DrainEvent::Read(PtyRead::Data(data)) => if data@.len() > 0 {
                Some(crate::utf8_accumulator::utf8_lossy(data@))
            } else {
                None
            },
            _ => None::<Seq<char>>,
        },
{
}

/// The drain of pending output.
pub struct Drain {
    fence: String,
    buffer: String,
}

impl Drain {
    /// The output that was drained.
    pub closed spec fn drained(&self) -> Seq<char> {
        self.buffer@
    }

    /// The fence is that of the drain.
    pub closed spec fn wf(&self) -> bool {
        self.fence@ == drain_fence_text()
    }

    /// A drain that has read nothing.
    pub fn new() -> (res: Drain)
        ensures
            res.wf(),
            res.drained() == Seq::<char>::empty(),
    {
        Drain { fence: "__DEVENV_DRAIN__".to_owned(), buffer: String::new() }
    }

    /// Takes output; returns whether the drain is over, which is when two lines of
    /// all its output say the fence.
    pub fn on_output(&mut self, text: &str) -> (over: bool)
        requires
            old(self).wf(),
        ensures
            final(self).wf(),
            final(self).drained() == old(self).drained() + text@,
            over == (said_count(final(self).drained(), drain_fence_text()) >= 2),
            over == (judged_count(final(self).drained(), drain_fence_text()) >= 2),
    {
        self.buffer.append(text);
        says_twice(self.buffer.as_str(), &self.fence)
    }

    /// Takes an event; returns whether the drain is over. Output is fed to the
    /// screen, where there is one. Anything but output ends the drain.
    pub fn on_event(&mut self, event: DrainEvent, screen: Option<&mut Screen>) -> (over: bool)
        requires
            old(self).wf(),
            screen matches Some(s) ==> s.wf(),
        ensures
            final(self).wf(),
            event matches DrainEvent::Read(read) ==> crate::task_runner::ready::read_is_decoded(
                read,
            ),
            screen matches Some(s) ==> {
                &&& final(s).wf()
                &&& final(s).terminal() == crate::screen::vt_shown(
                    s.terminal(),
                    drained_text(event),
                )
                &&& *final(final(s).vt) == *final(s.vt)
            },
            drained_text(event) is None ==> {
                &&& over
                &&& final(self).drained() == old(self).drained()
            },
            drained_text(event) matches Some(text) ==> {
                &&& final(self).drained() == old(self).drained() + text
                &&& over == (said_count(final(self).drained(), drain_fence_text()) >= 2)
                &&& over == (judged_count(final(self).drained(), drain_fence_text()) >= 2)
            },
    {
        match event {
            DrainEvent::Read(PtyRead::Data(data)) => {
                if data.len() == 0 {
                    return true;
                }
                let chunk = from_utf8_lossy(data.as_slice());
                feed_shown(screen, chunk.as_str());
                self.on_output(chunk.as_str())
            },
            _ => true,
        }
    }
}

} // verus!
