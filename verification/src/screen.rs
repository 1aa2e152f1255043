//! The virtual terminal that shows the output of tasks.

use avt::Vt;
use vstd::prelude::*;

verus! {

/// A virtual terminal of the `avt` crate.
#[verifier::external_type_specification]
#[verifier::external_body]
pub struct ExVt(Vt);

/// The columns and rows of a virtual terminal.
pub uninterp spec fn vt_size(vt: Vt) -> (usize, usize);

/// What a virtual terminal becomes when a text is fed to it.
pub uninterp spec fn vt_after(vt: Vt, text: Seq<char>) -> Vt;

/// A terminal that can take every text: it has a row, and the two columns of a wide
/// character.
pub open spec fn can_be_fed(vt: Vt) -> bool {
    vt_size(vt).0 >= 2 && vt_size(vt).1 >= 1
}

/// Calls `avt::Vt::size`.
///
/// Claimed: the result is the number of columns and of rows.
#[verifier::external_body]
fn size_of_vt(vt: &Vt) -> (res: (usize, usize))
    ensures
        res == vt_size(*vt),
{
    vt.size()
}

/// Calls `avt::Vt::feed_str`.
///
/// Claimed: what the terminal becomes is a function of what it was and of the text,
/// and its size stays. What it shows is left unsaid. A terminal without rows, or
/// with fewer than the two columns of a wide character, cannot take every text.
#[verifier::external_body]
fn feed_vt(vt: &mut Vt, text: &str)
    requires
        can_be_fed(*old(vt)),
    ensures
        *final(vt) == vt_after(*old(vt), text@),
        vt_size(*final(vt)) == vt_size(*old(vt)),
{
    vt.feed_str(text);
}

/// A virtual terminal that is being fed.
pub struct Screen<'a> {
    pub vt: &'a mut Vt,
}

impl<'a> Screen<'a> {
    /// The terminal as it is now.
    pub open spec fn terminal(&self) -> Vt {
        *self.vt
    }

    /// The terminal is large enough to be fed.
    pub open spec fn wf(&self) -> bool {
        can_be_fed(self.terminal())
    }

    /// A screen on a terminal, where that has at least two columns and one row.
    pub fn new(vt: &'a mut Vt) -> (res: Option<Screen<'a>>)
        ensures
            res is Some <==> can_be_fed(*old(vt)),
            res matches Some(screen) ==> {
                &&& screen.terminal() == *old(vt)
                &&& *final(screen.vt) == *final(vt)
            },
            res is None ==> *final(vt) == *old(vt),
    {
        let (cols, rows) = size_of_vt(vt);
        if cols >= 2 && rows >= 1 {
            Some(Screen { vt })
        } else {
            None
        }
    }

    /// Feeds a text to the terminal.
    pub fn feed(&mut self, text: &str)
        requires
            old(self).wf(),
        ensures
            final(self).wf(),
            final(self).terminal() == vt_after(old(self).terminal(), text@),
            *final(final(self).vt) == *final(old(self).vt),
    {
        feed_vt(self.vt, text);
    }
}

/// What a terminal becomes when it shows a text, where there is one.
pub open spec fn vt_shown(vt: Vt, text: Option<Seq<char>>) -> Vt {
    match text {
        Some(text) => vt_after(vt, text),
        None => vt,
    }
}

/// A terminal can be fed exactly where it has at least one row and two columns, and it
/// shows exactly the text that there is.
pub proof fn law_terminal(vt: Vt, text: Seq<char>)
    ensures
        can_be_fed(vt) <==> vt_size(vt).0 >= 2 && vt_size(vt).1 >= 1,
        vt_shown(vt, Some(text)) == vt_after(vt, text),
        vt_shown(vt, None) == vt,
{
}

/// Feeds a text to a screen, where there is one.
pub fn feed_shown(screen: Option<&mut Screen>, text: &str)
    requires
        screen matches Some(s) ==> s.wf(),
    ensures
        screen matches Some(s) ==> {
            &&& final(s).wf()
            &&& final(s).terminal() == vt_after(s.terminal(), text@)
            &&& *final(final(s).vt) == *final(s.vt)
        },
{
    if let Some(s) = screen {
        s.feed(text);
    }
}

} // verus!
