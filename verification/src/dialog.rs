//! Dialogs: ordered message lists shown to the player, with an optional
//! action sequence run after the dialog closes.

use vstd::prelude::*;
use crate::effect::Effect;
use crate::model::DialogM;
use crate::state::{run_all_from, Sequence};
use crate::tags::TagSet;
use crate::actions::dialog_view;

verus! {

/// Represents a dialog interaction with the player.
#[derive(Debug)]
pub struct Dialog {
    /// Messages to display, in the order that they will be displayed.
    pub messages: Vec<String>,
    /// Index of the current message to display.
    pub curr_msg: usize,
    /// Actions to run after the dialog; state changes are nonsensical here
    /// (they would act on a scratch tag set), use an effect instead.
    pub after: Option<Sequence>,
}

impl View for Dialog {
    type V = DialogM;

    open spec fn view(&self) -> DialogM {
        DialogM {
            messages: crate::effect::strings_view(self.messages@),
            curr: self.curr_msg as int,
            after: match self.after {
                Some(s) => Some(s@),
                None => None,
            },
        }
    }
}

/// A dialog is well formed when it has a message to show and its index
/// points at one of its messages.
pub open spec fn dialog_wf(d: DialogM) -> bool {
    0 < d.messages.len() && 0 <= d.curr < d.messages.len()
}

impl Dialog {
    /// Create a new dialog; a dialog holds at least one message.
    pub fn new(messages: Vec<String>, after: Option<Sequence>) -> (r: Dialog)
        requires
            messages@.len() > 0,
        ensures
            r@.messages == crate::effect::strings_view(messages@),
            r@.curr == 0,
            r@.after == match after {
                Some(s) => Some(s@),
                None => None,
            },
            dialog_wf(r@),
    {
        Dialog { messages, curr_msg: 0, after }
    }

    /// Switch the dialog to the next message, wrapping around, and return
    /// the message that was current.
    pub fn next(&mut self) -> (msg: String)
        requires
            dialog_wf(old(self)@),
        ensures
            dialog_wf(final(self)@),
            msg@ == old(self)@.messages[old(self)@.curr],
            final(self)@ == (DialogM {
                curr: (old(self)@.curr + 1) % old(self)@.messages.len() as int,
                ..old(self)@
            }),
    {
        proof {
            assert(self@.messages.len() == self.messages@.len());
        }
        let n = self.messages.len();
        let msg = self.messages[self.curr_msg].clone();
        self.curr_msg = (self.curr_msg + 1) % n;
        msg
    }

    /// Check if the dialog box has shown all messages.
    pub fn finished(&self) -> (r: bool)
        requires
            dialog_wf(self@),
        ensures
            r == (self@.curr == self@.messages.len() - 1),
    {
        self.messages.len() - 1 == self.curr_msg
    }

    /// Get the current message.
    pub fn msg(&self) -> (r: String)
        requires
            dialog_wf(self@),
        ensures
            r@ == self@.messages[self@.curr],
    {
        self.messages[self.curr_msg].clone()
    }

    /// Run the follow-up sequence, if any, against a scratch tag set: only
    /// its effect and dialog operations are observable.
    pub fn run_after(&self, effects: &mut Vec<Effect>, curr_dialog: &mut Option<String>)
        ensures
            (final(effects)@.map_values(|e: Effect| e@), dialog_view(*final(curr_dialog)))
                == match self@.after {
                Some(s) => {
                    let (_t, e2, d2) = run_all_from(s.steps, 0, Set::empty(),
                        old(effects)@.map_values(|e: Effect| e@), dialog_view(*old(curr_dialog)));
                    (e2, d2)
                },
                None => (old(effects)@.map_values(|e: Effect| e@), dialog_view(*old(curr_dialog))),
            },
    {
        match &self.after {
            Some(sequence) => {
                let mut scratch = TagSet::new();
                sequence.run_all(&mut scratch, effects, curr_dialog);
            },
            None => {},
        }
    }
}

} // verus!
