//! The line where a message is typed before it is sent.
use crate::components::Component;
use crate::components::Effect;
use crate::components::EffectView;
use crate::components::Key;
use crate::components::KeyPress;
use vstd::prelude::*;

verus! {

/// Whether `press` asks for the message to be sent: Control and `s`.
pub open spec fn asks_to_send(press: KeyPress) -> bool {
    press.control && press.key == Key::Char('s')
}

/// The text that was typed and not sent yet.
#[derive(Clone, Debug, Default, PartialEq, Eq)]
pub struct MessageInput {
    draft: String,
}

impl View for MessageInput {
    type V = Seq<char>;

    closed spec fn view(&self) -> Seq<char> {
        self.draft@
    }
}

impl MessageInput {
    /// An empty line.
    pub fn new() -> (input: MessageInput)
        ensures
            input@ == Seq::<char>::empty(),
    {
        MessageInput { draft: String::new() }
    }

    /// The text that was typed.
    pub fn draft(&self) -> (draft: &str)
        ensures
            draft@ == self@,
    {
        self.draft.as_str()
    }

    /// Puts `text` in place of what was typed.
    pub fn set_draft(&mut self, text: String)
        ensures
            final(self)@ == text@,
    {
        self.draft = text;
    }

    /// Takes the text out of the line, which is empty afterwards.
    pub fn get_message(&mut self) -> (message: String)
        ensures
            message@ == old(self)@,
            final(self)@ == Seq::<char>::empty(),
    {
        let mut message = String::new();
        core::mem::swap(&mut self.draft, &mut message);
        message
    }
}

impl Component for MessageInput {
    /// Takes a key: Control and `s` take the text out to be sent; no other key
    /// changes what this line holds.
    fn update(&mut self, press: KeyPress) -> (effect: Effect)
        ensures
            asks_to_send(press) ==> effect@ == EffectView::SendMessage(old(self)@) && final(self)@
                == Seq::<char>::empty(),
            !asks_to_send(press) ==> effect@ == EffectView::Nothing && final(self)@ == old(self)@,
    {
        if press.control && press.key == Key::Char('s') {
            Effect::SendMessage(self.get_message())
        } else {
            Effect::Nothing
        }
    }
}

} // verus!
