//! The parts of the screen, as plain state: which topic is selected, which
//! topic is shown, what is being typed. A key goes to the part that has the
//! focus, which changes its state and says what is to follow.
pub mod chat_view;
pub mod message_input;
pub mod topics;

use vstd::prelude::*;

verus! {

/// What a part of the screen reads of a key.
#[derive(Clone, Copy, Debug, PartialEq, Eq, Structural)]
pub enum Key {
    Char(char),
    Up,
    Down,
    Enter,
    Other,
}

/// A key that was pressed, and whether Control, and nothing but Control, was
/// held with it.
#[derive(Clone, Copy, Debug, PartialEq, Eq, Structural)]
pub struct KeyPress {
    pub key: Key,
    pub control: bool,
}

/// What is to follow a key.
#[derive(Clone, Debug, PartialEq, Eq)]
pub enum Effect {
    /// The text is to be sent as a note.
    SendMessage(String),
    /// The notes of this topic are to be shown.
    ViewTopic(String),
    /// The focus is to go back to where messages are typed.
    Return,
    Nothing,
}

/// A part of the screen: it takes the keys that are pressed while it has the
/// focus.
pub trait Component {
    /// Takes a key and says what is to follow.
    fn update(&mut self, press: KeyPress) -> (effect: Effect);
}

/// An effect as specifications see it.
pub enum EffectView {
    SendMessage(Seq<char>),
    ViewTopic(Seq<char>),
    Return,
    Nothing,
}

impl View for Effect {
    type V = EffectView;

    open spec fn view(&self) -> EffectView {
        match self {
            Effect::SendMessage(text) => EffectView::SendMessage(text@),
            Effect::ViewTopic(topic) => EffectView::ViewTopic(topic@),
            Effect::Return => EffectView::Return,
            Effect::Nothing => EffectView::Nothing,
        }
    }
}

} // verus!
