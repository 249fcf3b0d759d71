//! The screen as a whole: its parts, which of them has the focus, and what the
//! keys do that belong to no part.
use crate::components::chat_view::ChatView;
use crate::components::message_input::asks_to_send;
use crate::components::message_input::MessageInput;
use crate::components::topics::selected_entry;
use crate::components::topics::selection_after;
use crate::components::topics::topics_effect;
use crate::components::topics::Topics;
use crate::components::Component;
use crate::components::Effect;
use crate::components::EffectView;
use crate::components::Key;
use crate::components::KeyPress;
use crate::note::Note;
use crate::timestamp::Timestamp;
use vstd::prelude::*;

verus! {

/// The part of the screen that keys go to.
#[derive(Debug, Clone, Copy, PartialEq, Eq, Structural)]
pub enum Focus {
    Topics,
    ChatView,
    MessageInput,
}

/// The parts of the screen.
#[derive(Clone, Debug, PartialEq, Eq)]
pub struct Components {
    pub topics: Topics,
    pub chat_view: ChatView,
    pub message_input: MessageInput,
}

/// What follows `press` when `focus` has the focus.
pub open spec fn components_effect(components: Components, focus: Focus, press: KeyPress) -> EffectView {
    match focus {
        Focus::Topics => topics_effect(
            components.topics.names(),
            components.topics.selection(),
            press.key,
        ),
        Focus::ChatView => EffectView::Nothing,
        Focus::MessageInput => if asks_to_send(press) {
            EffectView::SendMessage(components.message_input@)
        } else {
            EffectView::Nothing
        },
    }
}

impl Components {
    /// The parts as they are when the program starts: the three topics with
    /// none selected, the first of them shown, and nothing typed.
    pub fn new() -> (components: Components)
        ensures
            components.topics.names() == seq!["Derp"@, "Flerp"@, "Herp"@],
            components.topics.selection() == None::<usize>,
            components.chat_view@ == "Derp"@,
            components.message_input@ == Seq::<char>::empty(),
    {
        let chat_view = ChatView::new("Derp".to_owned());
        let message_input = MessageInput::new();
        let topics = Topics::new();
        Components { topics, chat_view, message_input }
    }

    /// Hands `press` to the part that has the focus. The other parts stay as
    /// they are.
    pub fn update(&mut self, focus: Focus, press: KeyPress) -> (effect: Effect)
        ensures
            effect@ == components_effect(*old(self), focus, press),
            final(self).topics.names() == old(self).topics.names(),
            final(self).chat_view@ == old(self).chat_view@,
            final(self).topics.selection() == if focus == Focus::Topics {
                selection_after(old(self).topics.selection(), press.key)
            } else {
                old(self).topics.selection()
            },
            final(self).message_input@ == if focus == Focus::MessageInput && asks_to_send(press) {
                Seq::<char>::empty()
            } else {
                old(self).message_input@
            },
    {
        match focus {
            Focus::Topics => self.topics.update(press),
            Focus::ChatView => self.chat_view.update(press),
            Focus::MessageInput => self.message_input.update(press),
        }
    }
}

/// What the program is to do after a key.
#[derive(Clone, Debug, PartialEq, Eq)]
pub enum Command {
    /// Nothing beyond drawing the screen again.
    Nothing,
    /// A note with this message is to be written under this topic, signed and
    /// sent.
    Send { topic: String, msg: String },
    /// A message was to be sent and no topic is selected.
    SendWithoutTopic { msg: String },
}

/// A command as specifications see it.
pub enum CommandView {
    Nothing,
    Send { topic: Seq<char>, msg: Seq<char> },
    SendWithoutTopic { msg: Seq<char> },
}

impl View for Command {
    type V = CommandView;

    open spec fn view(&self) -> CommandView {
        match self {
            Command::Nothing => CommandView::Nothing,
            Command::Send { topic, msg } => CommandView::Send { topic: topic@, msg: msg@ },
            Command::SendWithoutTopic { msg } => CommandView::SendWithoutTopic { msg: msg@ },
        }
    }
}

/// Whether `press` is Control with the letter `letter`.
pub open spec fn is_control(press: KeyPress, letter: char) -> bool {
    press.control && press.key == Key::Char(letter)
}

/// Whether `press` is one of the keys that belong to the screen as a whole:
/// Control with `q`, `t` or `y`.
pub open spec fn is_global(press: KeyPress) -> bool {
    is_control(press, 'q') || is_control(press, 't') || is_control(press, 'y')
}

/// The state of the screen: its parts, the focus, and whether the user asked
/// to leave.
#[derive(Clone, Debug, PartialEq, Eq)]
pub struct Screen {
    pub components: Components,
    pub focus: Focus,
    pub exit: bool,
}

impl Screen {
    /// The screen as it is when the program starts: the focus is where
    /// messages are typed.
    pub fn new() -> (screen: Screen)
        ensures
            screen.focus == Focus::MessageInput,
            !screen.exit,
            screen.components.topics.names() == seq!["Derp"@, "Flerp"@, "Herp"@],
            screen.components.topics.selection() == None::<usize>,
            screen.components.chat_view@ == "Derp"@,
            screen.components.message_input@ == Seq::<char>::empty(),
    {
        Screen { components: Components::new(), focus: Focus::MessageInput, exit: false }
    }

    /// Whether `press` is for the editor of the line where messages are
    /// typed: that line has the focus, and the key is neither one of the
    /// screen's own nor the one that sends.
    pub fn is_typed(&self, press: KeyPress) -> (typed: bool)
        ensures
            typed == (self.focus == Focus::MessageInput && !is_global(press) && !asks_to_send(
                press,
            )),
    {
        let letter = match press.key {
            Key::Char(c) => press.control && (c == 'q' || c == 't' || c == 'y' || c == 's'),
            _ => false,
        };
        match self.focus {
            Focus::MessageInput => !letter,
            _ => false,
        }
    }

    /// Takes a key. Control with `q` asks to leave, with `t` moves the focus
    /// to the topics, with `y` to where messages are typed. Every other key
    /// goes to the part that has the focus, and what that part says is done:
    /// a message is handed out to be sent under the selected topic, a topic is
    /// shown, the focus goes back to where messages are typed.
    pub fn handle_key_event(&mut self, press: KeyPress) -> (command: Command)
        ensures
            final(self).exit == (old(self).exit || is_control(press, 'q')),
            final(self).components.topics.names() == old(self).components.topics.names(),
            is_global(press) ==> command@ == CommandView::Nothing && final(self).components == old(
                self,
            ).components && final(self).focus == if is_control(press, 'q') {
                old(self).focus
            } else if is_control(press, 't') {
                Focus::Topics
            } else {
                Focus::MessageInput
            },
            !is_global(press) ==> match components_effect(
                old(self).components,
                old(self).focus,
                press,
            ) {
                EffectView::SendMessage(msg) => final(self).focus == old(self).focus
                    && final(self).components.chat_view@ == old(self).components.chat_view@
                    && command@ == match selected_entry(
                    old(self).components.topics.names(),
                    final(self).components.topics.selection(),
                ) {
                    Some(topic) => CommandView::Send { topic, msg },
                    None => CommandView::SendWithoutTopic { msg },
                },
                EffectView::ViewTopic(topic) => final(self).focus == old(self).focus
                    && final(self).components.chat_view@ == topic && command@
                    == CommandView::Nothing,
                EffectView::Return => final(self).focus == Focus::MessageInput
                    && final(self).components.chat_view@ == old(self).components.chat_view@
                    && command@ == CommandView::Nothing,
                EffectView::Nothing => final(self).focus == old(self).focus
                    && final(self).components.chat_view@ == old(self).components.chat_view@
                    && command@ == CommandView::Nothing,
            },
            !is_global(press) ==> final(self).components.topics.selection() == if old(self).focus
                == Focus::Topics {
                selection_after(old(self).components.topics.selection(), press.key)
            } else {
                old(self).components.topics.selection()
            },
            !is_global(press) ==> final(self).components.message_input@ == if old(self).focus
                == Focus::MessageInput && asks_to_send(press) {
                Seq::<char>::empty()
            } else {
                old(self).components.message_input@
            },
    {
        if press.control && press.key == Key::Char('q') {
            self.exit = true;
            return Command::Nothing;
        }
        if press.control && press.key == Key::Char('t') {
            self.focus = Focus::Topics;
            return Command::Nothing;
        }
        if press.control && press.key == Key::Char('y') {
            self.focus = Focus::MessageInput;
            return Command::Nothing;
        }
        let effect = self.components.update(self.focus, press);
        match effect {
            Effect::SendMessage(msg) => match self.components.topics.selected_topic() {
                Some(topic) => Command::Send { topic: topic.to_owned(), msg },
                None => Command::SendWithoutTopic { msg },
            },
            Effect::ViewTopic(topic) => {
                self.components.chat_view.view_topic(topic);
                Command::Nothing
            },
            Effect::Return => {
                self.focus = Focus::MessageInput;
                Command::Nothing
            },
            Effect::Nothing => Command::Nothing,
        }
    }
}

/// The note that says `msg` under `topic`, written at `created_at`.
pub fn compose(topic: String, msg: String, created_at: Timestamp) -> (note: Note)
    ensures
        note.topic == topic,
        note.msg == msg,
        note.created_at == created_at,
{
    Note { topic, msg, created_at }
}

} // verus!
