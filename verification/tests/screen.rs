use libp2p::identity;
use n2p::app::compose;
use n2p::app::Command;
use n2p::app::Components;
use n2p::app::Focus;
use n2p::app::Screen;
use n2p::components::chat_view::ChatView;
use n2p::components::message_input::MessageInput;
use n2p::components::topics::Topics;
use n2p::components::Component;
use n2p::components::Effect;
use n2p::components::Key;
use n2p::components::KeyPress;
use n2p::model::Model;
use n2p::note::Note;
use n2p::note::Sign;
use n2p::timestamp::Timestamp;

fn plain(key: Key) -> KeyPress {
    KeyPress { key, control: false }
}

fn control(letter: char) -> KeyPress {
    KeyPress { key: Key::Char(letter), control: true }
}

fn keypair() -> identity::Keypair {
    identity::Keypair::ed25519_from_bytes([7u8; 32]).expect("Failed to generate keypair")
}

#[test]
fn components_start_with_three_topics_and_an_empty_line() {
    let components = Components::new();
    assert_eq!(components.topics.known_topics(), ["Derp", "Flerp", "Herp"]);
    assert_eq!(components.topics.selected(), None);
    assert_eq!(components.topics.selected_topic(), None);
    assert_eq!(components.chat_view.topic(), "Derp");
    assert_eq!(components.message_input.draft(), "");
    assert_eq!(components.topics, Topics::new());
    assert_eq!(components.chat_view, ChatView::new("Derp".to_string()));
    assert_eq!(components.message_input, MessageInput::new());
    assert_eq!(components.message_input, MessageInput::default());
}

#[test]
fn down_selects_the_next_topic() {
    let mut topics = Topics::new();
    assert_eq!(topics.update(plain(Key::Down)), Effect::ViewTopic("Derp".to_string()));
    assert_eq!(topics.selected(), Some(0));
    assert_eq!(topics.update(plain(Key::Down)), Effect::ViewTopic("Flerp".to_string()));
    assert_eq!(topics.update(plain(Key::Down)), Effect::ViewTopic("Herp".to_string()));
    assert_eq!(topics.selected_topic(), Some("Herp"));
    // Behind the list, until the list is drawn.
    assert_eq!(topics.update(plain(Key::Down)), Effect::Nothing);
    assert_eq!(topics.selected(), Some(3));
    assert_eq!(topics.selected_topic(), None);
    topics.settle();
    assert_eq!(topics.selected(), Some(2));
    assert_eq!(topics.selected_topic(), Some("Herp"));
}

#[test]
fn up_selects_the_topic_before() {
    let mut topics = Topics::new();
    // The last entry, which has no index until the list is drawn.
    assert_eq!(topics.update(plain(Key::Up)), Effect::Nothing);
    assert_eq!(topics.selected(), Some(usize::MAX));
    topics.settle();
    assert_eq!(topics.selected(), Some(2));
    assert_eq!(topics.update(plain(Key::Up)), Effect::ViewTopic("Flerp".to_string()));
    assert_eq!(topics.update(plain(Key::Up)), Effect::ViewTopic("Derp".to_string()));
    assert_eq!(topics.update(plain(Key::Up)), Effect::ViewTopic("Derp".to_string()));
    assert_eq!(topics.selected(), Some(0));
}

#[test]
fn the_selection_steps_like_the_list_of_the_terminal() {
    let mut topics = Topics::new();
    let mut state = ratatui::widgets::ListState::default();
    let steps = [true, true, false, true, true, true, true, false, false, false, false, false];
    for down in steps {
        if down {
            topics.select_next();
            state.select_next();
        } else {
            topics.select_previous();
            state.select_previous();
        }
        assert_eq!(topics.selected(), state.selected());
    }
    let mut topics = Topics::new();
    let mut state = ratatui::widgets::ListState::default();
    topics.select_previous();
    state.select_previous();
    assert_eq!(topics.selected(), state.selected());
    topics.select_next();
    state.select_next();
    assert_eq!(topics.selected(), state.selected());
    topics.settle();
    assert_eq!(topics.selected(), Some(2));
    let mut topics = Topics::new();
    topics.settle();
    assert_eq!(topics.selected(), None);
}

#[test]
fn enter_hands_the_focus_back() {
    let mut topics = Topics::new();
    assert_eq!(topics.update(plain(Key::Enter)), Effect::Return);
    assert_eq!(topics.selected(), None);
    topics.select_next();
    assert_eq!(topics.update(plain(Key::Enter)), Effect::Return);
    assert_eq!(topics.selected(), Some(0));
    assert_eq!(topics.update(plain(Key::Other)), Effect::ViewTopic("Derp".to_string()));
    assert_eq!(topics.update(plain(Key::Char('x'))), Effect::ViewTopic("Derp".to_string()));
    assert_eq!(topics.update(control('s')), Effect::ViewTopic("Derp".to_string()));
}

#[test]
fn control_s_takes_the_message_out_of_the_line() {
    let mut input = MessageInput::new();
    assert_eq!(input.update(plain(Key::Char('h'))), Effect::Nothing);
    input.set_draft("hello".to_string());
    assert_eq!(input.draft(), "hello");
    assert_eq!(input.update(plain(Key::Char('s'))), Effect::Nothing);
    assert_eq!(input.update(control('x')), Effect::Nothing);
    assert_eq!(input.update(KeyPress { key: Key::Enter, control: true }), Effect::Nothing);
    assert_eq!(input.draft(), "hello");
    assert_eq!(input.update(control('s')), Effect::SendMessage("hello".to_string()));
    assert_eq!(input.draft(), "");
    assert_eq!(input.update(control('s')), Effect::SendMessage(String::new()));
    input.set_draft("again".to_string());
    assert_eq!(input.get_message(), "again");
    assert_eq!(input.get_message(), "");
}

#[test]
fn the_chat_view_lists_the_messages_of_its_topic() {
    let mut view = ChatView::new("Derp".to_string());
    assert_eq!(view.update(plain(Key::Down)), Effect::Nothing);
    assert_eq!(view.update(control('s')), Effect::Nothing);
    assert_eq!(view.topic(), "Derp");

    let mut model = Model::new();
    assert!(view.messages(&model).is_empty());
    let moments = [(2024, "third"), (2022, "first"), (2023, "second")];
    for (year, msg) in moments {
        let created_at = Timestamp::new(year, 1, 0, 0, 0, 0).expect("a moment");
        let note = Note { topic: "Derp".to_string(), msg: msg.to_string(), created_at };
        model.merge("Derp", note.sign(&keypair()).expect("failed to sign note"));
    }
    let created_at = Timestamp::new(2021, 1, 0, 0, 0, 0).expect("a moment");
    let note = Note { topic: "Flerp".to_string(), msg: "elsewhere".to_string(), created_at };
    model.merge("Flerp", note.sign(&keypair()).expect("failed to sign note"));

    assert_eq!(view.messages(&model), vec!["first", "second", "third"]);
    view.view_topic("Flerp".to_string());
    assert_eq!(view.topic(), "Flerp");
    assert_eq!(view.messages(&model), vec!["elsewhere"]);
    view.view_topic("Herp".to_string());
    assert!(view.messages(&model).is_empty());
}

#[test]
fn a_key_goes_to_the_part_that_has_the_focus() {
    let mut components = Components::new();
    components.message_input.set_draft("hello".to_string());

    assert_eq!(components.update(Focus::ChatView, control('s')), Effect::Nothing);
    assert_eq!(components.update(Focus::ChatView, plain(Key::Down)), Effect::Nothing);
    assert_eq!(components.message_input.draft(), "hello");
    assert_eq!(components.topics.selected(), None);

    let effect = components.update(Focus::Topics, plain(Key::Down));
    assert_eq!(effect, Effect::ViewTopic("Derp".to_string()));
    assert_eq!(components.topics.selected(), Some(0));
    assert_eq!(components.message_input.draft(), "hello");

    assert_eq!(components.update(Focus::MessageInput, plain(Key::Down)), Effect::Nothing);
    assert_eq!(components.topics.selected(), Some(0));
    let effect = components.update(Focus::MessageInput, control('s'));
    assert_eq!(effect, Effect::SendMessage("hello".to_string()));
    assert_eq!(components.message_input.draft(), "");
    assert_eq!(components.chat_view.topic(), "Derp");
}

#[test]
fn the_screen_starts_where_messages_are_typed() {
    let screen = Screen::new();
    assert_eq!(screen.focus, Focus::MessageInput);
    assert!(!screen.exit);
    assert_eq!(screen.components, Components::new());
}

#[test]
fn control_keys_belong_to_the_screen() {
    let mut screen = Screen::new();
    assert_eq!(screen.handle_key_event(control('t')), Command::Nothing);
    assert_eq!(screen.focus, Focus::Topics);
    assert_eq!(screen.handle_key_event(control('y')), Command::Nothing);
    assert_eq!(screen.focus, Focus::MessageInput);
    assert_eq!(screen.handle_key_event(control('t')), Command::Nothing);
    assert!(!screen.exit);
    assert_eq!(screen.handle_key_event(control('q')), Command::Nothing);
    assert!(screen.exit);
    assert_eq!(screen.focus, Focus::Topics);
    assert_eq!(screen.components, Components::new());
    // Without Control the letters are letters.
    assert_eq!(screen.handle_key_event(plain(Key::Char('y'))), Command::Nothing);
    assert_eq!(screen.focus, Focus::Topics);
    assert!(screen.exit);
}

#[test]
fn the_screen_does_what_the_parts_say() {
    let mut screen = Screen::new();
    screen.components.message_input.set_draft("too early".to_string());
    let command = screen.handle_key_event(control('s'));
    assert_eq!(command, Command::SendWithoutTopic { msg: "too early".to_string() });
    assert_eq!(screen.components.message_input.draft(), "");

    screen.handle_key_event(control('t'));
    assert_eq!(screen.handle_key_event(plain(Key::Down)), Command::Nothing);
    assert_eq!(screen.components.chat_view.topic(), "Derp");
    assert_eq!(screen.handle_key_event(plain(Key::Down)), Command::Nothing);
    assert_eq!(screen.components.chat_view.topic(), "Flerp");
    assert_eq!(screen.focus, Focus::Topics);
    assert_eq!(screen.handle_key_event(plain(Key::Enter)), Command::Nothing);
    assert_eq!(screen.focus, Focus::MessageInput);
    assert_eq!(screen.components.chat_view.topic(), "Flerp");

    assert_eq!(screen.handle_key_event(plain(Key::Char('h'))), Command::Nothing);
    screen.components.message_input.set_draft("hello".to_string());
    let command = screen.handle_key_event(control('s'));
    assert_eq!(command, Command::Send { topic: "Flerp".to_string(), msg: "hello".to_string() });
    assert_eq!(screen.components.message_input.draft(), "");
    assert!(!screen.exit);
}

#[test]
fn compose_makes_the_note_of_a_command() {
    let created_at = Timestamp::new(2024, 61, 12, 30, 15, 0).expect("a moment");
    let note = compose("Flerp".to_string(), "hello".to_string(), created_at);
    assert_eq!(note, Note { topic: "Flerp".to_string(), msg: "hello".to_string(), created_at });
}
