//! The list of topics and the selection in it.
use crate::components::Component;
use crate::components::Effect;
use crate::components::EffectView;
use crate::components::Key;
use crate::components::KeyPress;
use vstd::prelude::*;

verus! {

/// The selection after the step to the next entry: the first entry where
/// nothing was selected. The index may point behind the list until the list
/// is drawn.
pub open spec fn next_selection(selection: Option<usize>) -> Option<usize> {
    match selection {
        None => Some(0usize),
        Some(i) => if i == usize::MAX {
            Some(i)
        } else {
            Some((i + 1) as usize)
        },
    }
}

/// The selection after the step to the entry before: the last entry where
/// nothing was selected, written as the largest index until the list is drawn.
pub open spec fn previous_selection(selection: Option<usize>) -> Option<usize> {
    match selection {
        None => Some(usize::MAX),
        Some(i) => if i == 0 {
            Some(i)
        } else {
            Some((i - 1) as usize)
        },
    }
}

/// The selection after a list of `len` entries was drawn: none in an empty
/// list, and the last entry where the index pointed behind the list.
pub open spec fn settled_selection(selection: Option<usize>, len: nat) -> Option<usize> {
    match selection {
        None => None,
        Some(i) => if len == 0 {
            None
        } else if i >= len {
            Some((len - 1) as usize)
        } else {
            Some(i)
        },
    }
}

/// The selection after `key`.
pub open spec fn selection_after(selection: Option<usize>, key: Key) -> Option<usize> {
    match key {
        Key::Up => previous_selection(selection),
        Key::Down => next_selection(selection),
        _ => selection,
    }
}

/// The entry that `selection` points at, if it points at one.
pub open spec fn selected_entry(names: Seq<Seq<char>>, selection: Option<usize>) -> Option<
    Seq<char>,
> {
    match selection {
        Some(i) => if i < names.len() {
            Some(names[i as int])
        } else {
            None
        },
        None => None,
    }
}

/// What follows `key` in a list with these entries and this selection.
pub open spec fn topics_effect(names: Seq<Seq<char>>, selection: Option<usize>, key: Key) -> EffectView {
    if key == Key::Enter {
        EffectView::Return
    } else {
        match selected_entry(names, selection_after(selection, key)) {
            Some(topic) => EffectView::ViewTopic(topic),
            None => EffectView::Nothing,
        }
    }
}

/// The topics that the peer knows of, and which of them is selected.
#[derive(Clone, Debug, PartialEq, Eq)]
pub struct Topics {
    known_topics: Vec<String>,
    selected: Option<usize>,
}

impl Topics {
    /// The names of the known topics, in the order of the list.
    pub closed spec fn names(&self) -> Seq<Seq<char>> {
        self.known_topics@.map_values(|name: String| name@)
    }

    /// The index that is selected, if one is.
    pub closed spec fn selection(&self) -> Option<usize> {
        self.selected
    }

    /// The three topics that every peer starts with, none of them selected.
    pub fn new() -> (topics: Topics)
        ensures
            topics.names() == seq!["Derp"@, "Flerp"@, "Herp"@],
            topics.selection() == None::<usize>,
    {
        let mut known_topics: Vec<String> = Vec::new();
        known_topics.push("Derp".to_owned());
        known_topics.push("Flerp".to_owned());
        known_topics.push("Herp".to_owned());
        let topics = Topics { known_topics, selected: None };
        assert(topics.names() =~= seq!["Derp"@, "Flerp"@, "Herp"@]);
        topics
    }

    /// The names of the known topics.
    pub fn known_topics(&self) -> (known: &[String])
        ensures
            known@.map_values(|name: String| name@) == self.names(),
    {
        self.known_topics.as_slice()
    }

    /// The index that is selected, if one is.
    pub fn selected(&self) -> (selected: Option<usize>)
        ensures
            selected == self.selection(),
    {
        self.selected
    }

    /// The topic that is selected, if one is.
    pub fn selected_topic(&self) -> (topic: Option<&str>)
        ensures
            match topic {
                Some(name) => selected_entry(self.names(), self.selection()) == Some(name@),
                None => selected_entry(self.names(), self.selection()) is None,
            },
    {
        match self.selected {
            Some(i) => if i < self.known_topics.len() {
                Some(self.known_topics[i].as_str())
            } else {
                None
            },
            None => None,
        }
    }

    /// Steps to the next entry.
    pub fn select_next(&mut self)
        ensures
            final(self).names() == old(self).names(),
            final(self).selection() == next_selection(old(self).selection()),
    {
        self.selected = match self.selected {
            None => Some(0),
            Some(i) => if i == usize::MAX {
                Some(i)
            } else {
                Some(i + 1)
            },
        };
    }

    /// Steps to the entry before.
    pub fn select_previous(&mut self)
        ensures
            final(self).names() == old(self).names(),
            final(self).selection() == previous_selection(old(self).selection()),
    {
        self.selected = match self.selected {
            None => Some(usize::MAX),
            Some(i) => if i == 0 {
                Some(i)
            } else {
                Some(i - 1)
            },
        };
    }

    /// Brings the selection back into the list, as drawing the list does.
    pub fn settle(&mut self)
        ensures
            final(self).names() == old(self).names(),
            final(self).selection() == settled_selection(
                old(self).selection(),
                old(self).names().len(),
            ),
    {
        let len = self.known_topics.len();
        self.selected = match self.selected {
            None => None,
            Some(i) => if len == 0 {
                None
            } else if i >= len {
                Some(len - 1)
            } else {
                Some(i)
            },
        };
    }
}

impl Component for Topics {
    /// Takes a key: Up and Down move the selection; Enter hands the focus
    /// back; after every other key the selected topic, if there is one, is to
    /// be shown.
    fn update(&mut self, press: KeyPress) -> (effect: Effect)
        ensures
            final(self).names() == old(self).names(),
            final(self).selection() == selection_after(old(self).selection(), press.key),
            effect@ == topics_effect(old(self).names(), old(self).selection(), press.key),
    {
        match press.key {
            Key::Up => self.select_previous(),
            Key::Down => self.select_next(),
            Key::Enter => {
                return Effect::Return;
            },
            _ => {},
        }
        match self.selected_topic() {
            Some(topic) => Effect::ViewTopic(topic.to_owned()),
            None => Effect::Nothing,
        }
    }
}

} // verus!
