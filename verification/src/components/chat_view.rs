//! The view of one topic: the messages of its notes, earliest first.
use crate::components::Component;
use crate::components::Effect;
use crate::components::EffectView;
use crate::components::KeyPress;
use crate::model::lemma_listing_is_unique;
use crate::model::lists_in_order;
use crate::model::log_of;
use crate::model::Model;
use crate::model::SignedNoteView;
use vstd::prelude::*;

verus! {

/// Which topic is shown.
#[derive(Clone, Debug, PartialEq, Eq)]
pub struct ChatView {
    topic: String,
}

impl View for ChatView {
    type V = Seq<char>;

    closed spec fn view(&self) -> Seq<char> {
        self.topic@
    }
}

impl ChatView {
    /// The view of `topic`.
    pub fn new(topic: String) -> (view: ChatView)
        ensures
            view@ == topic@,
    {
        ChatView { topic }
    }

    /// The topic that is shown.
    pub fn topic(&self) -> (topic: &str)
        ensures
            topic@ == self@,
    {
        self.topic.as_str()
    }

    /// Shows `topic` from now on.
    pub fn view_topic(&mut self, topic: String)
        ensures
            final(self)@ == topic@,
    {
        self.topic = topic;
    }

    /// The lines to show: the message of each note that `model` has under the
    /// topic, earliest note first; none where it has no such topic.
    pub fn messages(&self, model: &Model) -> (lines: Vec<String>)
        ensures
            log_of(model@, self@).dom().finite(),
            lines@.len() == log_of(model@, self@).dom().len(),
            forall|listed: Seq<SignedNoteView>, i: int|
                lists_in_order(log_of(model@, self@), listed) && 0 <= i < lines@.len() ==> (
                #[trigger] lines@[i])@ == (#[trigger] listed[i]).inner.msg,
    {
        let mut lines: Vec<String> = Vec::new();
        match model.topic(self.topic.as_str()) {
            None => {
                assert(log_of(model@, self@).dom() =~= Set::<crate::timestamp::TimeKey>::empty());
            },
            Some(log) => {
                let notes = log.notes();
                let ghost views = notes@.map_values(
                    |note: &crate::note::Signed<crate::note::Note>| note@,
                );
                let mut i: usize = 0;
                while i < notes.len()
                    invariant
                        i <= notes@.len(),
                        lines@.len() == i,
                        forall|j: int| 0 <= j < i ==> (#[trigger] lines@[j])@ == notes@[j].inner.msg@,
                    decreases notes@.len() - i,
                {
                    lines.push(notes[i].inner.msg.clone());
                    i = i + 1;
                }
                proof {
                    assert forall|listed: Seq<SignedNoteView>, i: int|
                        lists_in_order(log_of(model@, self@), listed) && 0 <= i
                            < lines@.len() implies (#[trigger] lines@[i])@ == (
                    #[trigger] listed[i]).inner.msg by {
                        lemma_listing_is_unique(log_of(model@, self@), listed, views);
                        assert(views[i] == notes@[i]@);
                    }
                }
            },
        }
        lines
    }
}

impl Component for ChatView {
    /// Takes a key, which changes nothing here.
    fn update(&mut self, press: KeyPress) -> (effect: Effect)
        ensures
            effect@ == EffectView::Nothing,
            final(self)@ == old(self)@,
    {
        Effect::Nothing
    }
}

} // verus!
