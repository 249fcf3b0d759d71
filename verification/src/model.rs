//! What a peer knows: for each topic the log of its notes, one note for each
//! moment, in the order of time.
//!
//! A log is modelled by a map from moments to envelopes and the model by a map
//! from topic names to logs. Folding a note into a log is a spec function of
//! the log and the note, `merged`; the laws below it are what makes the peers
//! of a gossip network agree: folding a note in twice changes nothing, and the
//! order in which notes are folded in does not matter.
use crate::note::lemma_signed_note_encoding_is_injective;
use crate::note::valid_signed_note;
use crate::note::verifies;
use crate::note::Encode;
use crate::note::Note;
use crate::note::NoteView;
use crate::note::Signed;
use crate::note::SignedView;
use crate::order::bytes_equal;
use crate::order::bytes_less;
use crate::order::lemma_lex_less_asymmetric;
use crate::order::lemma_lex_less_irreflexive;
use crate::order::lemma_lex_less_total;
use crate::order::lemma_lex_less_transitive;
use crate::order::lex_less;
use crate::timestamp::earlier;
use crate::timestamp::TimeKey;
use crate::timestamp::Timestamp;
use std::collections::BTreeMap;
use vstd::prelude::*;
use vstd::std_specs::btree::increasing_seq;
use vstd::std_specs::cmp::OrdSpec;
use vstd::std_specs::iter::IteratorSpec;
use vstd::utf8::encode_utf8;
use vstd::utf8::encode_utf8_decode_utf8;

verus! {

broadcast use {vstd::std_specs::btree::group_btree_axioms, vstd::laws_cmp::group_laws_cmp};

/// A signed note as specifications see it.
pub type SignedNoteView = SignedView<NoteView>;

/// A log as specifications see it: the envelope kept for each moment.
pub type TopicView = Map<TimeKey, SignedNoteView>;

/// What became of a note that was folded into a log.
#[derive(Clone, Copy, Debug, PartialEq, Eq, Structural)]
pub enum MergeOutcome {
    /// The note is now the one the log keeps for its moment.
    Accepted,
    /// The log already kept this very note.
    Duplicate,
    /// The log keeps another note for the same moment, which ranks before this
    /// one.
    Outranked,
    /// The signature is not good. The note was not looked at any further.
    VerificationFailed,
}

/// Which of two different envelopes for one moment a log keeps: the one whose
/// signature comes first in the order of byte strings and, should the
/// signatures be the same, the one whose canonical bytes come first.
pub open spec fn ranks_before(a: SignedNoteView, b: SignedNoteView) -> bool {
    lex_less(a.signature, b.signature) || (a.signature == b.signature && lex_less(
        Signed::<Note>::encoding(a),
        Signed::<Note>::encoding(b),
    ))
}

/// The log after `note` was folded into `log`. A note whose signature is not
/// good changes nothing. A note for a moment that the log has nothing for is
/// put in. The note that the log already keeps changes nothing. A different
/// note for a moment that the log has one for takes its place if it ranks
/// before it, and changes nothing if it does not.
pub open spec fn merged(log: TopicView, note: SignedNoteView) -> TopicView {
    let moment = note.inner.created_at;
    if !verifies::<Note>(note) {
        log
    } else if !log.contains_key(moment) {
        log.insert(moment, note)
    } else if log[moment] == note {
        log
    } else if ranks_before(note, log[moment]) {
        log.insert(moment, note)
    } else {
        log
    }
}

/// What is reported of `note` when it is folded into `log`.
pub open spec fn merge_outcome(log: TopicView, note: SignedNoteView) -> MergeOutcome {
    let moment = note.inner.created_at;
    if !verifies::<Note>(note) {
        MergeOutcome::VerificationFailed
    } else if !log.contains_key(moment) {
        MergeOutcome::Accepted
    } else if log[moment] == note {
        MergeOutcome::Duplicate
    } else if ranks_before(note, log[moment]) {
        MergeOutcome::Accepted
    } else {
        MergeOutcome::Outranked
    }
}

/// Whether a log keeps its rules: every envelope is kept under the moment of
/// its note, can be exchanged, and has a good signature.
pub open spec fn sound_log(log: TopicView) -> bool {
    forall|moment: TimeKey| #[trigger]
        log.contains_key(moment) ==> log[moment].inner.created_at == moment && valid_signed_note(
            log[moment],
        ) && verifies::<Note>(log[moment])
}

/// The rank is a strict order on envelopes, and a total one on those that can
/// be exchanged.
pub proof fn lemma_rank_is_a_strict_total_order(
    a: SignedNoteView,
    b: SignedNoteView,
    c: SignedNoteView,
)
    ensures
        !ranks_before(a, a),
        !(ranks_before(a, b) && ranks_before(b, a)),
        ranks_before(a, b) && ranks_before(b, c) ==> ranks_before(a, c),
        valid_signed_note(a) && valid_signed_note(b) ==> ranks_before(a, b) || ranks_before(b, a)
            || a == b,
{
    let ea = Signed::<Note>::encoding(a);
    let eb = Signed::<Note>::encoding(b);
    let ec = Signed::<Note>::encoding(c);
    lemma_lex_less_irreflexive(a.signature);
    lemma_lex_less_irreflexive(b.signature);
    lemma_lex_less_irreflexive(ea);
    lemma_lex_less_asymmetric(a.signature, b.signature);
    lemma_lex_less_asymmetric(ea, eb);
    lemma_lex_less_total(a.signature, b.signature);
    lemma_lex_less_total(ea, eb);
    if ranks_before(a, b) && ranks_before(b, c) {
        if lex_less(a.signature, b.signature) && lex_less(b.signature, c.signature) {
            lemma_lex_less_transitive(a.signature, b.signature, c.signature);
        }
        if lex_less(ea, eb) && lex_less(eb, ec) {
            lemma_lex_less_transitive(ea, eb, ec);
        }
    }
    if valid_signed_note(a) && valid_signed_note(b) && ea == eb {
        lemma_signed_note_encoding_is_injective(a, b);
    }
}

/// Folding a note in a second time changes nothing.
pub proof fn lemma_merge_is_idempotent(log: TopicView, note: SignedNoteView)
    ensures
        merged(merged(log, note), note) == merged(log, note),
{
    let once = merged(log, note);
    assert(merged(once, note) =~= once);
}

/// The order in which two notes are folded in does not matter, in a log that
/// keeps its rules and for notes that can be exchanged.
pub proof fn lemma_merge_commutes(log: TopicView, a: SignedNoteView, b: SignedNoteView)
    requires
        sound_log(log),
        valid_signed_note(a),
        valid_signed_note(b),
    ensures
        merged(merged(log, a), b) == merged(merged(log, b), a),
{
    let moment = a.inner.created_at;
    lemma_rank_is_a_strict_total_order(a, b, a);
    if log.contains_key(moment) {
        let kept = log[moment];
        lemma_rank_is_a_strict_total_order(a, kept, b);
        lemma_rank_is_a_strict_total_order(b, kept, a);
        lemma_rank_is_a_strict_total_order(a, b, kept);
        lemma_rank_is_a_strict_total_order(b, a, kept);
        lemma_rank_is_a_strict_total_order(kept, a, b);
        lemma_rank_is_a_strict_total_order(kept, b, a);
    }
    assert(merged(merged(log, a), b) =~= merged(merged(log, b), a));
}

/// Two notes that are folded into the empty log give one log, whichever comes
/// first.
pub proof fn lemma_merge_commutes_from_empty(a: SignedNoteView, b: SignedNoteView)
    requires
        valid_signed_note(a),
        valid_signed_note(b),
    ensures
        merged(merged(Map::empty(), a), b) == merged(merged(Map::empty(), b), a),
{
    lemma_merge_commutes(Map::empty(), a, b);
}

/// A note whose signature is not good is never put into a log.
pub proof fn lemma_merge_rejects_bad_signatures(log: TopicView, note: SignedNoteView)
    requires
        !verifies::<Note>(note),
    ensures
        merged(log, note) == log,
        merge_outcome(log, note) == MergeOutcome::VerificationFailed,
{
}

/// A log that keeps its rules still keeps them after a note that can be
/// exchanged was folded in. In particular, everything in it has a good
/// signature.
pub proof fn lemma_merge_keeps_the_log_sound(log: TopicView, note: SignedNoteView)
    requires
        sound_log(log),
        valid_signed_note(note),
    ensures
        sound_log(merged(log, note)),
{
}

/// What the outcome says of the log: the note is the one kept for its moment
/// exactly after `Accepted` and `Duplicate`, and the log is unchanged after
/// every outcome but `Accepted`.
pub proof fn lemma_outcome_tells_the_log(log: TopicView, note: SignedNoteView)
    ensures
        match merge_outcome(log, note) {
            MergeOutcome::Accepted => merged(log, note) == log.insert(note.inner.created_at, note),
            MergeOutcome::Duplicate => merged(log, note) == log && log[note.inner.created_at]
                == note,
            MergeOutcome::Outranked => merged(log, note) == log && log[note.inner.created_at]
                != note,
            MergeOutcome::VerificationFailed => merged(log, note) == log,
        },
{
}

/// Whether `listed` are the envelopes of `log` in the order of time: each
/// envelope of the log once, under its own moment, and every one later than
/// the one before it.
pub open spec fn lists_in_order(log: TopicView, listed: Seq<SignedNoteView>) -> bool {
    &&& forall|i: int, j: int|
        0 <= i < j < listed.len() ==> earlier(
            #[trigger] listed[i].inner.created_at,
            #[trigger] listed[j].inner.created_at,
        )
    &&& forall|i: int|
        0 <= i < listed.len() ==> log.contains_key((#[trigger] listed[i]).inner.created_at)
            && log[listed[i].inner.created_at] == listed[i]
    &&& forall|moment: TimeKey| #[trigger]
        log.contains_key(moment) ==> exists|i: int|
            0 <= i < listed.len() && (#[trigger] listed[i]).inner.created_at == moment
}

/// Two listings of one log agree up to any place that both have.
proof fn lemma_listings_agree_at(
    log: TopicView,
    a: Seq<SignedNoteView>,
    b: Seq<SignedNoteView>,
    at: int,
)
    requires
        lists_in_order(log, a),
        lists_in_order(log, b),
        0 <= at < a.len(),
        at < b.len(),
    ensures
        a[at] == b[at],
    decreases at,
{
    if at > 0 {
        lemma_listings_agree_at(log, a, b, at - 1);
    }
    assert forall|j: int| 0 <= j < at implies a[j] == b[j] by {
        lemma_listings_agree_at(log, a, b, j);
    }
    let in_a = a[at].inner.created_at;
    let in_b = b[at].inner.created_at;
    assert(log.contains_key(in_a));
    assert(log.contains_key(in_b));
    let ia = choose|i: int| 0 <= i < b.len() && (#[trigger] b[i]).inner.created_at == in_a;
    let ib = choose|i: int| 0 <= i < a.len() && (#[trigger] a[i]).inner.created_at == in_b;
    if ia < at {
        assert(a[ia] == b[ia]);
        assert(earlier(a[ia].inner.created_at, a[at].inner.created_at));
    }
    if ib < at {
        assert(a[ib] == b[ib]);
        assert(earlier(b[ib].inner.created_at, b[at].inner.created_at));
    }
    if ia > at {
        assert(earlier(b[at].inner.created_at, b[ia].inner.created_at));
        if ib > at {
            assert(earlier(a[at].inner.created_at, a[ib].inner.created_at));
        }
    }
}

/// A log has one listing in the order of time.
pub proof fn lemma_listing_is_unique(log: TopicView, a: Seq<SignedNoteView>, b: Seq<SignedNoteView>)
    requires
        lists_in_order(log, a),
        lists_in_order(log, b),
    ensures
        a == b,
{
    if a.len() != b.len() {
        let (long, short) = if a.len() > b.len() {
            (a, b)
        } else {
            (b, a)
        };
        let extra = long[short.len() as int].inner.created_at;
        assert(log.contains_key(extra));
        let i = choose|i: int| 0 <= i < short.len() && (#[trigger] short[i]).inner.created_at == extra;
        lemma_listings_agree_at(log, long, short, i);
        assert(earlier(long[i].inner.created_at, long[short.len() as int].inner.created_at));
    }
    assert forall|i: int| 0 <= i < a.len() implies a[i] == b[i] by {
        lemma_listings_agree_at(log, a, b, i);
    }
    assert(a =~= b);
}

/// The order in which a map keeps its keys is the order of time.
proof fn lemma_keys_are_kept_in_the_order_of_time(a: TimeKey, b: TimeKey)
    ensures
        a.cmp_spec(&b) is Less <==> earlier(a, b),
{
}

impl Signed<Note> {
    /// Whether a log that keeps `other` for a moment takes this envelope in
    /// its place.
    pub fn ranks_before(&self, other: &Signed<Note>) -> (before: bool)
        ensures
            before == ranks_before(self@, other@),
    {
        if bytes_less(self.signature.as_slice(), other.signature.as_slice()) {
            true
        } else if bytes_less(other.signature.as_slice(), self.signature.as_slice()) {
            proof {
                lemma_lex_less_irreflexive(self.signature@);
            }
            false
        } else {
            proof {
                lemma_lex_less_total(self.signature@, other.signature@);
            }
            let mine = self.encode_to_vec();
            let theirs = other.encode_to_vec();
            bytes_less(mine.as_slice(), theirs.as_slice())
        }
    }
}

/// The log of one topic: the notes that were folded in, one for each moment.
#[derive(Debug, Default, PartialEq, Eq, PartialOrd, Ord)]
pub struct Topic {
    notes: BTreeMap<TimeKey, Signed<Note>>,
}

impl View for Topic {
    type V = TopicView;

    closed spec fn view(&self) -> TopicView {
        self.notes@.map_values(|signed: Signed<Note>| signed@)
    }
}

impl Clone for Topic {
    fn clone(&self) -> (copy: Topic)
        ensures
            copy@ == self@,
    {
        proof {
            use_type_invariant(self);
        }
        Topic { notes: self.notes.clone() }
    }
}

impl Topic {
    #[verifier::type_invariant]
    spec fn keeps_its_rules(self) -> bool {
        sound_log(self@)
    }

    /// The log with nothing in it.
    pub fn new() -> (log: Topic)
        ensures
            log@ == Map::<TimeKey, SignedNoteView>::empty(),
    {
        let log = Topic { notes: BTreeMap::new() };
        assert(log@ =~= Map::<TimeKey, SignedNoteView>::empty());
        log
    }

    /// The number of notes in the log.
    pub fn len(&self) -> (n: usize)
        ensures
            self@.dom().finite(),
            n == self@.dom().len(),
            sound_log(self@),
    {
        proof {
            use_type_invariant(self);
            assert(self@.dom() =~= self.notes@.dom());
        }
        self.notes.len()
    }

    /// Whether the log has nothing in it.
    pub fn is_empty(&self) -> (empty: bool)
        ensures
            empty == (self@ == Map::<TimeKey, SignedNoteView>::empty()),
    {
        proof {
            assert(self@.dom() =~= self.notes@.dom());
            if self.notes@.dom().len() == 0 {
                assert(self@ =~= Map::<TimeKey, SignedNoteView>::empty());
            }
        }
        self.notes.len() == 0
    }

    /// The note that the log keeps for `moment`, if it keeps one.
    pub fn get(&self, moment: &Timestamp) -> (kept: Option<&Signed<Note>>)
        ensures
            kept is Some <==> self@.contains_key(moment@),
            kept matches Some(signed) ==> signed@ == self@[moment@],
            sound_log(self@),
    {
        proof {
            use_type_invariant(self);
        }
        let key = moment.key();
        self.notes.get(&key)
    }

    /// The notes of the log, earliest first: each note of the log once, under
    /// its own moment, and every one later than the one before it.
    #[verifier::loop_isolation(false)]
    pub fn notes(&self) -> (listed: Vec<&Signed<Note>>)
        ensures
            self@.dom().finite(),
            listed@.len() == self@.dom().len(),
            lists_in_order(self@, listed@.map_values(|note: &Signed<Note>| note@)),
            sound_log(self@),
    {
        proof {
            use_type_invariant(self);
            assert(self@.dom() =~= self.notes@.dom());
        }
        let mut listed: Vec<&Signed<Note>> = Vec::new();
        let ghost all = self.notes.iter().remaining();
        for entry in walk: self.notes.iter()
            invariant
                walk.seq() == all,
                listed@.len() == walk.index(),
                forall|i: int| 0 <= i < listed@.len() ==> listed@[i] == (#[trigger] all[i]).1,
        {
            listed.push(entry.1);
        }
        proof {
            let moments = all.map_values(|entry: (&TimeKey, &Signed<Note>)| *entry.0);
            let views = listed@.map_values(|note: &Signed<Note>| note@);
            assert(increasing_seq(moments));
            assert forall|i: int| 0 <= i < views.len() implies self@.contains_key(
                (#[trigger] views[i]).inner.created_at,
            ) && self@[views[i].inner.created_at] == views[i] && views[i].inner.created_at
                == moments[i] by {
                assert(self.notes@.contains_key(*all[i].0));
                assert(self@.contains_key(moments[i]));
            }
            assert forall|i: int, j: int| 0 <= i < j < views.len() implies earlier(
                #[trigger] views[i].inner.created_at,
                #[trigger] views[j].inner.created_at,
            ) by {
                lemma_keys_are_kept_in_the_order_of_time(moments[i], moments[j]);
            }
            assert forall|moment: TimeKey| #[trigger] self@.contains_key(moment) implies exists|
                i: int,
            |
                0 <= i < views.len() && (#[trigger] views[i]).inner.created_at == moment by {
                assert(all.contains((&moment, &self.notes@[moment])));
                let i = choose|i: int|
                    0 <= i < all.len() && all[i] == (&moment, &self.notes@[moment]);
                assert(views[i].inner.created_at == moments[i]);
            }
        }
        listed
    }

    /// Folds `note` into the log and says what became of it.
    pub fn add_note(&mut self, note: Signed<Note>) -> (outcome: MergeOutcome)
        ensures
            final(self)@ == merged(old(self)@, note@),
            outcome == merge_outcome(old(self)@, note@),
            sound_log(final(self)@),
    {
        proof {
            use_type_invariant(&*self);
        }
        if !note.verify() {
            return MergeOutcome::VerificationFailed;
        }
        note.can_be_exchanged();
        let key = note.inner.created_at.key();
        let outcome = match self.notes.get(&key) {
            None => MergeOutcome::Accepted,
            Some(kept) => {
                if note.same_as(kept) {
                    MergeOutcome::Duplicate
                } else if note.ranks_before(kept) {
                    MergeOutcome::Accepted
                } else {
                    MergeOutcome::Outranked
                }
            },
        };
        if outcome == MergeOutcome::Accepted {
            let mut notes: BTreeMap<TimeKey, Signed<Note>> = BTreeMap::new();
            assert(notes@.map_values(|signed: Signed<Note>| signed@) =~= Map::<
                TimeKey,
                SignedNoteView,
            >::empty());
            core::mem::swap(&mut self.notes, &mut notes);
            notes.insert(key, note);
            assert(notes@.map_values(|signed: Signed<Note>| signed@) =~= old(self)@.insert(
                key,
                note@,
            ));
            self.notes = notes;
        }
        outcome
    }
}

} // verus!

verus! {

/// A model as specifications see it: the log of each topic that has one.
pub type ModelView = Map<Seq<char>, TopicView>;

/// The log that `model` has for `topic`: the empty one where it has none yet.
pub open spec fn log_of(model: ModelView, topic: Seq<char>) -> TopicView {
    if model.contains_key(topic) {
        model[topic]
    } else {
        Map::empty()
    }
}

/// The model after `note` was folded in under `topic`: the topic has a log,
/// made empty if it had none, and the note was folded into that log.
pub open spec fn model_merged(model: ModelView, topic: Seq<char>, note: SignedNoteView) -> ModelView {
    model.insert(topic, merged(log_of(model, topic), note))
}

/// Whether every log of a model keeps its rules.
pub open spec fn sound_model(model: ModelView) -> bool {
    forall|topic: Seq<char>| #[trigger] model.contains_key(topic) ==> sound_log(model[topic])
}

/// Folding a note into a model a second time changes nothing.
pub proof fn lemma_model_merge_is_idempotent(
    model: ModelView,
    topic: Seq<char>,
    note: SignedNoteView,
)
    ensures
        model_merged(model_merged(model, topic, note), topic, note) == model_merged(
            model,
            topic,
            note,
        ),
{
    lemma_merge_is_idempotent(log_of(model, topic), note);
    let once = model_merged(model, topic, note);
    assert(model_merged(once, topic, note) =~= once);
}

/// The order in which two notes are folded into a model does not matter,
/// whether they go under one topic or under two.
pub proof fn lemma_model_merge_commutes(
    model: ModelView,
    topic_a: Seq<char>,
    a: SignedNoteView,
    topic_b: Seq<char>,
    b: SignedNoteView,
)
    requires
        sound_model(model),
        valid_signed_note(a),
        valid_signed_note(b),
    ensures
        model_merged(model_merged(model, topic_a, a), topic_b, b) == model_merged(
            model_merged(model, topic_b, b),
            topic_a,
            a,
        ),
{
    if topic_a == topic_b {
        lemma_merge_commutes(log_of(model, topic_a), a, b);
    }
    assert(model_merged(model_merged(model, topic_a, a), topic_b, b) =~= model_merged(
        model_merged(model, topic_b, b),
        topic_a,
        a,
    ));
}

/// A model whose logs keep their rules still has such logs after a note that
/// can be exchanged was folded in: nothing with a bad signature gets in.
pub proof fn lemma_model_merge_keeps_the_model_sound(
    model: ModelView,
    topic: Seq<char>,
    note: SignedNoteView,
)
    requires
        sound_model(model),
        valid_signed_note(note),
    ensures
        sound_model(model_merged(model, topic, note)),
{
    lemma_merge_keeps_the_log_sound(log_of(model, topic), note);
}

/// A topic of the model: its name and its log.
#[derive(Debug, PartialEq, Eq)]
pub struct TopicEntry {
    pub name: String,
    pub log: Topic,
}

/// Whether the names of `entries` come one before the other in the order of
/// their UTF-8 bytes.
pub closed spec fn names_ascend(entries: Seq<TopicEntry>) -> bool {
    forall|i: int, j: int|
        0 <= i < j < entries.len() ==> lex_less(
            encode_utf8(#[trigger] entries[i].name@),
            encode_utf8(#[trigger] entries[j].name@),
        )
}

/// Whether the log of every one of `entries` keeps its rules.
pub closed spec fn logs_are_sound(entries: Seq<TopicEntry>) -> bool {
    forall|i: int| 0 <= i < entries.len() ==> sound_log((#[trigger] entries[i]).log@)
}

/// Whether entry `i` of `entries` is the topic `name`.
pub closed spec fn is_topic(entries: Seq<TopicEntry>, name: Seq<char>, i: int) -> bool {
    0 <= i < entries.len() && entries[i].name@ == name
}

/// The model that `entries` stand for.
pub closed spec fn model_of(entries: Seq<TopicEntry>) -> ModelView {
    Map::new(
        |name: Seq<char>| exists|i: int| is_topic(entries, name, i),
        |name: Seq<char>| entries[choose|i: int| is_topic(entries, name, i)].log@,
    )
}

/// Where names ascend, each entry is the one topic of its name.
proof fn lemma_model_of_entries(entries: Seq<TopicEntry>)
    requires
        names_ascend(entries),
    ensures
        forall|i: int|
            0 <= i < entries.len() ==> model_of(entries).contains_key(
                #[trigger] entries[i].name@,
            ) && model_of(entries)[entries[i].name@] == entries[i].log@,
        forall|name: Seq<char>| #[trigger]
            model_of(entries).contains_key(name) ==> exists|i: int| is_topic(entries, name, i),
        forall|i: int, j: int|
            0 <= i < entries.len() && 0 <= j < entries.len() && #[trigger] entries[i].name@
                == #[trigger] entries[j].name@ ==> i == j,
        logs_are_sound(entries) ==> sound_model(model_of(entries)),
{
    assert forall|i: int, j: int|
        0 <= i < entries.len() && 0 <= j < entries.len() && #[trigger] entries[i].name@
            == #[trigger] entries[j].name@ implies i == j by {
        lemma_lex_less_irreflexive(encode_utf8(entries[i].name@));
    }
    assert forall|i: int| 0 <= i < entries.len() implies model_of(entries).contains_key(
        #[trigger] entries[i].name@,
    ) && model_of(entries)[entries[i].name@] == entries[i].log@ by {
        assert(is_topic(entries, entries[i].name@, i));
        let j = choose|j: int| is_topic(entries, entries[i].name@, j);
        assert(entries[j].name@ == entries[i].name@);
    }
    if logs_are_sound(entries) {
        assert forall|name: Seq<char>| #[trigger]
            model_of(entries).contains_key(name) implies sound_log(model_of(entries)[name]) by {
            let j = choose|j: int| is_topic(entries, name, j);
            assert(sound_log(entries[j].log@));
        }
    }
}

/// Whether two pieces of text are the same.
fn same_text(a: &str, b: &str) -> (same: bool)
    ensures
        same == (a@ == b@),
{
    proof {
        encode_utf8_decode_utf8(a@);
        encode_utf8_decode_utf8(b@);
    }
    bytes_equal(a.as_bytes(), b.as_bytes())
}

/// The local state of a peer: the log of every topic it has heard of.
#[derive(Debug, Default, PartialEq, Eq)]
pub struct Model {
    topics: Vec<TopicEntry>,
}

impl View for Model {
    type V = ModelView;

    closed spec fn view(&self) -> ModelView {
        model_of(self.topics@)
    }
}

impl Clone for Model {
    fn clone(&self) -> (copy: Model)
        ensures
            copy@ == self@,
    {
        proof {
            use_type_invariant(self);
        }
        let mut topics: Vec<TopicEntry> = Vec::new();
        let mut i: usize = 0;
        while i < self.topics.len()
            invariant
                i <= self.topics@.len(),
                topics@.len() == i,
                forall|j: int|
                    0 <= j < i ==> (#[trigger] topics@[j]).name@ == self.topics@[j].name@
                        && topics@[j].log@ == self.topics@[j].log@,
            decreases self.topics@.len() - i,
        {
            let entry = &self.topics[i];
            topics.push(TopicEntry { name: entry.name.clone(), log: entry.log.clone() });
            i = i + 1;
        }
        proof {
            assert(names_ascend(topics@)) by {
                assert forall|a: int, b: int| 0 <= a < b < topics@.len() implies lex_less(
                    encode_utf8(#[trigger] topics@[a].name@),
                    encode_utf8(#[trigger] topics@[b].name@),
                ) by {
                    assert(lex_less(
                        encode_utf8(self.topics@[a].name@),
                        encode_utf8(self.topics@[b].name@),
                    ));
                }
            }
            assert(logs_are_sound(topics@)) by {
                assert forall|j: int| 0 <= j < topics@.len() implies sound_log(
                    (#[trigger] topics@[j]).log@,
                ) by {
                    assert(sound_log(self.topics@[j].log@));
                }
            }
            lemma_model_of_entries(topics@);
            lemma_model_of_entries(self.topics@);
            assert forall|name: Seq<char>| model_of(topics@).contains_key(name) implies model_of(
                self.topics@,
            ).contains_key(name) && model_of(self.topics@)[name] == model_of(topics@)[name] by {
                let j = choose|j: int| is_topic(topics@, name, j);
                assert(self.topics@[j].name@ == name);
            }
            assert forall|name: Seq<char>| model_of(self.topics@).contains_key(name) implies model_of(
                topics@,
            ).contains_key(name) by {
                let j = choose|j: int| is_topic(self.topics@, name, j);
                assert(topics@[j].name@ == name);
            }
            assert(model_of(topics@) =~= model_of(self.topics@));
        }
        Model { topics }
    }
}

impl Model {
    #[verifier::type_invariant]
    spec fn keeps_its_rules(self) -> bool {
        names_ascend(self.topics@) && logs_are_sound(self.topics@)
    }

    /// The model of a peer that has heard nothing yet.
    pub fn new() -> (model: Model)
        ensures
            model@ == Map::<Seq<char>, TopicView>::empty(),
    {
        let model = Model { topics: Vec::new() };
        assert(model@ =~= Map::<Seq<char>, TopicView>::empty());
        model
    }

    /// The number of topics.
    pub fn len(&self) -> (n: usize)
        ensures
            self@.dom().finite(),
            n == self@.dom().len(),
            sound_model(self@),
    {
        proof {
            use_type_invariant(self);
            lemma_model_has_as_many_topics_as_entries(self.topics@);
            lemma_model_of_entries(self.topics@);
        }
        self.topics.len()
    }

    /// Whether the model has no topic.
    pub fn is_empty(&self) -> (empty: bool)
        ensures
            empty == (self@ == Map::<Seq<char>, TopicView>::empty()),
    {
        proof {
            use_type_invariant(self);
            lemma_model_of_entries(self.topics@);
            if self.topics@.len() == 0 {
                assert(self@ =~= Map::<Seq<char>, TopicView>::empty());
            } else {
                assert(self@.contains_key(self.topics@[0].name@));
            }
        }
        self.topics.len() == 0
    }

    /// The topics, in the order of their names.
    pub fn topics(&self) -> (entries: &[TopicEntry])
        ensures
            forall|i: int|
                0 <= i < entries@.len() ==> self@.contains_key((#[trigger] entries@[i]).name@)
                    && self@[entries@[i].name@] == entries@[i].log@,
            forall|name: Seq<char>| #[trigger]
                self@.contains_key(name) ==> exists|i: int|
                    0 <= i < entries@.len() && (#[trigger] entries@[i]).name@ == name,
            forall|i: int, j: int|
                0 <= i < j < entries@.len() ==> lex_less(
                    encode_utf8(#[trigger] entries@[i].name@),
                    encode_utf8(#[trigger] entries@[j].name@),
                ),
    {
        proof {
            use_type_invariant(self);
            lemma_model_of_entries(self.topics@);
            assert forall|name: Seq<char>| #[trigger] self@.contains_key(name) implies exists|
                i: int,
            |
                0 <= i < self.topics@.len() && (#[trigger] self.topics@[i]).name@ == name by {
                let i = choose|i: int| is_topic(self.topics@, name, i);
                assert(self.topics@[i].name@ == name);
            }
        }
        self.topics.as_slice()
    }

    /// The log of `topic`, if the model has one.
    pub fn topic(&self, topic: &str) -> (log: Option<&Topic>)
        ensures
            log is Some <==> self@.contains_key(topic@),
            log matches Some(found) ==> found@ == self@[topic@],
            sound_model(self@),
    {
        proof {
            use_type_invariant(self);
            lemma_model_of_entries(self.topics@);
        }
        let mut i: usize = 0;
        while i < self.topics.len()
            invariant
                i <= self.topics@.len(),
                forall|j: int| 0 <= j < i ==> (#[trigger] self.topics@[j]).name@ != topic@,
            decreases self.topics@.len() - i,
        {
            if same_text(self.topics[i].name.as_str(), topic) {
                proof {
                    use_type_invariant(self);
                    lemma_model_of_entries(self.topics@);
                }
                return Some(&self.topics[i].log);
            }
            i = i + 1;
        }
        proof {
            if self@.contains_key(topic@) {
                let j = choose|j: int| is_topic(self.topics@, topic@, j);
                assert(self.topics@[j].name@ == topic@);
            }
        }
        None
    }

    /// Folds `note` into the log of `topic`, which is made first if the model
    /// has none, and says what became of the note.
    pub fn merge(&mut self, topic: &str, note: Signed<Note>) -> (outcome: MergeOutcome)
        ensures
            final(self)@ == model_merged(old(self)@, topic@, note@),
            outcome == merge_outcome(log_of(old(self)@, topic@), note@),
            sound_model(final(self)@),
    {
        proof {
            use_type_invariant(&*self);
            lemma_model_of_entries(self.topics@);
        }
        let mut topics: Vec<TopicEntry> = Vec::new();
        core::mem::swap(&mut self.topics, &mut topics);
        let ghost before = topics@;
        let wanted = topic.as_bytes();
        let mut i: usize = 0;
        let mut found: bool = false;
        while i < topics.len()
            invariant_except_break
                !found,
            invariant
                topics@ == before,
                wanted@ == encode_utf8(topic@),
                i <= topics@.len(),
                forall|j: int|
                    0 <= j < i ==> lex_less(encode_utf8((#[trigger] topics@[j]).name@), wanted@),
            ensures
                i <= topics@.len(),
                found ==> i < topics@.len() && topics@[i as int].name@ == topic@,
                !found ==> i == topics@.len() || lex_less(
                    wanted@,
                    encode_utf8(topics@[i as int].name@),
                ),
                forall|j: int|
                    0 <= j < i ==> lex_less(encode_utf8((#[trigger] topics@[j]).name@), wanted@),
            decreases topics@.len() - i,
        {
            let name = topics[i].name.as_str().as_bytes();
            if bytes_less(wanted, name) {
                break ;
            }
            if !bytes_less(name, wanted) {
                proof {
                    lemma_lex_less_total(name@, wanted@);
                    encode_utf8_decode_utf8(topic@);
                    encode_utf8_decode_utf8(topics@[i as int].name@);
                }
                found = true;
                break ;
            }
            i = i + 1;
        }
        let outcome;
        if found {
            outcome = topics[i].log.add_note(note);
            proof {
                assert(names_ascend(topics@)) by {
                    assert forall|a: int, b: int| 0 <= a < b < topics@.len() implies lex_less(
                        encode_utf8(#[trigger] topics@[a].name@),
                        encode_utf8(#[trigger] topics@[b].name@),
                    ) by {
                        assert(lex_less(
                            encode_utf8(before[a].name@),
                            encode_utf8(before[b].name@),
                        ));
                    }
                }
                assert(logs_are_sound(topics@)) by {
                    assert forall|j: int| 0 <= j < topics@.len() implies sound_log(
                        (#[trigger] topics@[j]).log@,
                    ) by {
                        if j != i {
                            assert(sound_log(before[j].log@));
                        }
                    }
                }
                lemma_model_of_entries(topics@);
                lemma_entries_agree_with_the_merged_model(before, topics@, i as int, note@);
            }
        } else {
            let mut log = Topic::new();
            outcome = log.add_note(note);
            proof {
                assert(!model_of(before).contains_key(topic@)) by {
                    if model_of(before).contains_key(topic@) {
                        let j = choose|j: int| is_topic(before, topic@, j);
                        lemma_lex_less_irreflexive(wanted@);
                        if j >= i {
                            if j > i {
                                lemma_lex_less_transitive(
                                    wanted@,
                                    encode_utf8(before[i as int].name@),
                                    encode_utf8(before[j].name@),
                                );
                            }
                        }
                    }
                }
            }
            topics.insert(i, TopicEntry { name: topic.to_owned(), log });
            proof {
                assert(names_ascend(topics@)) by {
                    assert forall|a: int, b: int| 0 <= a < b < topics@.len() implies lex_less(
                        encode_utf8(#[trigger] topics@[a].name@),
                        encode_utf8(#[trigger] topics@[b].name@),
                    ) by {
                        if b < i {
                            assert(topics@[a] == before[a] && topics@[b] == before[b]);
                        } else if b == i {
                            assert(topics@[a] == before[a]);
                        } else if a < i {
                            assert(topics@[a] == before[a] && topics@[b] == before[b - 1]);
                            if b - 1 > i {
                                assert(lex_less(
                                    encode_utf8(before[i as int].name@),
                                    encode_utf8(before[b - 1].name@),
                                ));
                            }
                            lemma_lex_less_transitive(
                                encode_utf8(before[a].name@),
                                wanted@,
                                encode_utf8(before[i as int].name@),
                            );
                            if b - 1 > i {
                                lemma_lex_less_transitive(
                                    encode_utf8(before[a].name@),
                                    encode_utf8(before[i as int].name@),
                                    encode_utf8(before[b - 1].name@),
                                );
                            }
                        } else if a == i {
                            assert(topics@[b] == before[b - 1]);
                            if b - 1 > i {
                                lemma_lex_less_transitive(
                                    wanted@,
                                    encode_utf8(before[i as int].name@),
                                    encode_utf8(before[b - 1].name@),
                                );
                            }
                        } else {
                            assert(topics@[a] == before[a - 1] && topics@[b] == before[b - 1]);
                        }
                    }
                }
                assert(logs_are_sound(topics@)) by {
                    assert forall|j: int| 0 <= j < topics@.len() implies sound_log(
                        (#[trigger] topics@[j]).log@,
                    ) by {
                        if j < i {
                            assert(sound_log(before[j].log@));
                        } else if j > i {
                            assert(sound_log(before[j - 1].log@));
                        }
                    }
                }
                lemma_model_of_entries(topics@);
                lemma_entries_agree_with_the_grown_model(before, topics@, i as int, topic@, note@);
            }
        }
        self.topics = topics;
        outcome
    }
}

/// A model has one topic for each entry.
proof fn lemma_model_has_as_many_topics_as_entries(entries: Seq<TopicEntry>)
    requires
        names_ascend(entries),
    ensures
        model_of(entries).dom().finite(),
        model_of(entries).dom().len() == entries.len(),
    decreases entries.len(),
{
    if entries.len() == 0 {
        assert(model_of(entries).dom() =~= Set::<Seq<char>>::empty());
    } else {
        let front = entries.drop_last();
        let last = entries.last();
        assert(names_ascend(front)) by {
            assert forall|a: int, b: int| 0 <= a < b < front.len() implies lex_less(
                encode_utf8(#[trigger] front[a].name@),
                encode_utf8(#[trigger] front[b].name@),
            ) by {
                assert(front[a] == entries[a] && front[b] == entries[b]);
            }
        }
        lemma_model_has_as_many_topics_as_entries(front);
        lemma_model_of_entries(entries);
        lemma_model_of_entries(front);
        assert(!model_of(front).dom().contains(last.name@)) by {
            if model_of(front).contains_key(last.name@) {
                let j = choose|j: int| is_topic(front, last.name@, j);
                assert(entries[j].name@ == entries[entries.len() - 1].name@);
            }
        }
        assert(model_of(entries).dom() =~= model_of(front).dom().insert(last.name@)) by {
            assert forall|name: Seq<char>|
                model_of(entries).dom().contains(name) implies model_of(front).dom().insert(
                last.name@,
            ).contains(name) by {
                let j = choose|j: int| is_topic(entries, name, j);
                if j < front.len() {
                    assert(is_topic(front, name, j));
                }
            }
            assert forall|name: Seq<char>|
                model_of(front).dom().insert(last.name@).contains(name) implies model_of(
                entries,
            ).dom().contains(name) by {
                if name == last.name@ {
                    assert(is_topic(entries, name, entries.len() - 1));
                } else {
                    let j = choose|j: int| is_topic(front, name, j);
                    assert(is_topic(entries, name, j));
                }
            }
        }
    }
}

/// After a note was folded into the log of entry `at`, the entries stand for
/// the merged model.
proof fn lemma_entries_agree_with_the_merged_model(
    before: Seq<TopicEntry>,
    after: Seq<TopicEntry>,
    at: int,
    note: SignedNoteView,
)
    requires
        names_ascend(before),
        names_ascend(after),
        0 <= at < before.len() == after.len(),
        forall|j: int| 0 <= j < before.len() ==> (#[trigger] after[j]).name@ == before[j].name@,
        forall|j: int| 0 <= j < before.len() && j != at ==> (#[trigger] after[j]).log@ == before[j].log@,
        after[at].log@ == merged(before[at].log@, note),
    ensures
        model_of(after) == model_merged(model_of(before), before[at].name@, note),
{
    lemma_model_of_entries(before);
    lemma_model_of_entries(after);
    let wanted = model_merged(model_of(before), before[at].name@, note);
    assert forall|name: Seq<char>| model_of(after).contains_key(name) implies wanted.contains_key(
        name,
    ) && wanted[name] == model_of(after)[name] by {
        let j = choose|j: int| is_topic(after, name, j);
        assert(before[j].name@ == name);
    }
    assert forall|name: Seq<char>| wanted.contains_key(name) implies model_of(after).contains_key(
        name,
    ) by {
        if name != before[at].name@ {
            let j = choose|j: int| is_topic(before, name, j);
            assert(after[j].name@ == name);
        } else {
            assert(after[at].name@ == name);
        }
    }
    assert(model_of(after) =~= wanted);
}

/// After a new topic with `note` folded into its empty log was put in at
/// `at`, the entries stand for the merged model.
proof fn lemma_entries_agree_with_the_grown_model(
    before: Seq<TopicEntry>,
    after: Seq<TopicEntry>,
    at: int,
    topic: Seq<char>,
    note: SignedNoteView,
)
    requires
        names_ascend(before),
        names_ascend(after),
        0 <= at <= before.len(),
        after.len() == before.len() + 1,
        !model_of(before).contains_key(topic),
        forall|j: int| 0 <= j < at ==> (#[trigger] after[j]) == before[j],
        forall|j: int| at < j < after.len() ==> (#[trigger] after[j]) == before[j - 1],
        after[at].name@ == topic,
        after[at].log@ == merged(Map::<TimeKey, SignedNoteView>::empty(), note),
    ensures
        model_of(after) == model_merged(model_of(before), topic, note),
{
    lemma_model_of_entries(before);
    lemma_model_of_entries(after);
    let wanted = model_merged(model_of(before), topic, note);
    assert forall|name: Seq<char>| model_of(after).contains_key(name) implies wanted.contains_key(
        name,
    ) && wanted[name] == model_of(after)[name] by {
        let j = choose|j: int| is_topic(after, name, j);
        if j < at {
            assert(before[j].name@ == name);
        } else if j > at {
            assert(before[j - 1].name@ == name);
        }
    }
    assert forall|name: Seq<char>| wanted.contains_key(name) implies model_of(after).contains_key(
        name,
    ) by {
        if name != topic {
            let j = choose|j: int| is_topic(before, name, j);
            if j < at {
                assert(after[j].name@ == name);
            } else {
                assert(after[j + 1].name@ == name);
            }
        } else {
            assert(after[at].name@ == name);
        }
    }
    assert(model_of(after) =~= wanted);
}

} // verus!
