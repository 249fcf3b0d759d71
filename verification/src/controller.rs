//! The driver of a peer: one step for each thing that happens. It owns the
//! model; the network stays outside. A step takes what happened, changes the
//! model, and says what the network layer is to do.
use crate::crypto::public_key_of;
use crate::crypto::signing_outcome;
use crate::model::log_of;
use crate::model::merge_outcome;
use crate::model::model_merged;
use crate::model::MergeOutcome;
use crate::model::Model;
use crate::model::ModelView;
use crate::model::SignedNoteView;
use crate::note::sign;
use crate::note::verifies;
use crate::note::Decode;
use crate::note::DigestHash;
use crate::note::Encode;
use crate::note::Note;
use crate::note::NoteView;
use crate::note::SignError;
use crate::note::Signed;
use crate::note::SignedView;
use crate::wire::DecodeError;
use libp2p::identity::Keypair;
use libp2p::PeerId;
use vstd::prelude::*;

verus! {

/// The name of a peer on the network. The driver hands such names on and never
/// looks inside one.
#[verifier::external_type_specification]
#[verifier::external_body]
pub struct ExPeerId(PeerId);

/// The broadcast channel that all notes travel on, whatever their topic.
pub const CHANNEL: &'static str = "n2p-test";

/// What the network brings.
#[derive(Debug)]
pub enum NetworkEvent {
    /// A payload that some peer published.
    Message(Vec<u8>),
    /// Peers that were found nearby.
    Discovered(Vec<PeerId>),
    /// Peers that were not heard of for too long.
    Expired(Vec<PeerId>),
    /// Anything else.
    Other,
}

/// What came of one step of the driver.
#[derive(Debug)]
pub enum Reaction {
    /// The payload was a signed note, which was folded into the model.
    Merged(MergeOutcome),
    /// The payload was not the canonical form of a signed note.
    Dropped(DecodeError),
    /// The network layer is to keep these peers in its set.
    AddPeers(Vec<PeerId>),
    /// The network layer is to take these peers out of its set.
    RemovePeers(Vec<PeerId>),
    /// There is nothing to do.
    Nothing,
}

/// What a local send hands to the network layer, and what became of the note
/// at home.
#[derive(Debug)]
pub struct Dispatch {
    /// The bytes to publish on the channel.
    pub payload: Vec<u8>,
    /// What became of the note in the model of the sender.
    pub outcome: MergeOutcome,
}

/// Where a step leads: the model it leaves and what it reports.
pub open spec fn step(model: ModelView, event: NetworkEvent) -> (ModelView, Reaction) {
    match event {
        NetworkEvent::Message(payload) => match Signed::<Note>::parse(payload@) {
            Ok((note, _)) => (
                model_merged(model, note.inner.topic, note),
                Reaction::Merged(merge_outcome(log_of(model, note.inner.topic), note)),
            ),
            Err(e) => (model, Reaction::Dropped(e)),
        },
        NetworkEvent::Discovered(peers) => (model, Reaction::AddPeers(peers)),
        NetworkEvent::Expired(peers) => (model, Reaction::RemovePeers(peers)),
        NetworkEvent::Other => (model, Reaction::Nothing),
    }
}

/// What does not decode changes nothing, and a note whose signature is not
/// good changes no log: it is in none afterwards that it was not in before.
pub proof fn lemma_step_keeps_bad_notes_out(model: ModelView, event: NetworkEvent)
    ensures
        !(event is Message) ==> step(model, event).0 == model,
        event matches NetworkEvent::Message(payload) ==> match Signed::<Note>::parse(payload@) {
            Ok((note, _)) => !verifies::<Note>(note) ==> step(model, event).1 == Reaction::Merged(
                MergeOutcome::VerificationFailed,
            ) && forall|topic: Seq<char>| #[trigger]
                log_of(step(model, event).0, topic) == log_of(model, topic),
            Err(e) => step(model, event).0 == model && step(model, event).1 == Reaction::Dropped(
                e,
            ),
        },
{
}

/// The envelope that goes out when `key_pair` signs `note`: the note, the
/// public key of the pair, and the pair's signature over the digest of the
/// note.
pub open spec fn sent_envelope(note: NoteView, key_pair: Keypair) -> SignedNoteView {
    SignedView {
        inner: note,
        pub_key: public_key_of(key_pair),
        signature: signing_outcome(key_pair, <Note as DigestHash>::digest(note)).unwrap(),
    }
}

/// The driver of one peer.
#[derive(Debug, Default)]
pub struct Controller {
    model: Model,
}

impl View for Controller {
    type V = ModelView;

    closed spec fn view(&self) -> ModelView {
        self.model@
    }
}

impl Controller {
    /// The driver of a peer that has heard nothing yet.
    pub fn new() -> (controller: Controller)
        ensures
            controller@ == Map::<Seq<char>, crate::model::TopicView>::empty(),
    {
        Controller { model: Model::new() }
    }

    /// The model, to look at.
    pub fn model(&self) -> (model: &Model)
        ensures
            model@ == self@,
    {
        &self.model
    }

    /// Sends `note`: its canonical bytes are for the network layer to publish
    /// on the channel, and the note is folded into the model at once, so that
    /// the sender sees it without waiting for the network. Whether the bytes
    /// can be published changes nothing at home.
    pub fn send_note(&mut self, note: Signed<Note>) -> (sent: Dispatch)
        ensures
            sent.payload@ == Signed::<Note>::encoding(note@),
            Signed::<Note>::parse(sent.payload@) == Ok::<(SignedNoteView, Seq<u8>), DecodeError>(
                (note@, Seq::empty()),
            ),
            final(self)@ == model_merged(old(self)@, note@.inner.topic, note@),
            sent.outcome == merge_outcome(log_of(old(self)@, note@.inner.topic), note@),
    {
        let payload = note.to_wire();
        let topic = note.inner.topic.clone();
        let outcome = self.model.merge(topic.as_str(), note);
        Dispatch { payload, outcome }
    }

    /// Signs `note` with `key_pair` and sends it. It sends exactly where the
    /// pair signs the digest of the note. The payload is then the canonical
    /// form of the envelope that holds the note, the public key of the pair
    /// and that signature; the envelope verifies and is folded into the model.
    /// Where the signing primitive refuses, nothing is sent and the model
    /// stays as it is.
    pub fn send(&mut self, note: Note, key_pair: &Keypair) -> (r: Result<Dispatch, SignError>)
        ensures
            r is Ok <==> signing_outcome(*key_pair, <Note as DigestHash>::digest(note@)) is Some,
            match r {
                Ok(sent) => sent.payload@ == Signed::<Note>::encoding(
                    sent_envelope(note@, *key_pair),
                ) && Signed::<Note>::parse(sent.payload@) == Ok::<
                    (SignedNoteView, Seq<u8>),
                    DecodeError,
                >((sent_envelope(note@, *key_pair), Seq::empty())) && verifies::<Note>(
                    sent_envelope(note@, *key_pair),
                ) && final(self)@ == model_merged(
                    old(self)@,
                    note@.topic,
                    sent_envelope(note@, *key_pair),
                ) && sent.outcome == merge_outcome(
                    log_of(old(self)@, note@.topic),
                    sent_envelope(note@, *key_pair),
                ) && sent.outcome != MergeOutcome::VerificationFailed,
                Err(_) => final(self)@ == old(self)@,
            },
    {
        match sign(note, key_pair) {
            Ok(signed) => Ok(self.send_note(signed)),
            Err(e) => Err(e),
        }
    }

    /// Folds what the payload of a peer stands for into the model: nothing
    /// where the payload is not the canonical form of a signed note, the note
    /// where it is. Bytes that follow the note are not looked at.
    pub fn receive(&mut self, payload: &[u8]) -> (r: Result<MergeOutcome, DecodeError>)
        ensures
            match Signed::<Note>::parse(payload@) {
                Ok((note, _)) => r == Ok::<MergeOutcome, DecodeError>(
                    merge_outcome(log_of(old(self)@, note.inner.topic), note),
                ) && final(self)@ == model_merged(old(self)@, note.inner.topic, note),
                Err(e) => r == Err::<MergeOutcome, DecodeError>(e) && final(self)@ == old(self)@,
            },
    {
        match Signed::<Note>::decode(payload) {
            Ok(note) => {
                let topic = note.inner.topic.clone();
                Ok(self.model.merge(topic.as_str(), note))
            },
            Err(e) => Err(e),
        }
    }

    /// One step: takes what the network brought, and says what came of it.
    /// Nothing that a peer can send stops the driver.
    pub fn poll(&mut self, event: NetworkEvent) -> (reaction: Reaction)
        ensures
            final(self)@ == step(old(self)@, event).0,
            reaction == step(old(self)@, event).1,
    {
        match event {
            NetworkEvent::Message(payload) => match self.receive(payload.as_slice()) {
                Ok(outcome) => Reaction::Merged(outcome),
                Err(e) => Reaction::Dropped(e),
            },
            NetworkEvent::Discovered(peers) => Reaction::AddPeers(peers),
            NetworkEvent::Expired(peers) => Reaction::RemovePeers(peers),
            NetworkEvent::Other => Reaction::Nothing,
        }
    }
}

} // verus!
