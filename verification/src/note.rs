//! Notes, the envelope that proves who wrote one, and the canonical byte form
//! of both.
//!
//! A value is modelled by its view: text as a sequence of characters, bytes as
//! a sequence of bytes, a moment as the tuple of its fields. The canonical
//! bytes of a value are a spec function of its view, so equal values have equal
//! bytes; the digest that is signed is the Keccak-256 digest of those bytes.
use crate::crypto::canonical_key;
use crate::crypto::canonical_key_bytes;
use crate::crypto::keccak256;
use crate::crypto::keccak256_digest;
use crate::crypto::key_verdict;
use crate::crypto::key_verifies;
use crate::crypto::public_key_of;
use crate::crypto::sign_with;
use crate::crypto::signing_outcome;
use crate::order::bytes_equal;
use crate::timestamp::get_time_field;
use crate::timestamp::lemma_time_field_round_trip;
use crate::timestamp::parse_time_field;
use crate::timestamp::put_time_field;
use crate::timestamp::time_field;
use crate::timestamp::valid_time_key;
use crate::timestamp::TimeKey;
use crate::timestamp::Timestamp;
use crate::wire::bytes_field;
use crate::wire::get_bytes_field;
use crate::wire::get_text_field;
use crate::wire::lemma_bytes_field_round_trip;
use crate::wire::lemma_pow256_values;
use crate::wire::lemma_text_field_round_trip;
use crate::wire::parse_bytes_field;
use crate::wire::parse_text_field;
use crate::wire::pow256;
use crate::wire::put_bytes_field;
use crate::wire::put_text_field;
use crate::wire::text_field;
use crate::wire::DecodeError;
use crate::wire::Parsed;
use libp2p::identity::Keypair;
use libp2p::identity::SigningError;
use vstd::prelude::*;
use vstd::utf8::encode_utf8;

verus! {

/// A type whose values have canonical bytes.
pub trait Encode: View + Sized {
    /// The canonical bytes of the value with view `value`.
    spec fn encoding(value: Self::V) -> Seq<u8>;

    /// Appends the canonical bytes of the value to `out`.
    fn encode(&self, out: &mut Vec<u8>)
        ensures
            final(out)@ == old(out)@ + Self::encoding(self@),
    ;

    /// The canonical bytes of the value.
    fn encode_to_vec(&self) -> (bytes: Vec<u8>)
        ensures
            bytes@ == Self::encoding(self@),
    {
        let mut out: Vec<u8> = Vec::new();
        self.encode(&mut out);
        assert(Seq::<u8>::empty() + Self::encoding(self@) =~= Self::encoding(self@));
        out
    }
}

/// A type whose values can be read from their canonical bytes.
pub trait Decode: View + Sized {
    /// The value at the front of `bytes` and the bytes that follow it, or the
    /// reason why no value is read.
    spec fn parse(bytes: Seq<u8>) -> Parsed<Self::V>;

    /// Reads the value at the front of `bytes`: the value, and how many bytes
    /// it took.
    fn decode_prefix(bytes: &[u8]) -> (r: Result<(Self, usize), DecodeError>)
        ensures
            match r {
                Ok((value, used)) => used <= bytes@.len() && Self::parse(bytes@) == Ok::<
                    (Self::V, Seq<u8>),
                    DecodeError,
                >((value@, bytes@.skip(used as int))),
                Err(e) => Self::parse(bytes@) == Err::<(Self::V, Seq<u8>), DecodeError>(e),
            },
    ;

    /// Reads the value at the front of `bytes`. Bytes that follow the value
    /// are not looked at.
    fn decode(bytes: &[u8]) -> (r: Result<Self, DecodeError>)
        ensures
            match r {
                Ok(value) => Self::parse(bytes@) matches Ok(parsed) && parsed.0 == value@,
                Err(e) => Self::parse(bytes@) == Err::<(Self::V, Seq<u8>), DecodeError>(e),
            },
    {
        match Self::decode_prefix(bytes) {
            Ok((value, _)) => Ok(value),
            Err(e) => Err(e),
        }
    }
}

/// A type whose values have a 32-byte content hash.
pub trait DigestHash: View {
    /// The digest of the value with view `value`.
    spec fn digest(value: Self::V) -> Seq<u8>;

    /// The digest of the value.
    fn digest_hash(&self) -> (hash: [u8; 32])
        ensures
            hash@ == Self::digest(self@),
    ;
}

/// The digest of a value with canonical bytes is the Keccak-256 digest of
/// those bytes.
impl<T: Encode> DigestHash for T {
    open spec fn digest(value: T::V) -> Seq<u8> {
        keccak256_digest(T::encoding(value))
    }

    fn digest_hash(&self) -> (hash: [u8; 32]) {
        let bytes = self.encode_to_vec();
        keccak256(bytes.as_slice())
    }
}

/// What a peer writes: a message under a topic, and the moment of writing.
#[derive(Debug, Clone, PartialEq, Eq, PartialOrd, Ord, Hash)]
pub struct Note {
    pub topic: String,
    pub msg: String,
    pub created_at: Timestamp,
}

/// A note as specifications see it.
pub struct NoteView {
    pub topic: Seq<char>,
    pub msg: Seq<char>,
    pub created_at: TimeKey,
}

impl View for Note {
    type V = NoteView;

    open spec fn view(&self) -> NoteView {
        NoteView { topic: self.topic@, msg: self.msg@, created_at: self.created_at@ }
    }
}

impl NoteView {
    /// Whether a note with this view can exist and be exchanged: its moment is
    /// one of the calendar, and the lengths of its texts fit their prefixes.
    pub open spec fn valid(self) -> bool {
        &&& valid_time_key(self.created_at)
        &&& encode_utf8(self.topic).len() < pow256(8)
        &&& encode_utf8(self.msg).len() < pow256(8)
    }
}

impl Note {
    /// Whether this note says what `other` says.
    pub fn same_as(&self, other: &Note) -> (same: bool)
        ensures
            same == (self@ == other@),
    {
        self.topic == other.topic && self.msg == other.msg && self.created_at.same_as(
            &other.created_at,
        )
    }
}

impl Encode for Note {
    /// Topic, message and moment, in this order.
    open spec fn encoding(value: NoteView) -> Seq<u8> {
        text_field(value.topic) + text_field(value.msg) + time_field(value.created_at)
    }

    fn encode(&self, out: &mut Vec<u8>) {
        put_text_field(out, self.topic.as_str());
        put_text_field(out, self.msg.as_str());
        put_time_field(out, &self.created_at);
        assert(out@ =~= old(out)@ + Self::encoding(self@));
    }
}

impl Decode for Note {
    open spec fn parse(bytes: Seq<u8>) -> Parsed<NoteView> {
        match parse_text_field(bytes) {
            Ok((topic, after_topic)) => match parse_text_field(after_topic) {
                Ok((msg, after_msg)) => match parse_time_field(after_msg) {
                    Ok((created_at, rest)) => Ok((NoteView { topic, msg, created_at }, rest)),
                    Err(e) => Err(e),
                },
                Err(e) => Err(e),
            },
            Err(e) => Err(e),
        }
    }

    fn decode_prefix(bytes: &[u8]) -> (r: Result<(Note, usize), DecodeError>) {
        assert(bytes@.skip(0) =~= bytes@);
        let (topic, after_topic) = match get_text_field(bytes, 0) {
            Ok(read) => read,
            Err(e) => {
                return Err(e);
            },
        };
        let (msg, after_msg) = match get_text_field(bytes, after_topic) {
            Ok(read) => read,
            Err(e) => {
                return Err(e);
            },
        };
        let (created_at, next) = match get_time_field(bytes, after_msg) {
            Ok(read) => read,
            Err(e) => {
                return Err(e);
            },
        };
        Ok((Note { topic, msg, created_at }, next))
    }
}

/// A note is read back from the front of whatever it was written before.
pub proof fn lemma_note_round_trip(note: NoteView, tail: Seq<u8>)
    requires
        note.valid(),
    ensures
        Note::parse(Note::encoding(note) + tail) == Ok::<(NoteView, Seq<u8>), DecodeError>(
            (note, tail),
        ),
{
    let after_topic = text_field(note.msg) + time_field(note.created_at) + tail;
    let after_msg = time_field(note.created_at) + tail;
    assert(Note::encoding(note) + tail =~= text_field(note.topic) + after_topic);
    assert(after_topic =~= text_field(note.msg) + after_msg);
    lemma_text_field_round_trip(note.topic, after_topic);
    lemma_text_field_round_trip(note.msg, after_msg);
    lemma_time_field_round_trip(note.created_at, tail);
}

/// The public half of a peer's identity, held as its canonical bytes.
#[derive(Debug, PartialEq, Eq, PartialOrd, Ord, Hash)]
pub struct PubKey {
    bytes: Vec<u8>,
}

impl View for PubKey {
    type V = Seq<u8>;

    closed spec fn view(&self) -> Seq<u8> {
        self.bytes@
    }
}

impl Clone for PubKey {
    fn clone(&self) -> (copy: PubKey)
        ensures
            copy@ == self@,
    {
        proof {
            use_type_invariant(self);
        }
        PubKey { bytes: self.bytes.clone() }
    }
}

/// Whether `key` is the canonical form of a public key: it is accepted as one,
/// and the key it decodes to is written as these same bytes.
pub open spec fn is_canonical_key(key: Seq<u8>) -> bool {
    canonical_key(key) == Some(key)
}

impl PubKey {
    #[verifier::type_invariant]
    spec fn holds_canonical_bytes(self) -> bool {
        is_canonical_key(self.bytes@)
    }

    /// The public key that `bytes` decode to, held in canonical form.
    pub fn try_from_bytes(bytes: &[u8]) -> (r: Result<PubKey, DecodeError>)
        ensures
            match r {
                Ok(key) => canonical_key(bytes@) == Some(key@) && is_canonical_key(key@),
                Err(e) => e == DecodeError::InvalidKey && canonical_key(bytes@) is None,
            },
    {
        match canonical_key_bytes(bytes) {
            Ok(canonical) => Ok(PubKey { bytes: canonical }),
            Err(_) => Err(DecodeError::InvalidKey),
        }
    }

    /// The canonical bytes of the key.
    pub fn as_bytes(&self) -> (bytes: &[u8])
        ensures
            bytes@ == self@,
            is_canonical_key(self@),
    {
        proof {
            use_type_invariant(self);
        }
        self.bytes.as_slice()
    }

    /// Whether this is the key `other`: equal keys have equal canonical bytes.
    pub fn same_as(&self, other: &PubKey) -> (same: bool)
        ensures
            same == (self@ == other@),
    {
        bytes_equal(self.bytes.as_slice(), other.bytes.as_slice())
    }

    /// Whether the key accepts `signature` for `message`.
    pub fn verify(&self, message: &[u8], signature: &[u8]) -> (accepted: bool)
        ensures
            accepted == (key_verdict(self@, message@, signature@) == Some(true)),
    {
        match key_verifies(self.bytes.as_slice(), message, signature) {
            Some(verdict) => verdict,
            None => false,
        }
    }
}

impl Encode for PubKey {
    /// The canonical bytes of the key as a byte string.
    open spec fn encoding(value: Seq<u8>) -> Seq<u8> {
        bytes_field(value)
    }

    fn encode(&self, out: &mut Vec<u8>) {
        put_bytes_field(out, self.bytes.as_slice());
    }
}

impl Decode for PubKey {
    /// A byte string that is accepted as a public key stands for the
    /// canonical form of that key.
    open spec fn parse(bytes: Seq<u8>) -> Parsed<Seq<u8>> {
        match parse_bytes_field(bytes) {
            Ok((raw, rest)) => match canonical_key(raw) {
                Some(key) => Ok((key, rest)),
                None => Err(DecodeError::InvalidKey),
            },
            Err(e) => Err(e),
        }
    }

    fn decode_prefix(bytes: &[u8]) -> (r: Result<(PubKey, usize), DecodeError>) {
        assert(bytes@.skip(0) =~= bytes@);
        get_key_field(bytes, 0)
    }
}

/// Reads the public key that starts at `at`, and where the next field starts.
fn get_key_field(bytes: &[u8], at: usize) -> (r: Result<(PubKey, usize), DecodeError>)
    requires
        at <= bytes@.len(),
    ensures
        match r {
            Ok((key, next)) => at <= next <= bytes@.len() && PubKey::parse(bytes@.skip(at as int))
                == Ok::<(Seq<u8>, Seq<u8>), DecodeError>((key@, bytes@.skip(next as int))),
            Err(e) => PubKey::parse(bytes@.skip(at as int)) == Err::<
                (Seq<u8>, Seq<u8>),
                DecodeError,
            >(e),
        },
{
    match get_bytes_field(bytes, at) {
        Ok((raw, next)) => match PubKey::try_from_bytes(raw.as_slice()) {
            Ok(key) => Ok((key, next)),
            Err(e) => Err(e),
        },
        Err(e) => Err(e),
    }
}

/// A value with the public key of its author and the author's signature over
/// the digest of the value. Nothing about a value of this type says that the
/// signature is good: `verify` does.
#[derive(Debug, Clone, PartialEq, Eq, PartialOrd, Ord, Hash)]
pub struct Signed<T> {
    pub inner: T,
    pub pub_key: PubKey,
    pub signature: Vec<u8>,
}

/// An envelope as specifications see it.
pub struct SignedView<V> {
    pub inner: V,
    pub pub_key: Seq<u8>,
    pub signature: Seq<u8>,
}

impl<T: View> View for Signed<T> {
    type V = SignedView<T::V>;

    open spec fn view(&self) -> SignedView<T::V> {
        SignedView { inner: self.inner@, pub_key: self.pub_key@, signature: self.signature@ }
    }
}

/// Whether the key of the envelope accepts its signature for the digest of its
/// content.
pub open spec fn verifies<T: DigestHash>(signed: SignedView<T::V>) -> bool {
    key_verdict(signed.pub_key, T::digest(signed.inner), signed.signature) == Some(true)
}

impl<T: DigestHash> Signed<T> {
    /// Whether the signature is good: the digest of the content is computed
    /// afresh and the key is asked. A key that is not accepted as one, a
    /// changed content and a changed signature all give `false`.
    pub fn verify(&self) -> (good: bool)
        ensures
            good == verifies::<T>(self@),
    {
        let hash = self.inner.digest_hash();
        self.pub_key.verify(hash.as_slice(), self.signature.as_slice())
    }
}

impl<T: Encode> Encode for Signed<T> {
    /// The content, the key and the signature, in this order.
    open spec fn encoding(value: SignedView<T::V>) -> Seq<u8> {
        T::encoding(value.inner) + bytes_field(value.pub_key) + bytes_field(value.signature)
    }

    fn encode(&self, out: &mut Vec<u8>) {
        self.inner.encode(out);
        self.pub_key.encode(out);
        put_bytes_field(out, self.signature.as_slice());
        assert(out@ =~= old(out)@ + Self::encoding(self@));
    }
}

impl<T: Decode> Decode for Signed<T> {
    open spec fn parse(bytes: Seq<u8>) -> Parsed<SignedView<T::V>> {
        match T::parse(bytes) {
            Ok((inner, after_inner)) => match PubKey::parse(after_inner) {
                Ok((pub_key, after_key)) => match parse_bytes_field(after_key) {
                    Ok((signature, rest)) => Ok((SignedView { inner, pub_key, signature }, rest)),
                    Err(e) => Err(e),
                },
                Err(e) => Err(e),
            },
            Err(e) => Err(e),
        }
    }

    fn decode_prefix(bytes: &[u8]) -> (r: Result<(Signed<T>, usize), DecodeError>) {
        let (inner, after_inner) = match T::decode_prefix(bytes) {
            Ok(read) => read,
            Err(e) => {
                return Err(e);
            },
        };
        let (pub_key, after_key) = match get_key_field(bytes, after_inner) {
            Ok(read) => read,
            Err(e) => {
                return Err(e);
            },
        };
        let (signature, next) = match get_bytes_field(bytes, after_key) {
            Ok(read) => read,
            Err(e) => {
                return Err(e);
            },
        };
        Ok((Signed { inner, pub_key, signature }, next))
    }
}

/// Whether an envelope round a note can exist and be exchanged: the note can,
/// the key is in canonical form, and the lengths of key and signature fit
/// their prefixes.
pub open spec fn valid_signed_note(signed: SignedView<NoteView>) -> bool {
    &&& signed.inner.valid()
    &&& is_canonical_key(signed.pub_key)
    &&& signed.pub_key.len() < pow256(8)
    &&& signed.signature.len() < pow256(8)
}

impl Signed<Note> {
    /// Whether this envelope is `other`, field by field and byte for byte.
    pub fn same_as(&self, other: &Signed<Note>) -> (same: bool)
        ensures
            same == (self@ == other@),
    {
        self.inner.same_as(&other.inner) && self.pub_key.same_as(&other.pub_key) && bytes_equal(
            self.signature.as_slice(),
            other.signature.as_slice(),
        )
    }

    /// Shows that the envelope can be exchanged, as every envelope can: its
    /// moment and its key are what their types say, and no length is beyond
    /// what memory holds.
    pub(crate) fn can_be_exchanged(&self)
        ensures
            valid_signed_note(self@),
    {
        proof {
            lemma_pow256_values();
        }
        let moment = self.inner.created_at.key();
        let topic_len = self.inner.topic.as_str().as_bytes().len();
        let msg_len = self.inner.msg.as_str().as_bytes().len();
        let key_len = self.pub_key.as_bytes().len();
        let signature_len = self.signature.len();
    }

    /// The canonical bytes of the envelope, the unit that peers exchange.
    /// Every envelope can be exchanged, and its bytes decode to the envelope
    /// and nothing else.
    pub fn to_wire(&self) -> (bytes: Vec<u8>)
        ensures
            bytes@ == Signed::<Note>::encoding(self@),
            valid_signed_note(self@),
            Signed::<Note>::parse(bytes@) == Ok::<(SignedView<NoteView>, Seq<u8>), DecodeError>(
                (self@, Seq::empty()),
            ),
    {
        let bytes = self.encode_to_vec();
        self.can_be_exchanged();
        proof {
            lemma_signed_note_round_trip(self@, Seq::empty());
            assert(bytes@ + Seq::<u8>::empty() =~= bytes@);
        }
        bytes
    }
}

/// Decoding undoes encoding: a signed note is read back, whole and unchanged,
/// from the front of whatever its canonical bytes were written before.
pub proof fn lemma_signed_note_round_trip(signed: SignedView<NoteView>, tail: Seq<u8>)
    requires
        valid_signed_note(signed),
    ensures
        Signed::<Note>::parse(Signed::<Note>::encoding(signed) + tail) == Ok::<
            (SignedView<NoteView>, Seq<u8>),
            DecodeError,
        >((signed, tail)),
{
    let after_inner = bytes_field(signed.pub_key) + bytes_field(signed.signature) + tail;
    let after_key = bytes_field(signed.signature) + tail;
    assert(Signed::<Note>::encoding(signed) + tail =~= Note::encoding(signed.inner) + after_inner);
    assert(after_inner =~= bytes_field(signed.pub_key) + after_key);
    lemma_note_round_trip(signed.inner, after_inner);
    lemma_bytes_field_round_trip(signed.pub_key, after_key);
    lemma_bytes_field_round_trip(signed.signature, tail);
}

/// The canonical bytes of a signed note say which signed note they stand for.
pub proof fn lemma_signed_note_encoding_is_injective(
    a: SignedView<NoteView>,
    b: SignedView<NoteView>,
)
    requires
        valid_signed_note(a),
        valid_signed_note(b),
        Signed::<Note>::encoding(a) == Signed::<Note>::encoding(b),
    ensures
        a == b,
{
    lemma_signed_note_round_trip(a, Seq::empty());
    lemma_signed_note_round_trip(b, Seq::empty());
}

/// The canonical bytes of a note say which note they stand for.
pub proof fn lemma_note_encoding_is_injective(a: NoteView, b: NoteView)
    requires
        a.valid(),
        b.valid(),
        Note::encoding(a) == Note::encoding(b),
    ensures
        a == b,
{
    lemma_note_round_trip(a, Seq::empty());
    lemma_note_round_trip(b, Seq::empty());
}

/// A change of the content that verification does not notice takes a
/// collision: the changed note has other canonical bytes, and either these
/// have the digest of the bytes that were signed, or the key accepts the one
/// signature for two digests.
pub proof fn lemma_unnoticed_change_takes_a_collision(signed: SignedView<NoteView>, changed: NoteView)
    requires
        signed.inner.valid(),
        changed.valid(),
        changed != signed.inner,
        verifies::<Note>(signed),
        verifies::<Note>(
            SignedView { inner: changed, pub_key: signed.pub_key, signature: signed.signature },
        ),
    ensures
        Note::encoding(changed) != Note::encoding(signed.inner),
        Note::digest(changed) == Note::digest(signed.inner) || (key_verdict(
            signed.pub_key,
            Note::digest(signed.inner),
            signed.signature,
        ) == Some(true) && key_verdict(signed.pub_key, Note::digest(changed), signed.signature)
            == Some(true)),
{
    if Note::encoding(changed) == Note::encoding(signed.inner) {
        lemma_note_encoding_is_injective(changed, signed.inner);
    }
}

/// Why a value was not signed.
#[derive(Debug)]
pub enum SignError {
    /// The signing primitive refused.
    SigningError(SigningError),
}

/// Makes the envelope of what the signing primitive handed back: the key and
/// the signature round `inner` where it signed, its refusal where it did not.
pub fn seal<T>(inner: T, outcome: Result<(PubKey, Vec<u8>), SigningError>) -> (r: Result<
    Signed<T>,
    SignError,
>)
    ensures
        match outcome {
            Ok((pub_key, signature)) => r == Ok::<Signed<T>, SignError>(
                Signed { inner, pub_key, signature },
            ),
            Err(e) => r == Err::<Signed<T>, SignError>(SignError::SigningError(e)),
        },
{
    match outcome {
        Ok((pub_key, signature)) => Ok(Signed { inner, pub_key, signature }),
        Err(e) => Err(SignError::SigningError(e)),
    }
}

/// Signs `value` with `key_pair`. Where the pair signs the digest of the
/// value, the envelope holds the value, the public key of the pair and that
/// signature, and it verifies. Where the signing primitive refuses, there is
/// no envelope.
pub fn sign<T: DigestHash>(value: T, key_pair: &Keypair) -> (r: Result<Signed<T>, SignError>)
    ensures
        r matches Ok(signed) ==> signed.inner == value && is_canonical_key(signed.pub_key@)
            && verifies::<T>(signed@),
        match r {
            Ok(signed) => signed.pub_key@ == public_key_of(*key_pair) && signing_outcome(
                *key_pair,
                T::digest(value@),
            ) == Some(signed.signature@),
            Err(_) => signing_outcome(*key_pair, T::digest(value@)) is None,
        },
{
    let hash = value.digest_hash();
    let outcome = match sign_with(key_pair, hash.as_slice()) {
        Ok((key, signature)) => Ok((PubKey { bytes: key }, signature)),
        Err(e) => Err(e),
    };
    seal(value, outcome)
}

/// Values that can be signed.
pub trait Sign: DigestHash + Sized {
    /// Signs the value with `key_pair`. Where the pair signs the digest of the
    /// value, the envelope holds the value, the public key of the pair and
    /// that signature, and it verifies. Where the signing primitive refuses,
    /// there is no envelope.
    fn sign(self, key_pair: &Keypair) -> (r: Result<Signed<Self>, SignError>)
        ensures
            r matches Ok(signed) ==> signed.inner == self && is_canonical_key(signed.pub_key@)
                && verifies::<Self>(signed@),
            match r {
                Ok(signed) => signed.pub_key@ == public_key_of(*key_pair) && signing_outcome(
                    *key_pair,
                    Self::digest(self@),
                ) == Some(signed.signature@),
                Err(_) => signing_outcome(*key_pair, Self::digest(self@)) is None,
            },
    ;
}

impl<T: DigestHash> Sign for T {
    fn sign(self, key_pair: &Keypair) -> (r: Result<Signed<T>, SignError>) {
        self::sign(self, key_pair)
    }
}

} // verus!
