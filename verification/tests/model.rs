use libp2p::identity;
use n2p::model::MergeOutcome;
use n2p::model::Model;
use n2p::model::Topic;
use n2p::note::Decode;
use n2p::note::Encode;
use n2p::note::Note;
use n2p::note::Sign;
use n2p::note::Signed;
use n2p::timestamp::Timestamp;
use rand::RngCore;
use rand::SeedableRng;

fn keypair(seed: u64) -> identity::Keypair {
    let mut rng = rand::rngs::StdRng::seed_from_u64(seed);
    let mut secret_key_bytes = [0; 32];
    rng.fill_bytes(&mut secret_key_bytes);
    identity::Keypair::ed25519_from_bytes(secret_key_bytes).expect("Failed to generate keypair")
}

fn t0() -> Timestamp {
    Timestamp::new(2024, 61, 12, 30, 15, 0).expect("a moment of the calendar")
}

fn t1() -> Timestamp {
    Timestamp::new(2024, 61, 12, 30, 15, 1).expect("a moment of the calendar")
}

fn signed(seed: u64, topic: &str, msg: &str, created_at: Timestamp) -> Signed<Note> {
    Note { topic: topic.to_string(), msg: msg.to_string(), created_at }
        .sign(&keypair(seed))
        .expect("failed to sign note")
}

fn forged(seed: u64, topic: &str, msg: &str, created_at: Timestamp) -> Signed<Note> {
    let mut note = signed(seed, topic, msg, created_at);
    note.signature[0] ^= 1;
    note
}

fn messages(log: &Topic) -> Vec<String> {
    log.notes().iter().map(|note| note.inner.msg.clone()).collect()
}

/// Two different notes of one moment, the one that a log keeps first.
fn rivals() -> (Signed<Note>, Signed<Note>) {
    let a = signed(1, "general", "first", t0());
    let b = signed(2, "general", "second", t0());
    assert_ne!(a.signature, b.signature);
    if a.signature < b.signature {
        (a, b)
    } else {
        (b, a)
    }
}

#[test]
fn a_new_log_is_empty() {
    let log = Topic::new();
    assert!(log.is_empty());
    assert_eq!(log.len(), 0);
    assert!(log.notes().is_empty());
    assert_eq!(log.get(&t0()), None);
    assert_eq!(log, Topic::default());
}

#[test]
fn a_note_for_a_new_moment_is_accepted() {
    let mut log = Topic::new();
    let note = signed(1, "general", "hello", t0());
    assert_eq!(log.add_note(note.clone()), MergeOutcome::Accepted);
    assert!(!log.is_empty());
    assert_eq!(log.len(), 1);
    assert_eq!(log.get(&t0()), Some(&note));
    assert_eq!(log.get(&t1()), None);
    assert_eq!(log.notes(), vec![&note]);
}

#[test]
fn merging_a_note_twice_is_merging_it_once() {
    let note = signed(1, "general", "hello", t0());
    let mut once = Topic::new();
    assert_eq!(once.add_note(note.clone()), MergeOutcome::Accepted);
    let mut twice = once.clone();
    assert_eq!(twice.add_note(note.clone()), MergeOutcome::Duplicate);
    assert_eq!(twice, once);
    assert_eq!(twice.len(), 1);

    let other = signed(2, "general", "again", t1());
    assert_eq!(once.add_note(other.clone()), MergeOutcome::Accepted);
    let mut twice = once.clone();
    assert_eq!(twice.add_note(note), MergeOutcome::Duplicate);
    assert_eq!(twice.add_note(other), MergeOutcome::Duplicate);
    assert_eq!(twice, once);
}

#[test]
fn merging_two_notes_in_either_order_gives_one_log() {
    let a = signed(1, "general", "hello", t0());
    let b = signed(2, "general", "world", t1());
    let mut ab = Topic::new();
    ab.add_note(a.clone());
    ab.add_note(b.clone());
    let mut ba = Topic::new();
    ba.add_note(b.clone());
    ba.add_note(a.clone());
    assert_eq!(ab, ba);
    assert_eq!(ab.notes(), vec![&a, &b]);
    assert_eq!(ba.notes(), vec![&a, &b]);
}

#[test]
fn of_two_notes_of_one_moment_the_smaller_signature_is_kept() {
    let (first, second) = rivals();

    let mut log = Topic::new();
    assert_eq!(log.add_note(second.clone()), MergeOutcome::Accepted);
    assert_eq!(log.add_note(first.clone()), MergeOutcome::Accepted);
    assert_eq!(log.notes(), vec![&first]);

    let mut other = Topic::new();
    assert_eq!(other.add_note(first.clone()), MergeOutcome::Accepted);
    assert_eq!(other.add_note(second.clone()), MergeOutcome::Outranked);
    assert_eq!(other.notes(), vec![&first]);

    assert_eq!(log, other);
    assert!(first.ranks_before(&second));
    assert!(!second.ranks_before(&first));
    assert!(!first.ranks_before(&first));

    // Merging the loser again changes nothing, whichever came first.
    assert_eq!(log.add_note(second.clone()), MergeOutcome::Outranked);
    assert_eq!(log.add_note(first), MergeOutcome::Duplicate);
    assert_eq!(log, other);
}

#[test]
fn three_notes_of_one_moment_meet_in_the_same_log_in_every_order() {
    let notes = [
        signed(1, "general", "one", t0()),
        signed(2, "general", "two", t0()),
        signed(3, "general", "three", t0()),
    ];
    let orders = [[0, 1, 2], [0, 2, 1], [1, 0, 2], [1, 2, 0], [2, 0, 1], [2, 1, 0]];
    let least = notes.iter().min_by(|a, b| a.signature.cmp(&b.signature)).expect("a note");
    for order in orders {
        let mut log = Topic::new();
        for at in order {
            log.add_note(notes[at].clone());
        }
        assert_eq!(log.notes(), vec![least]);
    }
}

#[test]
fn a_note_with_a_bad_signature_is_never_put_in() {
    let good = signed(1, "general", "hello", t0());
    let mut log = Topic::new();
    assert_eq!(log.add_note(forged(1, "general", "hello", t0())), MergeOutcome::VerificationFailed);
    assert!(log.is_empty());

    log.add_note(good.clone());
    let before = log.clone();
    // At a new moment, at the moment of the note that is there, and the note
    // that is there with a changed message.
    assert_eq!(log.add_note(forged(2, "general", "new", t1())), MergeOutcome::VerificationFailed);
    assert_eq!(log.add_note(forged(2, "general", "rival", t0())), MergeOutcome::VerificationFailed);
    let mut changed = good.clone();
    changed.inner.msg.push_str("TAMPERED");
    assert_eq!(log.add_note(changed), MergeOutcome::VerificationFailed);
    assert_eq!(log, before);
    assert_eq!(log.notes(), vec![&good]);
}

#[test]
fn notes_are_listed_in_the_order_of_time() {
    let moments = [
        Timestamp::new(2025, 1, 0, 0, 0, 0).expect("a moment"),
        Timestamp::new(-44, 75, 12, 0, 0, 0).expect("a moment"),
        Timestamp::new(2024, 366, 23, 59, 59, 999_999_999).expect("a moment"),
        Timestamp::new(2024, 61, 12, 30, 15, 1).expect("a moment"),
        Timestamp::new(2024, 61, 12, 30, 15, 0).expect("a moment"),
        Timestamp::new(2024, 61, 12, 29, 59, 5).expect("a moment"),
        Timestamp::new(2024, 60, 23, 0, 0, 0).expect("a moment"),
    ];
    let mut log = Topic::new();
    for (seed, moment) in moments.iter().enumerate() {
        let note = signed(seed as u64, "general", "hello", *moment);
        assert_eq!(log.add_note(note), MergeOutcome::Accepted);
    }
    let listed: Vec<Timestamp> = log.notes().iter().map(|note| note.inner.created_at).collect();
    let mut sorted = moments.to_vec();
    sorted.sort();
    assert_eq!(listed, sorted);
    assert_eq!(log.len(), moments.len());
    for pair in listed.windows(2) {
        assert!(pair[0].is_before(&pair[1]));
    }
}

#[test]
fn a_new_model_has_no_topic() {
    let model = Model::new();
    assert!(model.is_empty());
    assert_eq!(model.len(), 0);
    assert!(model.topics().is_empty());
    assert!(model.topic("general").is_none());
    assert_eq!(model, Model::default());
}

#[test]
fn a_model_makes_the_log_of_a_topic_on_first_sight() {
    let mut model = Model::new();
    let note = signed(1, "general", "hello", t0());
    assert_eq!(model.merge("general", note.clone()), MergeOutcome::Accepted);
    assert!(!model.is_empty());
    assert_eq!(model.len(), 1);
    assert_eq!(model.topic("general").expect("a log").notes(), vec![&note]);
    assert!(model.topic("General").is_none());
    assert!(model.topic("genera").is_none());
    assert!(model.topic("").is_none());

    assert_eq!(model.merge("General", note.clone()), MergeOutcome::Accepted);
    assert_eq!(model.len(), 2);
    assert_eq!(model.merge("general", note), MergeOutcome::Duplicate);
    assert_eq!(model.len(), 2);
}

#[test]
fn model_merge_is_idempotent_and_commutative() {
    let a = signed(1, "general", "hello", t0());
    let b = signed(2, "random", "world", t0());
    let c = signed(3, "general", "later", t1());
    let (first, second) = rivals();
    let notes = [a, b, c, first, second];

    let mut forward = Model::new();
    for note in notes.iter() {
        forward.merge(&note.inner.topic, note.clone());
    }
    let mut backward = Model::new();
    for note in notes.iter().rev() {
        backward.merge(&note.inner.topic, note.clone());
    }
    assert_eq!(forward, backward);

    let mut again = forward.clone();
    for note in notes.iter() {
        let outcome = again.merge(&note.inner.topic, note.clone());
        assert!(matches!(outcome, MergeOutcome::Duplicate | MergeOutcome::Outranked));
    }
    assert_eq!(again, forward);
    assert_eq!(forward.len(), 2);
    assert_eq!(forward.topic("general").expect("a log").len(), 2);
    assert_eq!(forward.topic("random").expect("a log").len(), 1);
}

#[test]
fn topics_are_kept_in_the_order_of_their_names() {
    let mut model = Model::new();
    for (seed, topic) in ["herp", "Derp", "flerp", "", "derp", "Herp", "é"].iter().enumerate() {
        model.merge(topic, signed(seed as u64, topic, "hello", t0()));
    }
    let names: Vec<&str> = model.topics().iter().map(|entry| entry.name.as_str()).collect();
    assert_eq!(names, vec!["", "Derp", "Herp", "derp", "flerp", "herp", "é"]);
    for entry in model.topics() {
        assert_eq!(model.topic(&entry.name), Some(&entry.log));
        assert_eq!(entry.log.len(), 1);
    }
}

#[test]
fn a_model_never_takes_a_note_with_a_bad_signature() {
    let mut model = Model::new();
    let outcome = model.merge("general", forged(1, "general", "hello", t0()));
    assert_eq!(outcome, MergeOutcome::VerificationFailed);
    // The topic was seen, so it has a log; the log has nothing in it.
    assert_eq!(model.len(), 1);
    assert!(model.topic("general").expect("a log").is_empty());

    let good = signed(1, "general", "hello", t0());
    assert_eq!(model.merge("general", good.clone()), MergeOutcome::Accepted);
    let before = model.clone();
    assert_eq!(
        model.merge("general", forged(2, "general", "rival", t0())),
        MergeOutcome::VerificationFailed
    );
    assert_eq!(model, before);
    assert_eq!(model.topic("general").expect("a log").notes(), vec![&good]);
}

#[test]
fn a_note_travels_from_one_peer_to_the_model_of_another() {
    let note = Note { topic: "general".to_string(), msg: "hello".to_string(), created_at: t0() };
    let signed = note.sign(&keypair(1)).expect("failed to sign note");
    let encoded = signed.encode_to_vec();

    // On the second peer.
    let decoded = Signed::<Note>::decode(&encoded).expect("failed to decode");
    assert!(decoded.verify());
    let mut model = Model::new();
    let topic = decoded.inner.topic.clone();
    assert_eq!(model.merge(&topic, decoded), MergeOutcome::Accepted);

    assert_eq!(model.len(), 1);
    let log = model.topic("general").expect("a log");
    assert_eq!(log.len(), 1);
    assert_eq!(messages(log), vec!["hello".to_string()]);
    assert_eq!(log.notes()[0].inner.msg, "hello");
}

#[test]
fn notes_of_two_peers_are_listed_by_their_moments() {
    let earlier = signed(1, "general", "from the first peer", t0());
    let later = signed(2, "general", "from the second peer", t1());
    assert!(t0().is_before(&t1()));

    let mut model = Model::new();
    model.merge("general", later.clone());
    model.merge("general", earlier.clone());
    assert_eq!(model.topic("general").expect("a log").notes(), vec![&earlier, &later]);

    let mut other = Model::new();
    other.merge("general", earlier.clone());
    other.merge("general", later.clone());
    assert_eq!(other.topic("general").expect("a log").notes(), vec![&earlier, &later]);
    assert_eq!(model, other);
}

#[test]
fn a_note_that_is_delivered_twice_is_kept_once() {
    let signed = signed(1, "general", "hello", t0());
    let encoded = signed.encode_to_vec();
    let mut model = Model::new();
    for _ in 0..2 {
        let decoded = Signed::<Note>::decode(&encoded).expect("failed to decode");
        model.merge("general", decoded);
    }
    assert_eq!(model.topic("general").expect("a log").len(), 1);
    assert_eq!(model.len(), 1);
}
