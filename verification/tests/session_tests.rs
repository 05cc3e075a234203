use drill::card::Card;
use drill::card::CardContent;
use drill::parse::ParseError;
use drill::session::ActionError;
use drill::session::Grade;
use drill::session::Placement;
use drill::session::ReviewSession;
use drill::stats::completion_stats;
use drill::stats::percent_done;

fn basic_card(question: &[u8], answer: &[u8]) -> Card {
    Card::new(
        b"deck".to_vec(),
        b"/coll/deck.md".to_vec(),
        (0, 1),
        CardContent::new_basic(question.to_vec(), answer.to_vec()),
    )
}

fn deck(n: usize) -> Vec<Card> {
    let mut cards: Vec<Card> = Vec::new();
    for i in 0..n {
        cards.push(basic_card(format!("question {}", i).as_bytes(), b"answer"));
    }
    cards
}

#[test]
fn empty_deck_counts_as_fully_done() {
    let session = ReviewSession::new(Vec::new(), 1000);
    assert_eq!(percent_done(&session), 100);
}

#[test]
fn percent_done_uses_floor_division() {
    let mut session = ReviewSession::new(deck(10), 1000);
    assert_eq!(percent_done(&session), 0);
    for _ in 0..3 {
        session.reveal_answer().unwrap();
        session.grade(Grade::Good, Placement::Retired, 1010).unwrap();
    }
    // 3 of 10 done, 7 remain: floor(3 * 100 / 10) = 30.
    assert_eq!(session.cards_len(), 7);
    assert_eq!(session.total_cards(), 10);
    assert_eq!(percent_done(&session), 30);
}

#[test]
fn reveal_then_grade_protocol() {
    let mut session = ReviewSession::new(deck(2), 1000);
    // Grading before revealing is invalid and mutates nothing.
    assert_eq!(
        session.grade(Grade::Good, Placement::Retired, 1001),
        Err(ActionError::Invalid)
    );
    assert_eq!(session.cards_len(), 2);
    assert!(!session.is_revealed());
    // Reveal, then grade.
    assert_eq!(session.reveal_answer(), Ok(()));
    assert!(session.is_revealed());
    // A second reveal is invalid.
    assert_eq!(session.reveal_answer(), Err(ActionError::Invalid));
    assert_eq!(session.grade(Grade::Good, Placement::Retired, 1002), Ok(()));
    assert!(!session.is_revealed());
    assert_eq!(session.cards_len(), 1);
    assert_eq!(session.reviews_len(), 1);
}

#[test]
fn grade_requeues_at_clamped_position() {
    let mut session = ReviewSession::new(deck(2), 1000);
    let front_hash = session.current_card().unwrap().hash();
    session.reveal_answer().unwrap();
    // Requeue far beyond the queue length: clamped to the back.
    session.grade(Grade::Forgot, Placement::RequeueAt(99), 1001).unwrap();
    assert_eq!(session.cards_len(), 2);
    assert_ne!(session.current_card().unwrap().hash(), front_hash);
    // The forgotten card comes back once the other is retired.
    session.reveal_answer().unwrap();
    session.grade(Grade::Good, Placement::Retired, 1002).unwrap();
    assert_eq!(session.current_card().unwrap().hash(), front_hash);
}

#[test]
fn undo_restores_the_pre_grade_state() {
    let mut session = ReviewSession::new(deck(3), 1000);
    // Undo with an empty log is invalid.
    assert_eq!(session.undo(), Err(ActionError::Invalid));
    let front_hash = session.current_card().unwrap().hash();
    session.reveal_answer().unwrap();
    session.grade(Grade::Forgot, Placement::RequeueAt(1), 1001).unwrap();
    assert_eq!(session.cards_len(), 3);
    assert_eq!(session.reviews_len(), 1);
    // Undo: queue, log and reveal flag as before the reveal/grade pair.
    assert_eq!(session.undo(), Ok(()));
    assert_eq!(session.cards_len(), 3);
    assert_eq!(session.reviews_len(), 0);
    assert!(!session.is_revealed());
    assert_eq!(session.current_card().unwrap().hash(), front_hash);
    assert!(!session.is_finished());
}

#[test]
fn edit_changes_hash_but_not_queue_shape() {
    let mut session = ReviewSession::new(deck(2), 1000);
    let old_hash = session.current_card().unwrap().hash();
    assert_eq!(session.edit(&b"Q: Edited question\nA: Edited answer".to_vec()), Ok(()));
    assert_eq!(session.cards_len(), 2);
    assert_eq!(session.reviews_len(), 0);
    assert!(!session.is_revealed());
    let new_card = session.current_card().unwrap();
    assert_ne!(new_card.hash(), old_hash);
    assert_eq!(new_card.deck_name(), &b"deck".to_vec());
    assert_eq!(new_card.range(), (0, 1));
    // The edit was not logged, so there is nothing to undo.
    assert_eq!(session.undo(), Err(ActionError::Invalid));
}

#[test]
fn edit_rejects_bad_source_and_keeps_state() {
    let mut session = ReviewSession::new(deck(1), 1000);
    let old_hash = session.current_card().unwrap().hash();
    assert_eq!(
        session.edit(&b"not a card".to_vec()),
        Err(ActionError::Parse(ParseError::UnknownPrefix))
    );
    assert_eq!(
        session.edit(&b"Q: question without answer".to_vec()),
        Err(ActionError::Parse(ParseError::MissingAnswerMarker))
    );
    assert_eq!(session.cards_len(), 1);
    assert_eq!(session.current_card().unwrap().hash(), old_hash);
}

#[test]
fn grading_the_last_card_finishes_the_session() {
    let mut session = ReviewSession::new(deck(1), 1000);
    session.reveal_answer().unwrap();
    session.grade(Grade::Easy, Placement::Retired, 1042).unwrap();
    assert!(session.is_finished());
    assert_eq!(session.finished_at(), Some(1042));
    assert_eq!(session.cards_len(), 0);
    assert_eq!(percent_done(&session), 100);
}

#[test]
fn end_finishes_early_and_drops_remaining_cards_from_review() {
    let mut session = ReviewSession::new(deck(5), 1000);
    session.reveal_answer().unwrap();
    session.grade(Grade::Good, Placement::Retired, 1010).unwrap();
    assert_eq!(session.end(1020), Ok(()));
    assert!(session.is_finished());
    assert_eq!(session.finished_at(), Some(1020));
    // Remaining cards are simply left in the queue.
    assert_eq!(session.cards_len(), 4);
}

#[test]
fn no_action_mutates_a_finished_session() {
    let mut session = ReviewSession::new(deck(2), 1000);
    session.end(1005).unwrap();
    assert_eq!(session.reveal_answer(), Err(ActionError::Invalid));
    assert_eq!(
        session.grade(Grade::Good, Placement::Retired, 1006),
        Err(ActionError::Invalid)
    );
    assert_eq!(session.undo(), Err(ActionError::Invalid));
    assert_eq!(session.edit(&b"Q: q\nA: a".to_vec()), Err(ActionError::Invalid));
    assert_eq!(session.end(1007), Err(ActionError::Invalid));
    assert_eq!(session.finished_at(), Some(1005));
    assert_eq!(session.cards_len(), 2);
    assert_eq!(session.reviews_len(), 0);
}

#[test]
fn completion_stats_report_duration_and_pace() {
    let mut session = ReviewSession::new(deck(3), 100);
    assert!(completion_stats(&session).is_none());
    for _ in 0..2 {
        session.reveal_answer().unwrap();
        session.grade(Grade::Good, Placement::Retired, 105).unwrap();
    }
    session.end(107).unwrap();
    let stats = completion_stats(&session).unwrap();
    assert_eq!(stats.total_cards, 3);
    assert_eq!(stats.cards_reviewed, 2);
    assert_eq!(stats.started_at, 100);
    assert_eq!(stats.finished_at, 107);
    assert_eq!(stats.duration_seconds, 7);
    // 7 seconds over 2 cards: 3.50 s/card.
    assert_eq!(stats.pace_whole, 3);
    assert_eq!(stats.pace_centis, 50);
}

#[test]
fn completion_stats_pace_rounds_to_the_nearest_hundredth() {
    // 5 seconds over 3 cards: 1.666... rounds to 1.67, not 1.66.
    let mut session = ReviewSession::new(deck(3), 100);
    for _ in 0..3 {
        session.reveal_answer().unwrap();
        session.grade(Grade::Good, Placement::Retired, 105).unwrap();
    }
    let stats = completion_stats(&session).unwrap();
    assert_eq!(stats.duration_seconds, 5);
    assert_eq!(stats.cards_reviewed, 3);
    assert_eq!(stats.pace_whole, 1);
    assert_eq!(stats.pace_centis, 67);
}

#[test]
fn completion_stats_pace_is_zero_without_reviews() {
    let mut session = ReviewSession::new(deck(2), 100);
    session.end(130).unwrap();
    let stats = completion_stats(&session).unwrap();
    assert_eq!(stats.cards_reviewed, 0);
    assert_eq!(stats.duration_seconds, 30);
    assert_eq!(stats.pace_whole, 0);
    assert_eq!(stats.pace_centis, 0);
}
