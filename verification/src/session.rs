//! The review-session state machine.
//!
//! A session owns the queue of remaining cards (front = the card on
//! display), the reveal flag, the undo log, and the completion marker. One
//! action at a time is applied to it: Reveal, Grade, Undo, Edit or End. An
//! action that is invalid in the current state is rejected without any
//! mutation. Grading pops the front card, logs an event carrying a full
//! snapshot of the queue (enough to undo), and applies the external
//! scheduler's placement decision, which the caller passes in; when the
//! queue empties the session finishes on the spot. Once finished, no action
//! mutates the session again.
//!
//! Every transition is written twice: as a spec function over the session
//! model, and as an executable method proved to implement it.

use vstd::prelude::*;

use crate::card::card_wf;
use crate::card::content_hash;
use crate::card::hash_input;
use crate::card::lemma_hash_input_distinguishes;
use crate::card::Card;
use crate::card::CardModel;
use crate::parse::lemma_parse_spec_wf;
use crate::parse::parse;
use crate::parse::parse_spec;
use crate::parse::ParseError;
use crate::text::copy_bytes;

verus! {

/// The user's self-assessed recall signal for a revealed card.
#[derive(Clone, Copy, Debug, PartialEq, Eq, Structural)]
pub enum Grade {
    Forgot,
    Hard,
    Good,
    Easy,
}

/// The external scheduler's decision on a graded card: drop it from the
/// session, or put it back at (or clamped to) the given queue position.
#[derive(Clone, Copy, Debug, PartialEq, Eq, Structural)]
pub enum Placement {
    Retired,
    RequeueAt(usize),
}

/// Why an action was rejected.
#[derive(Clone, Copy, Debug, PartialEq, Eq, Structural)]
pub enum ActionError {
    /// The action is not valid in the current state.
    Invalid,
    /// An edit whose new source text does not parse; the state is unchanged.
    Parse(ParseError),
}

/// The mathematical value of one logged grading event.
#[verifier::ext_equal]
pub struct EventModel {
    pub card: CardModel,
    pub grade: Grade,
    pub snapshot: Seq<CardModel>,
    pub placement: Placement,
}

/// One logged grading event: the graded card, the grade, the queue as it
/// stood just before the grade (the undo snapshot), and the scheduler's
/// placement decision.
pub struct ReviewEvent {
    card: Card,
    grade: Grade,
    snapshot: Vec<Card>,
    placement: Placement,
}

impl View for ReviewEvent {
    type V = EventModel;

    closed spec fn view(&self) -> EventModel {
        EventModel {
            card: self.card@,
            grade: self.grade,
            snapshot: views_of(self.snapshot@),
            placement: self.placement,
        }
    }
}

/// The card models of a card sequence.
pub open spec fn views_of(cards: Seq<Card>) -> Seq<CardModel> {
    cards.map_values(|c: Card| c@)
}

/// The mathematical value of a session.
#[verifier::ext_equal]
pub struct SessionModel {
    pub cards: Seq<CardModel>,
    pub reveal: bool,
    pub reviews: Seq<EventModel>,
    pub finished_at: Option<u64>,
    pub started_at: u64,
    pub total: int,
}

/// How many of the logged events retired their card.
pub open spec fn retired_count(reviews: Seq<EventModel>) -> int
    decreases reviews.len(),
{
    if reviews.len() == 0 {
        0
    } else {
        retired_count(reviews.drop_last()) + (if reviews.last().placement is Retired {
            1int
        } else {
            0int
        })
    }
}

pub proof fn lemma_retired_count_nonneg(reviews: Seq<EventModel>)
    ensures
        retired_count(reviews) >= 0,
    decreases reviews.len(),
{
    if reviews.len() > 0 {
        lemma_retired_count_nonneg(reviews.drop_last());
    }
}

/// Whether the session has ended.
pub open spec fn is_finished(s: SessionModel) -> bool {
    s.finished_at is Some
}

/// Session well-formedness: no card is lost or duplicated (queue length
/// plus retired events always equals the original total, both now and at
/// every logged snapshot), a revealed card exists, every card in reach is
/// well-formed, and the completion time never precedes the start.
pub open spec fn session_wf(s: SessionModel) -> bool {
    &&& s.total == s.cards.len() + retired_count(s.reviews)
    &&& forall|i: int|
        0 <= i < s.reviews.len() ==> (#[trigger] s.reviews[i]).snapshot.len() >= 1 && s.reviews[i].snapshot.len()
            + retired_count(s.reviews.take(i)) == s.total
    &&& (s.reveal ==> s.cards.len() >= 1)
    &&& forall|i: int| 0 <= i < s.cards.len() ==> card_wf(#[trigger] s.cards[i])
    &&& forall|i: int|
        0 <= i < s.reviews.len() ==> card_wf((#[trigger] s.reviews[i]).card) && (forall|j: int|
            0 <= j < s.reviews[i].snapshot.len() ==> card_wf(#[trigger] s.reviews[i].snapshot[j]))
    &&& match s.finished_at {
        Some(t) => t >= s.started_at,
        None => true,
    }
}

/// One inbound action, at the model level.
pub enum SessionAction {
    Reveal,
    Grade(Grade, Placement, u64),
    Undo,
    Edit(Seq<u8>),
    End(u64),
}

/// Reveal is valid while reviewing, with a card on display and its answer
/// still hidden.
pub open spec fn reveal_valid(s: SessionModel) -> bool {
    !is_finished(s) && !s.reveal && s.cards.len() > 0
}

/// Revealing only raises the reveal flag.
pub open spec fn reveal_step(s: SessionModel) -> SessionModel {
    SessionModel { reveal: true, ..s }
}

/// Grading is valid while reviewing, once the answer is revealed.
pub open spec fn grade_valid(s: SessionModel) -> bool {
    !is_finished(s) && s.reveal && s.cards.len() > 0
}

/// The queue after the scheduler's decision on the popped front card:
/// dropped, or reinserted at the chosen position (clamped to the queue).
pub open spec fn place_queue(rest: Seq<CardModel>, c: CardModel, p: Placement) -> Seq<CardModel> {
    match p {
        Placement::Retired => rest,
        Placement::RequeueAt(k) => rest.insert(
            if k as int <= rest.len() {
                k as int
            } else {
                rest.len() as int
            },
            c,
        ),
    }
}

/// Grading pops the front card, logs the event with the pre-grade queue as
/// its snapshot, applies the placement, and lowers the reveal flag; if the
/// queue empties, the session finishes at `now`.
pub open spec fn grade_step(s: SessionModel, g: Grade, p: Placement, now: u64) -> SessionModel {
    let c = s.cards[0];
    let rest = s.cards.skip(1);
    let entry = EventModel { card: c, grade: g, snapshot: s.cards, placement: p };
    let new_cards = place_queue(rest, c, p);
    SessionModel {
        cards: new_cards,
        reveal: false,
        reviews: s.reviews.push(entry),
        finished_at: if new_cards.len() == 0 {
            Some(now)
        } else {
            s.finished_at
        },
        ..s
    }
}

/// Undo is valid while reviewing, with at least one logged event.
pub open spec fn undo_valid(s: SessionModel) -> bool {
    !is_finished(s) && s.reviews.len() > 0
}

/// Undoing pops the last event and restores the queue from its snapshot;
/// the reveal flag is lowered.
pub open spec fn undo_step(s: SessionModel) -> SessionModel {
    SessionModel {
        cards: s.reviews.last().snapshot,
        reveal: false,
        reviews: s.reviews.drop_last(),
        ..s
    }
}

/// Edit is valid while reviewing, with a card on display and a new source
/// text that parses.
pub open spec fn edit_valid(s: SessionModel, src: Seq<u8>) -> bool {
    !is_finished(s) && s.cards.len() > 0 && parse_spec(src) is Ok
}

/// Editing replaces the front card in place — same queue position, same
/// provenance — with a freshly parsed content and a freshly computed hash;
/// the log is untouched, so the replacement cannot be undone.
pub open spec fn edit_step(s: SessionModel, src: Seq<u8>) -> SessionModel {
    let c0 = s.cards[0];
    let content = parse_spec(src)->Ok_0;
    let card = CardModel {
        deck_name: c0.deck_name,
        file_path: c0.file_path,
        range: c0.range,
        content,
        hash: content_hash(content),
    };
    SessionModel { cards: s.cards.update(0, card), reveal: false, ..s }
}

/// End is valid while reviewing, whatever the queue holds.
pub open spec fn end_valid(s: SessionModel) -> bool {
    !is_finished(s)
}

/// Ending sets the completion marker; remaining cards stay in the queue but
/// the session is over.
pub open spec fn end_step(s: SessionModel, now: u64) -> SessionModel {
    SessionModel { finished_at: Some(now), ..s }
}

/// The state after an action: the step when the action is valid, the state
/// itself — no mutation — when it is not.
pub open spec fn apply_action(s: SessionModel, a: SessionAction) -> SessionModel {
    match a {
        SessionAction::Reveal => if reveal_valid(s) {
            reveal_step(s)
        } else {
            s
        },
        SessionAction::Grade(g, p, now) => if grade_valid(s) {
            grade_step(s, g, p, now)
        } else {
            s
        },
        SessionAction::Undo => if undo_valid(s) {
            undo_step(s)
        } else {
            s
        },
        SessionAction::Edit(src) => if edit_valid(s, src) {
            edit_step(s, src)
        } else {
            s
        },
        SessionAction::End(now) => if end_valid(s) {
            end_step(s, now)
        } else {
            s
        },
    }
}

/// Copy a card queue; the copy has the same card models.
fn clone_cards(cards: &Vec<Card>) -> (r: Vec<Card>)
    ensures
        views_of(r@) == views_of(cards@),
{
    let mut out: Vec<Card> = Vec::new();
    let mut i: usize = 0;
    while i < cards.len()
        invariant
            0 <= i <= cards@.len(),
            out@.len() == i,
            forall|k: int| 0 <= k < i ==> (#[trigger] out@[k])@ == cards@[k]@,
        decreases cards@.len() - i,
    {
        out.push(cards[i].clone());
        i = i + 1;
    }
    proof {
        assert(views_of(out@) =~= views_of(cards@));
    }
    out
}

/// The in-memory state for one review run.
pub struct ReviewSession {
    /// The queue of remaining cards; the front is on display.
    cards: Vec<Card>,
    /// Whether the current card's answer is shown.
    reveal: bool,
    /// The log of applied grading events, oldest first.
    reviews: Vec<ReviewEvent>,
    /// Set once, when the session ends.
    finished_at: Option<u64>,
    /// Fixed at session creation.
    session_started_at: u64,
    /// The original queue length, fixed at session creation.
    total_cards: usize,
}

impl View for ReviewSession {
    type V = SessionModel;

    closed spec fn view(&self) -> SessionModel {
        SessionModel {
            cards: views_of(self.cards@),
            reveal: self.reveal,
            reviews: self.reviews@.map_values(|e: ReviewEvent| e@),
            finished_at: self.finished_at,
            started_at: self.session_started_at,
            total: self.total_cards as int,
        }
    }
}

impl ReviewSession {
    /// Start a session over `cards` at time `started_at`.
    pub fn new(cards: Vec<Card>, started_at: u64) -> (r: Self)
        requires
            forall|i: int| 0 <= i < cards@.len() ==> card_wf((#[trigger] cards@[i])@),
        ensures
            r@ == (SessionModel {
                cards: views_of(cards@),
                reveal: false,
                reviews: Seq::<EventModel>::empty(),
                finished_at: None,
                started_at,
                total: cards@.len() as int,
            }),
            session_wf(r@),
    {
        let total = cards.len();
        let r = ReviewSession {
            cards,
            reveal: false,
            reviews: Vec::new(),
            finished_at: None,
            session_started_at: started_at,
            total_cards: total,
        };
        proof {
            assert(r.reviews@.map_values(|e: ReviewEvent| e@) =~= Seq::<EventModel>::empty());
            assert(r@ =~= (SessionModel {
                cards: views_of(r.cards@),
                reveal: false,
                reviews: Seq::<EventModel>::empty(),
                finished_at: None,
                started_at,
                total: r.cards@.len() as int,
            }));
        }
        r
    }

    /// Reveal the current card's answer. Valid only while reviewing, with a
    /// card on display and the answer still hidden.
    pub fn reveal_answer(&mut self) -> (r: Result<(), ActionError>)
        requires
            session_wf(old(self)@),
        ensures
            session_wf(final(self)@),
            final(self)@ == apply_action(old(self)@, SessionAction::Reveal),
            r == (if reveal_valid(old(self)@) {
                Ok::<(), ActionError>(())
            } else {
                Err::<(), ActionError>(ActionError::Invalid)
            }),
    {
        if self.finished_at.is_some() {
            return Err(ActionError::Invalid);
        }
        if self.reveal {
            return Err(ActionError::Invalid);
        }
        if self.cards.len() == 0 {
            return Err(ActionError::Invalid);
        }
        self.reveal = true;
        proof {
            assert(final(self)@ =~= reveal_step(old(self)@));
        }
        Ok(())
    }

    /// End the session now, whatever the queue holds; remaining cards are
    /// simply dropped from review. Valid only while reviewing.
    pub fn end(&mut self, now: u64) -> (r: Result<(), ActionError>)
        requires
            session_wf(old(self)@),
            now >= old(self)@.started_at,
        ensures
            session_wf(final(self)@),
            final(self)@ == apply_action(old(self)@, SessionAction::End(now)),
            r == (if end_valid(old(self)@) {
                Ok::<(), ActionError>(())
            } else {
                Err::<(), ActionError>(ActionError::Invalid)
            }),
    {
        if self.finished_at.is_some() {
            return Err(ActionError::Invalid);
        }
        self.finished_at = Some(now);
        proof {
            assert(final(self)@ =~= end_step(old(self)@, now));
        }
        Ok(())
    }

    /// Grade the revealed card. The front card is popped and logged with a
    /// full snapshot of the pre-grade queue; `placement` — the external
    /// scheduler's decision on `(card hash, grade)` — retires the card or
    /// puts it back at the given position. If the queue empties, the
    /// session finishes at `now`. Valid only once the answer is revealed.
    #[verifier::rlimit(40)]
    pub fn grade(&mut self, g: Grade, placement: Placement, now: u64) -> (r: Result<
        (),
        ActionError,
    >)
        requires
            session_wf(old(self)@),
            now >= old(self)@.started_at,
        ensures
            session_wf(final(self)@),
            final(self)@ == apply_action(old(self)@, SessionAction::Grade(g, placement, now)),
            r == (if grade_valid(old(self)@) {
                Ok::<(), ActionError>(())
            } else {
                Err::<(), ActionError>(ActionError::Invalid)
            }),
    {
        if self.finished_at.is_some() {
            return Err(ActionError::Invalid);
        }
        if !self.reveal {
            return Err(ActionError::Invalid);
        }
        proof {
            assert(old(self)@.cards.len() >= 1);
        }
        let ghost s0 = old(self)@;
        let snapshot = clone_cards(&self.cards);
        let card = self.cards.remove(0);
        let event_card = card.clone();
        proof {
            assert(card@ == s0.cards[0]);
            assert(views_of(self.cards@) =~= s0.cards.skip(1));
        }
        match placement {
            Placement::Retired => {},
            Placement::RequeueAt(k) => {
                let pos: usize = if k <= self.cards.len() {
                    k
                } else {
                    self.cards.len()
                };
                let ghost rest = views_of(self.cards@);
                self.cards.insert(pos, card);
                proof {
                    assert(views_of(self.cards@) =~= rest.insert(pos as int, s0.cards[0]));
                }
            },
        }
        let event = ReviewEvent { card: event_card, grade: g, snapshot, placement };
        proof {
            assert(event@ =~= (EventModel {
                card: s0.cards[0],
                grade: g,
                snapshot: s0.cards,
                placement,
            }));
        }
        let ghost reviews0 = self.reviews@.map_values(|e: ReviewEvent| e@);
        self.reviews.push(event);
        self.reveal = false;
        if self.cards.len() == 0 {
            self.finished_at = Some(now);
        }
        proof {
            let s1 = grade_step(s0, g, placement, now);
            assert(self.reviews@.map_values(|e: ReviewEvent| e@) =~= reviews0.push(event@));
            assert(self@.cards =~= s1.cards);
            assert(self@ =~= s1);
            // Well-formedness of the new state.
            let entry = event@;
            let pushed = s0.reviews.push(entry);
            assert(pushed.drop_last() =~= s0.reviews);
            assert(pushed.last() == entry);
            assert(retired_count(pushed) == retired_count(s0.reviews) + (
            if placement is Retired {
                1int
            } else {
                0int
            }));
            assert(s1.cards.len() + retired_count(s1.reviews) == s1.total);
            assert forall|i: int|
                0 <= i < s1.reviews.len() implies (#[trigger] s1.reviews[i]).snapshot.len() >= 1
                && s1.reviews[i].snapshot.len() + retired_count(s1.reviews.take(i))
                == s1.total by {
                if i < s0.reviews.len() {
                    assert(pushed.take(i) =~= s0.reviews.take(i));
                    assert(s0.reviews[i].snapshot.len() >= 1);
                } else {
                    assert(pushed.take(i) =~= s0.reviews);
                }
            }
            assert forall|i: int| 0 <= i < s1.cards.len() implies card_wf(
                #[trigger] s1.cards[i],
            ) by {
                match placement {
                    Placement::Retired => {
                        assert(s1.cards[i] == s0.cards[i + 1]);
                    },
                    Placement::RequeueAt(k) => {
                        let rest = s0.cards.skip(1);
                        let pos = if k as int <= rest.len() {
                            k as int
                        } else {
                            rest.len() as int
                        };
                        if i < pos {
                            assert(s1.cards[i] == s0.cards[i + 1]);
                        } else if i == pos {
                            assert(s1.cards[i] == s0.cards[0]);
                        } else {
                            assert(s1.cards[i] == s0.cards[i]);
                        }
                    },
                }
            }
            assert forall|i: int| 0 <= i < s1.reviews.len() implies card_wf(
                (#[trigger] s1.reviews[i]).card,
            ) && (forall|j: int|
                0 <= j < s1.reviews[i].snapshot.len() ==> card_wf(
                    #[trigger] s1.reviews[i].snapshot[j],
                )) by {
                if i < s0.reviews.len() {
                    assert(s1.reviews[i] == s0.reviews[i]);
                } else {
                    assert(s1.reviews[i] == entry);
                }
            }
            assert(session_wf(s1));
        }
        Ok(())
    }

    /// Undo the last grading action: the last logged event is popped and
    /// the queue restored from its snapshot, with the graded card back at
    /// the front; the reveal flag is lowered. Valid only while reviewing,
    /// with at least one logged event.
    #[verifier::rlimit(40)]
    pub fn undo(&mut self) -> (r: Result<(), ActionError>)
        requires
            session_wf(old(self)@),
        ensures
            session_wf(final(self)@),
            final(self)@ == apply_action(old(self)@, SessionAction::Undo),
            r == (if undo_valid(old(self)@) {
                Ok::<(), ActionError>(())
            } else {
                Err::<(), ActionError>(ActionError::Invalid)
            }),
    {
        if self.finished_at.is_some() {
            return Err(ActionError::Invalid);
        }
        if self.reviews.len() == 0 {
            return Err(ActionError::Invalid);
        }
        let ghost s0 = old(self)@;
        let event = self.reviews.pop().unwrap();
        proof {
            assert(event@ == s0.reviews.last());
            assert(self.reviews@.map_values(|e: ReviewEvent| e@) =~= s0.reviews.drop_last());
        }
        self.cards = event.snapshot;
        self.reveal = false;
        proof {
            let s1 = undo_step(s0);
            assert(self@ =~= s1);
            // Well-formedness of the restored state.
            let n = s0.reviews.len() as int;
            assert(s0.reviews.take(n - 1) =~= s0.reviews.drop_last());
            assert(s0.reviews[n - 1].snapshot.len() + retired_count(s0.reviews.take(n - 1))
                == s0.total);
            assert forall|i: int|
                0 <= i < s1.reviews.len() implies (#[trigger] s1.reviews[i]).snapshot.len() >= 1
                && s1.reviews[i].snapshot.len() + retired_count(s1.reviews.take(i))
                == s1.total by {
                assert(s1.reviews[i] == s0.reviews[i]);
                assert(s1.reviews.take(i) =~= s0.reviews.take(i));
                assert(s0.reviews[i].snapshot.len() >= 1);
            }
            assert forall|i: int| 0 <= i < s1.cards.len() implies card_wf(
                #[trigger] s1.cards[i],
            ) by {
                assert(s1.cards[i] == s0.reviews[n - 1].snapshot[i]);
            }
            assert forall|i: int| 0 <= i < s1.reviews.len() implies card_wf(
                (#[trigger] s1.reviews[i]).card,
            ) && (forall|j: int|
                0 <= j < s1.reviews[i].snapshot.len() ==> card_wf(
                    #[trigger] s1.reviews[i].snapshot[j],
                )) by {
                assert(s1.reviews[i] == s0.reviews[i]);
            }
            assert(session_wf(s1));
        }
        Ok(())
    }

    /// Replace the front card with one freshly parsed from `source`,
    /// keeping its queue position, deck, file and line range. The new card
    /// carries a new hash: its identity changes, and since nothing is
    /// logged, no undo brings the old card back. A text that does not parse
    /// is rejected with the state unchanged. Valid while reviewing, with a
    /// card on display.
    pub fn edit(&mut self, source: &Vec<u8>) -> (r: Result<(), ActionError>)
        requires
            session_wf(old(self)@),
        ensures
            session_wf(final(self)@),
            final(self)@ == apply_action(old(self)@, SessionAction::Edit(source@)),
            r == (if is_finished(old(self)@) || old(self)@.cards.len() == 0 {
                Err::<(), ActionError>(ActionError::Invalid)
            } else {
                match parse_spec(source@) {
                    Ok(_) => Ok::<(), ActionError>(()),
                    Err(e) => Err::<(), ActionError>(ActionError::Parse(e)),
                }
            }),
    {
        if self.finished_at.is_some() {
            return Err(ActionError::Invalid);
        }
        if self.cards.len() == 0 {
            return Err(ActionError::Invalid);
        }
        let ghost s0 = old(self)@;
        match parse(source) {
            Err(e) => Err(ActionError::Parse(e)),
            Ok(content) => {
                let deck = copy_bytes(self.cards[0].deck_name());
                let path = copy_bytes(self.cards[0].file_path());
                let range = self.cards[0].range();
                let card = Card::new(deck, path, range, content);
                let old_front = self.cards.remove(0);
                self.cards.insert(0, card);
                self.reveal = false;
                proof {
                    let s1 = edit_step(s0, source@);
                    assert(views_of(self.cards@) =~= s1.cards);
                    assert(self@ =~= s1);
                    assert forall|i: int| 0 <= i < s1.cards.len() implies card_wf(
                        #[trigger] s1.cards[i],
                    ) by {
                        if i > 0 {
                            assert(s1.cards[i] == s0.cards[i]);
                        }
                    }
                    assert(session_wf(s1));
                }
                Ok(())
            },
        }
    }

    /// The card on display, while any remains.
    pub fn current_card(&self) -> (r: Option<&Card>)
        ensures
            match r {
                Some(c) => self@.cards.len() > 0 && c@ == self@.cards[0],
                None => self@.cards.len() == 0,
            },
    {
        if self.cards.len() == 0 {
            None
        } else {
            Some(&self.cards[0])
        }
    }

    /// Whether the current card's answer is shown.
    pub fn is_revealed(&self) -> (r: bool)
        ensures
            r == self@.reveal,
    {
        self.reveal
    }

    /// Whether the session has ended.
    pub fn is_finished(&self) -> (r: bool)
        ensures
            r == is_finished(self@),
    {
        self.finished_at.is_some()
    }

    /// The completion time, once the session has ended.
    pub fn finished_at(&self) -> (r: Option<u64>)
        ensures
            r == self@.finished_at,
    {
        self.finished_at
    }

    /// The session's start time.
    pub fn started_at(&self) -> (r: u64)
        ensures
            r == self@.started_at,
    {
        self.session_started_at
    }

    /// The original queue length, fixed at creation.
    pub fn total_cards(&self) -> (r: usize)
        ensures
            r as int == self@.total,
    {
        self.total_cards
    }

    /// How many cards remain in the queue.
    pub fn cards_len(&self) -> (r: usize)
        ensures
            r as int == self@.cards.len(),
    {
        self.cards.len()
    }

    /// How many grading events stand in the log.
    pub fn reviews_len(&self) -> (r: usize)
        ensures
            r as int == self@.reviews.len(),
    {
        self.reviews.len()
    }
}

/// Undo reverses a grade: after Grade then Undo, the queue and the log are
/// exactly as they stood before the grade, and the reveal flag is lowered —
/// the value it had before the graded card's answer was revealed. A grade
/// that retires the last remaining card instead finishes the session, where
/// undo no longer applies, so that case is excluded here.
pub proof fn lemma_grade_then_undo(s: SessionModel, g: Grade, p: Placement, now: u64)
    requires
        session_wf(s),
        grade_valid(s),
        p is RequeueAt || s.cards.len() > 1,
    ensures
        ({
            let s1 = apply_action(s, SessionAction::Grade(g, p, now));
            let s2 = apply_action(s1, SessionAction::Undo);
            &&& s2.cards == s.cards
            &&& s2.reviews == s.reviews
            &&& s2.reveal == false
            &&& s2.finished_at == s.finished_at
            &&& s2.started_at == s.started_at
            &&& s2.total == s.total
        }),
{
    let s1 = apply_action(s, SessionAction::Grade(g, p, now));
    let entry = EventModel { card: s.cards[0], grade: g, snapshot: s.cards, placement: p };
    assert(s1.cards.len() > 0);
    assert(!is_finished(s1));
    assert(s1.reviews.last() == entry);
    assert(undo_valid(s1));
    let s2 = apply_action(s1, SessionAction::Undo);
    assert(s1.reviews.drop_last() =~= s.reviews);
}

/// Edit resets identity but not the queue shape: the front card is replaced
/// in place — the queue keeps its length and every other position — with
/// the freshly parsed content and its freshly computed hash, while the log
/// is untouched, so a later undo restores a pre-edit snapshot and never the
/// edited-away card.
pub proof fn lemma_edit_replaces_front(s: SessionModel, src: Seq<u8>)
    requires
        session_wf(s),
        edit_valid(s, src),
        src.len() <= usize::MAX,
    ensures
        ({
            let s1 = apply_action(s, SessionAction::Edit(src));
            let content = parse_spec(src)->Ok_0;
            &&& s1.cards.len() == s.cards.len()
            &&& forall|i: int| 1 <= i < s.cards.len() ==> s1.cards[i] == s.cards[i]
            &&& s1.cards[0].content == content
            &&& s1.cards[0].hash == content_hash(content)
            &&& s1.cards[0].deck_name == s.cards[0].deck_name
            &&& s1.cards[0].file_path == s.cards[0].file_path
            &&& s1.cards[0].range == s.cards[0].range
            &&& s1.reviews == s.reviews
            &&& s1.reveal == false
            &&& s1.finished_at == s.finished_at
        }),
        // When the new content differs from the old one, the digested
        // encodings differ, so the card's identity has changed.
        ({
            let content = parse_spec(src)->Ok_0;
            let previous = s.cards[0].content;
            content != previous ==> hash_input(content) != hash_input(previous)
        }),
{
    lemma_parse_spec_wf(src);
    let content = parse_spec(src)->Ok_0;
    let previous = s.cards[0].content;
    assert(card_wf(s.cards[0]));
    if content != previous {
        lemma_hash_input_distinguishes(content, previous);
    }
}

/// Terminal stability: once the completion marker is set, no action
/// mutates the session. (Shutdown only stops the process and touches no
/// state, so it has no step here.)
pub proof fn lemma_terminal_stability(s: SessionModel, a: SessionAction)
    requires
        is_finished(s),
    ensures
        apply_action(s, a) == s,
{
}

/// Queue exhaustion finishes the session: grading the last remaining card,
/// when the scheduler retires it, empties the queue and sets the
/// completion marker to the grading time.
pub proof fn lemma_last_grade_finishes(s: SessionModel, g: Grade, now: u64)
    requires
        session_wf(s),
        grade_valid(s),
        s.cards.len() == 1,
    ensures
        ({
            let s1 = apply_action(s, SessionAction::Grade(g, Placement::Retired, now));
            &&& s1.finished_at == Some(now)
            &&& s1.cards.len() == 0
        }),
{
}

} // verus!
