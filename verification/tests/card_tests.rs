use drill::card::CardContent;
use drill::card::CardType;
use drill::card::Card;
use drill::card::PathError;

#[test]
fn test_basic_card_hash() {
    let card1 = CardContent::new_basic(b"What is 2+2?".to_vec(), b"4".to_vec());
    let card2 = CardContent::new_basic(b"What is 2+2?".to_vec(), b"4".to_vec());
    let card3 = CardContent::new_basic(b"What is 3+3?".to_vec(), b"6".to_vec());
    assert_eq!(card1.hash(), card2.hash());
    assert_ne!(card1.hash(), card3.hash());
}

#[test]
fn test_cloze_card_hash() {
    let a = CardContent::new_cloze(b"The capital of France is Paris".to_vec(), 0, 1);
    let b = CardContent::new_cloze(b"The capital of France is Paris".to_vec(), 0, 2);
    // Different positions produce different card hashes
    assert_ne!(a.hash(), b.hash());
}

#[test]
fn test_family_hash() {
    let a = CardContent::new_cloze(b"The capital of France is Paris".to_vec(), 0, 1);
    let b = CardContent::new_cloze(b"The capital of France is Paris".to_vec(), 0, 2);
    assert_eq!(a.family_hash(), b.family_hash());
}

#[test]
fn test_basic_to_source_text() {
    let card = CardContent::new_basic(b"What is 2+2?".to_vec(), b"4".to_vec());
    assert_eq!(card.to_source_text(), b"Q: What is 2+2?\nA: 4".to_vec());
}

#[test]
fn test_cloze_to_source_text() {
    // "Foo bar baz." with deletion at "bar" (positions 4-6)
    let card = CardContent::new_cloze(b"Foo bar baz.".to_vec(), 4, 6);
    assert_eq!(card.to_source_text(), b"C: Foo [bar] baz.".to_vec());
}

#[test]
fn hash_is_stable_across_calls_and_runs() {
    let card = CardContent::new_basic(b"What is 2+2?".to_vec(), b"4".to_vec());
    // Repeated calls agree ...
    assert_eq!(card.hash(), card.hash());
    // ... and the value is a pure function of the content bytes, pinned
    // here so that any drift across runs or platforms would fail.
    assert_eq!(card.hash().value, 0x8964f4ed86e8a415);
    let cloze = CardContent::new_cloze(b"Foo bar baz.".to_vec(), 4, 6);
    assert_eq!(cloze.hash().value, 0xaa78332aa116d58a);
}

#[test]
fn hash_changes_with_any_field() {
    let base = CardContent::new_basic(b"q".to_vec(), b"a".to_vec());
    let other_question = CardContent::new_basic(b"q2".to_vec(), b"a".to_vec());
    let other_answer = CardContent::new_basic(b"q".to_vec(), b"a2".to_vec());
    assert_ne!(base.hash(), other_question.hash());
    assert_ne!(base.hash(), other_answer.hash());

    let cloze = CardContent::new_cloze(b"alpha beta".to_vec(), 0, 4);
    let other_text = CardContent::new_cloze(b"alpha betb".to_vec(), 0, 4);
    let other_span = CardContent::new_cloze(b"alpha beta".to_vec(), 6, 9);
    assert_ne!(cloze.hash(), other_text.hash());
    assert_ne!(cloze.hash(), other_span.hash());

    // The two variants never collide, even over similar bytes.
    let basic = CardContent::new_basic(b"x".to_vec(), b"".to_vec());
    let cloze2 = CardContent::new_cloze(b"x".to_vec(), 0, 0);
    assert_ne!(basic.hash(), cloze2.hash());
}

#[test]
fn hash_separates_fields_that_run_together() {
    // The question's length is part of the encoding, so contents whose
    // concatenated fields agree still hash apart.
    let a = CardContent::new_basic(b"ab".to_vec(), b"c".to_vec());
    let b = CardContent::new_basic(b"a".to_vec(), b"bc".to_vec());
    assert_ne!(a.hash(), b.hash());
}

#[test]
fn family_hash_none_for_basic_and_text_bound() {
    let basic = CardContent::new_basic(b"q".to_vec(), b"a".to_vec());
    assert!(basic.family_hash().is_none());
    // Same spans over different texts fall into different families.
    let a = CardContent::new_cloze(b"first text".to_vec(), 0, 2);
    let b = CardContent::new_cloze(b"other text".to_vec(), 0, 2);
    assert_ne!(a.family_hash(), b.family_hash());
    // Siblings share the family hash but not the card hash.
    let c = CardContent::new_cloze(b"first text".to_vec(), 6, 9);
    assert_eq!(a.family_hash(), c.family_hash());
    assert_ne!(a.hash(), c.hash());
}

#[test]
fn new_basic_trims_both_sides() {
    let card = CardContent::new_basic(b"  What is 2+2?\t".to_vec(), b"\n4 ".to_vec());
    assert_eq!(card.to_source_text(), b"Q: What is 2+2?\nA: 4".to_vec());
}

#[test]
fn card_caches_hash_and_exposes_fields() {
    let content = CardContent::new_basic(b"q".to_vec(), b"a".to_vec());
    let content_hash = content.hash();
    let card = Card::new(b"deck".to_vec(), b"/coll/deck.md".to_vec(), (3, 7), content);
    assert_eq!(card.hash(), content_hash);
    assert_eq!(card.deck_name(), &b"deck".to_vec());
    assert_eq!(card.file_path(), &b"/coll/deck.md".to_vec());
    assert_eq!(card.range(), (3, 7));
    assert_eq!(card.card_type(), CardType::Basic);
    assert!(card.family_hash().is_none());

    let cloze = Card::new(
        b"deck".to_vec(),
        b"/coll/deck.md".to_vec(),
        (0, 0),
        CardContent::new_cloze(b"Foo bar baz.".to_vec(), 4, 6),
    );
    assert_eq!(cloze.card_type(), CardType::Cloze);
    assert!(cloze.family_hash().is_some());
}

#[test]
fn relative_file_path_strips_the_root() {
    let card = Card::new(
        b"deck".to_vec(),
        b"/foo/bar/baz/deck.md".to_vec(),
        (0, 0),
        CardContent::new_basic(b"q".to_vec(), b"a".to_vec()),
    );
    assert_eq!(
        card.relative_file_path(&b"/foo/bar".to_vec()),
        Ok(b"baz/deck.md".to_vec())
    );
    assert_eq!(
        card.relative_file_path(&b"/foo/bar/".to_vec()),
        Ok(b"baz/deck.md".to_vec())
    );
    assert_eq!(
        card.relative_file_path(&b"/foo/barn".to_vec()),
        Err(PathError::NotUnderRoot)
    );
    assert_eq!(
        card.relative_file_path(&b"/elsewhere".to_vec()),
        Err(PathError::NotUnderRoot)
    );
}
