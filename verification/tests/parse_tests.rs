use drill::card::CardContent;
use drill::parse::parse;
use drill::parse::ParseError;

#[test]
fn parse_basic_card() {
    let content = parse(&b"Q: What is 2+2?\nA: 4".to_vec()).unwrap();
    match &content {
        CardContent::Basic { question, answer } => {
            assert_eq!(question, &b"What is 2+2?".to_vec());
            assert_eq!(answer, &b"4".to_vec());
        }
        CardContent::Cloze { .. } => panic!("expected a basic card"),
    }
}

#[test]
fn parse_basic_trims_and_splits_at_first_marker() {
    let content = parse(&b"Q:  spaced question \nA:  the answer\nA: tail".to_vec()).unwrap();
    match &content {
        CardContent::Basic { question, answer } => {
            assert_eq!(question, &b"spaced question".to_vec());
            // The split happens at the first marker; later ones stay in
            // the answer.
            assert_eq!(answer, &b"the answer\nA: tail".to_vec());
        }
        CardContent::Cloze { .. } => panic!("expected a basic card"),
    }
}

#[test]
fn parse_cloze_card() {
    let content = parse(&b"C: Foo [bar] baz.".to_vec()).unwrap();
    match &content {
        CardContent::Cloze { text, start, end } => {
            assert_eq!(text, &b"Foo bar baz.".to_vec());
            assert_eq!(*start, 4);
            assert_eq!(*end, 6);
        }
        CardContent::Basic { .. } => panic!("expected a cloze card"),
    }
}

#[test]
fn parse_errors() {
    assert!(matches!(parse(&b"X: nope".to_vec()), Err(ParseError::UnknownPrefix)));
    assert!(matches!(parse(&b"".to_vec()), Err(ParseError::UnknownPrefix)));
    assert!(matches!(parse(&b"Q".to_vec()), Err(ParseError::UnknownPrefix)));
    assert!(matches!(
        parse(&b"Q: a question with no answer".to_vec()),
        Err(ParseError::MissingAnswerMarker)
    ));
    assert!(matches!(
        parse(&b"C: no bracket here".to_vec()),
        Err(ParseError::MissingOpenBracket)
    ));
    assert!(matches!(
        parse(&b"C: open [only".to_vec()),
        Err(ParseError::MissingCloseBracket)
    ));
    assert!(matches!(parse(&b"C: empty [] span".to_vec()), Err(ParseError::EmptySpan)));
    assert!(parse(&b"C: one [x] byte is fine".to_vec()).is_ok());
    assert!(matches!(
        parse(&b"C: closed ] before [open".to_vec()),
        Err(ParseError::EmptySpan)
    ));
}

#[test]
fn round_trip_basic() {
    let content = CardContent::new_basic(b"What is 2+2?".to_vec(), b"4".to_vec());
    let source = content.to_source_text();
    let reparsed = parse(&source).unwrap();
    assert_eq!(reparsed.to_source_text(), source);
    assert_eq!(reparsed.hash(), content.hash());
    match (&content, &reparsed) {
        (
            CardContent::Basic { question: q1, answer: a1 },
            CardContent::Basic { question: q2, answer: a2 },
        ) => {
            assert_eq!(q1, q2);
            assert_eq!(a1, a2);
        }
        _ => panic!("variant changed in the round trip"),
    }
}

#[test]
fn round_trip_cloze() {
    let content = CardContent::new_cloze(b"Foo bar baz.".to_vec(), 4, 6);
    let source = content.to_source_text();
    assert_eq!(source, b"C: Foo [bar] baz.".to_vec());
    let reparsed = parse(&source).unwrap();
    assert_eq!(reparsed.hash(), content.hash());
    match &reparsed {
        CardContent::Cloze { text, start, end } => {
            assert_eq!(text, &b"Foo bar baz.".to_vec());
            assert_eq!(*start, 4);
            assert_eq!(*end, 6);
        }
        CardContent::Basic { .. } => panic!("variant changed in the round trip"),
    }
}

#[test]
fn round_trip_edge_spans() {
    // Deletion at the very start and at the very end of the text.
    for (start, end) in [(0usize, 2usize), (4, 11), (0, 11)] {
        let content = CardContent::new_cloze(b"Foo bar baz.".to_vec(), start, end);
        let reparsed = parse(&content.to_source_text()).unwrap();
        assert_eq!(reparsed.hash(), content.hash());
    }
}
