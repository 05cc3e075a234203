use drill::card::Card;
use drill::card::CardContent;
use drill::render::cloze_deleted_span;
use drill::render::cloze_masked_text;
use drill::render::render_plan;
use drill::render::replace_sentinel;
use drill::render::sentinel_token;
use drill::render::RenderPlan;

fn cloze_card() -> Card {
    Card::new(
        b"deck".to_vec(),
        b"/coll/deck.md".to_vec(),
        (0, 0),
        CardContent::new_cloze(b"Foo bar baz.".to_vec(), 4, 6),
    )
}

fn basic_card() -> Card {
    Card::new(
        b"deck".to_vec(),
        b"/coll/deck.md".to_vec(),
        (0, 0),
        CardContent::new_basic(b"What is 2+2?".to_vec(), b"4".to_vec()),
    )
}

#[test]
fn sentinel_is_the_fixed_uppercase_token() {
    assert_eq!(sentinel_token(), b"CLOZE_DELETION".to_vec());
}

#[test]
fn masked_text_substitutes_the_span_in_place() {
    let masked = cloze_masked_text(&b"Foo bar baz.".to_vec(), 4, 6);
    assert_eq!(masked, b"Foo CLOZE_DELETION baz.".to_vec());
    // Spans at the edges of the text.
    assert_eq!(
        cloze_masked_text(&b"abc".to_vec(), 0, 2),
        b"CLOZE_DELETION".to_vec()
    );
    assert_eq!(
        cloze_masked_text(&b"abc".to_vec(), 0, 0),
        b"CLOZE_DELETIONbc".to_vec()
    );
}

#[test]
fn deleted_span_is_the_exact_inclusive_range() {
    assert_eq!(cloze_deleted_span(&b"Foo bar baz.".to_vec(), 4, 6), b"bar".to_vec());
    assert_eq!(cloze_deleted_span(&b"abc".to_vec(), 2, 2), b"c".to_vec());
}

#[test]
fn replace_sentinel_rewrites_every_occurrence() {
    let rendered = b"<p>Foo CLOZE_DELETION baz.</p>".to_vec();
    assert_eq!(
        replace_sentinel(&rendered, &b"<span>...</span>".to_vec()),
        b"<p>Foo <span>...</span> baz.</p>".to_vec()
    );
    let twice = b"CLOZE_DELETION and CLOZE_DELETION".to_vec();
    assert_eq!(replace_sentinel(&twice, &b"_".to_vec()), b"_ and _".to_vec());
    let untouched = b"no token here".to_vec();
    assert_eq!(replace_sentinel(&untouched, &b"_".to_vec()), b"no token here".to_vec());
}

#[test]
fn render_plan_for_basic_cards() {
    match render_plan(&basic_card(), false) {
        RenderPlan::BasicFront { question } => {
            assert_eq!(question, b"What is 2+2?".to_vec());
        }
        _ => panic!("hidden basic card shows its question only"),
    }
    match render_plan(&basic_card(), true) {
        RenderPlan::BasicFull { question, answer } => {
            assert_eq!(question, b"What is 2+2?".to_vec());
            assert_eq!(answer, b"4".to_vec());
        }
        _ => panic!("revealed basic card shows question and answer"),
    }
}

#[test]
fn render_plan_for_cloze_cards() {
    match render_plan(&cloze_card(), false) {
        RenderPlan::ClozeHidden { masked } => {
            assert_eq!(masked, b"Foo CLOZE_DELETION baz.".to_vec());
        }
        _ => panic!("hidden cloze card shows the masked text only"),
    }
    match render_plan(&cloze_card(), true) {
        RenderPlan::ClozeRevealed { masked, deleted } => {
            assert_eq!(masked, b"Foo CLOZE_DELETION baz.".to_vec());
            assert_eq!(deleted, b"bar".to_vec());
        }
        _ => panic!("revealed cloze card shows the masked text and the span"),
    }
}
