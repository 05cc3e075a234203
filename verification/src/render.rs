//! The render adapter.
//!
//! For a given card and reveal state this module decides, byte-exactly,
//! which fragments of the content a page must show. The markdown engine
//! itself stays outside: the caller renders each fragment and then comes
//! back to `replace_sentinel` for the cloze substitution.
//!
//! A cloze card's hidden span is replaced, in the raw text, by a fixed
//! all-uppercase sentinel token before rendering, so that markup spanning
//! the deletion boundary survives the renderer; afterwards the literal
//! token is replaced in the rendered output — by a blank placeholder when
//! hidden, or by the inline rendering of exactly the deleted span when
//! revealed.

use vstd::prelude::*;

use crate::card::content_wf;
use crate::card::Card;
use crate::card::ContentModel;
use crate::card::CardContent;
use crate::text::copy_bytes;
use crate::text::push_bytes;
use crate::text::replace_all;
use crate::text::replace_bytes;
use crate::text::sub_bytes;

verus! {

/// The sentinel token: the bytes of `CLOZE_DELETION`.
pub open spec fn sentinel() -> Seq<u8> {
    seq![
        67u8,
        76u8,
        79u8,
        90u8,
        69u8,
        95u8,
        68u8,
        69u8,
        76u8,
        69u8,
        84u8,
        73u8,
        79u8,
        78u8,
    ]
}

/// The sentinel token as bytes.
pub fn sentinel_token() -> (r: Vec<u8>)
    ensures
        r@ == sentinel(),
{
    let mut v: Vec<u8> = Vec::new();
    v.push(67);
    v.push(76);
    v.push(79);
    v.push(90);
    v.push(69);
    v.push(95);
    v.push(68);
    v.push(69);
    v.push(76);
    v.push(69);
    v.push(84);
    v.push(73);
    v.push(79);
    v.push(78);
    proof {
        assert(v@ =~= sentinel());
    }
    v
}

/// The cloze text with its deletion span replaced by the sentinel.
pub open spec fn masked_spec(text: Seq<u8>, start: int, end: int) -> Seq<u8> {
    text.take(start) + sentinel() + text.skip(end + 1)
}

/// Replace the inclusive byte range `start..=end` of `text` by the
/// sentinel token.
pub fn cloze_masked_text(text: &Vec<u8>, start: usize, end: usize) -> (r: Vec<u8>)
    requires
        start <= end < text@.len(),
    ensures
        r@ == masked_spec(text@, start as int, end as int),
{
    let n: usize = text.len();
    let mut out = sub_bytes(text, 0, start);
    let token = sentinel_token();
    push_bytes(&mut out, &token);
    let tail = sub_bytes(text, end + 1, n);
    push_bytes(&mut out, &tail);
    proof {
        assert(out@ =~= masked_spec(text@, start as int, end as int));
    }
    out
}

/// Exactly the deleted span of a cloze text.
pub fn cloze_deleted_span(text: &Vec<u8>, start: usize, end: usize) -> (r: Vec<u8>)
    requires
        start <= end < text@.len(),
    ensures
        r@ == text@.subrange(start as int, end + 1),
{
    let n: usize = text.len();
    proof {
        assert(end < n);
    }
    sub_bytes(text, start, end + 1)
}

/// Replace every occurrence of the sentinel token in a rendered fragment
/// by `replacement`.
pub fn replace_sentinel(rendered: &Vec<u8>, replacement: &Vec<u8>) -> (r: Vec<u8>)
    ensures
        r@ == replace_all(rendered@, sentinel(), replacement@),
{
    let token = sentinel_token();
    replace_bytes(rendered, &token, replacement)
}

/// What a page must show for one card in one reveal state: the raw
/// fragments still to be rendered. A basic card shows its question, plus
/// its answer once revealed. A cloze card always shows the masked text
/// (the sentinel standing in for the deletion); once revealed, the deleted
/// span itself is shown inside the blank.
pub enum RenderPlan {
    BasicFront { question: Vec<u8> },
    BasicFull { question: Vec<u8>, answer: Vec<u8> },
    ClozeHidden { masked: Vec<u8> },
    ClozeRevealed { masked: Vec<u8>, deleted: Vec<u8> },
}

/// Select the fragments for `card` under the reveal flag.
pub fn render_plan(card: &Card, revealed: bool) -> (r: RenderPlan)
    requires
        content_wf(card@.content),
    ensures
        match card@.content {
            ContentModel::Basic { question, answer } => if revealed {
                r matches RenderPlan::BasicFull { question: q, answer: a } && q@ == question && a@
                    == answer
            } else {
                r matches RenderPlan::BasicFront { question: q } && q@ == question
            },
            ContentModel::Cloze { text, start, end } => if revealed {
                r matches RenderPlan::ClozeRevealed { masked, deleted } && masked@ == masked_spec(
                    text,
                    start,
                    end,
                ) && deleted@ == text.subrange(start, end + 1)
            } else {
                r matches RenderPlan::ClozeHidden { masked } && masked@ == masked_spec(
                    text,
                    start,
                    end,
                )
            },
        },
{
    match card.content() {
        CardContent::Basic { question, answer } => {
            if revealed {
                RenderPlan::BasicFull {
                    question: copy_bytes(question),
                    answer: copy_bytes(answer),
                }
            } else {
                RenderPlan::BasicFront { question: copy_bytes(question) }
            }
        },
        CardContent::Cloze { text, start, end } => {
            let masked = cloze_masked_text(text, *start, *end);
            if revealed {
                let deleted = cloze_deleted_span(text, *start, *end);
                RenderPlan::ClozeRevealed { masked, deleted }
            } else {
                RenderPlan::ClozeHidden { masked }
            }
        },
    }
}

} // verus!
