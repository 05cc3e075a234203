//! The card source grammar.
//!
//! A basic card reads `Q: {question}\nA: {answer}`; a cloze card reads
//! `C: {text}` where the deletion span is written between `[` and `]`.
//! Parsing is the inverse of `CardContent::to_source_text`, and the
//! round-trip law at the bottom of this module proves it: for content whose
//! text stays clear of the grammar's own markers, parsing the reconstructed
//! source text gives the content back byte for byte.

use vstd::prelude::*;

use crate::card::answer_marker;
use crate::card::cloze_prefix;
use crate::card::content_wf;
use crate::card::question_prefix;
use crate::card::source_text_spec;
use crate::card::CardContent;
use crate::card::ContentModel;
use crate::text::find_bytes;
use crate::text::find_sub;
use crate::text::lemma_find_sub_first;
use crate::text::lemma_find_sub_is_match;
use crate::text::matches_at;
use crate::text::push_bytes;
use crate::text::starts_with_bytes;
use crate::text::sub_bytes;
use crate::text::trim_bytes;
use crate::text::trim_spec;

verus! {

/// Why a source text is not a card.
#[derive(Clone, Copy, Debug, PartialEq, Eq, Structural)]
pub enum ParseError {
    /// The text starts with neither `Q: ` nor `C: `.
    UnknownPrefix,
    /// A basic card without a `\nA: ` line.
    MissingAnswerMarker,
    /// A cloze card without an opening bracket.
    MissingOpenBracket,
    /// A cloze card without a closing bracket.
    MissingCloseBracket,
    /// The first closing bracket does not close a non-empty span opened by
    /// the first opening bracket.
    EmptySpan,
}

/// What parsing a source text yields.
///
/// A basic card is split at the first `\nA: `, both sides trimmed. A cloze
/// card's span runs from the first `[` to the first `]`, which must enclose
/// at least one byte; the brackets are removed from the text.
pub open spec fn parse_spec(s: Seq<u8>) -> Result<ContentModel, ParseError> {
    if s.len() >= 3 && s.take(3) == question_prefix() {
        let rest = s.skip(3);
        match find_sub(rest, answer_marker()) {
            Some(j) => Ok(
                ContentModel::Basic {
                    question: trim_spec(rest.take(j)),
                    answer: trim_spec(rest.skip(j + 4)),
                },
            ),
            None => Err(ParseError::MissingAnswerMarker),
        }
    } else if s.len() >= 3 && s.take(3) == cloze_prefix() {
        let rest = s.skip(3);
        match find_sub(rest, seq![91u8]) {
            Some(i) => match find_sub(rest, seq![93u8]) {
                Some(j) => if i + 2 <= j {
                    Ok(
                        ContentModel::Cloze {
                            text: rest.take(i) + rest.subrange(i + 1, j) + rest.skip(j + 1),
                            start: i,
                            end: j - 2,
                        },
                    )
                } else {
                    Err(ParseError::EmptySpan)
                },
                None => Err(ParseError::MissingCloseBracket),
            },
            None => Err(ParseError::MissingOpenBracket),
        }
    } else {
        Err(ParseError::UnknownPrefix)
    }
}

/// Parse a card source text.
pub fn parse(src: &Vec<u8>) -> (r: Result<CardContent, ParseError>)
    ensures
        match r {
            Ok(c) => parse_spec(src@) == Ok::<ContentModel, ParseError>(c@) && content_wf(c@),
            Err(e) => parse_spec(src@) == Err::<ContentModel, ParseError>(e),
        },
{
    let mut qp: Vec<u8> = Vec::new();
    qp.push(81);
    qp.push(58);
    qp.push(32);
    proof {
        assert(qp@ =~= question_prefix());
    }
    let mut cp: Vec<u8> = Vec::new();
    cp.push(67);
    cp.push(58);
    cp.push(32);
    proof {
        assert(cp@ =~= cloze_prefix());
    }
    if starts_with_bytes(src, &qp) {
        let rest = sub_bytes(src, 3, src.len());
        proof {
            assert(rest@ =~= src@.skip(3));
        }
        let mut marker: Vec<u8> = Vec::new();
        marker.push(10);
        marker.push(65);
        marker.push(58);
        marker.push(32);
        proof {
            assert(marker@ =~= answer_marker());
        }
        match find_bytes(&rest, &marker) {
            Some(j) => {
                proof {
                    lemma_find_sub_is_match(rest@, marker@);
                }
                let q_raw = sub_bytes(&rest, 0, j);
                let a_raw = sub_bytes(&rest, j + 4, rest.len());
                proof {
                    assert(q_raw@ =~= rest@.take(j as int));
                    assert(a_raw@ =~= rest@.skip(j + 4));
                }
                let question = trim_bytes(&q_raw);
                let answer = trim_bytes(&a_raw);
                proof {
                    assert(question@.len() <= usize::MAX) by {
                        assert(question.len() == question@.len());
                    }
                    assert(answer@.len() <= usize::MAX) by {
                        assert(answer.len() == answer@.len());
                    }
                }
                Ok(CardContent::Basic { question, answer })
            },
            None => Err(ParseError::MissingAnswerMarker),
        }
    } else if starts_with_bytes(src, &cp) {
        let rest = sub_bytes(src, 3, src.len());
        proof {
            assert(rest@ =~= src@.skip(3));
        }
        let mut ob: Vec<u8> = Vec::new();
        ob.push(91);
        proof {
            assert(ob@ =~= seq![91u8]);
        }
        let mut cb: Vec<u8> = Vec::new();
        cb.push(93);
        proof {
            assert(cb@ =~= seq![93u8]);
        }
        match find_bytes(&rest, &ob) {
            Some(i) => match find_bytes(&rest, &cb) {
                Some(j) => {
                    proof {
                        lemma_find_sub_is_match(rest@, ob@);
                        lemma_find_sub_is_match(rest@, cb@);
                    }
                    if j >= i && j - i >= 2 {
                        let mut text = sub_bytes(&rest, 0, i);
                        let mid = sub_bytes(&rest, i + 1, j);
                        push_bytes(&mut text, &mid);
                        let tail = sub_bytes(&rest, j + 1, rest.len());
                        push_bytes(&mut text, &tail);
                        proof {
                            assert(text@ =~= rest@.take(i as int) + rest@.subrange(i + 1, j as int)
                                + rest@.skip(j + 1));
                        }
                        let content = CardContent::Cloze { text, start: i, end: j - 2 };
                        proof {
                            assert(content_wf(content@));
                        }
                        Ok(content)
                    } else {
                        Err(ParseError::EmptySpan)
                    }
                },
                None => Err(ParseError::MissingCloseBracket),
            },
            None => Err(ParseError::MissingOpenBracket),
        }
    } else {
        Err(ParseError::UnknownPrefix)
    }
}

/// Content whose text stays clear of the grammar's own markers: a basic
/// card is trimmed on both sides and its question holds no `\nA: ` line; a
/// cloze text holds no bracket.
pub open spec fn content_round_trippable(c: ContentModel) -> bool {
    match c {
        ContentModel::Basic { question, answer } => trim_spec(question) == question && trim_spec(
            answer,
        ) == answer && forall|p: int| !matches_at(question, answer_marker(), p),
        ContentModel::Cloze { text, .. } => forall|k: int|
            0 <= k < text.len() ==> text[k] != 91 && text[k] != 93,
    }
}

/// Whatever parses is well-formed content: in particular a parsed cloze
/// span is a non-empty inclusive range inside its bracket-stripped text.
pub proof fn lemma_parse_spec_wf(src: Seq<u8>)
    requires
        src.len() <= usize::MAX,
    ensures
        parse_spec(src) matches Ok(c) ==> content_wf(c),
{
    if parse_spec(src) is Ok {
        let rest = src.skip(3);
        if src.len() >= 3 && src.take(3) == question_prefix() {
            lemma_find_sub_is_match(rest, answer_marker());
            let j = find_sub(rest, answer_marker())->Some_0;
            crate::text::lemma_trim_len_le(rest.take(j));
            crate::text::lemma_trim_len_le(rest.skip(j + 4));
        } else {
            lemma_find_sub_is_match(rest, seq![91u8]);
            lemma_find_sub_is_match(rest, seq![93u8]);
        }
    }
}

/// Round trip: parsing the reconstructed source text of well-formed,
/// marker-free content yields the content again, byte for byte.
#[verifier::rlimit(60)]
pub proof fn lemma_round_trip(c: ContentModel)
    requires
        content_wf(c),
        content_round_trippable(c),
    ensures
        parse_spec(source_text_spec(c)) == Ok::<ContentModel, ParseError>(c),
{
    let src = source_text_spec(c);
    match c {
        ContentModel::Basic { question, answer } => {
            let am = answer_marker();
            let q = question;
            let a = answer;
            let qn = q.len() as int;
            assert(src.take(3) =~= question_prefix());
            let rest = src.skip(3);
            assert(rest =~= q + am + a);
            assert(matches_at(rest, am, qn)) by {
                assert(rest.subrange(qn, qn + 4) =~= am);
            }
            assert forall|p: int| 0 <= p < qn implies !matches_at(rest, am, p) by {
                if p + 4 <= rest.len() {
                    if p + 4 <= qn {
                        assert(!matches_at(q, am, p));
                        assert(rest.subrange(p, p + 4) =~= q.subrange(p, p + 4));
                    } else {
                        let k = qn - p;
                        if matches_at(rest, am, p) {
                            assert(rest.subrange(p, p + 4)[k] == rest[qn]);
                            assert(rest[qn] == 10);
                            assert(am[1] != 10 && am[2] != 10 && am[3] != 10);
                        }
                    }
                }
            }
            lemma_find_sub_first(rest, am, qn);
            assert(rest.take(qn) =~= q);
            assert(rest.skip(qn + 4) =~= a);
        },
        ContentModel::Cloze { text, start, end } => {
            let n = text.len() as int;
            assert(src.take(3) != question_prefix()) by {
                assert(src.take(3)[0] == 67);
                assert(question_prefix()[0] == 81);
            }
            assert(src.take(3) =~= cloze_prefix());
            let rest = src.skip(3);
            let r0 = text.take(start) + seq![91u8] + text.subrange(start, end + 1) + seq![93u8]
                + text.skip(end + 1);
            assert(rest =~= r0);
            assert(rest.len() == n + 2);
            assert forall|k: int| 0 <= k < start implies rest[k] == text[k] by {}
            assert(rest[start] == 91);
            assert forall|k: int| start + 1 <= k < end + 2 implies rest[k] == text[k - 1] by {}
            assert(rest[end + 2] == 93);
            assert forall|k: int| end + 3 <= k < rest.len() implies rest[k] == text[k - 2] by {}
            let ob = seq![91u8];
            let cb = seq![93u8];
            assert(matches_at(rest, ob, start)) by {
                assert(rest.subrange(start, start + 1) =~= ob);
            }
            assert forall|p: int| 0 <= p < start implies !matches_at(rest, ob, p) by {
                if matches_at(rest, ob, p) {
                    assert(rest.subrange(p, p + 1)[0] == rest[p]);
                    assert(rest[p] == text[p]);
                    assert(text[p] != 91);
                }
            }
            lemma_find_sub_first(rest, ob, start);
            assert(matches_at(rest, cb, end + 2)) by {
                assert(rest.subrange(end + 2, end + 3) =~= cb);
            }
            assert forall|p: int| 0 <= p < end + 2 implies !matches_at(rest, cb, p) by {
                if matches_at(rest, cb, p) {
                    assert(rest.subrange(p, p + 1)[0] == rest[p]);
                    if p < start {
                        assert(rest[p] == text[p]);
                        assert(text[p] != 93);
                    } else if p == start {
                        assert(rest[p] == 91);
                    } else {
                        assert(rest[p] == text[p - 1]);
                        assert(text[p - 1] != 93);
                    }
                }
            }
            lemma_find_sub_first(rest, cb, end + 2);
            assert(rest.take(start) + rest.subrange(start + 1, end + 2) + rest.skip(end + 3)
                =~= text);
        },
    }
}

} // verus!
