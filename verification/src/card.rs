//! The card identity model.
//!
//! A card is one immutable reviewable unit: either a basic question/answer
//! pair or a cloze deletion (a text with one contiguous hidden span, given as
//! an inclusive byte range). Its identity is a digest over a fixed,
//! order-stable byte encoding of the content: a variant tag, then each field
//! in declared order, with the question's length and the cloze offsets
//! encoded as 8-byte little-endian so that adjacent variable-length fields
//! can never run together. Cloze cards also have a family
//! digest over the text alone, shared by every deletion cut from the same
//! text.

use vstd::prelude::*;

use crate::digest::digest64;
use crate::digest::digest_bytes;
use crate::digest::CardHash;
use crate::text::copy_bytes;
use crate::text::le8;
use crate::text::lemma_le8_injective;
use crate::text::push_bytes;
use crate::text::push_le8;
use crate::text::starts_with_bytes;
use crate::text::sub_bytes;
use crate::text::trim_bytes;
use crate::text::trim_spec;

verus! {

/// The mathematical value of a card's content.
pub enum ContentModel {
    Basic { question: Seq<u8>, answer: Seq<u8> },
    Cloze { text: Seq<u8>, start: int, end: int },
}

/// Structural bounds on content: every text field fits in memory, and a
/// cloze span is a non-empty inclusive byte range inside its text.
pub open spec fn content_wf(c: ContentModel) -> bool {
    match c {
        ContentModel::Basic { question, answer } => question.len() <= usize::MAX && answer.len()
            <= usize::MAX,
        ContentModel::Cloze { text, start, end } => 0 <= start <= end < text.len()
            && text.len() <= usize::MAX,
    }
}

/// Variant tag for basic content: the bytes of `Basic`.
pub open spec fn tag_basic() -> Seq<u8> {
    seq![66u8, 97u8, 115u8, 105u8, 99u8]
}

/// Variant tag for cloze content: the bytes of `Cloze`.
pub open spec fn tag_cloze() -> Seq<u8> {
    seq![67u8, 108u8, 111u8, 122u8, 101u8]
}

/// The byte encoding whose digest is the card's identity.
///
/// Variable-length fields that stand back to back are kept apart by a
/// fixed-width length: a basic card writes the question's length before
/// the question, so `("ab", "c")` and `("a", "bc")` can never encode
/// alike; a cloze card's offsets are themselves fixed-width, so the text
/// before them is delimited already. The encoding is therefore injective
/// on well-formed content.
pub open spec fn hash_input(c: ContentModel) -> Seq<u8> {
    match c {
        ContentModel::Basic { question, answer } => tag_basic() + le8(question.len() as u64)
            + question + answer,
        ContentModel::Cloze { text, start, end } => tag_cloze() + text + le8(start as u64) + le8(
            end as u64,
        ),
    }
}

/// The card's content hash: digest of the identity encoding.
pub open spec fn content_hash(c: ContentModel) -> u64 {
    digest64(hash_input(c))
}

/// The byte encoding whose digest groups cloze siblings: tag and text only,
/// offsets excluded.
pub open spec fn family_input(text: Seq<u8>) -> Seq<u8> {
    tag_cloze() + text
}

/// The family hash: defined for cloze content only.
pub open spec fn family_hash_spec(c: ContentModel) -> Option<u64> {
    match c {
        ContentModel::Basic { .. } => None,
        ContentModel::Cloze { text, .. } => Some(digest64(family_input(text))),
    }
}

/// `Q: ` — the prefix of a basic card's source text.
pub open spec fn question_prefix() -> Seq<u8> {
    seq![81u8, 58u8, 32u8]
}

/// `\nA: ` — the separator before a basic card's answer.
pub open spec fn answer_marker() -> Seq<u8> {
    seq![10u8, 65u8, 58u8, 32u8]
}

/// `C: ` — the prefix of a cloze card's source text.
pub open spec fn cloze_prefix() -> Seq<u8> {
    seq![67u8, 58u8, 32u8]
}

/// The original source text of the content.
///
/// For a cloze card the result equals the text with a closing bracket
/// inserted just after byte `end` and an opening bracket inserted just
/// before byte `start`; writing the result as four segments keeps both
/// offsets valid, exactly as inserting at the higher offset first would.
pub open spec fn source_text_spec(c: ContentModel) -> Seq<u8> {
    match c {
        ContentModel::Basic { question, answer } => question_prefix() + question + answer_marker()
            + answer,
        ContentModel::Cloze { text, start, end } => cloze_prefix() + text.take(start)
            + seq![91u8] + text.subrange(start, end + 1) + seq![93u8] + text.skip(end + 1),
    }
}

/// A card's content: a basic question/answer pair, or a text with one cloze
/// deletion span. All text is raw bytes; `start..=end` is an inclusive byte
/// range into `text`.
pub enum CardContent {
    Basic { question: Vec<u8>, answer: Vec<u8> },
    Cloze { text: Vec<u8>, start: usize, end: usize },
}

impl View for CardContent {
    type V = ContentModel;

    open spec fn view(&self) -> ContentModel {
        match self {
            CardContent::Basic { question, answer } => ContentModel::Basic {
                question: question@,
                answer: answer@,
            },
            CardContent::Cloze { text, start, end } => ContentModel::Cloze {
                text: text@,
                start: *start as int,
                end: *end as int,
            },
        }
    }
}

impl Clone for CardContent {
    fn clone(&self) -> (r: Self)
        ensures
            r@ == self@,
    {
        match self {
            CardContent::Basic { question, answer } => CardContent::Basic {
                question: copy_bytes(question),
                answer: copy_bytes(answer),
            },
            CardContent::Cloze { text, start, end } => CardContent::Cloze {
                text: copy_bytes(text),
                start: *start,
                end: *end,
            },
        }
    }
}

/// The two content variants.
#[derive(Debug, PartialEq, Eq, Structural)]
pub enum CardType {
    Basic,
    Cloze,
}

impl CardContent {
    /// Basic content; both sides are trimmed of leading and trailing
    /// ASCII whitespace (multi-byte Unicode whitespace is kept: the text
    /// is raw bytes).
    pub fn new_basic(question: Vec<u8>, answer: Vec<u8>) -> (r: Self)
        ensures
            r@ == (ContentModel::Basic {
                question: trim_spec(question@),
                answer: trim_spec(answer@),
            }),
            content_wf(r@),
            trim_spec(trim_spec(question@)) == trim_spec(question@),
            trim_spec(trim_spec(answer@)) == trim_spec(answer@),
    {
        proof {
            crate::text::lemma_trim_idempotent(question@);
            crate::text::lemma_trim_idempotent(answer@);
        }
        let q = trim_bytes(&question);
        let a = trim_bytes(&answer);
        proof {
            assert(q@.len() <= usize::MAX) by {
                assert(q.len() == q@.len());
            }
            assert(a@.len() <= usize::MAX) by {
                assert(a.len() == a@.len());
            }
        }
        CardContent::Basic { question: q, answer: a }
    }

    /// Cloze content over `prompt` with the deletion on the inclusive byte
    /// range `start..=end`.
    pub fn new_cloze(prompt: Vec<u8>, start: usize, end: usize) -> (r: Self)
        requires
            start <= end < prompt@.len(),
        ensures
            r@ == (ContentModel::Cloze {
                text: prompt@,
                start: start as int,
                end: end as int,
            }),
            content_wf(r@),
    {
        proof {
            let n = prompt@.len();
            assert(n <= usize::MAX) by {
                assert(prompt.len() == n);
            }
        }
        CardContent::Cloze { text: prompt, start, end }
    }

    /// The content hash: a digest over the variant tag and every field in
    /// declared order, with the question's length and the cloze offsets as
    /// 8-byte little-endian, so the encoding is injective.
    pub fn hash(&self) -> (r: CardHash)
        ensures
            r.value == content_hash(self@),
    {
        let mut buf: Vec<u8> = Vec::new();
        match self {
            CardContent::Basic { question, answer } => {
                buf.push(66);
                buf.push(97);
                buf.push(115);
                buf.push(105);
                buf.push(99);
                proof {
                    assert(buf@ =~= tag_basic());
                }
                push_le8(&mut buf, question.len() as u64);
                push_bytes(&mut buf, question);
                push_bytes(&mut buf, answer);
                proof {
                    assert(buf@ =~= hash_input(self@));
                }
            },
            CardContent::Cloze { text, start, end } => {
                buf.push(67);
                buf.push(108);
                buf.push(111);
                buf.push(122);
                buf.push(101);
                proof {
                    assert(buf@ =~= tag_cloze());
                }
                push_bytes(&mut buf, text);
                push_le8(&mut buf, *start as u64);
                push_le8(&mut buf, *end as u64);
                proof {
                    assert(buf@ =~= hash_input(self@));
                }
            },
        }
        digest_bytes(&buf)
    }

    /// The family hash: `None` for basic content; for cloze content, a
    /// digest over the tag and text alone, so every deletion cut from the
    /// same text shares it.
    pub fn family_hash(&self) -> (r: Option<CardHash>)
        ensures
            match r {
                Some(h) => family_hash_spec(self@) == Some(h.value),
                None => family_hash_spec(self@) is None,
            },
    {
        match self {
            CardContent::Basic { .. } => None,
            CardContent::Cloze { text, .. } => {
                let mut buf: Vec<u8> = Vec::new();
                buf.push(67);
                buf.push(108);
                buf.push(111);
                buf.push(122);
                buf.push(101);
                proof {
                    assert(buf@ =~= tag_cloze());
                }
                push_bytes(&mut buf, text);
                proof {
                    assert(buf@ =~= family_input(text@));
                }
                Some(digest_bytes(&buf))
            },
        }
    }

    /// Reconstruct the original source text.
    ///
    /// Basic: `Q: {question}\nA: {answer}`. Cloze: `C: ` followed by the
    /// text with `[` before the deletion and `]` after it.
    pub fn to_source_text(&self) -> (r: Vec<u8>)
        requires
            content_wf(self@),
        ensures
            r@ == source_text_spec(self@),
    {
        let mut buf: Vec<u8> = Vec::new();
        match self {
            CardContent::Basic { question, answer } => {
                buf.push(81);
                buf.push(58);
                buf.push(32);
                proof {
                    assert(buf@ =~= question_prefix());
                }
                push_bytes(&mut buf, question);
                buf.push(10);
                buf.push(65);
                buf.push(58);
                buf.push(32);
                push_bytes(&mut buf, answer);
                proof {
                    assert(buf@ =~= source_text_spec(self@));
                }
            },
            CardContent::Cloze { text, start, end } => {
                buf.push(67);
                buf.push(58);
                buf.push(32);
                proof {
                    assert(buf@ =~= cloze_prefix());
                }
                let before = sub_bytes(text, 0, *start);
                push_bytes(&mut buf, &before);
                buf.push(91);
                let deleted = sub_bytes(text, *start, *end + 1);
                push_bytes(&mut buf, &deleted);
                buf.push(93);
                let after = sub_bytes(text, *end + 1, text.len());
                push_bytes(&mut buf, &after);
                proof {
                    assert(text@.subrange(0, *start as int) =~= text@.take(*start as int));
                    assert(text@.subrange(*end + 1, text@.len() as int) =~= text@.skip(*end + 1));
                    assert(buf@ =~= source_text_spec(self@));
                }
            },
        }
        buf
    }
}

/// A card's source file path cannot be written relative to the collection
/// root.
#[derive(Clone, Copy, Debug, PartialEq, Eq, Structural)]
pub enum PathError {
    NotUnderRoot,
}

/// Whether `root` ends in a path separator.
pub open spec fn root_slash(root: Seq<u8>) -> bool {
    root.len() > 0 && root[root.len() - 1] == 47
}

/// Whether `file` lies under the directory `root`.
pub open spec fn under_root(file: Seq<u8>, root: Seq<u8>) -> bool {
    if root_slash(root) {
        file.len() >= root.len() && file.take(root.len() as int) == root
    } else {
        file == root || (file.len() > root.len() && file.take(root.len() as int) == root && file[
            root.len() as int
        ] == 47)
    }
}

/// `file` relative to the directory `root` (meaningful when `under_root`).
pub open spec fn rel_path_spec(file: Seq<u8>, root: Seq<u8>) -> Seq<u8> {
    if root_slash(root) {
        file.skip(root.len() as int)
    } else if file == root {
        Seq::<u8>::empty()
    } else {
        file.skip(root.len() as int + 1)
    }
}

/// The mathematical value of a card.
pub struct CardModel {
    pub deck_name: Seq<u8>,
    pub file_path: Seq<u8>,
    pub range: (usize, usize),
    pub content: ContentModel,
    pub hash: u64,
}

/// A well-formed card: content bounds hold and the cached hash is the
/// content's digest.
pub open spec fn card_wf(c: CardModel) -> bool {
    content_wf(c.content) && c.hash == content_hash(c.content)
}

/// One reviewable unit: content plus provenance (deck, source file, line
/// range) and the cached content hash.
pub struct Card {
    /// The name of the deck this card belongs to.
    deck_name: Vec<u8>,
    /// The absolute path of the file this card was parsed from.
    file_path: Vec<u8>,
    /// The line number range that contains the card.
    range: (usize, usize),
    /// The card's content.
    content: CardContent,
    /// The cached hash of the card's content.
    hash: CardHash,
}

impl View for Card {
    type V = CardModel;

    closed spec fn view(&self) -> CardModel {
        CardModel {
            deck_name: self.deck_name@,
            file_path: self.file_path@,
            range: self.range,
            content: self.content@,
            hash: self.hash.value,
        }
    }
}

impl Clone for Card {
    fn clone(&self) -> (r: Self)
        ensures
            r@ == self@,
    {
        Card {
            deck_name: copy_bytes(&self.deck_name),
            file_path: copy_bytes(&self.file_path),
            range: self.range,
            content: self.content.clone(),
            hash: self.hash,
        }
    }
}

impl Card {
    /// Build a card; the content hash is computed once here and cached.
    pub fn new(
        deck_name: Vec<u8>,
        file_path: Vec<u8>,
        range: (usize, usize),
        content: CardContent,
    ) -> (r: Self)
        requires
            content_wf(content@),
        ensures
            r@ == (CardModel {
                deck_name: deck_name@,
                file_path: file_path@,
                range,
                content: content@,
                hash: content_hash(content@),
            }),
            card_wf(r@),
    {
        let hash = content.hash();
        Card { deck_name, file_path, content, range, hash }
    }

    pub fn deck_name(&self) -> (r: &Vec<u8>)
        ensures
            r@ == self@.deck_name,
    {
        &self.deck_name
    }

    pub fn content(&self) -> (r: &CardContent)
        ensures
            r@ == self@.content,
    {
        &self.content
    }

    pub fn hash(&self) -> (r: CardHash)
        ensures
            r.value == self@.hash,
    {
        self.hash
    }

    pub fn family_hash(&self) -> (r: Option<CardHash>)
        ensures
            match r {
                Some(h) => family_hash_spec(self@.content) == Some(h.value),
                None => family_hash_spec(self@.content) is None,
            },
    {
        self.content.family_hash()
    }

    /// Return the absolute path of the file this card was parsed from.
    pub fn file_path(&self) -> (r: &Vec<u8>)
        ensures
            r@ == self@.file_path,
    {
        &self.file_path
    }

    /// Return the path of the file this card was parsed from, relative to
    /// the collection root directory. Both paths must already be in
    /// canonical form; a file that does not lie under the root is an error.
    pub fn relative_file_path(&self, collection_root: &Vec<u8>) -> (r: Result<Vec<u8>, PathError>)
        ensures
            match r {
                Ok(p) => under_root(self@.file_path, collection_root@) && p@ == rel_path_spec(
                    self@.file_path,
                    collection_root@,
                ),
                Err(e) => !under_root(self@.file_path, collection_root@) && e
                    == PathError::NotUnderRoot,
            },
    {
        let root_len: usize = collection_root.len();
        let file_len: usize = self.file_path.len();
        if root_len > 0 && collection_root[root_len - 1] == 47 {
            if starts_with_bytes(&self.file_path, collection_root) {
                let p = sub_bytes(&self.file_path, root_len, file_len);
                proof {
                    assert(p@ =~= self@.file_path.skip(root_len as int));
                }
                Ok(p)
            } else {
                Err(PathError::NotUnderRoot)
            }
        } else {
            if crate::text::bytes_eq(&self.file_path, collection_root) {
                Ok(Vec::new())
            } else if file_len > root_len && starts_with_bytes(&self.file_path, collection_root)
                && self.file_path[root_len] == 47 {
                let p = sub_bytes(&self.file_path, root_len + 1, file_len);
                proof {
                    assert(p@ =~= self@.file_path.skip(root_len + 1));
                }
                Ok(p)
            } else {
                Err(PathError::NotUnderRoot)
            }
        }
    }

    pub fn range(&self) -> (r: (usize, usize))
        ensures
            r == self@.range,
    {
        self.range
    }

    pub fn card_type(&self) -> (r: CardType)
        ensures
            r == (match self@.content {
                ContentModel::Basic { .. } => CardType::Basic,
                ContentModel::Cloze { .. } => CardType::Cloze,
            }),
    {
        match &self.content {
            CardContent::Basic { .. } => CardType::Basic,
            CardContent::Cloze { .. } => CardType::Cloze,
        }
    }
}

/// Hash determinism: the content hash is a function of the content value
/// alone, so equal content always digests to the same hash, on any run.
pub proof fn lemma_hash_deterministic(c1: ContentModel, c2: ContentModel)
    requires
        c1 == c2,
    ensures
        content_hash(c1) == content_hash(c2),
{
}

/// Hash sensitivity, at the level of the digested encoding: the encoding
/// is injective on well-formed content, so any two different contents —
/// different variant, question, answer, text or offsets — feed different
/// byte strings to the digest.
pub proof fn lemma_hash_input_distinguishes(c1: ContentModel, c2: ContentModel)
    requires
        content_wf(c1),
        content_wf(c2),
        c1 != c2,
    ensures
        hash_input(c1) != hash_input(c2),
{
    let i1 = hash_input(c1);
    let i2 = hash_input(c2);
    if i1 == i2 {
        match (c1, c2) {
            (
                ContentModel::Basic { question: q1, answer: a1 },
                ContentModel::Basic { question: q2, answer: a2 },
            ) => {
                crate::text::lemma_le_bytes_len((q1.len() as u64) as nat, 8);
                crate::text::lemma_le_bytes_len((q2.len() as u64) as nat, 8);
                assert(i1.len() == 13 + q1.len() + a1.len());
                assert(i2.len() == 13 + q2.len() + a2.len());
                assert(le8(q1.len() as u64) =~= i1.subrange(5, 13));
                assert(le8(q2.len() as u64) =~= i2.subrange(5, 13));
                lemma_le8_injective(q1.len() as u64, q2.len() as u64);
                assert(q1.len() == q2.len());
                assert(q1 =~= i1.subrange(13, 13 + q1.len() as int));
                assert(q2 =~= i2.subrange(13, 13 + q2.len() as int));
                assert(a1 =~= i1.skip(13 + q1.len() as int));
                assert(a2 =~= i2.skip(13 + q2.len() as int));
                assert(false);
            },
            (
                ContentModel::Cloze { text: t1, start: s1, end: e1 },
                ContentModel::Cloze { text: t2, start: s2, end: e2 },
            ) => {
                crate::text::lemma_le_bytes_len((s1 as u64) as nat, 8);
                crate::text::lemma_le_bytes_len((e1 as u64) as nat, 8);
                crate::text::lemma_le_bytes_len((s2 as u64) as nat, 8);
                crate::text::lemma_le_bytes_len((e2 as u64) as nat, 8);
                assert(i1.len() == 5 + t1.len() + 16);
                assert(i2.len() == 5 + t2.len() + 16);
                assert(t1.len() == t2.len());
                assert(t1 =~= i1.subrange(5, 5 + t1.len() as int));
                assert(t2 =~= i2.subrange(5, 5 + t2.len() as int));
                assert(t1 == t2);
                assert(le8(s1 as u64) =~= i1.subrange(5 + t1.len() as int, 5 + t1.len() as int + 8));
                assert(le8(s2 as u64) =~= i2.subrange(5 + t2.len() as int, 5 + t2.len() as int + 8));
                lemma_le8_injective(s1 as u64, s2 as u64);
                assert(le8(e1 as u64) =~= i1.subrange(5 + t1.len() as int + 8, 5 + t1.len() as int + 16));
                assert(le8(e2 as u64) =~= i2.subrange(5 + t2.len() as int + 8, 5 + t2.len() as int + 16));
                lemma_le8_injective(e1 as u64, e2 as u64);
                assert(s1 == s2);
                assert(e1 == e2);
                assert(false);
            },
            (ContentModel::Basic { .. }, ContentModel::Cloze { .. }) => {
                assert(i1[0] == 66);
                assert(i2[0] == 67);
                assert(false);
            },
            (ContentModel::Cloze { .. }, ContentModel::Basic { .. }) => {
                assert(i1[0] == 67);
                assert(i2[0] == 66);
                assert(false);
            },
        }
    }
}

/// Family grouping: two cloze contents over the same text always share the
/// family hash, and when their deletion spans differ they feed different
/// byte strings to the content digest.
pub proof fn lemma_family_grouping(text: Seq<u8>, s1: int, e1: int, s2: int, e2: int)
    requires
        content_wf(ContentModel::Cloze { text, start: s1, end: e1 }),
        content_wf(ContentModel::Cloze { text, start: s2, end: e2 }),
    ensures
        family_hash_spec(ContentModel::Cloze { text, start: s1, end: e1 }) == family_hash_spec(
            ContentModel::Cloze { text, start: s2, end: e2 },
        ),
        (s1 != s2 || e1 != e2) ==> hash_input(ContentModel::Cloze { text, start: s1, end: e1 })
            != hash_input(ContentModel::Cloze { text, start: s2, end: e2 }),
{
    if s1 != s2 || e1 != e2 {
        lemma_hash_input_distinguishes(
            ContentModel::Cloze { text, start: s1, end: e1 },
            ContentModel::Cloze { text, start: s2, end: e2 },
        );
    }
}

} // verus!
