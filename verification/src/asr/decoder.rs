//! CTC decoding: from class scores to text.
use crate::asr::logits::Logits;
use crate::single;
use crate::text;
use std::collections::HashMap;
use vstd::hash_map::StringHashMap;
use vstd::prelude::*;
use vstd::string::StringExecFns;

verus! {

broadcast use vstd::std_specs::hash::group_hash_axioms;

/// The mark that stands for a space inside a token.
pub const SPACE_MARK: char = '\u{2581}';

// ── Tokens ───────────────────────────────────────────────────────────────────

/// Whether a token carries no text of its own: the empty token, a `<|..|>` tag,
/// or one of the reserved names in any letter case.
pub open spec fn special_token(s: Seq<char>) -> bool {
    let lower = text::lowercase(s);
    ||| s.len() == 0
    ||| text::has_prefix(s, "<|"@) && text::has_suffix(s, "|>"@)
    ||| lower == "<unk>"@
    ||| lower == "<s>"@
    ||| lower == "</s>"@
    ||| lower == "<blank>"@
    ||| lower == "<blk>"@
    ||| lower == "<space>"@
}

/// Whether a token carries no text of its own.
pub fn is_special_token(s: &str) -> (r: bool)
    ensures
        r == special_token(s@),
{
    if s.is_empty() {
        return true;
    }
    if text::starts_with(s, "<|") && text::ends_with(s, "|>") {
        return true;
    }
    let lower = text::to_lowercase(s);
    let l = lower.as_str();
    text::same_text(l, "<unk>") || text::same_text(l, "<s>") || text::same_text(l, "</s>")
        || text::same_text(l, "<blank>") || text::same_text(l, "<blk>") || text::same_text(
        l,
        "<space>",
    )
}

/// The text that a run of tokens reads as: the tokens one after the other, with
/// the space mark and `<space>` read as spaces, and single spaces between words.
pub open spec fn token_text(tokens: Seq<Seq<char>>) -> Seq<char> {
    let marked = text::with_char_replaced(tokens.flatten(), SPACE_MARK, ' ');
    text::single_spaced(text::with_text_replaced(marked, "<space>"@, seq![' ']))
}

/// The text that the tokens read as.
pub fn postprocess_tokens(tokens: Vec<String>) -> (r: String)
    ensures
        r@ == token_text(text::views(tokens@)),
{
    let mut all = String::new();
    let mut i: usize = 0;
    assert(text::views(tokens@).take(0) =~= seq![]);
    assert(text::views(tokens@).take(0).flatten() =~= seq![]);
    while i < tokens.len()
        invariant
            i <= tokens@.len(),
            all@ == text::views(tokens@).take(i as int).flatten(),
        decreases tokens@.len() - i,
    {
        all.append(tokens[i].as_str());
        proof {
            let before = text::views(tokens@).take(i as int);
            before.lemma_flatten_push(tokens@[i as int]@);
            assert(text::views(tokens@).take(i + 1) =~= before.push(tokens@[i as int]@));
        }
        i = i + 1;
    }
    assert(text::views(tokens@).take(i as int) =~= text::views(tokens@));
    let cs = text::chars_of(all.as_str());
    let marked = text::replace_char(&cs, SPACE_MARK, ' ');
    proof {
        reveal_strlit("<space>");
    }
    let pat = text::chars_of("<space>");
    let spaced = text::replace_text(&marked, &pat, ' ');
    text::collapse_whitespace(&spaced)
}

// ── The tokens file ──────────────────────────────────────────────────────────

/// What the tokens file holds, as far as it is read.
#[derive(Debug)]
pub enum TokensDocument {
    /// A JSON object: its keys in order, each with its value where that is an
    /// integer in range.
    Mapping(Vec<(String, Option<i64>)>),
    /// A JSON array: its elements in order, where they are strings.
    Listing(Vec<Option<String>>),
    /// Any other JSON value.
    Other,
}

/// [`TokensDocument`] as a mathematical value.
pub enum TokensView {
    Mapping(Seq<(Seq<char>, Option<i64>)>),
    Listing(Seq<Option<Seq<char>>>),
    Other,
}

impl View for TokensDocument {
    type V = TokensView;

    open spec fn view(&self) -> TokensView {
        match *self {
            TokensDocument::Mapping(m) => TokensView::Mapping(
                m@.map_values(|e: (String, Option<i64>)| (e.0@, e.1)),
            ),
            TokensDocument::Listing(l) => TokensView::Listing(
                l@.map_values(|e: Option<String>| text::opt_view(e)),
            ),
            TokensDocument::Other => TokensView::Other,
        }
    }
}

/// The first `n` entries of a document: each token with its id, in order. In a
/// mapping a token without an integer is passed over; in a list an element's id
/// is its position, and what is no string is passed over.
pub open spec fn entries_upto(doc: TokensView, n: nat) -> Seq<(Seq<char>, i32)>
    decreases n,
{
    if n == 0 {
        seq![]
    } else {
        let before = entries_upto(doc, (n - 1) as nat);
        match doc {
            TokensView::Mapping(m) => match m[n - 1].1 {
                Some(id) => before.push((m[n - 1].0, id as i32)),
                None => before,
            },
            TokensView::Listing(l) => match l[n - 1] {
                Some(token) => before.push((token, (n - 1) as usize as i32)),
                None => before,
            },
            TokensView::Other => before,
        }
    }
}

/// The entries of a document.
pub open spec fn entries(doc: TokensView) -> Seq<(Seq<char>, i32)> {
    match doc {
        TokensView::Mapping(m) => entries_upto(doc, m.len()),
        TokensView::Listing(l) => entries_upto(doc, l.len()),
        TokensView::Other => seq![],
    }
}

/// The id of each token; of a token entered twice, the last one.
pub open spec fn ids_by_token(entries: Seq<(Seq<char>, i32)>) -> Map<Seq<char>, i32>
    decreases entries.len(),
{
    if entries.len() == 0 {
        Map::empty()
    } else {
        ids_by_token(entries.drop_last()).insert(entries.last().0, entries.last().1)
    }
}

/// The token of each id; of an id entered twice, the last one.
pub open spec fn tokens_by_id(entries: Seq<(Seq<char>, i32)>) -> Map<i32, Seq<char>>
    decreases entries.len(),
{
    if entries.len() == 0 {
        Map::empty()
    } else {
        tokens_by_id(entries.drop_last()).insert(entries.last().1, entries.last().0)
    }
}

/// The id of the blank, where a token is named for it.
pub open spec fn blank_of(ids: Map<Seq<char>, i32>) -> Option<i32> {
    if ids.contains_key("<blank>"@) {
        Some(ids["<blank>"@])
    } else if ids.contains_key("<blk>"@) {
        Some(ids["<blk>"@])
    } else {
        None
    }
}

/// The error type of the JSON parser, carried through unread.
#[verifier::external_type_specification]
#[verifier::external_body]
pub struct ExJsonError(serde_json::Error);

/// Why a tokens file could not be used.
#[derive(Debug)]
pub enum TokensError {
    /// The text is no JSON.
    InvalidJson(serde_json::Error),
    /// No token with an id was found in it.
    NoTokens,
}

/// What the tokens file with the given text holds, or `None` where the text is
/// no JSON.
pub uninterp spec fn tokens_document(content: Seq<char>) -> Option<TokensView>;

/// Calls `serde_json::from_str`, and `as_i64` and `as_str` on the values at the
/// top level: whether the text parses, and what it holds, is determined by its
/// characters.
#[verifier::external_body]
fn parse_tokens_document(content: &str) -> (r: Result<TokensDocument, serde_json::Error>)
    ensures
        match r {
            Ok(doc) => tokens_document(content@) == Some(doc@),
            Err(_) => tokens_document(content@) is None,
        },
{
    Ok(match serde_json::from_str(content)? {
        serde_json::Value::Object(m) => TokensDocument::Mapping(
            m.into_iter().map(|(token, id)| (token, id.as_i64())).collect(),
        ),
        serde_json::Value::Array(l) => TokensDocument::Listing(
            l.iter().map(|token| token.as_str().map(String::from)).collect(),
        ),
        _ => TokensDocument::Other,
    })
}

// ── Decoding ─────────────────────────────────────────────────────────────────

/// The best class among the first `n` of a frame and its score: the first of the
/// highest score, or class 0 where no score is above negative infinity. The
/// class `skip`, if any, is left out.
pub open spec fn best_upto(frame: Seq<u32>, skip: Option<i32>, n: nat) -> (i32, u32)
    decreases n,
{
    if n == 0 {
        (0, single::NEG_INFINITY)
    } else {
        let best = best_upto(frame, skip, (n - 1) as nat);
        let id = (n - 1) as usize as i32;
        if skip != Some(id) && single::is_greater(frame[n - 1], best.1) {
            (id, frame[n - 1])
        } else {
            best
        }
    }
}

/// The best class of a frame.
pub open spec fn best_class(frame: Seq<u32>, skip: Option<i32>) -> i32 {
    best_upto(frame, skip, frame.len()).0
}

/// The best class of a frame, and the class that the frame stands for: the best
/// one, or, where `best_non_blank` asks for it and the best is the blank, the
/// best of the others.
pub open spec fn frame_class(frame: Seq<u32>, blank: i32, best_non_blank: bool) -> (i32, i32) {
    let top = best_class(frame, None);
    if top == blank && best_non_blank {
        (top, best_class(frame, Some(blank)))
    } else {
        (top, top)
    }
}

/// The best class of each frame and the class it stands for.
pub open spec fn frame_classes(
    frames: Seq<Seq<u32>>,
    blank: i32,
    best_non_blank: bool,
) -> Seq<(i32, i32)> {
    frames.map_values(|f: Seq<u32>| frame_class(f, blank, best_non_blank))
}

/// The number of frames whose best class is not the blank.
pub open spec fn non_blank_count(frames: Seq<Seq<u32>>, blank: i32) -> nat
    decreases frames.len(),
{
    if frames.len() == 0 {
        0
    } else {
        non_blank_count(frames.drop_last(), blank) + if best_class(frames.last(), None) != blank {
            1nat
        } else {
            0nat
        }
    }
}

/// What is known after some frames: the class that the next frame is compared
/// with, and the tokens emitted so far.
pub struct Emission {
    pub prev: i32,
    pub tokens: Seq<Seq<char>>,
}

/// The frames are read in order. A frame that stands for the blank, or for the
/// class before it, emits nothing; any other emits its token, where it has one
/// that carries text.
pub open spec fn emission(
    classes: Seq<(i32, i32)>,
    vocabulary: Map<i32, Seq<char>>,
    blank: i32,
) -> Emission
    decreases classes.len(),
{
    if classes.len() == 0 {
        Emission { prev: -1i32, tokens: seq![] }
    } else {
        let before = emission(classes.drop_last(), vocabulary, blank);
        let (top, id) = classes.last();
        if id == blank || id == before.prev {
            Emission {
                prev: if top == blank {
                    top
                } else {
                    id
                },
                tokens: before.tokens,
            }
        } else if vocabulary.contains_key(id) && !special_token(vocabulary[id]) {
            Emission { prev: id, tokens: before.tokens.push(vocabulary[id]) }
        } else {
            Emission { prev: id, tokens: before.tokens }
        }
    }
}

/// CTC decoder.
pub struct CTCDecoder {
    token_to_id: StringHashMap<i32>,
    id_to_token: HashMap<i32, String>,
    blank_id: i32,
    has_explicit_blank: bool,
}

impl CTCDecoder {
    /// The id of each token.
    pub closed spec fn ids(self) -> Map<Seq<char>, i32> {
        self.token_to_id@
    }

    /// The token of each id.
    pub closed spec fn vocabulary(self) -> Map<i32, Seq<char>> {
        self.id_to_token@.map_values(|t: String| t@)
    }

    /// The class read as the blank.
    pub closed spec fn blank(self) -> i32 {
        if self.has_explicit_blank {
            self.blank_id
        } else {
            0
        }
    }

    /// The text that the given frames decode to.
    pub open spec fn decoded(self, frames: Seq<Seq<u32>>, best_non_blank: bool) -> Seq<char> {
        token_text(
            emission(
                frame_classes(frames, self.blank(), best_non_blank),
                self.vocabulary(),
                self.blank(),
            ).tokens,
        )
    }

    /// Makes a decoder from what a tokens file holds.
    pub fn from_document(doc: TokensDocument) -> (r: Result<CTCDecoder, TokensError>)
        ensures
            match r {
                Ok(d) => {
                    let ids = ids_by_token(entries(doc@));
                    &&& entries(doc@).len() > 0
                    &&& d.ids() == ids
                    &&& d.vocabulary() == tokens_by_id(entries(doc@))
                    &&& d.blank() == (match blank_of(ids) {
                        Some(id) => id,
                        None => 0,
                    })
                },
                Err(e) => e is NoTokens && entries(doc@).len() == 0,
            },
    {
        let ghost view = doc@;
        let mut token_to_id: StringHashMap<i32> = StringHashMap::new();
        let mut id_to_token: HashMap<i32, String> = HashMap::new();
        let ghost mut done: Seq<(Seq<char>, i32)> = seq![];
        assert(id_to_token@.map_values(|t: String| t@) =~= tokens_by_id(done));
        match &doc {
            TokensDocument::Mapping(m) => {
                let mut i: usize = 0;
                while i < m.len()
                    invariant
                        i <= m@.len(),
                        view == doc@,
                        doc == TokensDocument::Mapping(*m),
                        done == entries_upto(view, i as nat),
                        token_to_id@ == ids_by_token(done),
                        id_to_token@.map_values(|t: String| t@) == tokens_by_id(done),
                    decreases m@.len() - i,
                {
                    if let Some(id) = m[i].1 {
                        let id_i32: i32 = #[verifier::truncate]
                        (id as i32);
                        let ghost next = done.push((m@[i as int].0@, id_i32));
                        assert(next.drop_last() =~= done);
                        let ghost before = id_to_token@;
                        token_to_id.insert(m[i].0.clone(), id_i32);
                        id_to_token.insert(id_i32, m[i].0.clone());
                        proof {
                            done = next;
                            assert(id_to_token@.map_values(|t: String| t@) =~= before.map_values(
                                |t: String| t@,
                            ).insert(id_i32, m@[i as int].0@));
                        }
                    }
                    i = i + 1;
                }
            },
            TokensDocument::Listing(l) => {
                let mut i: usize = 0;
                while i < l.len()
                    invariant
                        i <= l@.len(),
                        view == doc@,
                        doc == TokensDocument::Listing(*l),
                        done == entries_upto(view, i as nat),
                        token_to_id@ == ids_by_token(done),
                        id_to_token@.map_values(|t: String| t@) == tokens_by_id(done),
                    decreases l@.len() - i,
                {
                    if let Some(token) = &l[i] {
                        let id_i32: i32 = #[verifier::truncate]
                        (i as i32);
                        let ghost next = done.push((token@, id_i32));
                        assert(next.drop_last() =~= done);
                        let ghost before = id_to_token@;
                        token_to_id.insert(token.clone(), id_i32);
                        id_to_token.insert(id_i32, token.clone());
                        proof {
                            done = next;
                            assert(id_to_token@.map_values(|t: String| t@) =~= before.map_values(
                                |t: String| t@,
                            ).insert(id_i32, token@));
                        }
                    }
                    i = i + 1;
                }
            },
            TokensDocument::Other => {},
        }
        assert(done == entries(view));
        if token_to_id.is_empty() {
            proof {
                if done.len() > 0 {
                    assert(token_to_id@.contains_key(done.last().0));
                }
            }
            return Err(TokensError::NoTokens);
        }
        proof {
            if done.len() == 0 {
                assert(token_to_id@ =~= Map::empty());
            }
        }
        let blank: Option<i32> = match token_to_id.get("<blank>") {
            Some(id) => Some(*id),
            None => match token_to_id.get("<blk>") {
                Some(id) => Some(*id),
                None => None,
            },
        };
        let (blank_id, has_explicit_blank): (i32, bool) = match blank {
            Some(id) => (id, true),
            None => (0, false),
        };
        Ok(CTCDecoder { token_to_id, id_to_token, blank_id, has_explicit_blank })
    }

    /// Makes a decoder from the text of a `tokens.json` file: a mapping of token
    /// to id, or a list of tokens.
    pub fn from_tokens_file(content: &str) -> (r: Result<CTCDecoder, TokensError>)
        ensures
            match tokens_document(content@) {
                None => r matches Err(TokensError::InvalidJson(_)),
                Some(doc) => if entries(doc).len() == 0 {
                    r matches Err(TokensError::NoTokens)
                } else {
                    &&& r matches Ok(d)
                    &&& d.ids() == ids_by_token(entries(doc))
                    &&& d.vocabulary() == tokens_by_id(entries(doc))
                    &&& d.blank() == (match blank_of(ids_by_token(entries(doc))) {
                        Some(id) => id,
                        None => 0,
                    })
                },
            },
    {
        match parse_tokens_document(content) {
            Ok(doc) => CTCDecoder::from_document(doc),
            Err(e) => Err(TokensError::InvalidJson(e)),
        }
    }

    /// The best class of a frame.
    fn best(frame: &Vec<u32>, skip: Option<i32>) -> (r: i32)
        ensures
            r == best_class(frame@, skip),
    {
        let mut best_id: i32 = 0;
        let mut best_score: u32 = single::NEG_INFINITY;
        let mut j: usize = 0;
        while j < frame.len()
            invariant
                j <= frame@.len(),
                (best_id, best_score) == best_upto(frame@, skip, j as nat),
            decreases frame@.len() - j,
        {
            let id: i32 = #[verifier::truncate]
            (j as i32);
            let skipped: bool = match skip {
                Some(s) => s == id,
                None => false,
            };
            if !skipped && single::greater(frame[j], best_score) {
                best_id = id;
                best_score = frame[j];
            }
            j = j + 1;
        }
        best_id
    }

    /// CTC greedy decoding. With `best_non_blank`, a frame whose best class is
    /// the blank stands for the best of the other classes.
    pub fn decode(&self, logits: &Logits, best_non_blank: bool) -> (r: String)
        requires
            logits.wf(),
        ensures
            r@ == self.decoded(logits.frames(), best_non_blank),
    {
        let blank: i32 = if self.has_explicit_blank {
            self.blank_id
        } else {
            0
        };
        let ghost classes = frame_classes(logits.frames(), blank, best_non_blank);
        let mut prev: i32 = -1;
        let mut tokens: Vec<String> = Vec::new();
        let mut i: usize = 0;
        assert(classes.take(0) =~= seq![]);
        assert(text::views(tokens@) =~= seq![]);
        while i < logits.rows.len()
            invariant
                i <= logits.rows@.len(),
                blank == self.blank(),
                classes == frame_classes(logits.frames(), blank, best_non_blank),
                (Emission { prev, tokens: text::views(tokens@) }) == emission(
                    classes.take(i as int),
                    self.vocabulary(),
                    blank,
                ),
            decreases logits.rows@.len() - i,
        {
            let frame = &logits.rows[i];
            let top: i32 = CTCDecoder::best(frame, None);
            let id: i32 = if top == blank && best_non_blank {
                CTCDecoder::best(frame, Some(blank))
            } else {
                top
            };
            assert(classes.take(i + 1).drop_last() =~= classes.take(i as int));
            assert(classes.take(i + 1).last() == (top, id));
            if id == blank || id == prev {
                prev = if top == blank {
                    top
                } else {
                    id
                };
            } else {
                if let Some(token) = self.id_to_token.get(&id) {
                    if !is_special_token(token.as_str()) {
                        let ghost before = tokens@;
                        tokens.push(token.clone());
                        assert(text::views(tokens@) =~= text::views(before).push(token@));
                    }
                }
                prev = id;
            }
            i = i + 1;
        }
        assert(classes.take(i as int) =~= classes);
        postprocess_tokens(tokens)
    }

    /// The token of a class as it is shown, `?` where it has none.
    pub fn token_name(&self, class: usize) -> (r: String)
        ensures
            r@ == (if self.vocabulary().contains_key(class as i32) {
                self.vocabulary()[class as i32]
            } else {
                "?"@
            }),
    {
        let id: i32 = #[verifier::truncate]
        (class as i32);
        match self.id_to_token.get(&id) {
            Some(token) => token.clone(),
            None => "?".to_owned(),
        }
    }

    /// The number of frames whose best class is not the blank.
    pub fn non_blank_frames(&self, logits: &Logits) -> (r: usize)
        ensures
            r == non_blank_count(logits.frames(), self.blank()),
    {
        let blank: i32 = if self.has_explicit_blank {
            self.blank_id
        } else {
            0
        };
        let ghost frames = logits.frames();
        let mut count: usize = 0;
        let mut i: usize = 0;
        assert(frames.take(0) =~= seq![]);
        while i < logits.rows.len()
            invariant
                i <= logits.rows@.len(),
                frames == logits.frames(),
                blank == self.blank(),
                count <= i,
                count == non_blank_count(frames.take(i as int), blank),
            decreases logits.rows@.len() - i,
        {
            let top: i32 = CTCDecoder::best(&logits.rows[i], None);
            assert(frames.take(i + 1).drop_last() =~= frames.take(i as int));
            assert(frames.take(i + 1).last() == logits.rows@[i as int]@);
            if top != blank {
                count = count + 1;
            }
            i = i + 1;
        }
        assert(frames.take(i as int) =~= frames);
        count
    }

    /// The number of tokens.
    pub fn vocab_size(&self) -> (r: usize)
        ensures
            r == self.ids().len(),
    {
        self.token_to_id.len()
    }
}

// ── Laws ─────────────────────────────────────────────────────────────────────

/// What the scan of the first `n` classes has found.
proof fn lemma_best_upto(frame: Seq<u32>, skip: Option<i32>, n: nat)
    requires
        n <= frame.len() <= i32::MAX,
    ensures
        ({
            let best = best_upto(frame, skip, n);
            &&& !single::is_nan(best.1)
            &&& forall|j: int|
                #![trigger frame[j]]
                0 <= j < n ==> skip == Some(j as i32) || !single::is_greater(frame[j], best.1)
            &&& best.1 == single::NEG_INFINITY ==> best.0 == 0
            &&& best.1 != single::NEG_INFINITY ==> {
                &&& 0 <= best.0 < n
                &&& skip != Some(best.0)
                &&& frame[best.0 as int] == best.1
                &&& single::is_greater(best.1, single::NEG_INFINITY)
                &&& forall|j: int|
                    #![trigger frame[j]]
                    0 <= j < best.0 ==> skip == Some(j as i32) || single::is_nan(frame[j])
                        || single::is_greater(best.1, frame[j])
            }
        }),
    decreases n,
{
    if n > 0 {
        lemma_best_upto(frame, skip, (n - 1) as nat);
    }
}

/// The class read off a frame is the first with the highest score; it is class 0
/// where no score is above negative infinity. (A vocabulary beyond `i32::MAX`
/// classes has no room in a class id.)
pub proof fn law_best_class_is_first_maximum(frame: Seq<u32>)
    requires
        frame.len() <= i32::MAX,
    ensures
        ({
            let best = best_class(frame, None);
            if exists|j: int|
                #![trigger frame[j]]
                0 <= j < frame.len() && single::is_greater(frame[j], single::NEG_INFINITY) {
                &&& 0 <= best < frame.len()
                &&& forall|j: int|
                    #![trigger frame[j]]
                    0 <= j < frame.len() ==> !single::is_greater(frame[j], frame[best as int])
                &&& forall|j: int|
                    #![trigger frame[j]]
                    0 <= j < best ==> single::is_nan(frame[j]) || single::is_greater(
                        frame[best as int],
                        frame[j],
                    )
            } else {
                best == 0
            }
        }),
{
    lemma_best_upto(frame, None, frame.len());
}

/// With `best_non_blank`, a frame never stands for the blank as long as another
/// class has a score above negative infinity.
pub proof fn law_best_non_blank_avoids_blank(frame: Seq<u32>, blank: i32, j: int)
    requires
        frame.len() <= i32::MAX,
        0 <= j < frame.len(),
        j != blank,
        single::is_greater(frame[j], single::NEG_INFINITY),
    ensures
        frame_class(frame, blank, true).1 != blank,
{
    lemma_best_upto(frame, None, frame.len());
    lemma_best_upto(frame, Some(blank), frame.len());
    assert(frame[j] == frame[j]);
}

/// Where every class is the blank, nothing is emitted.
proof fn lemma_blank_emission(
    classes: Seq<(i32, i32)>,
    vocabulary: Map<i32, Seq<char>>,
    blank: i32,
)
    requires
        forall|i: int| 0 <= i < classes.len() ==> (#[trigger] classes[i]).1 == blank,
    ensures
        emission(classes, vocabulary, blank).tokens == Seq::<Seq<char>>::empty(),
    decreases classes.len(),
{
    if classes.len() > 0 {
        let init = classes.drop_last();
        assert forall|i: int| 0 <= i < init.len() implies (#[trigger] init[i]).1 == blank by {
            assert(init[i] == classes[i]);
        }
        lemma_blank_emission(init, vocabulary, blank);
        assert(classes[classes.len() - 1].1 == blank);
    }
}

/// No tokens read as no text.
proof fn lemma_no_tokens_no_text()
    ensures
        token_text(seq![]) == Seq::<char>::empty(),
{
    let none = Seq::<Seq<char>>::empty();
    assert(none.flatten() =~= Seq::<char>::empty());
    let marked = text::with_char_replaced(Seq::<char>::empty(), SPACE_MARK, ' ');
    assert(marked =~= Seq::<char>::empty());
    reveal_strlit("<space>");
    assert(text::with_text_replaced(marked, "<space>"@, seq![' ']) =~= Seq::<char>::empty());
}

/// Frames that all read as the blank decode to the empty text; so do no frames.
pub proof fn law_blank_frames_decode_to_nothing(decoder: CTCDecoder, frames: Seq<Seq<u32>>)
    requires
        forall|i: int|
            0 <= i < frames.len() ==> best_class(#[trigger] frames[i], None) == decoder.blank(),
    ensures
        decoder.decoded(frames, false) == Seq::<char>::empty(),
{
    let classes = frame_classes(frames, decoder.blank(), false);
    assert forall|i: int| 0 <= i < classes.len() implies (#[trigger] classes[i]).1
        == decoder.blank() by {
        assert(best_class(frames[i], None) == decoder.blank());
    }
    lemma_blank_emission(classes, decoder.vocabulary(), decoder.blank());
    lemma_no_tokens_no_text();
}

/// What is emitted after two runs of frames that left the same behind is the
/// same.
proof fn lemma_emission_after(
    a: Seq<(i32, i32)>,
    b: Seq<(i32, i32)>,
    after: Seq<(i32, i32)>,
    vocabulary: Map<i32, Seq<char>>,
    blank: i32,
)
    requires
        emission(a, vocabulary, blank) == emission(b, vocabulary, blank),
    ensures
        emission(a + after, vocabulary, blank) == emission(b + after, vocabulary, blank),
    decreases after.len(),
{
    if after.len() == 0 {
        assert(a + after =~= a);
        assert(b + after =~= b);
    } else {
        lemma_emission_after(a, b, after.drop_last(), vocabulary, blank);
        assert((a + after).drop_last() =~= a + after.drop_last());
        assert((b + after).drop_last() =~= b + after.drop_last());
        assert((a + after).last() == after.last());
        assert((b + after).last() == after.last());
    }
}

/// A class repeated by the next frame emits nothing more.
proof fn lemma_emission_repeat(
    before: Seq<(i32, i32)>,
    c: i32,
    vocabulary: Map<i32, Seq<char>>,
    blank: i32,
)
    ensures
        emission(before.push((c, c)).push((c, c)), vocabulary, blank) == emission(
            before.push((c, c)),
            vocabulary,
            blank,
        ),
{
    let once = before.push((c, c));
    assert(once.drop_last() =~= before);
    assert(once.push((c, c)).drop_last() =~= once);
    assert(emission(once, vocabulary, blank).prev == c);
}

/// A frame that reads as the class before it changes nothing: the second of two
/// neighbouring frames with the same best class can be left out.
pub proof fn law_repeated_class_collapses(
    decoder: CTCDecoder,
    before: Seq<Seq<u32>>,
    frame: Seq<u32>,
    again: Seq<u32>,
    after: Seq<Seq<u32>>,
)
    requires
        best_class(frame, None) == best_class(again, None),
    ensures
        decoder.decoded(before + seq![frame, again] + after, false) == decoder.decoded(
            before + seq![frame] + after,
            false,
        ),
{
    let blank = decoder.blank();
    let v = decoder.vocabulary();
    let c = best_class(frame, None);
    let cb = frame_classes(before, blank, false);
    let ca = frame_classes(after, blank, false);
    lemma_emission_repeat(cb, c, v, blank);
    lemma_emission_after(cb.push((c, c)).push((c, c)), cb.push((c, c)), ca, v, blank);
    assert(frame_classes(before + seq![frame, again] + after, blank, false) =~= cb.push(
        (c, c),
    ).push((c, c)) + ca);
    assert(frame_classes(before + seq![frame] + after, blank, false) =~= cb.push((c, c)) + ca);
}

/// A class each for the frames, of which the class read off and the class stood
/// for are the same.
pub open spec fn as_pairs(classes: Seq<i32>) -> Seq<(i32, i32)> {
    classes.map_values(|c: i32| (c, c))
}

/// The class read off each frame.
pub open spec fn best_classes(frames: Seq<Seq<u32>>) -> Seq<i32> {
    frames.map_values(|f: Seq<u32>| best_class(f, None))
}

/// Whether frame `i` gives its token: its class is not the blank and not that of
/// the frame before, and it has a token, which carries text.
pub open spec fn gives_token(
    classes: Seq<i32>,
    vocabulary: Map<i32, Seq<char>>,
    blank: i32,
    i: int,
) -> bool {
    &&& classes[i] != blank
    &&& i > 0 ==> classes[i] != classes[i - 1]
    &&& vocabulary.contains_key(classes[i])
    &&& !special_token(vocabulary[classes[i]])
}

/// The frames among the first `n` that give their token, in order.
pub open spec fn giving_frames(
    classes: Seq<i32>,
    vocabulary: Map<i32, Seq<char>>,
    blank: i32,
    n: nat,
) -> Seq<int> {
    Seq::new(n, |i: int| i).filter(|i: int| gives_token(classes, vocabulary, blank, i))
}

/// One frame more gives its token or none.
proof fn lemma_giving_frames_step(
    classes: Seq<i32>,
    vocabulary: Map<i32, Seq<char>>,
    blank: i32,
    n: nat,
)
    requires
        n > 0,
    ensures
        ({
            let before = giving_frames(classes, vocabulary, blank, (n - 1) as nat);
            giving_frames(classes, vocabulary, blank, n) == if gives_token(
                classes,
                vocabulary,
                blank,
                n - 1,
            ) {
                before.push(n - 1)
            } else {
                before
            }
        }),
{
    let all = Seq::new(n, |i: int| i);
    assert(all.drop_last() =~= Seq::new((n - 1) as nat, |i: int| i));
    reveal(Seq::filter);
}

/// What the first `n` frames emit, and the class that they leave behind.
proof fn lemma_emitted_tokens(
    classes: Seq<i32>,
    vocabulary: Map<i32, Seq<char>>,
    blank: i32,
    n: nat,
)
    requires
        n <= classes.len(),
        forall|i: int| 0 <= i < classes.len() ==> #[trigger] classes[i] >= 0,
    ensures
        ({
            let e = emission(as_pairs(classes).take(n as int), vocabulary, blank);
            &&& e.tokens == giving_frames(classes, vocabulary, blank, n).map_values(
                |i: int| vocabulary[classes[i]],
            )
            &&& e.prev == if n == 0 {
                -1i32
            } else {
                classes[n - 1]
            }
        }),
    decreases n,
{
    let pairs = as_pairs(classes);
    let f = |i: int| vocabulary[classes[i]];
    if n == 0 {
        assert(pairs.take(0) =~= seq![]);
        reveal(Seq::filter);
        assert(giving_frames(classes, vocabulary, blank, 0).map_values(f) =~= seq![]);
    } else {
        lemma_emitted_tokens(classes, vocabulary, blank, (n - 1) as nat);
        lemma_giving_frames_step(classes, vocabulary, blank, n);
        assert(pairs.take(n as int).drop_last() =~= pairs.take(n - 1));
        assert(pairs.take(n as int).last() == (classes[n - 1], classes[n - 1]));
        let before = giving_frames(classes, vocabulary, blank, (n - 1) as nat);
        assert(before.push(n - 1).map_values(f) =~= before.map_values(f).push(f(n - 1)));
        assert(classes[n - 1] >= 0);
    }
}

/// The classes read off frames are class numbers.
proof fn lemma_best_classes(frames: Seq<Seq<u32>>)
    requires
        forall|i: int| 0 <= i < frames.len() ==> (#[trigger] frames[i]).len() <= i32::MAX,
    ensures
        forall|i: int| 0 <= i < frames.len() ==> #[trigger] best_classes(frames)[i] >= 0,
{
    assert forall|i: int| 0 <= i < frames.len() implies #[trigger] best_classes(frames)[i]
        >= 0 by {
        lemma_best_upto(frames[i], None, frames[i].len());
    }
}

/// What frames decode to, without `best_non_blank`: the tokens of just those
/// frames whose class is not the blank, differs from the class before, and has a
/// token that carries text. (A vocabulary beyond `i32::MAX` classes has no room
/// in a class id.)
pub proof fn law_decoded_frame_by_frame(decoder: CTCDecoder, frames: Seq<Seq<u32>>)
    requires
        forall|i: int| 0 <= i < frames.len() ==> (#[trigger] frames[i]).len() <= i32::MAX,
    ensures
        ({
            let classes = best_classes(frames);
            let giving = giving_frames(
                classes,
                decoder.vocabulary(),
                decoder.blank(),
                frames.len(),
            );
            decoder.decoded(frames, false) == token_text(
                giving.map_values(|i: int| decoder.vocabulary()[classes[i]]),
            )
        }),
{
    let classes = best_classes(frames);
    lemma_best_classes(frames);
    lemma_emitted_tokens(classes, decoder.vocabulary(), decoder.blank(), frames.len());
    assert(frame_classes(frames, decoder.blank(), false) =~= as_pairs(classes));
    assert(as_pairs(classes).take(frames.len() as int) =~= as_pairs(classes));
}

/// A leading blank changes nothing of what is emitted.
proof fn lemma_leading_blank(
    classes: Seq<i32>,
    vocabulary: Map<i32, Seq<char>>,
    blank: i32,
)
    requires
        forall|i: int| 0 <= i < classes.len() ==> #[trigger] classes[i] >= 0,
    ensures
        ({
            let plain = emission(as_pairs(classes), vocabulary, blank);
            let led = emission(seq![(blank, blank)] + as_pairs(classes), vocabulary, blank);
            &&& led.tokens == plain.tokens
            &&& classes.len() > 0 ==> led.prev == plain.prev
            &&& classes.len() == 0 ==> led.prev == blank
        }),
    decreases classes.len(),
{
    let pairs = as_pairs(classes);
    let led = seq![(blank, blank)] + pairs;
    if classes.len() == 0 {
        assert(led.drop_last() =~= seq![]);
        assert(led.last() == (blank, blank));
        assert(pairs =~= seq![]);
    } else {
        let init = classes.drop_last();
        assert forall|i: int| 0 <= i < init.len() implies #[trigger] init[i] >= 0 by {
            assert(init[i] == classes[i]);
        }
        lemma_leading_blank(init, vocabulary, blank);
        assert(pairs.drop_last() =~= as_pairs(init));
        assert(led.drop_last() =~= seq![(blank, blank)] + as_pairs(init));
        assert(classes[classes.len() - 1] >= 0);
        if init.len() == 0 {
            assert(as_pairs(init) =~= seq![]);
        }
    }
}

/// A frame that reads as the blank changes nothing at the front. (A vocabulary
/// beyond `i32::MAX` classes has no room in a class id.)
pub proof fn law_leading_blank_changes_nothing(
    decoder: CTCDecoder,
    frames: Seq<Seq<u32>>,
    blank_frame: Seq<u32>,
)
    requires
        best_class(blank_frame, None) == decoder.blank(),
        forall|i: int| 0 <= i < frames.len() ==> (#[trigger] frames[i]).len() <= i32::MAX,
    ensures
        decoder.decoded(seq![blank_frame] + frames, false) == decoder.decoded(frames, false),
{
    let blank = decoder.blank();
    let classes = best_classes(frames);
    lemma_best_classes(frames);
    lemma_leading_blank(classes, decoder.vocabulary(), blank);
    assert(frame_classes(frames, blank, false) =~= as_pairs(classes));
    assert(frame_classes(seq![blank_frame] + frames, blank, false) =~= seq![(blank, blank)]
        + as_pairs(classes));
}

/// A frame that reads as the blank changes nothing at the end.
pub proof fn law_trailing_blank_changes_nothing(
    decoder: CTCDecoder,
    frames: Seq<Seq<u32>>,
    blank_frame: Seq<u32>,
)
    requires
        best_class(blank_frame, None) == decoder.blank(),
    ensures
        decoder.decoded(frames.push(blank_frame), false) == decoder.decoded(frames, false),
{
    let blank = decoder.blank();
    let classes = frame_classes(frames, blank, false);
    let ended = frame_classes(frames.push(blank_frame), blank, false);
    assert(ended =~= classes.push((blank, blank)));
    assert(ended.drop_last() =~= classes);
}

/// A blank between two frames of the same class keeps them apart: where the
/// class has a token that carries text, it is emitted once more.
pub proof fn law_blank_separates_repeats(
    before: Seq<(i32, i32)>,
    c: i32,
    vocabulary: Map<i32, Seq<char>>,
    blank: i32,
)
    requires
        c != blank,
        vocabulary.contains_key(c),
        !special_token(vocabulary[c]),
    ensures
        emission(
            before.push((c, c)).push((blank, blank)).push((c, c)),
            vocabulary,
            blank,
        ).tokens == emission(before.push((c, c)), vocabulary, blank).tokens.push(vocabulary[c]),
{
    let once = before.push((c, c));
    let apart = once.push((blank, blank));
    assert(apart.drop_last() =~= once);
    assert(apart.push((c, c)).drop_last() =~= apart);
    assert(emission(apart, vocabulary, blank).prev == blank);
}

/// Every emitted token is a token of the vocabulary that carries text: tags and
/// reserved names never reach the result.
pub proof fn law_only_text_tokens_are_emitted(
    classes: Seq<(i32, i32)>,
    vocabulary: Map<i32, Seq<char>>,
    blank: i32,
)
    ensures
        forall|k: int|
            0 <= k < emission(classes, vocabulary, blank).tokens.len() ==> {
                let token = #[trigger] emission(classes, vocabulary, blank).tokens[k];
                !special_token(token) && vocabulary.contains_value(token)
            },
    decreases classes.len(),
{
    if classes.len() > 0 {
        law_only_text_tokens_are_emitted(classes.drop_last(), vocabulary, blank);
        let before = emission(classes.drop_last(), vocabulary, blank).tokens;
        let now = emission(classes, vocabulary, blank).tokens;
        let id = classes.last().1;
        assert forall|k: int| 0 <= k < now.len() implies {
            let token = #[trigger] now[k];
            !special_token(token) && vocabulary.contains_value(token)
        } by {
            if k < before.len() {
                assert(now[k] == before[k]);
            } else {
                assert(vocabulary.contains_key(id) && vocabulary[id] == now[k]);
            }
        }
    }
}

/// Decoded text holds no space mark and no `<space>`, and its only whitespace is
/// single spaces between words.
pub proof fn law_decoded_text_is_clean(tokens: Seq<Seq<char>>)
    ensures
        !token_text(tokens).contains(SPACE_MARK),
        !text::has_text(token_text(tokens), "<space>"@),
        text::is_single_spaced(token_text(tokens)),
        text::trimmed(token_text(tokens)) == token_text(tokens),
{
    let p = |c: char| c != SPACE_MARK;
    let marked = text::with_char_replaced(tokens.flatten(), SPACE_MARK, ' ');
    assert forall|i: int| 0 <= i < marked.len() implies p(#[trigger] marked[i]) by {}
    assert(seq![' '].all(p));
    text::lemma_replaced_chars(marked, "<space>"@, seq![' '], p);
    let spaced = text::with_text_replaced(marked, "<space>"@, seq![' ']);
    text::lemma_single_spaced_chars(spaced, p);
    text::law_collapsed_text_is_single_spaced(spaced);
    let r = token_text(tokens);
    assert(r.all(p));
    if r.contains(SPACE_MARK) {
        let i = choose|i: int| 0 <= i < r.len() && r[i] == SPACE_MARK;
        assert(p(r[i]));
    }
    reveal_strlit("<space>");
    assert(text::is_word("<space>"@));
    text::law_replaced_text_is_gone(marked, "<space>"@, ' ');
    text::lemma_single_spaced_has_no_word(spaced, "<space>"@);
}

/// Text that was made of tokens reads as itself.
pub proof fn law_decoded_text_is_final(tokens: Seq<Seq<char>>)
    ensures
        token_text(seq![token_text(tokens)]) == token_text(tokens),
{
    let r = token_text(tokens);
    law_decoded_text_is_clean(tokens);
    seq![r].lemma_flatten_one_element();
    assert(text::with_char_replaced(r, SPACE_MARK, ' ') =~= r);
    text::lemma_nothing_to_replace(r, "<space>"@, seq![' ']);
    let marked = text::with_char_replaced(tokens.flatten(), SPACE_MARK, ' ');
    text::law_collapsing_is_final(text::with_text_replaced(marked, "<space>"@, seq![' ']));
}

/// Where one token ends and the next starts makes no difference: a mark that is
/// spread over two tokens is read like one in a single token.
pub proof fn law_only_the_joined_tokens_matter(tokens: Seq<Seq<char>>)
    ensures
        token_text(seq![tokens.flatten()]) == token_text(tokens),
{
    seq![tokens.flatten()].lemma_flatten_one_element();
}

/// The text that is left of joined tokens once the marks are read, before
/// whitespace is collapsed, falls into two parts at a separator.
proof fn lemma_marks_split(a: Seq<char>, sep: Seq<char>, b: Seq<char>) -> (c: char)
    requires
        sep == "<space>"@ || sep == seq!['\u{2581}'] || (sep.len() == 1 && text::is_white(sep[0])),
    ensures
        text::is_white(c),
        ({
            let unmarked = |s: Seq<char>|
                text::with_text_replaced(
                    text::with_char_replaced(s, SPACE_MARK, ' '),
                    "<space>"@,
                    seq![' '],
                );
            unmarked(a + sep + b) == unmarked(a) + seq![c] + unmarked(b)
        }),
{
    reveal_strlit("<space>");
    let ma = text::with_char_replaced(a, SPACE_MARK, ' ');
    let mb = text::with_char_replaced(b, SPACE_MARK, ' ');
    let ms = text::with_char_replaced(sep, SPACE_MARK, ' ');
    assert(text::with_char_replaced(a + sep + b, SPACE_MARK, ' ') =~= ma + ms + mb);
    if sep == "<space>"@ {
        assert(ms =~= sep);
        text::law_every_occurrence_is_replaced(ma, mb, "<space>"@, seq![' ']);
        ' '
    } else {
        let c = ms[0];
        assert(ms =~= seq![c]);
        assert(text::is_white(c));
        text::law_replacing_breaks_at_other_characters(ma, c, mb, "<space>"@, seq![' ']);
        c
    }
}

/// A space mark, a `<space>` and a whitespace character each part the text that
/// tokens read as: what stands before it and what stands after it are read by
/// themselves, with one space between them, or none where one of them is empty.
pub proof fn law_text_parts_at_separators(
    tokens: Seq<Seq<char>>,
    a: Seq<char>,
    sep: Seq<char>,
    b: Seq<char>,
)
    requires
        tokens.flatten() == a + sep + b,
        sep == "<space>"@ || sep == seq!['\u{2581}'] || (sep.len() == 1 && text::is_white(sep[0])),
    ensures
        ({
            let before = token_text(seq![a]);
            let after = token_text(seq![b]);
            token_text(tokens) == before + (if before.len() > 0 && after.len() > 0 {
                seq![' ']
            } else {
                seq![]
            }) + after
        }),
{
    let c = lemma_marks_split(a, sep, b);
    seq![a].lemma_flatten_one_element();
    seq![b].lemma_flatten_one_element();
    let ua = text::with_text_replaced(
        text::with_char_replaced(a, SPACE_MARK, ' '),
        "<space>"@,
        seq![' '],
    );
    let ub = text::with_text_replaced(
        text::with_char_replaced(b, SPACE_MARK, ' '),
        "<space>"@,
        seq![' '],
    );
    text::law_collapsing_breaks_at_whitespace(ua, c, ub);
}

/// Tokens that are joined to text with single spaces between its words, without
/// a space mark and without a `<space>`, read as that text: nothing in it is
/// changed or left out.
pub proof fn law_plain_text_is_kept(tokens: Seq<Seq<char>>)
    requires
        forall|i: int|
            0 <= i < tokens.flatten().len() && text::is_white(#[trigger] tokens.flatten()[i]) ==> {
                &&& tokens.flatten()[i] == ' '
                &&& 0 < i < tokens.flatten().len() - 1
                &&& !text::is_white(tokens.flatten()[i - 1])
                &&& !text::is_white(tokens.flatten()[i + 1])
            },
        !tokens.flatten().contains('\u{2581}'),
        !text::has_text(tokens.flatten(), "<space>"@),
    ensures
        token_text(tokens) == tokens.flatten(),
{
    let s = tokens.flatten();
    assert forall|i: int| 0 <= i < s.len() implies #[trigger] s[i] != SPACE_MARK by {
        assert(s.contains(s[i]));
    }
    assert(text::with_char_replaced(s, SPACE_MARK, ' ') =~= s);
    text::lemma_nothing_to_replace(s, "<space>"@, seq![' ']);
    text::law_single_spaced_text_is_kept(s);
}

/// The text that tokens read as has every character of the joined tokens that is
/// neither whitespace nor the space mark, and no other, in the same order. (The
/// characters of `<space>` are counted where no `<space>` is in the tokens.)
pub proof fn law_every_other_character_is_kept(
    tokens: Seq<Seq<char>>,
    keep: spec_fn(char) -> bool,
)
    requires
        forall|c: char| #[trigger] keep(c) ==> !text::is_white(c),
        !keep('\u{2581}'),
        text::has_text(tokens.flatten(), "<space>"@) ==> {
            !keep('<') && !keep('s') && !keep('p') && !keep('a') && !keep('c') && !keep('e')
                && !keep('>')
        },
    ensures
        token_text(tokens).filter(keep) == tokens.flatten().filter(keep),
{
    let s = tokens.flatten();
    let marked = text::with_char_replaced(s, SPACE_MARK, ' ');
    let spaced = text::with_text_replaced(marked, "<space>"@, seq![' ']);
    reveal_strlit("<space>");
    assert(text::is_white(' '));
    assert(!keep(' '));
    text::law_replacing_a_character_keeps_the_others(s, SPACE_MARK, ' ', keep);
    text::law_collapsing_keeps_other_characters(spaced, keep);
    if text::has_text(s, "<space>"@) {
        text::law_replacing_text_keeps_the_others(marked, "<space>"@, seq![' '], keep);
    } else {
        assert forall|i: int| !text::occurs_at(marked, "<space>"@, i) by {
            if text::occurs_at(marked, "<space>"@, i) {
                let there = marked.subrange(i, i + 7);
                assert forall|k: int| 0 <= k < 7 implies #[trigger] s[i + k] == "<space>"@[k] by {
                    assert(there[k] == "<space>"@[k]);
                    assert("<space>"@[k] != ' ');
                }
                assert(s.subrange(i, i + 7) =~= "<space>"@);
                assert(text::occurs_at(s, "<space>"@, i));
            }
        }
        text::lemma_nothing_to_replace(marked, "<space>"@, seq![' ']);
    }
}

/// Of ASCII tokens, just these carry no text: the empty one, those that start
/// with `<|` and end with `|>`, and six names, in which capitals count as small
/// letters.
pub proof fn law_special_tokens_of_ascii(s: Seq<char>)
    requires
        forall|i: int| 0 <= i < s.len() ==> (#[trigger] s[i]) as int <= 127,
    ensures
        special_token(s) <==> {
            let is = |name: Seq<char>|
                {
                    &&& s.len() == name.len()
                    &&& forall|i: int|
                        0 <= i < s.len() ==> #[trigger] s[i] == name[i] || (65 <= s[i] as int <= 90
                            && s[i] as int + 32 == name[i] as int)
                };
            ||| s.len() == 0
            ||| s.len() >= 2 && s[0] == '<' && s[1] == '|' && s[s.len() - 2] == '|' && s[s.len()
                - 1] == '>'
            ||| is("<unk>"@)
            ||| is("<s>"@)
            ||| is("</s>"@)
            ||| is("<blank>"@)
            ||| is("<blk>"@)
            ||| is("<space>"@)
        },
{
    lemma_tag_ends(s);
    lemma_same_but_for_case(s, "<unk>"@);
    lemma_same_but_for_case(s, "<s>"@);
    lemma_same_but_for_case(s, "</s>"@);
    lemma_same_but_for_case(s, "<blank>"@);
    lemma_same_but_for_case(s, "<blk>"@);
    lemma_same_but_for_case(s, "<space>"@);
    reveal_strlit("<unk>");
    reveal_strlit("<s>");
    reveal_strlit("</s>");
    reveal_strlit("<blank>");
    reveal_strlit("<blk>");
    reveal_strlit("<space>");
}

/// A tag starts with `<|` and ends with `|>`.
proof fn lemma_tag_ends(s: Seq<char>)
    ensures
        text::has_prefix(s, "<|"@) && text::has_suffix(s, "|>"@) <==> s.len() >= 2 && s[0] == '<'
            && s[1] == '|' && s[s.len() - 2] == '|' && s[s.len() - 1] == '>',
{
    reveal_strlit("<|");
    reveal_strlit("|>");
    if s.len() >= 2 {
        let front = s.take(2);
        let back = s.skip(s.len() - 2);
        assert(front[0] == s[0] && front[1] == s[1]);
        assert(back[0] == s[s.len() - 2] && back[1] == s[s.len() - 1]);
        if s[0] == '<' && s[1] == '|' {
            assert(front =~= "<|"@);
        }
        if s[s.len() - 2] == '|' && s[s.len() - 1] == '>' {
            assert(back =~= "|>"@);
        }
    }
}

/// ASCII text in lower case is a name without capitals exactly if the two differ
/// only in letter case.
proof fn lemma_same_but_for_case(s: Seq<char>, name: Seq<char>)
    requires
        forall|i: int| 0 <= i < s.len() ==> (#[trigger] s[i]) as int <= 127,
    ensures
        (forall|i: int| 0 <= i < name.len() ==> !(65 <= (#[trigger] name[i]) as int <= 90)) ==> (
        text::lowercase(s) == name <==> {
            &&& s.len() == name.len()
            &&& forall|i: int|
                0 <= i < s.len() ==> #[trigger] s[i] == name[i] || (65 <= s[i] as int <= 90
                    && s[i] as int + 32 == name[i] as int)
        }),
{
    text::law_lower_case_of_ascii(s);
    let lower = text::lowercase(s);
    if forall|i: int| 0 <= i < name.len() ==> !(65 <= (#[trigger] name[i]) as int <= 90) {
        if lower == name {
            assert forall|i: int| 0 <= i < s.len() implies #[trigger] s[i] == name[i] || (65
                <= s[i] as int <= 90 && s[i] as int + 32 == name[i] as int) by {
                assert(lower[i] == name[i]);
            }
        }
        if s.len() == name.len() && forall|i: int|
            0 <= i < s.len() ==> #[trigger] s[i] == name[i] || (65 <= s[i] as int <= 90
                && s[i] as int + 32 == name[i] as int) {
            assert forall|i: int| 0 <= i < s.len() implies #[trigger] lower[i] == name[i] by {
                assert(s[i] == name[i] || s[i] as int + 32 == name[i] as int);
                assert(!(65 <= name[i] as int <= 90));
            }
            assert(lower =~= name);
        }
    }
}

/// Of other tokens, just these carry no text: those that start with `<|` and end
/// with `|>`, and those that are one of the six names in lower case.
pub proof fn law_special_tokens_beyond_ascii(s: Seq<char>)
    requires
        !vstd::utf8::is_ascii_chars(s),
    ensures
        special_token(s) <==> {
            let lower = text::unicode_lowercase(s);
            ||| s.len() >= 2 && s[0] == '<' && s[1] == '|' && s[s.len() - 2] == '|' && s[s.len()
                - 1] == '>'
            ||| lower == "<unk>"@
            ||| lower == "<s>"@
            ||| lower == "</s>"@
            ||| lower == "<blank>"@
            ||| lower == "<blk>"@
            ||| lower == "<space>"@
        },
{
    lemma_tag_ends(s);
}

/// The vocabulary of a list so far: each string at its position.
proof fn lemma_listing_so_far(l: Seq<Option<Seq<char>>>, n: nat)
    requires
        n <= l.len() <= i32::MAX,
    ensures
        ({
            let v = tokens_by_id(entries_upto(TokensView::Listing(l), n));
            &&& forall|i: int|
                0 <= i < n && (#[trigger] l[i]) is Some ==> v.contains_key(i as i32) && v[i as i32]
                    == l[i]->0
            &&& forall|j: i32|
                v.contains_key(j) ==> 0 <= j < n && (#[trigger] l[j as int]) is Some
        }),
    decreases n,
{
    let doc = TokensView::Listing(l);
    if n > 0 {
        lemma_listing_so_far(l, (n - 1) as nat);
        let before = entries_upto(doc, (n - 1) as nat);
        if let Some(token) = l[n - 1] {
            assert(before.push((token, (n - 1) as i32)).drop_last() =~= before);
        }
    }
}

/// The vocabulary that a list of tokens gives has each string under its
/// position, and nothing under any other id. (A list beyond `i32::MAX` elements
/// has no room in an id.)
pub proof fn law_list_positions_are_ids(l: Seq<Option<Seq<char>>>)
    requires
        l.len() <= i32::MAX,
    ensures
        ({
            let v = tokens_by_id(entries(TokensView::Listing(l)));
            &&& forall|i: int|
                0 <= i < l.len() && (#[trigger] l[i]) is Some ==> v.contains_key(i as i32)
                    && v[i as i32] == l[i]->0
            &&& forall|j: i32|
                v.contains_key(j) ==> 0 <= j < l.len() && (#[trigger] l[j as int]) is Some
        }),
{
    lemma_listing_so_far(l, l.len());
}

/// What an entry of a list is found as, once entries after it were read.
proof fn lemma_list_token_so_far(l: Seq<Option<Seq<char>>>, i: int, n: nat)
    requires
        0 <= i < n <= l.len() <= i32::MAX,
        l[i] is Some,
        forall|k: int| i < k < l.len() ==> #[trigger] l[k] != l[i],
    ensures
        ({
            let ids = ids_by_token(entries_upto(TokensView::Listing(l), n));
            ids.contains_key(l[i]->0) && ids[l[i]->0] == i
        }),
    decreases n,
{
    let before = entries_upto(TokensView::Listing(l), (n - 1) as nat);
    if let Some(token) = l[n - 1] {
        assert(before.push((token, (n - 1) as i32)).drop_last() =~= before);
    }
    if i < n - 1 {
        lemma_list_token_so_far(l, i, (n - 1) as nat);
        assert(l[n - 1] != l[i]);
    }
}

/// In a list of tokens, a token's id is the last position where it stands.
pub proof fn law_list_token_has_its_last_position(l: Seq<Option<Seq<char>>>, i: int)
    requires
        l.len() <= i32::MAX,
        0 <= i < l.len(),
        l[i] is Some,
        forall|k: int| i < k < l.len() ==> #[trigger] l[k] != l[i],
    ensures
        ({
            let ids = ids_by_token(entries(TokensView::Listing(l)));
            ids.contains_key(l[i]->0) && ids[l[i]->0] == i
        }),
{
    lemma_list_token_so_far(l, i, l.len());
}

/// What an entry of a mapping is found as, once entries after it were read.
proof fn lemma_mapping_so_far(m: Seq<(Seq<char>, Option<i64>)>, k: int, n: nat)
    requires
        0 <= k < n <= m.len(),
        forall|i: int|
            0 <= i < m.len() && (#[trigger] m[i]).1 is Some ==> i32::MIN <= m[i].1->0 <= i32::MAX,
        m[k].1 is Some,
    ensures
        ({
            let done = entries_upto(TokensView::Mapping(m), n);
            let id = m[k].1->0 as i32;
            &&& (forall|i: int| k < i < m.len() ==> (#[trigger] m[i]).1 != m[k].1) ==> {
                tokens_by_id(done).contains_key(id) && tokens_by_id(done)[id] == m[k].0
            }
            &&& (forall|i: int|
                k < i < m.len() && (#[trigger] m[i]).1 is Some ==> m[i].0 != m[k].0) ==> {
                ids_by_token(done).contains_key(m[k].0) && ids_by_token(done)[m[k].0] == id
            }
        }),
    decreases n,
{
    let before = entries_upto(TokensView::Mapping(m), (n - 1) as nat);
    if let Some(id) = m[n - 1].1 {
        assert(before.push((m[n - 1].0, id as i32)).drop_last() =~= before);
    }
    if k < n - 1 {
        lemma_mapping_so_far(m, k, (n - 1) as nat);
        if m[n - 1].1 is Some && m[n - 1].1 != m[k].1 {
            assert(m[n - 1].1->0 as i32 != m[k].1->0 as i32);
        }
    }
}

/// The vocabulary that a mapping gives has each token under its id: of an id
/// given twice, the last token, and of a token given twice, the last id. (Ids
/// beyond the range of `i32` are cut.)
pub proof fn law_mapped_tokens_have_their_ids(m: Seq<(Seq<char>, Option<i64>)>, k: int)
    requires
        forall|i: int|
            0 <= i < m.len() && (#[trigger] m[i]).1 is Some ==> i32::MIN <= m[i].1->0 <= i32::MAX,
        0 <= k < m.len(),
        m[k].1 is Some,
    ensures
        ({
            let v = tokens_by_id(entries(TokensView::Mapping(m)));
            let ids = ids_by_token(entries(TokensView::Mapping(m)));
            let id = m[k].1->0 as i32;
            &&& id == m[k].1->0
            &&& (forall|i: int| k < i < m.len() ==> (#[trigger] m[i]).1 != m[k].1) ==> {
                v.contains_key(id) && v[id] == m[k].0
            }
            &&& (forall|i: int|
                k < i < m.len() && (#[trigger] m[i]).1 is Some ==> m[i].0 != m[k].0) ==> {
                ids.contains_key(m[k].0) && ids[m[k].0] == id
            }
        }),
{
    lemma_mapping_so_far(m, k, m.len());
}

/// Ids and tokens that no entry gives are not found.
proof fn lemma_found_entry(entries: Seq<(Seq<char>, i32)>, token: Seq<char>, id: i32)
    ensures
        ids_by_token(entries).contains_key(token) ==> exists|i: int|
            0 <= i < entries.len() && (#[trigger] entries[i]).0 == token,
        tokens_by_id(entries).contains_key(id) ==> exists|i: int|
            0 <= i < entries.len() && (#[trigger] entries[i]).1 == id,
    decreases entries.len(),
{
    if entries.len() > 0 {
        let init = entries.drop_last();
        lemma_found_entry(init, token, id);
        assert(entries[entries.len() - 1] == entries.last());
        if ids_by_token(init).contains_key(token) {
            let i = choose|i: int| 0 <= i < init.len() && (#[trigger] init[i]).0 == token;
            assert(entries[i].0 == token);
        }
        if tokens_by_id(init).contains_key(id) {
            let i = choose|i: int| 0 <= i < init.len() && (#[trigger] init[i]).1 == id;
            assert(entries[i].1 == id);
        }
    }
}

/// Where an entry of a mapping comes from.
proof fn lemma_mapping_entry(m: Seq<(Seq<char>, Option<i64>)>, n: nat, e: int) -> (k: int)
    requires
        n <= m.len(),
        0 <= e < entries_upto(TokensView::Mapping(m), n).len(),
    ensures
        0 <= k < n,
        m[k].1 is Some,
        entries_upto(TokensView::Mapping(m), n)[e] == (m[k].0, m[k].1->0 as i32),
    decreases n,
{
    let before = entries_upto(TokensView::Mapping(m), (n - 1) as nat);
    if e < before.len() {
        lemma_mapping_entry(m, (n - 1) as nat, e)
    } else {
        n - 1
    }
}

/// Where an entry of a list comes from.
proof fn lemma_listing_entry(l: Seq<Option<Seq<char>>>, n: nat, e: int) -> (k: int)
    requires
        n <= l.len(),
        0 <= e < entries_upto(TokensView::Listing(l), n).len(),
    ensures
        0 <= k < n,
        l[k] == Some(entries_upto(TokensView::Listing(l), n)[e].0),
    decreases n,
{
    let before = entries_upto(TokensView::Listing(l), (n - 1) as nat);
    if e < before.len() {
        lemma_listing_entry(l, (n - 1) as nat, e)
    } else {
        n - 1
    }
}

/// A mapping gives no id that none of its tokens has, and no token that has no
/// id.
pub proof fn law_mapping_gives_nothing_else(
    m: Seq<(Seq<char>, Option<i64>)>,
    token: Seq<char>,
    id: i32,
)
    requires
        forall|i: int|
            0 <= i < m.len() && (#[trigger] m[i]).1 is Some ==> i32::MIN <= m[i].1->0 <= i32::MAX,
    ensures
        tokens_by_id(entries(TokensView::Mapping(m))).contains_key(id) ==> exists|k: int|
            0 <= k < m.len() && (#[trigger] m[k]).1 == Some(id as i64),
        ids_by_token(entries(TokensView::Mapping(m))).contains_key(token) ==> exists|k: int|
            0 <= k < m.len() && (#[trigger] m[k]).0 == token && m[k].1 is Some,
{
    let all = entries(TokensView::Mapping(m));
    lemma_found_entry(all, token, id);
    if tokens_by_id(all).contains_key(id) {
        let e = choose|e: int| 0 <= e < all.len() && (#[trigger] all[e]).1 == id;
        let k = lemma_mapping_entry(m, m.len(), e);
        assert(m[k].1 == Some(id as i64));
    }
    if ids_by_token(all).contains_key(token) {
        let e = choose|e: int| 0 <= e < all.len() && (#[trigger] all[e]).0 == token;
        let k = lemma_mapping_entry(m, m.len(), e);
        assert(m[k].0 == token);
    }
}

/// A list gives no token that does not stand in it.
pub proof fn law_list_gives_nothing_else(l: Seq<Option<Seq<char>>>, token: Seq<char>)
    ensures
        ids_by_token(entries(TokensView::Listing(l))).contains_key(token) ==> exists|k: int|
            0 <= k < l.len() && #[trigger] l[k] == Some(token),
{
    let all = entries(TokensView::Listing(l));
    lemma_found_entry(all, token, 0);
    if ids_by_token(all).contains_key(token) {
        let e = choose|e: int| 0 <= e < all.len() && (#[trigger] all[e]).0 == token;
        let k = lemma_listing_entry(l, l.len(), e);
        assert(l[k] == Some(token));
    }
}

/// A mapping's entries so far.
proof fn lemma_mapping_entries_exist(m: Seq<(Seq<char>, Option<i64>)>, n: nat, k: int)
    requires
        0 <= k < n <= m.len(),
        m[k].1 is Some,
    ensures
        entries_upto(TokensView::Mapping(m), n).len() > 0,
    decreases n,
{
    if k < n - 1 {
        lemma_mapping_entries_exist(m, (n - 1) as nat, k);
    }
}

/// A list's entries so far.
proof fn lemma_listing_entries_exist(l: Seq<Option<Seq<char>>>, n: nat, k: int)
    requires
        0 <= k < n <= l.len(),
        l[k] is Some,
    ensures
        entries_upto(TokensView::Listing(l), n).len() > 0,
    decreases n,
{
    if k < n - 1 {
        lemma_listing_entries_exist(l, (n - 1) as nat, k);
    }
}

/// A document has no tokens exactly if it is a mapping without an integer, a
/// list without a string, or neither a mapping nor a list.
pub proof fn law_documents_without_tokens(doc: TokensView)
    ensures
        entries(doc).len() == 0 <==> match doc {
            TokensView::Mapping(m) => forall|k: int|
                0 <= k < m.len() ==> (#[trigger] m[k]).1 is None,
            TokensView::Listing(l) => forall|k: int| 0 <= k < l.len() ==> (#[trigger] l[k]) is None,
            TokensView::Other => true,
        },
{
    match doc {
        TokensView::Mapping(m) => {
            if entries(doc).len() > 0 {
                let k = lemma_mapping_entry(m, m.len(), 0);
                assert(m[k].1 is Some);
            } else {
                assert forall|k: int| 0 <= k < m.len() implies (#[trigger] m[k]).1 is None by {
                    if m[k].1 is Some {
                        lemma_mapping_entries_exist(m, m.len(), k);
                    }
                }
            }
        },
        TokensView::Listing(l) => {
            if entries(doc).len() > 0 {
                let k = lemma_listing_entry(l, l.len(), 0);
                assert(l[k] is Some);
            } else {
                assert forall|k: int| 0 <= k < l.len() implies (#[trigger] l[k]) is None by {
                    if l[k] is Some {
                        lemma_listing_entries_exist(l, l.len(), k);
                    }
                }
            }
        },
        TokensView::Other => {},
    }
}

/// The blank is the class of the token `<blank>`, or, where there is none, that
/// of the token `<blk>`; no other token stands for it.
pub proof fn law_blank_is_named(ids: Map<Seq<char>, i32>)
    ensures
        ids.contains_key("<blank>"@) ==> blank_of(ids) == Some(ids["<blank>"@]),
        !ids.contains_key("<blank>"@) && ids.contains_key("<blk>"@) ==> blank_of(ids) == Some(
            ids["<blk>"@],
        ),
        !ids.contains_key("<blank>"@) && !ids.contains_key("<blk>"@) ==> blank_of(ids) is None,
{
}

/// The document's entries are the file's, in order.
pub proof fn law_document_view(m: Vec<(String, Option<i64>)>, l: Vec<Option<String>>)
    ensures
        TokensDocument::Mapping(m)@ matches TokensView::Mapping(v) && v.len() == m@.len()
            && forall|i: int|
            0 <= i < m@.len() ==> #[trigger] v[i] == (m@[i].0@, m@[i].1),
        TokensDocument::Listing(l)@ matches TokensView::Listing(v) && v.len() == l@.len()
            && forall|i: int|
            0 <= i < l@.len() ==> #[trigger] v[i] == text::opt_view(l@[i]),
{
}

/// Without `best_non_blank` a frame stands for its best class. With it, a frame
/// whose best class is the blank stands for the best of the others.
pub proof fn law_frame_stands_for_its_best_class(frame: Seq<u32>, blank: i32)
    ensures
        frame_class(frame, blank, false) == (best_class(frame, None), best_class(frame, None)),
        best_class(frame, None) != blank ==> frame_class(frame, blank, true) == (
            best_class(frame, None),
            best_class(frame, None),
        ),
        best_class(frame, None) == blank ==> frame_class(frame, blank, true) == (
            blank,
            best_class(frame, Some(blank)),
        ),
{
}

/// The best class but one that is left out is the first with the highest score
/// among the others; it is class 0 where none of them scores above negative
/// infinity. (A vocabulary beyond `i32::MAX` classes has no room in a class id.)
pub proof fn law_best_other_class_is_first_maximum(frame: Seq<u32>, skip: i32)
    requires
        frame.len() <= i32::MAX,
    ensures
        ({
            let best = best_class(frame, Some(skip));
            if exists|j: int|
                #![trigger frame[j]]
                0 <= j < frame.len() && j != skip && single::is_greater(
                    frame[j],
                    single::NEG_INFINITY,
                ) {
                &&& 0 <= best < frame.len()
                &&& best != skip
                &&& forall|j: int|
                    #![trigger frame[j]]
                    0 <= j < frame.len() && j != skip ==> !single::is_greater(
                        frame[j],
                        frame[best as int],
                    )
                &&& forall|j: int|
                    #![trigger frame[j]]
                    0 <= j < best && j != skip ==> single::is_nan(frame[j]) || single::is_greater(
                        frame[best as int],
                        frame[j],
                    )
            } else {
                best == 0
            }
        }),
{
    lemma_best_upto(frame, Some(skip), frame.len());
}

/// Every frame has its pair of classes, in order.
pub proof fn law_every_frame_is_classified(
    frames: Seq<Seq<u32>>,
    blank: i32,
    best_non_blank: bool,
)
    ensures
        frame_classes(frames, blank, best_non_blank).len() == frames.len(),
        forall|i: int|
            0 <= i < frames.len() ==> #[trigger] frame_classes(frames, blank, best_non_blank)[i]
                == frame_class(frames[i], blank, best_non_blank),
{
}

/// The frames that give a token come in order, and are just those of which
/// [`gives_token`] holds.
proof fn lemma_giving_frames(
    classes: Seq<i32>,
    vocabulary: Map<i32, Seq<char>>,
    blank: i32,
    n: nat,
)
    ensures
        ({
            let at = giving_frames(classes, vocabulary, blank, n);
            &&& forall|k: int|
                0 <= k < at.len() ==> 0 <= #[trigger] at[k] < n && gives_token(
                    classes,
                    vocabulary,
                    blank,
                    at[k],
                )
            &&& forall|j: int, k: int|
                0 <= j < k < at.len() ==> #[trigger] at[j] < #[trigger] at[k]
            &&& forall|i: int|
                0 <= i < n && gives_token(classes, vocabulary, blank, i) ==> #[trigger] at.contains(
                    i,
                )
        }),
    decreases n,
{
    let at = giving_frames(classes, vocabulary, blank, n);
    if n == 0 {
        reveal(Seq::filter);
        assert(at.len() == 0);
    } else {
        lemma_giving_frames(classes, vocabulary, blank, (n - 1) as nat);
        lemma_giving_frames_step(classes, vocabulary, blank, n);
        let before = giving_frames(classes, vocabulary, blank, (n - 1) as nat);
        assert forall|i: int|
            0 <= i < n && gives_token(classes, vocabulary, blank, i) implies #[trigger] at.contains(
            i,
        ) by {
            if i < n - 1 {
                assert(before.contains(i));
                let k = choose|k: int| 0 <= k < before.len() && before[k] == i;
                assert(at[k] == i);
            } else {
                assert(at[at.len() - 1] == i);
            }
        }
    }
}

/// What frames decode to, without `best_non_blank`, is the text of the tokens of
/// certain frames, in order. A frame is one of them exactly if its best class is
/// not the blank, is not the best class of the frame before, and has a token that
/// carries text. (A vocabulary beyond `i32::MAX` classes has no room in a class
/// id.)
pub proof fn law_decoded_text_is_that_of_the_changes(
    decoder: CTCDecoder,
    frames: Seq<Seq<u32>>,
) -> (at: Seq<int>)
    requires
        forall|i: int| 0 <= i < frames.len() ==> (#[trigger] frames[i]).len() <= i32::MAX,
    ensures
        decoder.decoded(frames, false) == token_text(
            Seq::new(at.len(), |k: int| decoder.vocabulary()[best_class(frames[at[k]], None)]),
        ),
        forall|k: int| 0 <= k < at.len() ==> 0 <= #[trigger] at[k] < frames.len(),
        forall|j: int, k: int| 0 <= j < k < at.len() ==> #[trigger] at[j] < #[trigger] at[k],
        forall|i: int|
            0 <= i < frames.len() ==> (#[trigger] at.contains(i) <==> {
                let c = best_class(frames[i], None);
                &&& c != decoder.blank()
                &&& i > 0 ==> c != best_class(frames[i - 1], None)
                &&& decoder.vocabulary().contains_key(c)
                &&& !special_token(decoder.vocabulary()[c])
            }),
{
    law_decoded_frame_by_frame(decoder, frames);
    let classes = best_classes(frames);
    let v = decoder.vocabulary();
    let blank = decoder.blank();
    let at = giving_frames(classes, v, blank, frames.len());
    lemma_giving_frames(classes, v, blank, frames.len());
    assert(at.map_values(|i: int| v[classes[i]]) =~= Seq::new(
        at.len(),
        |k: int| v[best_class(frames[at[k]], None)],
    ));
    assert forall|i: int| 0 <= i < frames.len() implies (#[trigger] at.contains(i) <==> {
        let c = best_class(frames[i], None);
        &&& c != blank
        &&& i > 0 ==> c != best_class(frames[i - 1], None)
        &&& v.contains_key(c)
        &&& !special_token(v[c])
    }) by {
        assert(classes[i] == best_class(frames[i], None));
        if at.contains(i) {
            let k = choose|k: int| 0 <= k < at.len() && at[k] == i;
            assert(gives_token(classes, v, blank, at[k]));
        }
        if gives_token(classes, v, blank, i) {
            assert(at.contains(i));
        }
    }
    at
}

/// One frame more: it emits its token where it stands for a class that is not
/// the blank and not the one left behind, and that has a token which carries
/// text; nothing that was emitted before is lost. It leaves its class behind, or
/// the blank, where it repeats the class before and its best class is the blank.
pub proof fn law_one_frame_more(
    classes: Seq<(i32, i32)>,
    top: i32,
    id: i32,
    vocabulary: Map<i32, Seq<char>>,
    blank: i32,
)
    ensures
        emission(seq![], vocabulary, blank).tokens.len() == 0,
        emission(seq![], vocabulary, blank).prev == -1,
        ({
            let before = emission(classes, vocabulary, blank);
            let after = emission(classes.push((top, id)), vocabulary, blank);
            &&& after.tokens == if id != blank && id != before.prev && vocabulary.contains_key(id)
                && !special_token(vocabulary[id]) {
                before.tokens.push(vocabulary[id])
            } else {
                before.tokens
            }
            &&& after.prev == if id == before.prev && top == blank {
                blank
            } else {
                id
            }
        }),
{
    assert(classes.push((top, id)).drop_last() =~= classes);
}

/// Frames are counted one by one: each whose best class is not the blank counts.
pub proof fn law_non_blank_frames_add_up(
    a: Seq<Seq<u32>>,
    b: Seq<Seq<u32>>,
    frame: Seq<u32>,
    blank: i32,
)
    ensures
        non_blank_count(a + b, blank) == non_blank_count(a, blank) + non_blank_count(b, blank),
        non_blank_count(seq![frame], blank) == if best_class(frame, None) == blank {
            0nat
        } else {
            1nat
        },
    decreases b.len(),
{
    reveal_with_fuel(non_blank_count, 2);
    assert(seq![frame].drop_last() =~= seq![]);
    if b.len() == 0 {
        assert(a + b =~= a);
    } else {
        law_non_blank_frames_add_up(a, b.drop_last(), frame, blank);
        assert((a + b).drop_last() =~= a + b.drop_last());
        assert((a + b).last() == b.last());
    }
}

/// In either mode, frames decode to the text of the tokens that their classes
/// emit.
pub proof fn law_decoded_text_is_that_of_the_tokens(
    decoder: CTCDecoder,
    frames: Seq<Seq<u32>>,
    best_non_blank: bool,
    classes: Seq<(i32, i32)>,
)
    requires
        classes.len() == frames.len(),
        forall|i: int|
            0 <= i < frames.len() ==> #[trigger] classes[i] == frame_class(
                frames[i],
                decoder.blank(),
                best_non_blank,
            ),
    ensures
        decoder.decoded(frames, best_non_blank) == token_text(
            emission(classes, decoder.vocabulary(), decoder.blank()).tokens,
        ),
{
    assert(frame_classes(frames, decoder.blank(), best_non_blank) =~= classes);
}

}
