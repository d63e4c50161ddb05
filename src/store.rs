use vstd::prelude::*;
use dashmap::DashMap;
use ropey::Rope;
use crate::encode::{
    overlaps, encode_spec, encode_tokens, in_span, lemma_encode_bounds, lemma_sort_by_start, sort_by_start,
    sort_tokens, tokens_in_span, ClassifiedToken, EncodedToken,
};
use crate::position::{byte_offset, offset_spec, opt_nat, rope_chars, rope_from_str};

verus! {

#[verifier::external_type_specification]
#[verifier::external_body]
#[verifier::reject_recursive_types(K)]
#[verifier::reject_recursive_types(V)]
#[verifier::reject_recursive_types(S)]
pub struct ExDashMap<K, V, S>(dashmap::DashMap<K, V, S>);

/// One open document: its rope, and the latest token set classified for it
/// (`None` until a classification succeeds).
#[derive(Clone)]
pub struct Document {
    pub text: Rope,
    pub tokens: Option<Vec<ClassifiedToken>>,
}

/// What a document holds, as plain values.
pub struct DocView {
    pub text: Seq<char>,
    pub tokens: Option<Seq<ClassifiedToken>>,
}

/// A document as plain values: its text as chars, its tokens as a sequence.
pub open spec fn doc_view(d: Document) -> DocView {
    DocView {
        text: rope_chars(d.text),
        tokens: match d.tokens {
            Some(t) => Some(t@),
            None => None,
        },
    }
}

/// The documents a document map holds, by identity.
pub uninterp spec fn document_map_contents(m: DashMap<String, Document>) -> Map<Seq<char>, DocView>;

/// Relies on dashmap::DashMap::new: the map starts empty.
#[verifier::external_body]
fn document_map_new() -> (r: DashMap<String, Document>)
    ensures
        forall|k: Seq<char>| !document_map_contents(r).contains_key(k),
{
    DashMap::new()
}

/// Relies on dashmap::DashMap::insert: the key now maps to the value, as one
/// replacement under the key's lock.
#[verifier::external_body]
fn document_map_insert(m: &mut DashMap<String, Document>, k: String, v: Document)
    ensures
        document_map_contents(*final(m)) == document_map_contents(*old(m)).insert(k@, doc_view(v)),
{
    m.insert(k, v);
}

/// Relies on dashmap::DashMap::get: a clone of the document stored under the key.
#[verifier::external_body]
fn document_map_get(m: &DashMap<String, Document>, k: &str) -> (r: Option<Document>)
    ensures
        r is Some <==> document_map_contents(*m).contains_key(k@),
        r matches Some(d) ==> doc_view(d) == document_map_contents(*m)[k@],
{
    m.get(k).map(|e| e.value().clone())
}

/// Relies on dashmap::DashMap::remove: the key is gone.
#[verifier::external_body]
fn document_map_remove(m: &mut DashMap<String, Document>, k: &str)
    ensures
        document_map_contents(*final(m)) == document_map_contents(*old(m)).remove(k@),
{
    m.remove(k);
}

/// Why the tokenizer could not classify a text, with the byte range it blames.
#[derive(Clone, Debug, PartialEq, Eq)]
pub struct LexError {
    pub message: String,
    pub start: usize,
    pub end: usize,
}

/// The store after a document's text is replaced by `text` and classified as
/// `classified`: a failed classification keeps the previous token set.
pub open spec fn change_spec(
    s: Map<Seq<char>, DocView>,
    id: Seq<char>,
    text: Seq<char>,
    classified: Result<Seq<ClassifiedToken>, LexError>,
) -> Map<Seq<char>, DocView> {
    s.insert(
        id,
        DocView {
            text,
            tokens: match classified {
                Ok(t) => Some(t),
                Err(_) => if s.contains_key(id) {
                    s[id].tokens
                } else {
                    None
                },
            },
        },
    )
}

/// The store after a document is closed.
pub open spec fn close_spec(s: Map<Seq<char>, DocView>, id: Seq<char>) -> Map<Seq<char>, DocView> {
    s.remove(id)
}

/// Whether both the text and a token set of `id` are known.
pub open spec fn available(s: Map<Seq<char>, DocView>, id: Seq<char>) -> bool {
    s.contains_key(id) && s[id].tokens is Some
}

/// Full-document encoding, or `None` when the text or the tokens are unknown.
pub open spec fn full_spec(s: Map<Seq<char>, DocView>, id: Seq<char>) -> Option<Seq<EncodedToken>> {
    if available(s, id) {
        Some(encode_spec(s[id].text, sort_by_start(s[id].tokens.unwrap())))
    } else {
        None
    }
}

/// Encoding of the tokens that meet `[lo, hi)`, or `None` when the text or
/// the tokens are unknown.
pub open spec fn range_spec(s: Map<Seq<char>, DocView>, id: Seq<char>, lo: nat, hi: nat) -> Option<
    Seq<EncodedToken>,
> {
    if available(s, id) {
        Some(encode_spec(s[id].text, sort_by_start(in_span(s[id].tokens.unwrap(), lo, hi))))
    } else {
        None
    }
}

/// An optional vector of wire tokens as an optional sequence.
pub open spec fn opt_view(r: Option<Vec<EncodedToken>>) -> Option<Seq<EncodedToken>> {
    match r {
        Some(v) => Some(v@),
        None => None,
    }
}

/// Open documents and their cached token sets. A document's text and tokens
/// live in one record, replaced as a whole, so no reader sees new text paired
/// with tokens of another change in flight.
pub struct Backend {
    document_map: DashMap<String, Document>,
}

impl Backend {
    pub closed spec fn view(&self) -> Map<Seq<char>, DocView> {
        document_map_contents(self.document_map)
    }

    /// An empty store.
    pub fn new() -> (r: Backend)
        ensures
            r.view() == Map::<Seq<char>, DocView>::empty(),
    {
        let r = Backend { document_map: document_map_new() };
        assert(r.view() =~= Map::<Seq<char>, DocView>::empty());
        r
    }

    /// Replaces the text of `id` and, when the tokenizer succeeded, its token
    /// set. A tokenizer failure is handed back and keeps the previous tokens.
    pub fn on_change(
        &mut self,
        id: String,
        text: String,
        classified: Result<Vec<ClassifiedToken>, LexError>,
    ) -> (r: Result<(), LexError>)
        ensures
            final(self).view() == change_spec(
                old(self).view(),
                id@,
                text@,
                match classified {
                    Ok(t) => Ok(t@),
                    Err(e) => Err(e),
                },
            ),
            r is Ok <==> classified is Ok,
            classified matches Err(e) ==> r == Err::<(), LexError>(e),
    {
        let rope = rope_from_str(text.as_str());
        match classified {
            Ok(tokens) => {
                document_map_insert(&mut self.document_map, id, Document { text: rope, tokens: Some(tokens) });
                Ok(())
            },
            Err(e) => {
                let previous = match document_map_get(&self.document_map, id.as_str()) {
                    Some(d) => d.tokens,
                    None => None,
                };
                document_map_insert(&mut self.document_map, id, Document { text: rope, tokens: previous });
                Err(e)
            },
        }
    }

    /// Forgets the text and the tokens of `id`.
    pub fn did_close(&mut self, id: &str)
        ensures
            final(self).view() == close_spec(old(self).view(), id@),
    {
        document_map_remove(&mut self.document_map, id);
    }

    /// The byte offset of a line and char column of `id`'s text; `None` when
    /// the document is unknown or has no such position.
    pub fn offset_of(&self, id: &str, line: usize, col: usize) -> (r: Option<usize>)
        ensures
            self.view().contains_key(id@)
                ==> opt_nat(r) == offset_spec(self.view()[id@].text, line as nat, col as nat),
            !self.view().contains_key(id@) ==> r is None,
    {
        match document_map_get(&self.document_map, id) {
            Some(d) => byte_offset(&d.text, line, col),
            None => None,
        }
    }

    /// The whole document's tokens, sorted by start and delta encoded;
    /// `None` when the document's text or tokens are unknown.
    pub fn semantic_tokens_full(&self, id: &str) -> (r: Option<Vec<EncodedToken>>)
        ensures
            opt_view(r) == full_spec(self.view(), id@),
    {
        let d = match document_map_get(&self.document_map, id) {
            Some(d) => d,
            None => return None,
        };
        let tokens = match d.tokens {
            Some(t) => t,
            None => return None,
        };
        let rope = d.text;
        let sorted = sort_tokens(&tokens);
        Some(encode_tokens(&rope, &sorted))
    }

    /// The tokens that meet the byte span `[lo, hi)`, sorted by start and
    /// delta encoded; `None` when the document's text or tokens are unknown.
    pub fn semantic_tokens_range(&self, id: &str, lo: usize, hi: usize) -> (r: Option<Vec<EncodedToken>>)
        ensures
            opt_view(r) == range_spec(self.view(), id@, lo as nat, hi as nat),
    {
        let d = match document_map_get(&self.document_map, id) {
            Some(d) => d,
            None => return None,
        };
        let tokens = match d.tokens {
            Some(t) => t,
            None => return None,
        };
        let rope = d.text;
        let chosen = tokens_in_span(&tokens, lo, hi);
        let sorted = sort_tokens(&chosen);
        Some(encode_tokens(&rope, &sorted))
    }
}

/// A full encoding has at most one entry per cached token; no entry moves
/// back a line, and none moves back a column on the same line.
pub proof fn lemma_full_bounds(s: Map<Seq<char>, DocView>, id: Seq<char>)
    ensures
        full_spec(s, id) matches Some(r) ==> {
            &&& r.len() <= s[id].tokens.unwrap().len()
            &&& forall|i: int| 0 <= i < r.len() ==> {
                let e = #[trigger] r[i];
                e.delta_line >= 0 && (e.delta_line == 0 ==> e.delta_start >= 0)
            }
        },
{
    if available(s, id) {
        lemma_sort_by_start(s[id].tokens.unwrap());
        lemma_encode_bounds(s[id].text, sort_by_start(s[id].tokens.unwrap()), 0, 0);
    }
}

/// A full request changes nothing and its answer depends on the store's
/// contents alone, so asking twice with no change between gives the same answer.
pub proof fn lemma_full_repeatable(s1: Map<Seq<char>, DocView>, s2: Map<Seq<char>, DocView>, id: Seq<char>)
    requires
        s1 == s2,
    ensures
        full_spec(s1, id) == full_spec(s2, id),
{
}

/// Putting back a document's own text, and classifying it as its cached
/// tokens were classified (or failing to), leaves the full encoding as it was.
pub proof fn lemma_same_text_same_encoding(
    s: Map<Seq<char>, DocView>,
    id: Seq<char>,
    classified: Result<Seq<ClassifiedToken>, LexError>,
)
    requires
        s.contains_key(id),
        classified matches Ok(t) ==> s[id].tokens == Some(t),
    ensures
        full_spec(change_spec(s, id, s[id].text, classified), id) == full_spec(s, id),
{
    let after = change_spec(s, id, s[id].text, classified);
    assert(after[id] == s[id]);
}

/// Once a document is closed, neither kind of request finds it.
pub proof fn lemma_closed_unavailable(s: Map<Seq<char>, DocView>, id: Seq<char>, lo: nat, hi: nat)
    ensures
        full_spec(close_spec(s, id), id) is None,
        range_spec(close_spec(s, id), id, lo, hi) is None,
{
}

proof fn lemma_in_span_empty(s: Seq<ClassifiedToken>, lo: nat, hi: nat)
    requires
        forall|i: int| 0 <= i < s.len() ==> !overlaps(#[trigger] s[i], lo, hi),
    ensures
        in_span(s, lo, hi) == Seq::<ClassifiedToken>::empty(),
    decreases s.len(),
{
    if s.len() > 0 {
        assert(!overlaps(s[s.len() - 1], lo, hi));
        lemma_in_span_empty(s.drop_last(), lo, hi);
    }
}

/// A range request over a span that no cached token meets gives an empty
/// sequence, not `None`.
pub proof fn lemma_range_empty(s: Map<Seq<char>, DocView>, id: Seq<char>, lo: nat, hi: nat)
    requires
        available(s, id),
        forall|i: int|
            0 <= i < s[id].tokens.unwrap().len() ==> !overlaps(#[trigger] s[id].tokens.unwrap()[i], lo, hi),
    ensures
        range_spec(s, id, lo, hi) == Some(Seq::<EncodedToken>::empty()),
{
    lemma_in_span_empty(s[id].tokens.unwrap(), lo, hi);
    assert(sort_by_start(Seq::<ClassifiedToken>::empty()) == Seq::<ClassifiedToken>::empty());
    assert(encode_spec(s[id].text, Seq::<ClassifiedToken>::empty()) =~= Seq::<EncodedToken>::empty());
}

/// A failed classification keeps the document's cached token set, and every
/// other document as it was; a document that had tokens can still be asked.
pub proof fn lemma_failed_change_keeps_tokens(
    s: Map<Seq<char>, DocView>,
    id: Seq<char>,
    text: Seq<char>,
    e: LexError,
)
    requires
        s.contains_key(id),
    ensures
        change_spec(s, id, text, Err(e))[id].tokens == s[id].tokens,
        forall|k: Seq<char>| k != id ==> #[trigger] change_spec(s, id, text, Err(e)).contains_key(k)
            == s.contains_key(k) && (s.contains_key(k) ==> change_spec(s, id, text, Err(e))[k] == s[k]),
        available(s, id) ==> full_spec(change_spec(s, id, text, Err(e)), id) is Some,
{
}

} // verus!
