use vstd::prelude::*;
use ropey::Rope;
use crate::legend::{legend_index_spec, TokenKind};
use crate::position::{byte_position, position_spec, rope_chars};

verus! {

/// A classified half-open byte range `[start, end)` of a document.
#[derive(Clone, Copy, Debug, PartialEq, Eq, Structural)]
pub struct ClassifiedToken {
    pub start: usize,
    pub end: usize,
    pub kind: TokenKind,
}

/// One token on the wire, placed relative to the token emitted before it.
#[derive(Clone, Copy, Debug, PartialEq, Eq, Structural)]
pub struct EncodedToken {
    pub delta_line: u32,
    pub delta_start: u32,
    pub length: u32,
    pub token_type: u32,
    pub token_modifiers_bitset: u32,
}

/// `x` placed into `s` before the first token that starts after it.
pub open spec fn insert_by_start(s: Seq<ClassifiedToken>, x: ClassifiedToken) -> Seq<ClassifiedToken>
    decreases s.len(),
{
    if s.len() == 0 {
        seq![x]
    } else if x.start < s[0].start {
        seq![x] + s
    } else {
        seq![s[0]] + insert_by_start(s.drop_first(), x)
    }
}

/// Stable sort by start offset: tokens with equal starts keep their order.
pub open spec fn sort_by_start(s: Seq<ClassifiedToken>) -> Seq<ClassifiedToken>
    decreases s.len(),
{
    if s.len() == 0 {
        s
    } else {
        insert_by_start(sort_by_start(s.drop_last()), s.last())
    }
}

pub open spec fn starts_sorted(s: Seq<ClassifiedToken>) -> bool {
    forall|i: int, j: int| 0 <= i < j < s.len() ==> s[i].start <= s[j].start
}

proof fn lemma_insert_at(s: Seq<ClassifiedToken>, x: ClassifiedToken, p: int)
    requires
        0 <= p <= s.len(),
        forall|j: int| 0 <= j < p ==> s[j].start <= x.start,
        p < s.len() ==> x.start < s[p].start,
    ensures
        insert_by_start(s, x) == s.insert(p, x),
    decreases p,
{
    if p == 0 {
        assert(insert_by_start(s, x) =~= s.insert(p, x));
    } else {
        lemma_insert_at(s.drop_first(), x, p - 1);
        assert(insert_by_start(s, x) =~= s.insert(p, x));
    }
}

/// Where `insert_by_start` places `x`: before the first token that starts after it.
spec fn insert_point(s: Seq<ClassifiedToken>, x: ClassifiedToken) -> int
    decreases s.len(),
{
    if s.len() == 0 || x.start < s[0].start {
        0
    } else {
        1 + insert_point(s.drop_first(), x)
    }
}

proof fn lemma_insert_point(s: Seq<ClassifiedToken>, x: ClassifiedToken)
    ensures
        0 <= insert_point(s, x) <= s.len(),
        forall|j: int| 0 <= j < insert_point(s, x) ==> s[j].start <= x.start,
        insert_point(s, x) < s.len() ==> x.start < s[insert_point(s, x)].start,
        insert_by_start(s, x) == s.insert(insert_point(s, x), x),
    decreases s.len(),
{
    if s.len() > 0 && x.start >= s[0].start {
        let t = s.drop_first();
        lemma_insert_point(t, x);
        assert forall|j: int| 0 <= j < insert_point(s, x) implies s[j].start <= x.start by {
            if j > 0 {
                assert(s[j] == t[j - 1]);
            }
        }
    }
    assert(insert_by_start(s, x) =~= s.insert(insert_point(s, x), x));
}

proof fn lemma_insert_sorted(s: Seq<ClassifiedToken>, x: ClassifiedToken)
    requires
        starts_sorted(s),
    ensures
        starts_sorted(insert_by_start(s, x)),
        insert_by_start(s, x).len() == s.len() + 1,
        insert_by_start(s, x).to_multiset() == s.to_multiset().insert(x),
{
    lemma_insert_point(s, x);
    let p = insert_point(s, x);
    let r = s.insert(p, x);
    vstd::seq_lib::to_multiset_insert(s, p, x);
    assert forall|i: int, j: int| 0 <= i < j < r.len() implies r[i].start <= r[j].start by {
        if j < p {
        } else if j == p {
        } else if i < p {
            assert(s[i].start <= x.start);
            assert(x.start < s[p].start);
            assert(r[j] == s[j - 1]);
        } else if i == p {
            assert(r[j] == s[j - 1]);
        } else {
            assert(r[i] == s[i - 1] && r[j] == s[j - 1]);
        }
    }
}

/// The stable sort orders by start offset and keeps every token, once.
pub proof fn lemma_sort_by_start(s: Seq<ClassifiedToken>)
    ensures
        starts_sorted(sort_by_start(s)),
        sort_by_start(s).len() == s.len(),
        sort_by_start(s).to_multiset() == s.to_multiset(),
    decreases s.len(),
{
    if s.len() > 0 {
        lemma_sort_by_start(s.drop_last());
        lemma_insert_sorted(sort_by_start(s.drop_last()), s.last());
        assert(s =~= s.drop_last().push(s.last()));
        s.drop_last().to_multiset_ensures();
    }
}

/// Sorts tokens ascending by start offset; equal starts keep their order.
pub fn sort_tokens(tokens: &Vec<ClassifiedToken>) -> (r: Vec<ClassifiedToken>)
    ensures
        r@ == sort_by_start(tokens@),
{
    let mut r: Vec<ClassifiedToken> = Vec::new();
    let mut i: usize = 0;
    while i < tokens.len()
        invariant
            i <= tokens.len(),
            r@ == sort_by_start(tokens@.subrange(0, i as int)),
        decreases tokens.len() - i,
    {
        let x = tokens[i];
        let mut p: usize = 0;
        while p < r.len() && r[p].start <= x.start
            invariant
                p <= r.len(),
                forall|j: int| 0 <= j < p ==> r@[j].start <= x.start,
            decreases r.len() - p,
        {
            p = p + 1;
        }
        proof {
            lemma_insert_at(r@, x, p as int);
            let pre = tokens@.subrange(0, i as int + 1);
            assert(pre.drop_last() =~= tokens@.subrange(0, i as int));
        }
        r.insert(p, x);
        i = i + 1;
    }
    assert(tokens@.subrange(0, tokens.len() as int) =~= tokens@);
    r
}

/// Whether a token's byte range meets the half-open span `[lo, hi)`.
pub open spec fn overlaps(t: ClassifiedToken, lo: nat, hi: nat) -> bool {
    t.start < hi && lo < t.end
}

/// The tokens that meet the span `[lo, hi)`, in their order.
pub open spec fn in_span(s: Seq<ClassifiedToken>, lo: nat, hi: nat) -> Seq<ClassifiedToken>
    decreases s.len(),
{
    if s.len() == 0 {
        s
    } else if overlaps(s.last(), lo, hi) {
        in_span(s.drop_last(), lo, hi).push(s.last())
    } else {
        in_span(s.drop_last(), lo, hi)
    }
}

/// Keeps the tokens that meet the byte span `[lo, hi)`.
pub fn tokens_in_span(tokens: &Vec<ClassifiedToken>, lo: usize, hi: usize) -> (r: Vec<ClassifiedToken>)
    ensures
        r@ == in_span(tokens@, lo as nat, hi as nat),
{
    let mut r: Vec<ClassifiedToken> = Vec::new();
    let mut i: usize = 0;
    while i < tokens.len()
        invariant
            i <= tokens.len(),
            r@ == in_span(tokens@.subrange(0, i as int), lo as nat, hi as nat),
        decreases tokens.len() - i,
    {
        let t = tokens[i];
        proof {
            let pre = tokens@.subrange(0, i as int + 1);
            assert(pre.drop_last() =~= tokens@.subrange(0, i as int));
        }
        if t.start < hi && lo < t.end {
            r.push(t);
        }
        i = i + 1;
    }
    assert(tokens@.subrange(0, tokens.len() as int) =~= tokens@);
    r
}

/// What one token, whose start lies at `pos`, becomes on the wire after the
/// cursor `(prev_line, prev_col)`, with the cursor that follows it; `None`
/// when the token is dropped. A token is dropped when its start has no
/// position, its kind has no legend entry, its range is reversed or wider
/// than `u32`, or its position lies before the cursor (which sorted tokens of
/// one text never do). On the cursor's line the column is relative to the
/// cursor's; on a later line it is absolute. The length is the byte width of
/// the range, not its width in chars.
pub open spec fn place(pos: Option<(u32, u32)>, t: ClassifiedToken, prev_line: u32, prev_col: u32)
    -> Option<(EncodedToken, u32, u32)>
{
    match (pos, legend_index_spec(t.kind)) {
        (Some((line, col)), Some(ty)) => {
            if t.start <= t.end && t.end - t.start <= u32::MAX && prev_line <= line
                && (line == prev_line ==> prev_col <= col) {
                Some((EncodedToken {
                    delta_line: (line - prev_line) as u32,
                    delta_start: if line == prev_line { (col - prev_col) as u32 } else { col },
                    length: (t.end - t.start) as u32,
                    token_type: ty,
                    token_modifiers_bitset: 0,
                }, line, col))
            } else {
                None
            }
        },
        _ => None,
    }
}

/// What one token of `text` becomes on the wire after the cursor.
pub open spec fn emit(text: Seq<char>, t: ClassifiedToken, prev_line: u32, prev_col: u32)
    -> Option<(EncodedToken, u32, u32)>
{
    place(position_spec(text, t.start as nat), t, prev_line, prev_col)
}

/// Delta encoding of `s`, in its order, from the cursor `(prev_line, prev_col)`.
pub open spec fn encode_from(text: Seq<char>, s: Seq<ClassifiedToken>, prev_line: u32, prev_col: u32)
    -> Seq<EncodedToken>
    decreases s.len(),
{
    if s.len() == 0 {
        seq![]
    } else {
        match emit(text, s[0], prev_line, prev_col) {
            Some((e, line, col)) => seq![e] + encode_from(text, s.drop_first(), line, col),
            None => encode_from(text, s.drop_first(), prev_line, prev_col),
        }
    }
}

/// Delta encoding of `s` from the start of the text.
pub open spec fn encode_spec(text: Seq<char>, s: Seq<ClassifiedToken>) -> Seq<EncodedToken> {
    encode_from(text, s, 0, 0)
}

/// The encoding has at most one entry per token, and no entry steps back.
pub proof fn lemma_encode_bounds(text: Seq<char>, s: Seq<ClassifiedToken>, prev_line: u32, prev_col: u32)
    ensures
        encode_from(text, s, prev_line, prev_col).len() <= s.len(),
        forall|i: int| 0 <= i < encode_from(text, s, prev_line, prev_col).len() ==> {
            let e = #[trigger] encode_from(text, s, prev_line, prev_col)[i];
            e.delta_line >= 0 && (e.delta_line == 0 ==> e.delta_start >= 0)
        },
    decreases s.len(),
{
    if s.len() > 0 {
        match emit(text, s[0], prev_line, prev_col) {
            Some((e, line, col)) => lemma_encode_bounds(text, s.drop_first(), line, col),
            None => lemma_encode_bounds(text, s.drop_first(), prev_line, prev_col),
        }
    }
}

/// The wire entry for a token whose start lies at `pos`, placed after the
/// cursor, with the cursor that follows it.
pub fn place_token(pos: Option<(u32, u32)>, t: ClassifiedToken, prev_line: u32, prev_col: u32)
    -> (r: Option<(EncodedToken, u32, u32)>)
    ensures
        r == place(pos, t, prev_line, prev_col),
{
    let (line, col) = match pos {
        Some(p) => p,
        None => return None,
    };
    let ty = match t.kind.to_legend_type() {
        Some(ty) => ty,
        None => return None,
    };
    if t.start <= t.end && t.end - t.start <= u32::MAX as usize && prev_line <= line
        && (line != prev_line || prev_col <= col) {
        let delta_start = if line == prev_line { col - prev_col } else { col };
        Some((EncodedToken {
            delta_line: line - prev_line,
            delta_start,
            length: (t.end - t.start) as u32,
            token_type: ty,
            token_modifiers_bitset: 0,
        }, line, col))
    } else {
        None
    }
}

/// The wire entry for one token of the rope's text after the cursor.
pub fn emit_token(rope: &Rope, t: ClassifiedToken, prev_line: u32, prev_col: u32)
    -> (r: Option<(EncodedToken, u32, u32)>)
    ensures
        r == emit(rope_chars(*rope), t, prev_line, prev_col),
{
    place_token(byte_position(rope, t.start), t, prev_line, prev_col)
}

/// Encodes tokens, in the order given, relative to one another.
pub fn encode_tokens(rope: &Rope, tokens: &Vec<ClassifiedToken>) -> (r: Vec<EncodedToken>)
    ensures
        r@ == encode_spec(rope_chars(*rope), tokens@),
{
    let ghost text = rope_chars(*rope);
    let mut r: Vec<EncodedToken> = Vec::new();
    let mut prev_line: u32 = 0;
    let mut prev_col: u32 = 0;
    let mut i: usize = 0;
    assert(tokens@.subrange(0, tokens.len() as int) =~= tokens@);
    while i < tokens.len()
        invariant
            i <= tokens.len(),
            text == rope_chars(*rope),
            r@ + encode_from(text, tokens@.subrange(i as int, tokens.len() as int), prev_line, prev_col)
                == encode_spec(text, tokens@),
        decreases tokens.len() - i,
    {
        let ghost rest = tokens@.subrange(i as int, tokens.len() as int);
        proof {
            assert(rest.drop_first() =~= tokens@.subrange(i as int + 1, tokens.len() as int));
        }
        match emit_token(rope, tokens[i], prev_line, prev_col) {
            Some((e, line, col)) => {
                proof {
                    assert(r@.push(e) + encode_from(text, rest.drop_first(), line, col)
                        =~= r@ + encode_from(text, rest, prev_line, prev_col));
                }
                r.push(e);
                prev_line = line;
                prev_col = col;
            },
            None => {},
        }
        i = i + 1;
    }
    proof {
        assert(r@ + encode_from(text, tokens@.subrange(i as int, tokens.len() as int), prev_line, prev_col)
            =~= r@);
    }
    r
}

} // verus!
