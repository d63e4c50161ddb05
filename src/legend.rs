use vstd::prelude::*;

verus! {

/// The semantic token types advertised to the client, in legend order.
#[derive(Clone, Copy, Debug, PartialEq, Eq, Structural)]
pub enum LegendKind {
    Comment,
    Number,
    String,
    Macro,
    Method,
    Keyword,
    Type,
    Class,
    Operator,
}

/// The closed set of classifications that the tokenizer hands out.
#[derive(Clone, Copy, Debug, PartialEq, Eq, Structural)]
pub enum TokenKind {
    Bool,
    Number,
    Str,
    Directive,
    Setter,
    Definition,
    Inherits,
    /// Any token that is not highlighted (identifiers, braces, comments ...).
    Ignored,
}

/// The legend: position `i` holds the type whose index on the wire is `i`.
pub open spec fn legend_seq() -> Seq<LegendKind> {
    seq![
        LegendKind::Comment,
        LegendKind::Number,
        LegendKind::String,
        LegendKind::Macro,
        LegendKind::Method,
        LegendKind::Keyword,
        LegendKind::Type,
        LegendKind::Class,
        LegendKind::Operator,
    ]
}

/// The legend entry that a token kind is highlighted as, if any.
pub open spec fn legend_kind_of(k: TokenKind) -> Option<LegendKind> {
    match k {
        TokenKind::Bool => Some(LegendKind::Keyword),
        TokenKind::Number => Some(LegendKind::Number),
        TokenKind::Str => Some(LegendKind::String),
        TokenKind::Directive => Some(LegendKind::Macro),
        TokenKind::Setter => Some(LegendKind::Method),
        TokenKind::Definition => Some(LegendKind::Class),
        TokenKind::Inherits => Some(LegendKind::Operator),
        TokenKind::Ignored => None,
    }
}

/// Index of a legend kind within the legend.
pub open spec fn legend_position(l: LegendKind) -> nat {
    match l {
        LegendKind::Comment => 0,
        LegendKind::Number => 1,
        LegendKind::String => 2,
        LegendKind::Macro => 3,
        LegendKind::Method => 4,
        LegendKind::Keyword => 5,
        LegendKind::Type => 6,
        LegendKind::Class => 7,
        LegendKind::Operator => 8,
    }
}

/// Wire index of a token kind, or `None` for kinds that are not highlighted.
pub open spec fn legend_index_spec(k: TokenKind) -> Option<u32> {
    match legend_kind_of(k) {
        Some(l) => Some(legend_position(l) as u32),
        None => None,
    }
}

/// Each legend kind stands exactly once in the legend, at its own position.
pub proof fn lemma_legend_position(l: LegendKind)
    ensures
        legend_position(l) < legend_seq().len(),
        legend_seq()[legend_position(l) as int] == l,
        forall|i: int| 0 <= i < legend_seq().len() && legend_seq()[i] == l ==> i == legend_position(l),
{
}

/// The legend, in the order the client is told.
pub fn legend() -> (r: Vec<LegendKind>)
    ensures
        r@ == legend_seq(),
{
    let r = vec![
        LegendKind::Comment,
        LegendKind::Number,
        LegendKind::String,
        LegendKind::Macro,
        LegendKind::Method,
        LegendKind::Keyword,
        LegendKind::Type,
        LegendKind::Class,
        LegendKind::Operator,
    ];
    assert(r@ =~= legend_seq());
    r
}

impl TokenKind {
    /// The index in the legend of the type this kind is highlighted as.
    pub fn to_legend_type(&self) -> (r: Option<u32>)
        ensures
            r == legend_index_spec(*self),
            r matches Some(i) ==> i < legend_seq().len()
                && legend_seq()[i as int] == legend_kind_of(*self).unwrap(),
            r is None <==> *self == TokenKind::Ignored,
    {
        match self {
            TokenKind::Bool => Some(5),
            TokenKind::Number => Some(1),
            TokenKind::Str => Some(2),
            TokenKind::Directive => Some(3),
            TokenKind::Setter => Some(4),
            TokenKind::Definition => Some(7),
            TokenKind::Inherits => Some(8),
            TokenKind::Ignored => None,
        }
    }
}

} // verus!
