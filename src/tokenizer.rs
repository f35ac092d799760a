//! The tokenizer: a six-state machine over a [`Stream`].

use vstd::prelude::*;
use vstd::string::StringSliceAdditionalSpecFns;
use crate::chars::{first_char, is_xml_char, spec_xml_char, spec_xml_digit, spec_xml_letter};
use crate::span::{SpanModel, StrSpan};
use crate::stream::{
    error_pos_at,
    Stream,
    StreamError,
    StreamModel,
    ascii_spaces_end,
    char_at,
    digits_end,
    chars_accepted,
    name_end,
    name_starts_at,
    space_at,
    spaces_end,
};
use crate::token::{
    ElementEnd,
    EntityDefinition,
    Error,
    ExternalId,
    Token,
    TokenType,
    opt_id_within,
    opt_span_within,
    span_within,
};

verus! {

/// Where the tokenizer stands in the document.
#[derive(Clone, Copy, PartialEq, Eq, Structural, Debug)]
pub enum State {
    Document,
    Dtd,
    Elements,
    Attributes,
    AfterElements,
    Finished,
}

/// `b` is `a` with its cursor moved forward, within the region.
pub open spec fn moved(a: StreamModel, b: StreamModel) -> bool {
    b.wf() && b == a.with_pos(b.pos) && a.pos <= b.pos <= a.end
}

/// Every span of `t` lies within what was consumed from `a` to `b`.
pub open spec fn token_in(t: Token, a: StreamModel, b: StreamModel) -> bool {
    t.within(a.text, a.base + a.pos, a.base + b.pos)
}

/// Bytes that the dispatcher consumes before the construct's own parser runs.
pub open spec fn prefix_len(t: TokenType) -> int {
    match t {
        TokenType::XMLDecl => 6,
        TokenType::Comment => 4,
        TokenType::PI => 2,
        TokenType::DoctypeDecl => 9,
        TokenType::ElementDecl => 9,
        TokenType::AttlistDecl => 9,
        TokenType::EntityDecl => 8,
        TokenType::NotationDecl => 10,
        TokenType::DoctypeEnd => 2,
        TokenType::ElementStart => 1,
        TokenType::ElementClose => 2,
        TokenType::Attribute => 0,
        TokenType::CDSect => 9,
        TokenType::Whitespace => 0,
        TokenType::CharData => 0,
    }
}

/// The tokens that each state can produce.
pub open spec fn allowed(state: State, t: Token) -> bool {
    match state {
        State::Document => t is Declaration || t is Comment || t is ProcessingInstruction
            || t is DtdStart || t is EmptyDtd || t is ElementStart,
        State::Dtd => t is EntityDeclaration || t is Comment || t is ProcessingInstruction
            || t is DtdEnd,
        State::Elements => t is ElementStart || (t matches Token::ElementEnd(e) && e is Close)
            || t is Cdata || t is ProcessingInstruction || t is Comment || t is Text
            || t is Whitespaces,
        State::Attributes => t is Attribute || (t matches Token::ElementEnd(e) && !(e is Close)),
        State::AfterElements => t is Comment || t is ProcessingInstruction,
        State::Finished => false,
    }
}

/// Depth after token `t`: `>` opens an element, `</name>` closes one (never below zero).
pub open spec fn depth_after(depth: nat, t: Token) -> nat {
    match t {
        Token::ElementEnd(ElementEnd::Open) => depth + 1,
        Token::ElementEnd(ElementEnd::Close(_)) => if depth > 0 {
            (depth - 1) as nat
        } else {
            0
        },
        _ => depth,
    }
}

/// State and depth after token `t`.
pub open spec fn spec_transition(state: State, depth: nat, t: Token) -> (State, nat) {
    match t {
        Token::ElementStart(_) => (State::Attributes, depth),
        Token::ElementEnd(_) => (
            if depth_after(depth, t) == 0 {
                State::AfterElements
            } else {
                State::Elements
            },
            depth_after(depth, t),
        ),
        Token::DtdStart(_, _) => (State::Dtd, depth),
        Token::DtdEnd => (State::Document, depth),
        _ => (state, depth),
    }
}

/// State and depth after token `t`.
pub fn transition(state: State, depth: usize, t: &Token) -> (r: (State, usize))
    requires
        depth < usize::MAX,
    ensures
        r.0 == spec_transition(state, depth as nat, *t).0,
        r.1 as nat == spec_transition(state, depth as nat, *t).1,
{
    match t {
        Token::ElementStart(_) => (State::Attributes, depth),
        Token::ElementEnd(end) => {
            let mut d = depth;
            match end {
                ElementEnd::Open => {
                    d = d + 1;
                },
                ElementEnd::Close(_) => {
                    if d > 0 {
                        d = d - 1;
                    }
                },
                ElementEnd::Empty => {},
            }
            if d == 0 {
                (State::AfterElements, d)
            } else {
                (State::Elements, d)
            }
        },
        Token::DtdStart(_, _) => (State::Dtd, depth),
        Token::DtdEnd => (State::Document, depth),
        _ => (state, depth),
    }
}

/// `t` occurs in `s` at `p`.
pub open spec fn starts_at(s: Seq<u8>, p: int, t: Seq<u8>) -> bool {
    0 <= p && p + t.len() <= s.len() && s.subrange(p, p + t.len()) == t
}

/// The first `b` from `p` on, or the end.
pub open spec fn until_byte(s: Seq<u8>, p: int, b: u8) -> int
    decreases s.len() - p,
{
    if p >= s.len() || s[p] == b {
        p
    } else {
        until_byte(s, p + 1, b)
    }
}

/// A run of bytes other than `b` that stops at `b` or at the end ends at `until_byte`.
pub proof fn lemma_until_byte(s: Seq<u8>, p: int, q: int, b: u8)
    requires
        p <= q <= s.len(),
        forall|i: int| p <= i < q ==> #[trigger] s[i] != b,
        q == s.len() || s[q] == b,
    ensures
        until_byte(s, p, b) == q,
    decreases q - p,
{
    if p < q {
        lemma_until_byte(s, p + 1, q, b);
    }
}

/// `]]>` occurs at `p`.
pub open spec fn cdata_close_at(s: Seq<u8>, p: int) -> bool {
    starts_at(s, p, seq![0x5Du8, 0x5D, 0x3E])
}

/// The first `]]>` from `p` on, or the end.
pub open spec fn cdata_end(s: Seq<u8>, p: int) -> int
    decreases s.len() - p,
{
    if p >= s.len() || cdata_close_at(s, p) {
        p
    } else {
        cdata_end(s, p + 1)
    }
}

/// A run with no `]]>` in it that stops at `]]>` or at the end ends at `cdata_end`.
pub proof fn lemma_cdata_end(s: Seq<u8>, p: int, q: int)
    requires
        p <= q <= s.len(),
        forall|i: int| p <= i < q ==> !#[trigger] cdata_close_at(s, i),
        q == s.len() || cdata_close_at(s, q),
    ensures
        cdata_end(s, p) == q,
    decreases q - p,
{
    if p < q {
        lemma_cdata_end(s, p + 1, q);
    }
}

/// Past the byte order marks (any character led by `0xEF`) that start at `p`.
pub open spec fn bom_end(s: Seq<u8>, p: int) -> int
    decreases s.len() - p,
{
    if starts_at(s, p, seq![0xEFu8, 0xBB, 0xBF]) {
        bom_end(s, p + 3)
    } else {
        p
    }
}

/// The construct that the bytes at `p` announce in `state`, and the position after its
/// announcing bytes; `None` where the input ends early or announces nothing known.
pub open spec fn classify(s: Seq<u8>, p: int, state: State) -> Option<(TokenType, int)> {
    if !(0 <= p < s.len()) {
        None
    } else if s[p] == 0x3C {
        if p + 1 >= s.len() {
            None
        } else if s[p + 1] == 0x3F {
            if starts_at(s, p + 1, seq![0x3Fu8, 0x78, 0x6D, 0x6C, 0x20]) {
                Some((TokenType::XMLDecl, p + 6))
            } else {
                Some((TokenType::PI, p + 2))
            }
        } else if s[p + 1] == 0x21 {
            let q = p + 2;
            if q >= s.len() {
                None
            } else if starts_at(s, q, seq![0x2Du8, 0x2D]) {
                Some((TokenType::Comment, q + 2))
            } else if starts_at(s, q, seq![0x44u8, 0x4F, 0x43, 0x54, 0x59, 0x50, 0x45]) {
                Some((TokenType::DoctypeDecl, q + 7))
            } else if starts_at(s, q, seq![0x45u8, 0x4C, 0x45, 0x4D, 0x45, 0x4E, 0x54]) {
                Some((TokenType::ElementDecl, q + 7))
            } else if starts_at(s, q, seq![0x41u8, 0x54, 0x54, 0x4C, 0x49, 0x53, 0x54]) {
                Some((TokenType::AttlistDecl, q + 7))
            } else if starts_at(s, q, seq![0x45u8, 0x4E, 0x54, 0x49, 0x54, 0x59]) {
                Some((TokenType::EntityDecl, q + 6))
            } else if starts_at(s, q, seq![0x4Eu8, 0x4F, 0x54, 0x41, 0x54, 0x49, 0x4F, 0x4E]) {
                Some((TokenType::NotationDecl, q + 8))
            } else if starts_at(s, q, seq![0x5Bu8, 0x43, 0x44, 0x41, 0x54, 0x41, 0x5B]) {
                Some((TokenType::CDSect, q + 7))
            } else {
                None
            }
        } else if s[p + 1] == 0x2F {
            Some((TokenType::ElementClose, p + 2))
        } else {
            Some((TokenType::ElementStart, p + 1))
        }
    } else if starts_at(s, p, seq![0x5Du8, 0x3E]) {
        Some((TokenType::DoctypeEnd, p + 2))
    } else {
        match state {
            State::Document | State::AfterElements | State::Dtd => if space_at(s, p) {
                Some((TokenType::Whitespace, p))
            } else {
                None
            },
            State::Elements => Some((TokenType::CharData, p)),
            _ => None,
        }
    }
}

/// The input stops inside the bytes that would announce a construct at `b`.
pub open spec fn ends_early(s: Seq<u8>, b: int) -> bool {
    b >= s.len() || (s[b] == 0x3C && (b + 1 >= s.len() || (s[b + 1] == 0x21 && b
        + 2 >= s.len())))
}

/// The error for bytes at `b` that announce no known construct: end of stream where the
/// input stops early, else an unknown token there.
pub open spec fn unknown_error(m: StreamModel, b: int) -> Error {
    if ends_early(m.bytes(), b) {
        Error::Stream(StreamError::UnexpectedEndOfStream)
    } else {
        Error::UnknownToken(error_pos_at(m.text, m.base + b))
    }
}

/// What one attribute step can denote: the end of the start tag, or an attribute by the
/// ranges of its name and value.
pub enum AttributeModel {
    Empty,
    Open,
    Attribute(int, int, int, int),
}

/// The attribute step that starts at `p`, and where it ends: optional `S`, then `/>`,
/// `>`, or `Name Eq quote value quote` followed by optional `S`.
pub open spec fn attribute_at(s: Seq<u8>, p: int) -> Option<(AttributeModel, int)> {
    let q = ascii_spaces_end(s, p);
    if q < s.len() && s[q] == 0x2F {
        if q + 1 < s.len() && s[q + 1] == 0x3E {
            Some((AttributeModel::Empty, q + 2))
        } else {
            None
        }
    } else if q < s.len() && s[q] == 0x3E {
        Some((AttributeModel::Open, q + 1))
    } else if name_starts_at(s, q) {
        let n1 = name_end(s, q);
        let e = ascii_spaces_end(s, n1);
        let v = ascii_spaces_end(s, e + 1);
        if e < s.len() && s[e] == 0x3D && v < s.len() && (s[v] == 0x27 || s[v] == 0x22) {
            let v1 = until_byte(s, v + 1, s[v]);
            if v1 < s.len() {
                Some((AttributeModel::Attribute(q, n1, v + 1, v1), ascii_spaces_end(s, v1 + 1)))
            } else {
                None
            }
        } else {
            None
        }
    } else {
        None
    }
}

impl AttributeModel {
    /// `t`, read in stream `m`, is what this model denotes.
    pub open spec fn denotes(self, t: Token, m: StreamModel) -> bool {
        match self {
            AttributeModel::Empty => t == Token::ElementEnd(ElementEnd::Empty),
            AttributeModel::Open => t == Token::ElementEnd(ElementEnd::Open),
            AttributeModel::Attribute(a, b, c, d) => t matches Token::Attribute(n, v) && n@
                == m.region(a, b) && v@ == m.region(c, d),
        }
    }
}

/// The token that the parser of construct `tt`, which starts at `q` of stream `a`,
/// produced as `t`, ending at `e`. Constructs that produce no token (`S`, skipped
/// declarations) are left unconstrained.
pub open spec fn content_token(tt: TokenType, q: int, a: StreamModel, t: Token, e: int) -> bool {
    let s = a.bytes();
    match tt {
        TokenType::ElementStart => t matches Token::ElementStart(n) && n@ == a.region(
            q,
            name_end(s, q),
        ) && name_starts_at(s, q) && e == name_end(s, q),
        TokenType::ElementClose => t matches Token::ElementEnd(ElementEnd::Close(n)) && n@
            == a.region(q, name_end(s, q)) && name_starts_at(s, q) && ascii_spaces_end(
            s,
            name_end(s, q),
        ) < s.len() && s[ascii_spaces_end(s, name_end(s, q))] == 0x3E && e == ascii_spaces_end(
            s,
            name_end(s, q),
        ) + 1,
        TokenType::CharData => {
            let te = until_byte(s, q, 0x3C);
            &&& e == te
            &&& if spaces_end(s.subrange(q, te), 0) == te - q {
                t matches Token::Whitespaces(x) && x@ == a.region(q, te)
            } else {
                t matches Token::Text(x) && x@ == a.region(q, te)
            }
        },
        TokenType::CDSect => t matches Token::Cdata(x) && x@ == a.region(q, cdata_end(s, q))
            && cdata_end(s, q) < s.len() && e == cdata_end(s, q) + 3,
        TokenType::Comment => t matches Token::Comment(x) && x@ == a.region(
            q,
            comment_text_end(s, q),
        ) && e == comment_text_end(s, q) + 3,
        TokenType::DoctypeEnd => t == Token::DtdEnd && e == q,
        TokenType::XMLDecl => declaration_at(s, q) matches Some((v, enc, sa, end)) && e == end && (
        t matches Token::Declaration(vs, es, ss) && vs@ == a.region(v.0, v.1) && opt_region(
            es,
            enc,
            a,
        ) && opt_region(ss, sa, a)),
        TokenType::EntityDecl => entity_decl_at(s, q) matches Some((n0, n1, d, end)) && e == end
            && (t matches Token::EntityDeclaration(n, def) && n@ == a.region(n0, n1) && d.denotes(
            def,
            a,
        )),
        TokenType::DoctypeDecl => doctype_at(s, q) matches Some((n0, n1, o, k3)) && e == k3 + 1
            && match t {
            Token::DtdStart(n, id) => s[k3] == 0x5B && n@ == a.region(n0, n1) && id_matches(
                o,
                id,
                a,
            ),
            Token::EmptyDtd(n, id) => s[k3] == 0x3E && n@ == a.region(n0, n1) && id_matches(
                o,
                id,
                a,
            ),
            _ => false,
        },
        TokenType::PI => {
            let c0 = pi_content_start(s, q);
            let c1 = pi_text_end(s, c0);
            &&& t matches Token::ProcessingInstruction(n, c) && n@ == a.region(q, name_end(s, q))
                && match c {
                Some(x) => c0 < c1 && x@ == a.region(c0, c1),
                None => c0 == c1,
            }
            &&& e == c1 + 2
        },
        _ => true,
    }
}

/// Where a skipped markup declaration (`<!ELEMENT`, `<!ATTLIST`, `<!NOTATION`) whose
/// keyword ends at `q` ends: `S` (unless at the end), anything up to `>`, and the `>`.
pub open spec fn decl_end(s: Seq<u8>, q: int) -> Option<int> {
    if q >= s.len() || space_at(s, q) {
        let e = until_byte(s, spaces_end(s, q), 0x3E);
        if e < s.len() {
            Some(e + 1)
        } else {
            None
        }
    } else {
        None
    }
}

/// The error of a skipped declaration whose keyword ends at the cursor of `m` and which
/// is malformed: the missing `S` reported as an invalid character, or the end of the
/// stream where no `>` comes.
pub open spec fn decl_error(m: StreamModel, e: Error) -> bool {
    let s = m.bytes();
    let q = m.pos;
    if !(q >= s.len() || space_at(s, q)) {
        e matches Error::Stream(StreamError::InvalidChar(found, expected, at)) && found as u32
            == s[q] as u32 && expected@ == crate::stream::space_name() && at == error_pos_at(
            m.text,
            m.base + q,
        )
    } else {
        e == Error::Stream(StreamError::UnexpectedEndOfStream)
    }
}

/// From `p` on, the input holds nothing that `state` reports: only `S` and, in the DTD,
/// skipped declarations, up to the end.
pub open spec fn skippable_rest(s: Seq<u8>, p: int, state: State) -> bool
    decreases s.len() - p,
{
    if p < 0 {
        false
    } else if p >= s.len() {
        true
    } else {
        match classify(s, bom_end(s, p), state) {
            Some((TokenType::Whitespace, q)) => {
                let e = spaces_end(s, q);
                if p < e <= s.len() {
                    skippable_rest(s, e, state)
                } else {
                    false
                }
            },
            Some((tt, q)) => if state == State::Dtd && (tt == TokenType::ElementDecl || tt
                == TokenType::AttlistDecl || tt == TokenType::NotationDecl) {
                match decl_end(s, q) {
                    Some(e) => if p < e {
                        skippable_rest(s, e, state)
                    } else {
                        false
                    },
                    None => false,
                }
            } else {
                false
            },
            None => false,
        }
    }
}

/// A quoted literal at `k`: the range of its value; the literal ends after the closing
/// quote, at `.1 + 1`.
pub open spec fn quoted_at(s: Seq<u8>, k: int) -> Option<(int, int)> {
    if 0 <= k < s.len() && (s[k] == 0x27 || s[k] == 0x22) && until_byte(s, k + 1, s[k]) < s.len() {
        Some((k + 1, until_byte(s, k + 1, s[k])))
    } else {
        None
    }
}

/// Where required `S` that starts at `k` ends; at the end of the input none is required.
pub open spec fn spaces_then(s: Seq<u8>, k: int) -> Option<int> {
    if k >= s.len() || space_at(s, k) {
        Some(spaces_end(s, k))
    } else {
        None
    }
}

/// What an external identifier denotes: the ranges of its literals.
pub enum ExternalIdModel {
    System(int, int),
    Public(int, int, int, int),
}

impl ExternalIdModel {
    pub open spec fn denotes(self, id: ExternalId, m: StreamModel) -> bool {
        match (self, id) {
            (ExternalIdModel::System(a, b), ExternalId::System(x)) => x@ == m.region(a, b),
            (ExternalIdModel::Public(a, b, c, d), ExternalId::Public(x, y)) => x@ == m.region(a, b)
                && y@ == m.region(c, d),
            _ => false,
        }
    }
}

/// The optional external identifier at `p`: `None` where it is malformed; `Some(None)`
/// where there is none; otherwise what it denotes and where it ends.
pub open spec fn external_id_at(s: Seq<u8>, p: int) -> Option<Option<(ExternalIdModel, int)>> {
    let sys = starts_at(s, p, seq![0x53u8, 0x59, 0x53, 0x54, 0x45, 0x4D]);
    let public = starts_at(s, p, seq![0x50u8, 0x55, 0x42, 0x4C, 0x49, 0x43]);
    if !sys && !public {
        Some(None)
    } else {
        match spaces_then(s, p + 6) {
            None => None,
            Some(k1) => match quoted_at(s, k1) {
                None => None,
                Some((a, b)) => if sys {
                    Some(Some((ExternalIdModel::System(a, b), b + 1)))
                } else {
                    match spaces_then(s, b + 1) {
                        None => None,
                        Some(k2) => match quoted_at(s, k2) {
                            None => None,
                            Some((c, d)) => Some(Some((ExternalIdModel::Public(a, b, c, d), d + 1))),
                        },
                    }
                },
            },
        }
    }
}

/// The external identifier `id` is what `o` denotes.
pub open spec fn id_matches(o: Option<(ExternalIdModel, int)>, id: Option<ExternalId>, m: StreamModel) -> bool {
    match (o, id) {
        (None, None) => true,
        (Some((x, _)), Some(i)) => x.denotes(i, m),
        _ => false,
    }
}

/// Where the optional external identifier `o` that starts at `p` ends.
pub open spec fn id_end(o: Option<(ExternalIdModel, int)>, p: int) -> int {
    match o {
        Some((_, e)) => e,
        None => p,
    }
}

/// The DOCTYPE whose keyword ends at `q`: the name's range, the external identifier, and
/// the position of the final `[` or `>`.
pub open spec fn doctype_at(s: Seq<u8>, q: int) -> Option<(int, int, Option<(ExternalIdModel, int)>, int)> {
    match spaces_then(s, q) {
        None => None,
        Some(k) => if name_starts_at(s, k) {
            let k2 = spaces_end(s, name_end(s, k));
            match external_id_at(s, k2) {
                None => None,
                Some(o) => {
                    let k3 = spaces_end(s, id_end(o, k2));
                    if k3 < s.len() && (s[k3] == 0x5B || s[k3] == 0x3E) {
                        Some((k, name_end(s, k), o, k3))
                    } else {
                        None
                    }
                },
            }
        } else {
            None
        },
    }
}

/// What an entity definition denotes.
pub enum EntityDefModel {
    /// The range of a quoted value.
    Value(int, int),
    External(ExternalIdModel),
}

impl EntityDefModel {
    pub open spec fn denotes(self, d: EntityDefinition, m: StreamModel) -> bool {
        match (self, d) {
            (EntityDefModel::Value(a, b), EntityDefinition::EntityValue(v)) => v@ == m.region(a, b),
            (EntityDefModel::External(x), EntityDefinition::ExternalId(id)) => x.denotes(id, m),
            _ => false,
        }
    }
}

/// Where an optional `NDATA` declaration that may start at `k` ends: `NDATA`, `S` and a
/// `Name`, which may be missing at the end of the input.
pub open spec fn ndata_end(s: Seq<u8>, k: int) -> Option<int> {
    if starts_at(s, k, seq![0x4Eu8, 0x44, 0x41, 0x54, 0x41]) {
        match spaces_then(s, k + 5) {
            None => None,
            Some(k2) => if k2 >= s.len() {
                Some(k2)
            } else if name_starts_at(s, k2) {
                Some(name_end(s, k2))
            } else {
                None
            },
        }
    } else {
        Some(k)
    }
}

/// The entity definition at `p` and where it ends; `is_ge` for a general entity, which
/// may carry `NDATA`.
pub open spec fn entity_def_at(s: Seq<u8>, p: int, is_ge: bool) -> Option<(EntityDefModel, int)> {
    if !(0 <= p < s.len()) {
        None
    } else if s[p] == 0x22 || s[p] == 0x27 {
        match quoted_at(s, p) {
            Some((a, b)) => Some((EntityDefModel::Value(a, b), b + 1)),
            None => None,
        }
    } else if s[p] == 0x53 || s[p] == 0x50 {
        match external_id_at(s, p) {
            Some(Some((m, e))) => if is_ge {
                match ndata_end(s, spaces_end(s, e)) {
                    Some(e2) => Some((EntityDefModel::External(m), e2)),
                    None => None,
                }
            } else {
                Some((EntityDefModel::External(m), e))
            },
            _ => None,
        }
    } else {
        None
    }
}

/// Where the name of the entity declaration whose keyword ends at `q` starts, and whether
/// the entity is a general one (no `%`).
pub open spec fn entity_name_start(s: Seq<u8>, q: int) -> Option<(int, bool)> {
    match spaces_then(s, q) {
        None => None,
        Some(k) => if k >= s.len() {
            None
        } else if s[k] == 0x25 {
            match spaces_then(s, k + 1) {
                Some(k2) => Some((k2, false)),
                None => None,
            }
        } else {
            Some((k, true))
        },
    }
}

/// The entity declaration whose keyword ends at `q`: its name's range, its definition,
/// and where the declaration ends.
pub open spec fn entity_decl_at(s: Seq<u8>, q: int) -> Option<(int, int, EntityDefModel, int)> {
    match entity_name_start(s, q) {
        None => None,
        Some((k2, is_ge)) => if name_starts_at(s, k2) {
            let n1 = name_end(s, k2);
            match spaces_then(s, n1) {
                None => None,
                Some(k3) => match entity_def_at(s, k3, is_ge) {
                    None => None,
                    Some((d, e)) => {
                        let k4 = spaces_end(s, e);
                        if k4 < s.len() && s[k4] == 0x3E {
                            Some((k2, n1, d, k4 + 1))
                        } else {
                            None
                        }
                    },
                },
            }
        } else {
            None
        },
    }
}

pub open spec fn is_quote(b: u8) -> bool {
    b == 0x27 || b == 0x22
}

/// Where `Eq` (optional `S`, `=`, optional `S`) that starts at `k` ends.
pub open spec fn eq_end(s: Seq<u8>, k: int) -> Option<int> {
    let e = ascii_spaces_end(s, k);
    if 0 <= e < s.len() && s[e] == 0x3D {
        Some(ascii_spaces_end(s, e + 1))
    } else {
        None
    }
}

/// A byte that may stand in an encoding name.
pub open spec fn enc_name_byte(c: u8) -> bool {
    spec_xml_letter(c) || spec_xml_digit(c) || c == 0x2E || c == 0x2D || c == 0x5F
}

/// End of the run of encoding name bytes that starts at `p`.
pub open spec fn enc_name_end(s: Seq<u8>, p: int) -> int
    decreases s.len() - p,
{
    if 0 <= p < s.len() && enc_name_byte(s[p]) {
        enc_name_end(s, p + 1)
    } else {
        p
    }
}

proof fn lemma_enc_name_end(s: Seq<u8>, p: int, q: int)
    requires
        0 <= p <= q <= s.len(),
        forall|i: int| p <= i < q ==> enc_name_byte(#[trigger] s[i]),
        q == s.len() || !enc_name_byte(s[q]),
    ensures
        enc_name_end(s, p) == q,
    decreases q - p,
{
    if p < q {
        lemma_enc_name_end(s, p + 1, q);
    }
}

proof fn lemma_digits_end(s: Seq<u8>, p: int, q: int)
    requires
        0 <= p <= q <= s.len(),
        forall|i: int| p <= i < q ==> spec_xml_digit(#[trigger] s[i]),
        q == s.len() || !spec_xml_digit(s[q]),
    ensures
        digits_end(s, p, false) == q,
    decreases q - p,
{
    if p < q {
        lemma_digits_end(s, p + 1, q);
    }
}

/// `VersionInfo` after `k`: the range of the version number, and where it ends. The
/// version must start with `1.`; the two quotes need not match.
pub open spec fn version_at(s: Seq<u8>, k: int) -> Option<(int, int, int)> {
    let a0 = ascii_spaces_end(s, k);
    if !starts_at(s, a0, seq![0x76u8, 0x65, 0x72, 0x73, 0x69, 0x6F, 0x6E]) {
        None
    } else {
        match eq_end(s, a0 + 7) {
            None => None,
            Some(v) => if 0 <= v < s.len() && is_quote(s[v]) && starts_at(
                s,
                v + 1,
                seq![0x31u8, 0x2E],
            ) {
                let d = digits_end(s, v + 3, false);
                if d < s.len() && is_quote(s[d]) {
                    Some((v + 1, d, d + 1))
                } else {
                    None
                }
            } else {
                None
            },
        }
    }
}

/// The optional `EncodingDecl` after `k`: the range of the name, and where it ends. Where
/// the keyword is missing, the bytes that match its beginning are consumed.
pub open spec fn encoding_at(s: Seq<u8>, k: int) -> Option<(Option<(int, int)>, int)> {
    let a0 = ascii_spaces_end(s, k);
    let kw = seq![0x65u8, 0x6E, 0x63, 0x6F, 0x64, 0x69, 0x6E, 0x67];
    if !starts_at(s, a0, kw) {
        Some((None, a0 + crate::stream::mismatch_at(s, a0, kw, 0)))
    } else {
        match eq_end(s, a0 + 8) {
            None => None,
            Some(v) => if 0 <= v < s.len() && is_quote(s[v]) && enc_name_end(s, v + 1) < s.len()
                && is_quote(s[enc_name_end(s, v + 1)]) {
                Some((Some((v + 1, enc_name_end(s, v + 1))), enc_name_end(s, v + 1) + 1))
            } else {
                None
            },
        }
    }
}

/// The optional `SDDecl` after `k`: the range of `yes` or `no`, and where it ends. Where
/// the keyword is missing, the bytes that match its beginning are consumed.
pub open spec fn standalone_at(s: Seq<u8>, k: int) -> Option<(Option<(int, int)>, int)> {
    let a0 = ascii_spaces_end(s, k);
    let kw = seq![0x73u8, 0x74, 0x61, 0x6E, 0x64, 0x61, 0x6C, 0x6F, 0x6E, 0x65];
    if !starts_at(s, a0, kw) {
        Some((None, a0 + crate::stream::mismatch_at(s, a0, kw, 0)))
    } else {
        match eq_end(s, a0 + 10) {
            None => None,
            Some(v) => if 0 <= v < s.len() && is_quote(s[v]) && name_starts_at(s, v + 1) {
                let n1 = name_end(s, v + 1);
                let value = s.subrange(v + 1, n1);
                if (value == seq![0x79u8, 0x65, 0x73] || value == seq![0x6Eu8, 0x6F]) && n1 < s.len()
                    && is_quote(s[n1]) {
                    Some((Some((v + 1, n1)), n1 + 1))
                } else {
                    None
                }
            } else {
                None
            },
        }
    }
}

/// The XML declaration whose `<?xml ` ends at `q`: version, encoding and standalone
/// ranges, and where the declaration ends.
pub open spec fn declaration_at(s: Seq<u8>, q: int) -> Option<
    ((int, int), Option<(int, int)>, Option<(int, int)>, int),
> {
    match version_at(s, q) {
        None => None,
        Some((va, vb, e1)) => match encoding_at(s, e1) {
            None => None,
            Some((enc, e2)) => match standalone_at(s, e2) {
                None => None,
                Some((sa, e3)) => {
                    let e4 = ascii_spaces_end(s, e3);
                    if starts_at(s, e4, seq![0x3Fu8, 0x3E]) {
                        Some(((va, vb), enc, sa, e4 + 2))
                    } else {
                        None
                    }
                },
            },
        },
    }
}

/// `o` is the span of range `r` of `m`, or both are absent.
pub open spec fn opt_region(o: Option<StrSpan>, r: Option<(int, int)>, m: StreamModel) -> bool {
    match (o, r) {
        (None, None) => true,
        (Some(x), Some((a, b))) => x@ == m.region(a, b),
        _ => false,
    }
}

/// The character at `i` may stand in a comment's text: a legal XML character that does
/// not start `-->`.
pub open spec fn comment_char_at(s: Seq<u8>, i: int) -> bool {
    &&& !(char_at(s, i).0 == 0x2D && starts_at(s, i, seq![0x2Du8, 0x2D, 0x3E]))
    &&& spec_xml_char(char_at(s, i).0)
}

/// End of the run of comment characters that starts at `p`.
pub open spec fn comment_text_end(s: Seq<u8>, p: int) -> int
    decreases s.len() - p,
{
    if 0 <= p < s.len() && comment_char_at(s, p) {
        comment_text_end(s, p + char_at(s, p).1)
    } else {
        p
    }
}

/// A comment whose text starts at `q` is well-formed: its text holds no `--` and is
/// followed by `-->`.
pub open spec fn comment_ok(s: Seq<u8>, q: int) -> bool {
    let e = comment_text_end(s, q);
    &&& forall|i: int| q <= i < e - 1 ==> !#[trigger] hyphens_at(s, i)
    &&& starts_at(s, e, seq![0x2Du8, 0x2D, 0x3E])
}

/// A run of characters that `f`, which accepts exactly the comment characters, accepted
/// from `p` to `q`, and that stops at `q`, ends where `comment_text_end` says.
proof fn lemma_comment_run<'a, F: Fn(&Stream<'a>, char) -> bool>(
    st: Stream<'a>,
    p: int,
    q: int,
    f: F,
)
    requires
        st.wf(),
        0 <= p <= q <= st@.end,
        chars_accepted(st, p, q, f),
        forall|x: &Stream<'a>, c: char, r: bool| #[trigger]
            f.ensures((x, c), r) ==> r == (!((c as u32) == 0x2D && x@.starts_with(
                seq![0x2Du8, 0x2D, 0x3E],
            )) && spec_xml_char(c as u32)),
        q < st@.end ==> f.ensures(
            (&st.at_pos(q), char_at(st@.bytes(), q).0 as char),
            false,
        ),
    ensures
        comment_text_end(st@.bytes(), p) == q,
    decreases q - p,
{
    let s = st@.bytes();
    if p < q {
        st.lemma_at_pos(p);
        crate::chars::lemma_char_at_scalar(s, p);
        lemma_comment_run(st, p + char_at(s, p).1, q, f);
    } else if q < st@.end {
        st.lemma_at_pos(q);
        crate::chars::lemma_char_at_scalar(s, q);
    }
}

/// Whether the parser of construct `tt`, which starts at `q`, succeeds; character data
/// and the end of the DTD always do.
pub open spec fn content_ok(tt: TokenType, q: int, s: Seq<u8>) -> bool {
    match tt {
        TokenType::ElementStart => name_starts_at(s, q) && name_end(s, q) < s.len(),
        TokenType::ElementClose => name_starts_at(s, q) && ascii_spaces_end(s, name_end(s, q))
            < s.len() && s[ascii_spaces_end(s, name_end(s, q))] == 0x3E,
        TokenType::CDSect => cdata_end(s, q) < s.len(),
        TokenType::Comment => comment_ok(s, q),
        TokenType::PI => pi_ok(s, q),
        TokenType::DoctypeDecl => doctype_at(s, q) is Some,
        TokenType::EntityDecl => entity_decl_at(s, q) is Some,
        TokenType::XMLDecl => declaration_at(s, q) is Some,
        _ => true,
    }
}

/// The character at `i` may stand in a processing instruction's content: a legal XML
/// character that does not start `?>`.
pub open spec fn pi_char_at(s: Seq<u8>, i: int) -> bool {
    &&& !(char_at(s, i).0 == 0x3F && starts_at(s, i, seq![0x3Fu8, 0x3E]))
    &&& spec_xml_char(char_at(s, i).0)
}

/// End of the run of processing instruction characters that starts at `p`.
pub open spec fn pi_text_end(s: Seq<u8>, p: int) -> int
    decreases s.len() - p,
{
    if 0 <= p < s.len() && pi_char_at(s, p) {
        pi_text_end(s, p + char_at(s, p).1)
    } else {
        p
    }
}

/// Where the content of the processing instruction whose target starts at `q` starts.
pub open spec fn pi_content_start(s: Seq<u8>, q: int) -> int {
    spaces_end(s, name_end(s, q))
}

/// A processing instruction whose target starts at `q` is well-formed: a `Name`, then
/// content that is followed by `?>`.
pub open spec fn pi_ok(s: Seq<u8>, q: int) -> bool {
    &&& name_starts_at(s, q)
    &&& starts_at(s, pi_text_end(s, pi_content_start(s, q)), seq![0x3Fu8, 0x3E])
}

/// Like `lemma_comment_run`, for the content of a processing instruction.
proof fn lemma_pi_run<'a, F: Fn(&Stream<'a>, char) -> bool>(st: Stream<'a>, p: int, q: int, f: F)
    requires
        st.wf(),
        0 <= p <= q <= st@.end,
        chars_accepted(st, p, q, f),
        forall|x: &Stream<'a>, c: char, r: bool| #[trigger]
            f.ensures((x, c), r) ==> r == (!((c as u32) == 0x3F && x@.starts_with(
                seq![0x3Fu8, 0x3E],
            )) && spec_xml_char(c as u32)),
        q < st@.end ==> f.ensures(
            (&st.at_pos(q), char_at(st@.bytes(), q).0 as char),
            false,
        ),
    ensures
        pi_text_end(st@.bytes(), p) == q,
    decreases q - p,
{
    let s = st@.bytes();
    if p < q {
        st.lemma_at_pos(p);
        crate::chars::lemma_char_at_scalar(s, p);
        lemma_pi_run(st, p + char_at(s, p).1, q, f);
    } else if q < st@.end {
        st.lemma_at_pos(q);
        crate::chars::lemma_char_at_scalar(s, q);
    }
}

/// Where the construct that a call reports starts: past the `S` and, in the DTD, the
/// skipped declarations that start at `p`.
pub open spec fn construct_start(s: Seq<u8>, p: int, state: State) -> int
    decreases s.len() - p,
{
    if p < 0 || p >= s.len() {
        p
    } else {
        match classify(s, bom_end(s, p), state) {
            Some((TokenType::Whitespace, q)) => {
                let e = spaces_end(s, q);
                if p < e <= s.len() {
                    construct_start(s, e, state)
                } else {
                    p
                }
            },
            Some((tt, q)) => if state == State::Dtd && (tt == TokenType::ElementDecl || tt
                == TokenType::AttlistDecl || tt == TokenType::NotationDecl) {
                match decl_end(s, q) {
                    Some(e) => if p < e {
                        construct_start(s, e, state)
                    } else {
                        p
                    },
                    None => p,
                }
            } else {
                p
            },
            None => p,
        }
    }
}

/// Where the quote of `VersionInfo` after `k` stands, when the keyword and `Eq` are there.
pub open spec fn version_quote_at(s: Seq<u8>, k: int) -> Option<int> {
    let a0 = ascii_spaces_end(s, k);
    if starts_at(s, a0, seq![0x76u8, 0x65, 0x72, 0x73, 0x69, 0x6F, 0x6E]) {
        match eq_end(s, a0 + 7) {
            Some(v) => if 0 <= v < s.len() && is_quote(s[v]) {
                Some(v)
            } else {
                None
            },
            None => None,
        }
    } else {
        None
    }
}

/// `c` is the error for a version after `k` that does not start with `1.`: the error of
/// `consume_byte` at the first byte that differs.
pub open spec fn version_error(m: StreamModel, k: int, c: Error) -> bool {
    let s = m.bytes();
    match version_quote_at(s, k) {
        Some(v) => {
            let i = crate::stream::mismatch_at(s, v + 1, seq![0x31u8, 0x2E], 0);
            c matches Error::Stream(e) && crate::stream::byte_error(
                m.with_pos(v + 1 + i),
                seq![0x31u8, 0x2E][i],
                e,
            )
        },
        None => true,
    }
}

/// The version after `k` is quoted but does not start with `1.`.
pub open spec fn version_prefix_bad(s: Seq<u8>, k: int) -> bool {
    version_quote_at(s, k) matches Some(v) && !starts_at(s, v + 1, seq![0x31u8, 0x2E])
}

/// Where a construct's parser fixes the cause of its error, the error that construct `tt`
/// at `b` of `a` (announcing bytes ending at `q`) reports carries it: an element start
/// whose name runs to the end of the input, and a version that does not start with `1.`.
pub open spec fn cause_stated(tt: TokenType, q: int, a: StreamModel, b: int, r: Result<Token, Error>) -> bool {
    let s = a.bytes();
    &&& tt == TokenType::ElementStart && name_starts_at(s, q) && name_end(s, q) >= s.len() ==> r
        == Err::<Token, Error>(
        Error::InvalidToken(
            TokenType::ElementStart,
            error_pos_at(a.text, a.base + b),
            Some(Box::new(Error::Stream(StreamError::UnexpectedEndOfStream))),
        ),
    )
    &&& tt == TokenType::XMLDecl && version_prefix_bad(s, q) ==> (r matches Err(
        Error::InvalidToken(_, _, Some(c)),
    ) && version_error(a, q, *c))
}

/// The constructs that `state` handles; any other one is an unexpected token there.
pub open spec fn dispatches(state: State, tt: TokenType) -> bool {
    match state {
        State::Document => tt == TokenType::XMLDecl || tt == TokenType::Comment || tt
            == TokenType::PI || tt == TokenType::DoctypeDecl || tt == TokenType::ElementStart || tt
            == TokenType::Whitespace,
        State::Dtd => tt == TokenType::ElementDecl || tt == TokenType::NotationDecl || tt
            == TokenType::AttlistDecl || tt == TokenType::EntityDecl || tt == TokenType::Comment
            || tt == TokenType::PI || tt == TokenType::DoctypeEnd || tt == TokenType::Whitespace,
        State::Elements => tt == TokenType::ElementStart || tt == TokenType::ElementClose || tt
            == TokenType::CDSect || tt == TokenType::PI || tt == TokenType::Comment || tt
            == TokenType::CharData,
        State::AfterElements => tt == TokenType::Comment || tt == TokenType::PI || tt
            == TokenType::Whitespace,
        _ => false,
    }
}

/// The constructs whose success `content_ok` states.
pub open spec fn success_stated(tt: TokenType) -> bool {
    tt == TokenType::ElementStart || tt == TokenType::ElementClose || tt == TokenType::CharData
        || tt == TokenType::CDSect || tt == TokenType::Comment || tt == TokenType::DoctypeEnd
        || tt == TokenType::PI || tt == TokenType::DoctypeDecl || tt == TokenType::EntityDecl
        || tt == TokenType::XMLDecl
}

/// Outside the start tag, how a call from `a` ends that reads the construct at
/// `construct_start` (`classify`): an unknown construct is an error, one that the state
/// does not handle is an unexpected token there, and the others succeed exactly when
/// `content_ok` says.
pub open spec fn content_success(state: State, a: StreamModel, r: Option<Result<Token, Error>>) -> bool {
    let s = a.bytes();
    let c = construct_start(s, a.pos, state);
    let b = bom_end(s, c);
    state != State::Attributes && state != State::Finished && c < s.len() ==> match classify(
        s,
        b,
        state,
    ) {
        Some((tt, q)) => {
            &&& !dispatches(state, tt) ==> r == Some(
                Err::<Token, Error>(Error::UnexpectedToken(tt, error_pos_at(a.text, a.base + c))),
            )
            &&& dispatches(state, tt) && success_stated(tt) ==> (r matches Some(Ok(_))
                <==> content_ok(tt, q, s))
            &&& dispatches(state, tt) && success_stated(tt) && !content_ok(tt, q, s) ==> (r matches Some(
                Err(e),
            ) && invalid_at(e, tt, a, b))
            &&& dispatches(state, tt) ==> (r matches Some(rr) && cause_stated(tt, q, a, b, rr))
            &&& state == State::Dtd && (tt == TokenType::ElementDecl || tt == TokenType::AttlistDecl
                || tt == TokenType::NotationDecl) ==> (r matches Some(Err(e)) && decl_error(
                a.with_pos(q),
                e,
            ))
        },
        None => r == Some(Err::<Token, Error>(unknown_error(a, b))),
    }
}

/// The token that a call produced from `a` to `b`: in the start tag, the attribute step
/// at the cursor; elsewhere, the token of the construct at `construct_start`
/// (`content_token`).
pub open spec fn exact_token(state: State, a: StreamModel, t: Token, b: StreamModel) -> bool {
    let s = a.bytes();
    match state {
        State::Attributes => attribute_at(s, a.pos) matches Some((m, e)) && m.denotes(t, a) && b.pos
            == e,
        State::Finished => true,
        _ => classify(s, bom_end(s, construct_start(s, a.pos, state)), state) matches Some((tt, q))
            && content_token(tt, q, a, t, b.pos),
    }
}

/// What one step of the dispatcher in `state` guarantees, from stream `a` to stream `b`.
pub open spec fn impl_post(state: State, a: StreamModel, r: Option<Result<Token, Error>>, b: StreamModel) -> bool {
    &&& moved(a, b)
    &&& r is None ==> b.at_end() || state == State::Finished
    &&& r is Some ==> !a.at_end() && state != State::Finished
    &&& r matches Some(Ok(t)) ==> a.pos < b.pos && allowed(state, t) && token_in(t, a, b)
    &&& r matches Some(Ok(t)) ==> exact_token(state, a, t, b)
    &&& content_success(state, a, r)
    &&& state != State::Finished ==> (r is None <==> skippable_rest(a.bytes(), a.pos, state))
    &&& state == State::Attributes && !a.at_end() ==> (r matches Some(Ok(_)) <==> attribute_at(
        a.bytes(),
        a.pos,
    ) is Some)
    &&& state == State::Attributes && !a.at_end() && attribute_at(a.bytes(), a.pos) is None ==> (
    r matches Some(Err(e)) && invalid_at(e, TokenType::Attribute, a, a.pos))
}

/// What a [`Tokenizer`] denotes.
pub struct TokenizerModel {
    pub stream: StreamModel,
    pub state: State,
    pub depth: nat,
}

impl TokenizerModel {
    /// The cursor is within its region, depth never exceeds the bytes consumed, and a
    /// finished tokenizer has consumed everything.
    pub open spec fn wf(self) -> bool {
        &&& self.stream.wf()
        &&& self.depth <= self.stream.pos
        &&& self.state == State::Finished ==> self.stream.at_end()
    }
}

/// The bytes not yet consumed: every produced result lowers it, a token by the bytes it
/// consumes, an error by jumping to the end.
pub open spec fn measure(m: TokenizerModel) -> nat {
    (m.stream.end - m.stream.pos) as nat
}

/// The relation between the tokenizer before a call of `next` (`a`), its result `r`,
/// and the tokenizer after it (`b`).
pub open spec fn next_step(a: TokenizerModel, r: Option<Result<Token, Error>>, b: TokenizerModel) -> bool {
    &&& b.wf()
    &&& a.state == State::Attributes && !a.stream.at_end() ==> (r matches Some(Ok(_))
        <==> attribute_at(a.stream.bytes(), a.stream.pos) is Some)
    &&& a.state == State::Attributes && !a.stream.at_end() && attribute_at(
        a.stream.bytes(),
        a.stream.pos,
    ) is None ==> (r matches Some(Err(e)) && invalid_at(e, TokenType::Attribute, a.stream, a.stream.pos))
    &&& content_success(a.state, a.stream, r)
    &&& r is None <==> (a.state == State::Finished || skippable_rest(
        a.stream.bytes(),
        a.stream.pos,
        a.state,
    ))
    &&& a.state == State::Finished ==> r is None && b.stream == a.stream
    &&& match r {
        None => b.stream.at_end() && b.depth == a.depth && moved(a.stream, b.stream) && (b.state
            == State::Finished || b.state == a.state),
        Some(Ok(t)) => {
            &&& !a.stream.at_end()
            &&& a.state != State::Finished
            &&& moved(a.stream, b.stream)
            &&& a.stream.pos < b.stream.pos
            &&& allowed(a.state, t)
            &&& token_in(t, a.stream, b.stream)
            &&& (b.state, b.depth) == spec_transition(a.state, a.depth, t)
            &&& exact_token(a.state, a.stream, t, b.stream)
        },
        Some(Err(_)) => {
            &&& !a.stream.at_end()
            &&& a.state != State::Finished
            &&& b.state == State::Finished
            &&& b.depth == a.depth
            &&& b.stream == a.stream.with_pos(a.stream.end)
        },
    }
}

/// Tokenizer of the XML structure.
pub struct Tokenizer<'a> {
    stream: Stream<'a>,
    state: State,
    depth: usize,
}

impl<'a> View for Tokenizer<'a> {
    type V = TokenizerModel;

    closed spec fn view(&self) -> TokenizerModel {
        TokenizerModel { stream: self.stream@, state: self.state, depth: self.depth as nat }
    }
}

/// `e` is the error of construct `tt` that starts at `start` of stream `m`.
pub open spec fn invalid_at(e: Error, tt: TokenType, m: StreamModel, start: int) -> bool {
    e matches Error::InvalidToken(k, pos, _) && k == tt && pos == error_pos_at(
        m.text,
        m.base + start,
    )
}

/// Wraps an error of a construct's parser with the construct's kind and start.
fn wrap<'a, T>(r: Result<T, Error>, kind: TokenType, s: &mut Stream<'a>, start: usize) -> (res:
    Result<T, Error>)
    requires
        old(s).wf(),
        start <= old(s)@.end,
    ensures
        *final(s) == *old(s),
        r is Ok ==> res == r,
        r matches Err(e) ==> res == Err::<T, Error>(
            Error::InvalidToken(
                kind,
                error_pos_at(old(s)@.text, old(s)@.base + start),
                Some(Box::new(e)),
            ),
        ),
{
    match r {
        Ok(v) => Ok(v),
        Err(e) => {
            let pos = s.gen_error_pos_from(start);
            Err(Error::InvalidToken(kind, pos, Some(Box::new(e))))
        },
    }
}

/// `--` starts at `i`.
pub open spec fn hyphens_at(c: Seq<u8>, i: int) -> bool {
    c[i] == 0x2D && c[i + 1] == 0x2D
}

/// Whether the span holds `--`.
fn has_double_hyphen(sp: &StrSpan) -> (r: bool)
    ensures
        r == exists|i: int| 0 <= i < sp@.len() - 1 && #[trigger] hyphens_at(sp@.content(), i),
{
    let (start, end) = sp.bounds();
    let n = sp.len();
    let mut i: usize = 0;
    while n > 0 && i < n - 1
        invariant
            n == sp@.len(),
            sp@.in_bounds(),
            i <= n,
            forall|k: int| 0 <= k < i && k < n - 1 ==> !#[trigger] hyphens_at(sp@.content(), k),
        decreases n - i,
    {
        if sp.byte_at(i) == 0x2D && sp.byte_at(i + 1) == 0x2D {
            proof {
                assert(hyphens_at(sp@.content(), i as int));
            }
            return true;
        }
        i = i + 1;
    }
    false
}

impl<'a> Tokenizer<'a> {
    pub open spec fn wf(&self) -> bool {
        self@.wf()
    }

    /// A tokenizer over a string span.
    pub fn from_span(span: StrSpan<'a>) -> (r: Tokenizer<'a>)
        ensures
            r.wf(),
            r@.stream == (StreamModel {
                text: span@.text,
                base: span@.start,
                pos: 0,
                end: span@.len(),
            }),
            r@.state == State::Document,
            r@.depth == 0,
    {
        Tokenizer { stream: Stream::from_span(span), state: State::Document, depth: 0 }
    }

    /// A tokenizer over a whole string.
    pub fn from_str(text: &'a str) -> (r: Tokenizer<'a>)
        ensures
            r.wf(),
            r@.stream == (StreamModel {
                text: text.spec_bytes(),
                base: 0,
                pos: 0,
                end: text.spec_bytes().len() as int,
            }),
            r@.state == State::Document,
            r@.depth == 0,
    {
        Tokenizer::from_span(StrSpan::from_str(text))
    }

    /// The current state.
    pub fn state(&self) -> (r: State)
        ensures
            r == self@.state,
    {
        self.state
    }

    /// The number of open elements.
    pub fn depth(&self) -> (r: usize)
        ensures
            r == self@.depth,
    {
        self.depth
    }

    /// The position of the cursor.
    pub fn pos(&self) -> (r: usize)
        ensures
            r == self@.stream.pos,
    {
        self.stream.pos()
    }

    /// The next token, or the error that ends the sequence; `None` once the input is
    /// exhausted or after an error.
    pub fn next(&mut self) -> (r: Option<Result<Token<'a>, Error>>)
        requires
            old(self).wf(),
        ensures
            final(self).wf(),
            next_step(old(self)@, r, final(self)@),
    {
        if self.stream.at_end() || self.state == State::Finished {
            self.state = State::Finished;
            return None;
        }
        let t = Self::parse_next_impl(&mut self.stream, self.state);
        match &t {
            Some(Ok(tok)) => {
                let (st, d) = transition(self.state, self.depth, tok);
                self.state = st;
                self.depth = d;
            },
            Some(Err(_)) => {
                self.stream.jump_to_end();
                self.state = State::Finished;
            },
            None => {},
        }
        t
    }
}

impl<'a> Tokenizer<'a> {
    fn parse_next_impl(s: &mut Stream<'a>, state: State) -> (r: Option<Result<Token<'a>, Error>>)
        requires
            old(s).wf(),
        ensures
            impl_post(state, old(s)@, r, final(s)@),
    {
        match state {
            State::Document => Self::next_in_document(s),
            State::Dtd => Self::next_in_dtd(s),
            State::Elements => Self::next_in_elements(s),
            State::Attributes => Self::next_in_attributes(s),
            State::AfterElements => Self::next_in_after_elements(s),
            State::Finished => None,
        }
    }

    /// Before and around the root element; spaces are skipped.
    #[verifier::rlimit(100)]
    fn next_in_document(s: &mut Stream<'a>) -> (r: Option<Result<Token<'a>, Error>>)
        requires
            old(s).wf(),
        ensures
            impl_post(State::Document, old(s)@, r, final(s)@),
    {
        loop
            invariant
                s.wf(),
                moved(old(s)@, s@),
                construct_start(s@.bytes(), s@.pos, State::Document) == construct_start(
                    old(s)@.bytes(),
                    old(s)@.pos,
                    State::Document,
                ),
                skippable_rest(s@.bytes(), s@.pos, State::Document) == skippable_rest(
                    old(s)@.bytes(),
                    old(s)@.pos,
                    State::Document,
                ),
            decreases s@.end - s@.pos,
        {
            if s.at_end() {
                return None;
            }
            let start = s.pos();
            let token_type = match Self::parse_token_type(s, State::Document) {
                Ok(v) => v,
                Err(e) => return Some(Err(e)),
            };
            let t = match token_type {
                TokenType::XMLDecl => Self::parse_declaration(s),
                TokenType::Comment => Self::parse_comment(s),
                TokenType::PI => Self::parse_pi(s),
                TokenType::DoctypeDecl => Self::parse_doctype(s),
                TokenType::ElementStart => Self::parse_element_start(s),
                TokenType::Whitespace => {
                    proof {
                        crate::stream::lemma_spaces_progress(s@.bytes(), s@.pos);
                    }
                    s.skip_spaces();
                    continue ;
                },
                _ => {
                    let pos = s.gen_error_pos_from(start);
                    return Some(Err(Error::UnexpectedToken(token_type, pos)));
                },
            };
            return Some(t);
        }
    }

    /// Inside the internal DTD subset; spaces and element, attribute-list and notation
    /// declarations are skipped.
    #[verifier::rlimit(100)]
    fn next_in_dtd(s: &mut Stream<'a>) -> (r: Option<Result<Token<'a>, Error>>)
        requires
            old(s).wf(),
        ensures
            impl_post(State::Dtd, old(s)@, r, final(s)@),
    {
        loop
            invariant
                s.wf(),
                moved(old(s)@, s@),
                construct_start(s@.bytes(), s@.pos, State::Dtd) == construct_start(
                    old(s)@.bytes(),
                    old(s)@.pos,
                    State::Dtd,
                ),
                skippable_rest(s@.bytes(), s@.pos, State::Dtd) == skippable_rest(
                    old(s)@.bytes(),
                    old(s)@.pos,
                    State::Dtd,
                ),
            decreases s@.end - s@.pos,
        {
            if s.at_end() {
                return None;
            }
            let start = s.pos();
            let token_type = match Self::parse_token_type(s, State::Dtd) {
                Ok(v) => v,
                Err(e) => return Some(Err(e)),
            };
            let t = match token_type {
                TokenType::ElementDecl | TokenType::NotationDecl | TokenType::AttlistDecl => {
                    if let Err(e) = Self::consume_decl(s) {
                        return Some(Err(e));
                    }
                    continue ;
                },
                TokenType::EntityDecl => Self::parse_entity_decl(s),
                TokenType::Comment => Self::parse_comment(s),
                TokenType::PI => Self::parse_pi(s),
                TokenType::DoctypeEnd => Ok(Token::DtdEnd),
                TokenType::Whitespace => {
                    proof {
                        crate::stream::lemma_spaces_progress(s@.bytes(), s@.pos);
                    }
                    s.skip_spaces();
                    continue ;
                },
                _ => {
                    let pos = s.gen_error_pos_from(start);
                    return Some(Err(Error::UnexpectedToken(token_type, pos)));
                },
            };
            return Some(t);
        }
    }

    /// After the root element; spaces are skipped.
    #[verifier::rlimit(100)]
    fn next_in_after_elements(s: &mut Stream<'a>) -> (r: Option<Result<Token<'a>, Error>>)
        requires
            old(s).wf(),
        ensures
            impl_post(State::AfterElements, old(s)@, r, final(s)@),
    {
        loop
            invariant
                s.wf(),
                moved(old(s)@, s@),
                construct_start(s@.bytes(), s@.pos, State::AfterElements) == construct_start(
                    old(s)@.bytes(),
                    old(s)@.pos,
                    State::AfterElements,
                ),
                skippable_rest(s@.bytes(), s@.pos, State::AfterElements) == skippable_rest(
                    old(s)@.bytes(),
                    old(s)@.pos,
                    State::AfterElements,
                ),
            decreases s@.end - s@.pos,
        {
            if s.at_end() {
                return None;
            }
            let start = s.pos();
            let token_type = match Self::parse_token_type(s, State::AfterElements) {
                Ok(v) => v,
                Err(e) => return Some(Err(e)),
            };
            let t = match token_type {
                TokenType::Comment => Self::parse_comment(s),
                TokenType::PI => Self::parse_pi(s),
                TokenType::Whitespace => {
                    proof {
                        crate::stream::lemma_spaces_progress(s@.bytes(), s@.pos);
                    }
                    s.skip_spaces();
                    continue ;
                },
                _ => {
                    let pos = s.gen_error_pos_from(start);
                    return Some(Err(Error::UnexpectedToken(token_type, pos)));
                },
            };
            return Some(t);
        }
    }

    /// Inside an element.
    #[verifier::rlimit(100)]
    fn next_in_elements(s: &mut Stream<'a>) -> (r: Option<Result<Token<'a>, Error>>)
        requires
            old(s).wf(),
        ensures
            impl_post(State::Elements, old(s)@, r, final(s)@),
    {
        if s.at_end() {
            return None;
        }
        let start = s.pos();
        let token_type = match Self::parse_token_type(s, State::Elements) {
            Ok(v) => v,
            Err(e) => return Some(Err(e)),
        };
        let t = match token_type {
            TokenType::ElementStart => Self::parse_element_start(s),
            TokenType::ElementClose => Self::parse_close_element(s),
            TokenType::CDSect => Self::parse_cdata(s),
            TokenType::PI => Self::parse_pi(s),
            TokenType::Comment => Self::parse_comment(s),
            TokenType::CharData => Self::parse_text(s),
            _ => {
                let pos = s.gen_error_pos_from(start);
                return Some(Err(Error::UnexpectedToken(token_type, pos)));
            },
        };
        Some(t)
    }

    /// Inside a start tag.
    #[verifier::rlimit(100)]
    fn next_in_attributes(s: &mut Stream<'a>) -> (r: Option<Result<Token<'a>, Error>>)
        requires
            old(s).wf(),
        ensures
            impl_post(State::Attributes, old(s)@, r, final(s)@),
    {
        if s.at_end() {
            return None;
        }
        let start = s.pos();
        let r = Self::consume_attribute(s);
        Some(wrap(r, TokenType::Attribute, s, start))
    }

    /// Recognizes the construct that starts at the cursor from its first bytes, and
    /// consumes those bytes.
    #[verifier::rlimit(100)]
    fn parse_token_type(s: &mut Stream<'a>, state: State) -> (r: Result<TokenType, Error>)
        requires
            old(s).wf(),
        ensures
            moved(old(s)@, final(s)@),
            r matches Ok(t) ==> final(s)@.pos >= old(s)@.pos + prefix_len(t),
            r matches Ok(t) && t == TokenType::Whitespace ==> space_at(
                final(s)@.bytes(),
                final(s)@.pos,
            ),
            r matches Ok(t) && t == TokenType::CharData ==> !final(s)@.at_end() && final(s)@.byte(
                final(s)@.pos,
            ) != 0x3C,
            r matches Ok(t) && t == TokenType::Whitespace ==> state == State::Document || state
                == State::AfterElements || state == State::Dtd,
            r is Ok <==> classify(old(s)@.bytes(), bom_end(old(s)@.bytes(), old(s)@.pos), state)
                is Some,
            r matches Ok(t) ==> classify(
                old(s)@.bytes(),
                bom_end(old(s)@.bytes(), old(s)@.pos),
                state,
            ) == Some((t, final(s)@.pos)),
            classify(old(s)@.bytes(), bom_end(old(s)@.bytes(), old(s)@.pos), state) is None ==> r
                == Err::<TokenType, Error>(
                unknown_error(old(s)@, bom_end(old(s)@.bytes(), old(s)@.pos)),
            ),
    {
        // A byte order mark.
        while s.starts_with(&[0xEFu8, 0xBB, 0xBF])
            invariant
                s.wf(),
                moved(old(s)@, s@),
                bom_end(s@.bytes(), s@.pos) == bom_end(old(s)@.bytes(), old(s)@.pos),
            decreases s@.end - s@.pos,
        {
            s.advance(3);
        }
        let start = s.pos();
        let c1 = match s.curr_byte() {
            Ok(c) => c,
            Err(e) => return Err(Error::Stream(e)),
        };
        let t = if c1 == 0x3C {
            s.advance(1);
            let c2 = match s.curr_byte() {
            Ok(c) => c,
            Err(e) => return Err(Error::Stream(e)),
        };
            if c2 == 0x3F {
                // `<?xml `
                if s.starts_with(&[0x3Fu8, 0x78, 0x6D, 0x6C, 0x20]) {
                    s.advance(5);
                    TokenType::XMLDecl
                } else {
                    s.advance(1);
                    TokenType::PI
                }
            } else if c2 == 0x21 {
                s.advance(1);
                let c3 = match s.curr_byte() {
            Ok(c) => c,
            Err(e) => return Err(Error::Stream(e)),
        };
                if c3 == 0x2D && s.starts_with(&[0x2Du8, 0x2D]) {
                    s.advance(2);
                    TokenType::Comment
                } else if c3 == 0x44 && s.starts_with(&[0x44u8, 0x4F, 0x43, 0x54, 0x59, 0x50, 0x45]) {
                    // `DOCTYPE`
                    s.advance(7);
                    TokenType::DoctypeDecl
                } else if c3 == 0x45 && s.starts_with(&[0x45u8, 0x4C, 0x45, 0x4D, 0x45, 0x4E, 0x54]) {
                    // `ELEMENT`
                    s.advance(7);
                    TokenType::ElementDecl
                } else if c3 == 0x41 && s.starts_with(&[0x41u8, 0x54, 0x54, 0x4C, 0x49, 0x53, 0x54]) {
                    // `ATTLIST`
                    s.advance(7);
                    TokenType::AttlistDecl
                } else if c3 == 0x45 && s.starts_with(&[0x45u8, 0x4E, 0x54, 0x49, 0x54, 0x59]) {
                    // `ENTITY`
                    s.advance(6);
                    TokenType::EntityDecl
                } else if c3 == 0x4E && s.starts_with(
                    &[0x4Eu8, 0x4F, 0x54, 0x41, 0x54, 0x49, 0x4F, 0x4E],
                ) {
                    // `NOTATION`
                    s.advance(8);
                    TokenType::NotationDecl
                } else if c3 == 0x5B && s.starts_with(&[0x5Bu8, 0x43, 0x44, 0x41, 0x54, 0x41, 0x5B]) {
                    // `[CDATA[`
                    s.advance(7);
                    TokenType::CDSect
                } else {
                    let pos = s.gen_error_pos_from(start);
                    return Err(Error::UnknownToken(pos));
                }
            } else if c2 == 0x2F {
                s.advance(1);
                TokenType::ElementClose
            } else {
                TokenType::ElementStart
            }
        } else if c1 == 0x5D && s.starts_with(&[0x5Du8, 0x3E]) {
            s.advance(2);
            TokenType::DoctypeEnd
        } else {
            match state {
                State::Document | State::AfterElements | State::Dtd => {
                    if s.starts_with_space() {
                        TokenType::Whitespace
                    } else {
                        let pos = s.gen_error_pos_from(start);
                        return Err(Error::UnknownToken(pos));
                    }
                },
                State::Elements => TokenType::CharData,
                _ => {
                    let pos = s.gen_error_pos_from(start);
                    return Err(Error::UnknownToken(pos));
                },
            }
        };
        Ok(t)
    }

    fn parse_declaration(s: &mut Stream<'a>) -> (r: Result<Token<'a>, Error>)
        requires
            old(s).wf(),
            old(s)@.pos >= 6,
        ensures
            moved(old(s)@, final(s)@),
            r matches Ok(t) ==> t is Declaration && token_in(t, old(s)@, final(s)@),
            r is Ok <==> content_ok(TokenType::XMLDecl, old(s)@.pos, old(s)@.bytes()),
            r matches Ok(t) ==> content_token(
                TokenType::XMLDecl,
                old(s)@.pos,
                old(s)@,
                t,
                final(s)@.pos,
            ),
            r matches Err(e) ==> invalid_at(e, TokenType::XMLDecl, old(s)@, old(s)@.pos - 6),
            version_prefix_bad(old(s)@.bytes(), old(s)@.pos) ==> (r matches Err(
                Error::InvalidToken(_, _, Some(c)),
            ) && version_error(old(s)@, old(s)@.pos, *c)),
    {
        let start = s.pos() - 6;
        let r = Self::parse_declaration_impl(s);
        wrap(r, TokenType::XMLDecl, s, start)
    }

    #[verifier::rlimit(100)]
    fn parse_declaration_impl(s: &mut Stream<'a>) -> (r: Result<Token<'a>, Error>)
        requires
            old(s).wf(),
        ensures
            moved(old(s)@, final(s)@),
            r matches Ok(t) ==> t is Declaration && token_in(t, old(s)@, final(s)@),
            r is Ok <==> content_ok(TokenType::XMLDecl, old(s)@.pos, old(s)@.bytes()),
            r matches Ok(t) ==> content_token(
                TokenType::XMLDecl,
                old(s)@.pos,
                old(s)@,
                t,
                final(s)@.pos,
            ),
            version_prefix_bad(old(s)@.bytes(), old(s)@.pos) ==> (r matches Err(c) && version_error(
                old(s)@,
                old(s)@.pos,
                c,
            )),
    {
        let version = match Self::parse_version_info(s) {
            Ok(v) => v,
            Err(e) => return Err(e),
        };
        let encoding = Self::parse_encoding_decl(s)?;
        let standalone = Self::parse_standalone(s)?;
        s.skip_ascii_spaces();
        s.skip_string(&[0x3Fu8, 0x3E])?;
        Ok(Token::Declaration(version, encoding, standalone))
    }

    fn parse_version_info(s: &mut Stream<'a>) -> (r: Result<StrSpan<'a>, Error>)
        requires
            old(s).wf(),
        ensures
            moved(old(s)@, final(s)@),
            r matches Ok(v) ==> span_within(v@, old(s)@.text, old(s)@.base + old(s)@.pos, final(s)@.base + final(s)@.pos),
            r is Ok <==> version_at(old(s)@.bytes(), old(s)@.pos) is Some,
            r matches Ok(v) ==> (version_at(old(s)@.bytes(), old(s)@.pos) matches Some((a, b, e))
                && v@ == old(s)@.region(a, b) && final(s)@.pos == e),
            version_prefix_bad(old(s)@.bytes(), old(s)@.pos) ==> (r matches Err(c) && version_error(
                old(s)@,
                old(s)@.pos,
                c,
            )),
    {
        let ghost bs = old(s)@.bytes();
        s.skip_ascii_spaces();
        // `version`
        s.skip_string(&[0x76u8, 0x65, 0x72, 0x73, 0x69, 0x6F, 0x6E])?;
        s.consume_eq()?;
        s.consume_quote()?;
        let start = s.pos();
        if let Err(e) = s.skip_string(&[0x31u8, 0x2E]) {
            return Err(Error::Stream(e));
        }
        let f = |_st: &Stream<'a>, c: u8| -> (r: bool)
            ensures
                r == crate::chars::spec_xml_digit(c),
            { is_xml_digit_byte(c) };
        let ghost before = *s;
        s.skip_bytes(f);
        proof {
            let p = before@.pos;
            let q = s@.pos;
            assert forall|i: int| p <= i < q implies spec_xml_digit(#[trigger] bs[i]) by {
                assert(f.ensures((&before.at_pos(i), before@.byte(i)), true));
            }
            if q < bs.len() {
                assert(f.ensures((&before.at_pos(q), before@.byte(q)), false));
            }
            lemma_digits_end(bs, p, q);
        }
        let ver = s.slice_back(start);
        s.consume_quote()?;
        Ok(ver)
    }

    fn parse_encoding_decl(s: &mut Stream<'a>) -> (r: Result<Option<StrSpan<'a>>, Error>)
        requires
            old(s).wf(),
        ensures
            moved(old(s)@, final(s)@),
            r matches Ok(v) ==> opt_span_within(v, old(s)@.text, old(s)@.base + old(s)@.pos, final(s)@.base + final(s)@.pos),
            r is Ok <==> encoding_at(old(s)@.bytes(), old(s)@.pos) is Some,
            r matches Ok(v) ==> (encoding_at(old(s)@.bytes(), old(s)@.pos) matches Some((o, e))
                && opt_region(v, o, old(s)@) && final(s)@.pos == e),
    {
        s.skip_ascii_spaces();
        // `encoding`
        if s.skip_string(&[0x65u8, 0x6E, 0x63, 0x6F, 0x64, 0x69, 0x6E, 0x67]).is_err() {
            return Ok(None);
        }
        s.consume_eq()?;
        s.consume_quote()?;
        let name = Self::parse_encoding_name(s);
        s.consume_quote()?;
        Ok(Some(name))
    }

    // [A-Za-z] ([A-Za-z0-9._] | '-')*
    fn parse_encoding_name(s: &mut Stream<'a>) -> (r: StrSpan<'a>)
        requires
            old(s).wf(),
        ensures
            moved(old(s)@, final(s)@),
            r@ == old(s)@.region(old(s)@.pos, final(s)@.pos),
            final(s)@.pos == enc_name_end(old(s)@.bytes(), old(s)@.pos),
    {
        let ghost bs = old(s)@.bytes();
        let f = |_st: &Stream<'a>, c: u8| -> (r: bool)
            ensures
                r == enc_name_byte(c),
            {
                crate::chars::is_xml_letter(c) || is_xml_digit_byte(c) || c == 0x2E || c == 0x2D
                    || c == 0x5F
            };
        let r = s.consume_bytes(f);
        proof {
            let p = old(s)@.pos;
            let q = s@.pos;
            assert forall|i: int| p <= i < q implies enc_name_byte(#[trigger] bs[i]) by {
                assert(f.ensures((&old(s).at_pos(i), old(s)@.byte(i)), true));
            }
            if q < bs.len() {
                assert(f.ensures((&old(s).at_pos(q), old(s)@.byte(q)), false));
            }
            lemma_enc_name_end(bs, p, q);
        }
        r
    }

    #[verifier::rlimit(100)]
    fn parse_standalone(s: &mut Stream<'a>) -> (r: Result<Option<StrSpan<'a>>, Error>)
        requires
            old(s).wf(),
        ensures
            moved(old(s)@, final(s)@),
            r matches Ok(v) ==> opt_span_within(v, old(s)@.text, old(s)@.base + old(s)@.pos, final(s)@.base + final(s)@.pos),
            r is Ok <==> standalone_at(old(s)@.bytes(), old(s)@.pos) is Some,
            r matches Ok(v) ==> (standalone_at(old(s)@.bytes(), old(s)@.pos) matches Some((o, e))
                && opt_region(v, o, old(s)@) && final(s)@.pos == e),
            ({
                let b = old(s)@.bytes();
                let a0 = ascii_spaces_end(b, old(s)@.pos);
                match eq_end(b, a0 + 10) {
                    Some(v) => (starts_at(
                        b,
                        a0,
                        seq![0x73u8, 0x74, 0x61, 0x6E, 0x64, 0x61, 0x6C, 0x6F, 0x6E, 0x65],
                    ) && 0 <= v < b.len() && is_quote(b[v]) && name_starts_at(b, v + 1) && !(
                    b.subrange(v + 1, name_end(b, v + 1)) == seq![0x79u8, 0x65, 0x73] || b.subrange(
                        v + 1,
                        name_end(b, v + 1),
                    ) == seq![0x6Eu8, 0x6F])) ==> (r matches Err(
                        Error::Stream(StreamError::InvalidChar(c, expected, at)),
                    ) && c as u32 == first_char(b.subrange(v + 1, name_end(b, v + 1))).0
                        && expected@ == seq![0x79u8, 0x6E] && at == error_pos_at(
                        old(s)@.text,
                        old(s)@.base + v + 1,
                    )),
                    None => true,
                }
            }),
    {
        let ghost bs = old(s)@.bytes();
        s.skip_ascii_spaces();
        // `standalone`
        if s.skip_string(&[0x73u8, 0x74, 0x61, 0x6E, 0x64, 0x61, 0x6C, 0x6F, 0x6E, 0x65]).is_err() {
            return Ok(None);
        }
        s.consume_eq()?;
        s.consume_quote()?;
        let start = s.pos();
        let value = s.consume_name()?;
        proof {
            let n1 = name_end(bs, start as int);
            assert(value@.content() =~= bs.subrange(start as int, n1));
            assert(bs.subrange(start as int, n1).subrange(0, n1 - start) =~= bs.subrange(
                start as int,
                n1,
            ));
        }
        let is_yes = crate::stream::span_is(&value, &[0x79u8, 0x65, 0x73]);
        let is_no = crate::stream::span_is(&value, &[0x6Eu8, 0x6F]);
        if !is_yes && !is_no {
            let c = match Stream::from_span(value).curr_char() {
                Ok(c) => c,
                Err(_) => '\u{FFFD}',
            };
            let pos = s.gen_error_pos_from(start);
            return Err(Error::Stream(StreamError::InvalidChar(c, vec![0x79u8, 0x6E], pos)));
        }
        s.consume_quote()?;
        Ok(Some(value))
    }

    // '<!--' ((Char - '-') | ('-' (Char - '-')))* '-->'
    fn parse_comment(s: &mut Stream<'a>) -> (r: Result<Token<'a>, Error>)
        requires
            old(s).wf(),
            old(s)@.pos >= 4,
        ensures
            moved(old(s)@, final(s)@),
            r matches Ok(t) ==> t is Comment && token_in(t, old(s)@, final(s)@),
            r is Ok <==> comment_ok(old(s)@.bytes(), old(s)@.pos),
            r matches Ok(t) ==> content_token(
                TokenType::Comment,
                old(s)@.pos,
                old(s)@,
                t,
                final(s)@.pos,
            ),
            r matches Err(e) ==> invalid_at(e, TokenType::Comment, old(s)@, old(s)@.pos - 4),
    {
        let ghost b = old(s)@.bytes();
        let start = s.pos() - 4;
        let f = |st: &Stream<'a>, c: char| -> (r: bool)
            ensures
                r == (!((c as u32) == 0x2D && st@.starts_with(seq![0x2Du8, 0x2D, 0x3E]))
                    && spec_xml_char(c as u32)),
            { !(c == '-' && st.starts_with(&[0x2Du8, 0x2D, 0x3E])) && is_xml_char(c as u32) };
        let text = s.consume_chars(f);
        proof {
            lemma_comment_run(*old(s), old(s)@.pos, s@.pos, f);
            assert(text@.content() =~= b.subrange(old(s)@.pos, s@.pos));
            assert forall|i: int| 0 <= i < text@.len() - 1 implies #[trigger] hyphens_at(
                text@.content(),
                i,
            ) == hyphens_at(b, old(s)@.pos + i) by {}
        }
        if has_double_hyphen(&text) {
            proof {
                let i = choose|i: int| 0 <= i < text@.len() - 1 && #[trigger] hyphens_at(text@.content(), i);
                assert(hyphens_at(b, old(s)@.pos + i));
            }
            let pos = s.gen_error_pos_from(start);
            return Err(Error::InvalidToken(TokenType::Comment, pos, None));
        }
        proof {
            assert forall|j: int| old(s)@.pos <= j < s@.pos - 1 implies !#[trigger] hyphens_at(b, j) by {
                assert(hyphens_at(text@.content(), j - old(s)@.pos) == hyphens_at(b, j));
            }
        }
        if s.skip_string(&[0x2Du8, 0x2D, 0x3E]).is_err() {
            let pos = s.gen_error_pos_from(start);
            return Err(Error::InvalidToken(TokenType::Comment, pos, None));
        }
        Ok(Token::Comment(text))
    }

    fn parse_pi(s: &mut Stream<'a>) -> (r: Result<Token<'a>, Error>)
        requires
            old(s).wf(),
            old(s)@.pos >= 2,
        ensures
            moved(old(s)@, final(s)@),
            r matches Ok(t) ==> t is ProcessingInstruction && token_in(t, old(s)@, final(s)@),
            r is Ok <==> pi_ok(old(s)@.bytes(), old(s)@.pos),
            r matches Ok(t) ==> content_token(TokenType::PI, old(s)@.pos, old(s)@, t, final(s)@.pos),
            r matches Err(e) ==> invalid_at(e, TokenType::PI, old(s)@, old(s)@.pos - 2),
    {
        let start = s.pos() - 2;
        let r = Self::parse_pi_impl(s);
        wrap(r, TokenType::PI, s, start)
    }

    // PI       ::= '<?' PITarget (S (Char* - (Char* '?>' Char*)))? '?>'
    fn parse_pi_impl(s: &mut Stream<'a>) -> (r: Result<Token<'a>, Error>)
        requires
            old(s).wf(),
        ensures
            moved(old(s)@, final(s)@),
            r matches Ok(t) ==> t is ProcessingInstruction && token_in(t, old(s)@, final(s)@),
            r is Ok <==> pi_ok(old(s)@.bytes(), old(s)@.pos),
            r matches Ok(t) ==> content_token(TokenType::PI, old(s)@.pos, old(s)@, t, final(s)@.pos),
    {
        let target = s.consume_name()?;
        s.skip_spaces();
        let f = |st: &Stream<'a>, c: char| -> (r: bool)
            ensures
                r == (!((c as u32) == 0x3F && st@.starts_with(seq![0x3Fu8, 0x3E])) && spec_xml_char(
                    c as u32,
                )),
            { !(c == '?' && st.starts_with(&[0x3Fu8, 0x3E])) && is_xml_char(c as u32) };
        let ghost before = *s;
        let content = s.consume_chars(f);
        proof {
            lemma_pi_run(before, before@.pos, s@.pos, f);
        }
        let content = if !content.is_empty() {
            Some(content)
        } else {
            None
        };
        s.skip_string(&[0x3Fu8, 0x3E])?;
        Ok(Token::ProcessingInstruction(target, content))
    }

    fn parse_doctype(s: &mut Stream<'a>) -> (r: Result<Token<'a>, Error>)
        requires
            old(s).wf(),
            old(s)@.pos >= 9,
        ensures
            moved(old(s)@, final(s)@),
            r matches Ok(t) ==> (t is DtdStart || t is EmptyDtd) && token_in(t, old(s)@, final(s)@),
            r is Ok <==> content_ok(TokenType::DoctypeDecl, old(s)@.pos, old(s)@.bytes()),
            r matches Ok(t) ==> content_token(
                TokenType::DoctypeDecl,
                old(s)@.pos,
                old(s)@,
                t,
                final(s)@.pos,
            ),
            r matches Err(e) ==> invalid_at(e, TokenType::DoctypeDecl, old(s)@, old(s)@.pos - 9),
    {
        let start = s.pos() - 9;
        let r = Self::parse_doctype_impl(s);
        wrap(r, TokenType::DoctypeDecl, s, start)
    }

    // doctypedecl ::= '<!DOCTYPE' S Name (S ExternalID)? S? ('[' intSubset ']' S?)? '>'
    #[verifier::rlimit(100)]
    fn parse_doctype_impl(s: &mut Stream<'a>) -> (r: Result<Token<'a>, Error>)
        requires
            old(s).wf(),
        ensures
            moved(old(s)@, final(s)@),
            r matches Ok(t) ==> (t is DtdStart || t is EmptyDtd) && token_in(t, old(s)@, final(s)@),
            r is Ok <==> content_ok(TokenType::DoctypeDecl, old(s)@.pos, old(s)@.bytes()),
            r matches Ok(t) ==> content_token(
                TokenType::DoctypeDecl,
                old(s)@.pos,
                old(s)@,
                t,
                final(s)@.pos,
            ),
    {
        s.consume_spaces()?;
        let name = s.consume_name()?;
        s.skip_spaces();
        let id = Self::parse_external_id(s)?;
        s.skip_spaces();
        let c = s.consume_either(&[0x5Bu8, 0x3E])?;
        if c == 0x5B {
            Ok(Token::DtdStart(name, id))
        } else {
            Ok(Token::EmptyDtd(name, id))
        }
    }

    /// Consumes a quoted literal and returns its value.
    fn consume_quoted(s: &mut Stream<'a>) -> (r: Result<StrSpan<'a>, Error>)
        requires
            old(s).wf(),
        ensures
            moved(old(s)@, final(s)@),
            r is Ok <==> quoted_at(old(s)@.bytes(), old(s)@.pos) is Some,
            r matches Ok(v) ==> (quoted_at(old(s)@.bytes(), old(s)@.pos) matches Some((a, b))
                && v@ == old(s)@.region(a, b) && final(s)@.pos == b + 1),
            r matches Ok(v) ==> span_within(
                v@,
                old(s)@.text,
                old(s)@.base + old(s)@.pos,
                final(s)@.base + final(s)@.pos,
            ),
    {
        let ghost b = old(s)@.bytes();
        let quote = s.consume_quote()?;
        let f = |_st: &Stream<'a>, c: u8| -> (r: bool)
            ensures
                r == (c != quote),
            { c != quote };
        let ghost before = *s;
        let value = s.consume_bytes(f);
        proof {
            let p = before@.pos;
            let q = s@.pos;
            assert forall|i: int| p <= i < q implies #[trigger] b[i] != quote by {
                assert(f.ensures((&before.at_pos(i), before@.byte(i)), true));
            }
            if q < b.len() {
                assert(f.ensures((&before.at_pos(q), before@.byte(q)), false));
            }
            lemma_until_byte(b, p, q, quote);
        }
        s.consume_byte(quote)?;
        Ok(value)
    }

    // ExternalID ::= 'SYSTEM' S SystemLiteral | 'PUBLIC' S PubidLiteral S SystemLiteral
    #[verifier::rlimit(100)]
    fn parse_external_id(s: &mut Stream<'a>) -> (r: Result<Option<ExternalId<'a>>, Error>)
        requires
            old(s).wf(),
        ensures
            moved(old(s)@, final(s)@),
            r matches Ok(v) ==> opt_id_within(v, old(s)@.text, old(s)@.base + old(s)@.pos, final(s)@.base + final(s)@.pos),
            r matches Ok(v) ==> (v is Some <==> (old(s)@.starts_with(
                seq![0x53u8, 0x59, 0x53, 0x54, 0x45, 0x4D],
            ) || old(s)@.starts_with(seq![0x50u8, 0x55, 0x42, 0x4C, 0x49, 0x43]))),
            r is Ok <==> external_id_at(old(s)@.bytes(), old(s)@.pos) is Some,
            r matches Ok(v) ==> (external_id_at(old(s)@.bytes(), old(s)@.pos) matches Some(o)
                && id_matches(o, v, old(s)@) && final(s)@.pos == id_end(o, old(s)@.pos)),
    {
        let is_system = s.starts_with(&[0x53u8, 0x59, 0x53, 0x54, 0x45, 0x4D]);
        let is_public = s.starts_with(&[0x50u8, 0x55, 0x42, 0x4C, 0x49, 0x43]);
        if !is_system && !is_public {
            return Ok(None);
        }
        s.advance(6);
        s.consume_spaces()?;
        let literal1 = Self::consume_quoted(s)?;
        let v = if is_system {
            ExternalId::System(literal1)
        } else {
            s.consume_spaces()?;
            let literal2 = Self::consume_quoted(s)?;
            ExternalId::Public(literal1, literal2)
        };
        Ok(Some(v))
    }

    fn parse_entity_decl(s: &mut Stream<'a>) -> (r: Result<Token<'a>, Error>)
        requires
            old(s).wf(),
            old(s)@.pos >= 8,
        ensures
            moved(old(s)@, final(s)@),
            r matches Ok(t) ==> t is EntityDeclaration && token_in(t, old(s)@, final(s)@),
            r is Ok <==> content_ok(TokenType::EntityDecl, old(s)@.pos, old(s)@.bytes()),
            r matches Ok(t) ==> content_token(
                TokenType::EntityDecl,
                old(s)@.pos,
                old(s)@,
                t,
                final(s)@.pos,
            ),
            r matches Err(e) ==> invalid_at(e, TokenType::EntityDecl, old(s)@, old(s)@.pos - 8),
    {
        let start = s.pos() - 8;
        let r = Self::parse_entity_decl_impl(s);
        wrap(r, TokenType::EntityDecl, s, start)
    }

    // GEDecl      ::= '<!ENTITY' S Name S EntityDef S? '>'
    // PEDecl      ::= '<!ENTITY' S '%' S Name S PEDef S? '>'
    #[verifier::rlimit(100)]
    fn parse_entity_decl_impl(s: &mut Stream<'a>) -> (r: Result<Token<'a>, Error>)
        requires
            old(s).wf(),
        ensures
            moved(old(s)@, final(s)@),
            r matches Ok(t) ==> t is EntityDeclaration && token_in(t, old(s)@, final(s)@),
            r is Ok <==> content_ok(TokenType::EntityDecl, old(s)@.pos, old(s)@.bytes()),
            r matches Ok(t) ==> content_token(
                TokenType::EntityDecl,
                old(s)@.pos,
                old(s)@,
                t,
                final(s)@.pos,
            ),
    {
        s.consume_spaces()?;
        let is_ge = if s.curr_byte()? == 0x25 {
            s.consume_byte(0x25)?;
            s.consume_spaces()?;
            false
        } else {
            true
        };
        let name = s.consume_name()?;
        s.consume_spaces()?;
        let def = Self::parse_entity_def(s, is_ge)?;
        s.skip_spaces();
        s.consume_byte(0x3E)?;
        Ok(Token::EntityDeclaration(name, def))
    }

    // EntityDef   ::= EntityValue | (ExternalID NDataDecl?)
    // PEDef       ::= EntityValue | ExternalID
    // NDataDecl   ::= S 'NDATA' S Name
    #[verifier::rlimit(100)]
    fn parse_entity_def(s: &mut Stream<'a>, is_ge: bool) -> (r: Result<EntityDefinition<'a>, Error>)
        requires
            old(s).wf(),
        ensures
            moved(old(s)@, final(s)@),
            r matches Ok(d) ==> match d {
                EntityDefinition::EntityValue(v) => span_within(v@, old(s)@.text, old(s)@.base + old(s)@.pos, final(s)@.base + final(s)@.pos),
                EntityDefinition::ExternalId(id) => id.within(old(s)@.text, old(s)@.base + old(s)@.pos, final(s)@.base + final(s)@.pos),
            },
            r is Ok <==> entity_def_at(old(s)@.bytes(), old(s)@.pos, is_ge) is Some,
            r matches Ok(d) ==> (entity_def_at(old(s)@.bytes(), old(s)@.pos, is_ge) matches Some((m, e))
                && m.denotes(d, old(s)@) && final(s)@.pos == e),
            old(s)@.at_end() ==> r == Err::<EntityDefinition<'a>, Error>(
                Error::Stream(StreamError::UnexpectedEndOfStream),
            ),
            ({
                let c = old(s)@.byte(old(s)@.pos);
                !old(s)@.at_end() && !(c == 0x22 || c == 0x27 || c == 0x53 || c == 0x50) ==> (
                r matches Err(Error::Stream(StreamError::InvalidChar(f, expected, at))) && f as u32
                    == c as u32 && expected@ == seq![0x22u8, 0x27, 0x53, 0x50] && at
                    == error_pos_at(old(s)@.text, old(s)@.base + old(s)@.pos))
            }),
    {
        let c = match s.curr_byte() {
            Ok(c) => c,
            Err(e) => return Err(Error::Stream(e)),
        };
        if c == 0x22 || c == 0x27 {
            let value = Self::consume_quoted(s)?;
            Ok(EntityDefinition::EntityValue(value))
        } else if c == 0x53 || c == 0x50 {
            match Self::parse_external_id(s)? {
                Some(id) => {
                    if is_ge {
                        s.skip_spaces();
                        // `NDATA`
                        if s.starts_with(&[0x4Eu8, 0x44, 0x41, 0x54, 0x41]) {
                            s.skip_string(&[0x4Eu8, 0x44, 0x41, 0x54, 0x41])?;
                            s.consume_spaces()?;
                            s.skip_name()?;
                        }
                    }
                    Ok(EntityDefinition::ExternalId(id))
                },
                None => Err(Error::InvalidExternalId),
            }
        } else {
            let pos = s.gen_error_pos();
            Err(
                Error::Stream(
                    StreamError::InvalidChar(c as char, vec![0x22u8, 0x27, 0x53, 0x50], pos),
                ),
            )
        }
    }

    /// Skips a markup declaration that is not reported: `<!ELEMENT`, `<!ATTLIST`, `<!NOTATION`.
    fn consume_decl(s: &mut Stream<'a>) -> (r: Result<(), Error>)
        requires
            old(s).wf(),
        ensures
            moved(old(s)@, final(s)@),
            r is Ok <==> decl_end(old(s)@.bytes(), old(s)@.pos) is Some,
            r is Ok ==> decl_end(old(s)@.bytes(), old(s)@.pos) == Some(final(s)@.pos),
            r matches Err(e) ==> decl_error(old(s)@, e),
    {
        let ghost b = old(s)@.bytes();
        if let Err(e) = s.consume_spaces() {
            return Err(Error::Stream(e));
        }
        let f = |_st: &Stream<'a>, c: u8| -> (r: bool)
            ensures
                r == (c != 0x3E),
            { c != 0x3E };
        let ghost before = *s;
        s.skip_bytes(f);
        proof {
            let p = before@.pos;
            let q = s@.pos;
            assert forall|i: int| p <= i < q implies #[trigger] b[i] != 0x3E by {
                assert(f.ensures((&before.at_pos(i), before@.byte(i)), true));
            }
            if q < b.len() {
                assert(f.ensures((&before.at_pos(q), before@.byte(q)), false));
            }
            lemma_until_byte(b, p, q, 0x3E);
        }
        if let Err(e) = s.consume_byte(0x3E) {
            return Err(Error::Stream(e));
        }
        Ok(())
    }

    // CDSect  ::= '<![CDATA[' (Char* - (Char* ']]>' Char*)) ']]>'
    fn parse_cdata(s: &mut Stream<'a>) -> (r: Result<Token<'a>, Error>)
        requires
            old(s).wf(),
            old(s)@.pos >= 9,
        ensures
            moved(old(s)@, final(s)@),
            r matches Ok(t) ==> t is Cdata && token_in(t, old(s)@, final(s)@),
            r matches Ok(t) ==> content_token(
                TokenType::CDSect,
                old(s)@.pos,
                old(s)@,
                t,
                final(s)@.pos,
            ),
            r is Ok <==> content_ok(TokenType::CDSect, old(s)@.pos, old(s)@.bytes()),
            r matches Err(e) ==> invalid_at(e, TokenType::CDSect, old(s)@, old(s)@.pos - 9),
    {
        let ghost b = old(s)@.bytes();
        let start = s.pos() - 9;
        let f = |st: &Stream<'a>, c: u8| -> (r: bool)
            ensures
                r == !(c == 0x5D && st@.starts_with(seq![0x5Du8, 0x5D, 0x3E])),
            { !(c == 0x5D && st.starts_with(&[0x5Du8, 0x5D, 0x3E])) };
        let text = s.consume_bytes(f);
        proof {
            let p = old(s)@.pos;
            let q = s@.pos;
            assert forall|i: int| p <= i < q implies !#[trigger] cdata_close_at(b, i) by {
                assert(f.ensures((&old(s).at_pos(i), old(s)@.byte(i)), true));
                old(s).lemma_at_pos(i);
                if cdata_close_at(b, i) {
                    assert(b.subrange(i, i + 3)[0] == b[i]);
                }
            }
            if q < b.len() {
                assert(f.ensures((&old(s).at_pos(q), old(s)@.byte(q)), false));
                old(s).lemma_at_pos(q);
            }
            lemma_cdata_end(b, p, q);
        }
        let r = s.skip_string(&[0x5Du8, 0x5D, 0x3E]);
        let r = match r {
            Ok(()) => Ok(()),
            Err(e) => Err(Error::Stream(e)),
        };
        wrap(r, TokenType::CDSect, s, start)?;
        Ok(Token::Cdata(text))
    }

    fn parse_element_start(s: &mut Stream<'a>) -> (r: Result<Token<'a>, Error>)
        requires
            old(s).wf(),
            old(s)@.pos >= 1,
        ensures
            moved(old(s)@, final(s)@),
            r matches Ok(t) ==> t is ElementStart && token_in(t, old(s)@, final(s)@),
            r is Ok <==> content_ok(TokenType::ElementStart, old(s)@.pos, old(s)@.bytes()),
            r matches Ok(t) ==> content_token(
                TokenType::ElementStart,
                old(s)@.pos,
                old(s)@,
                t,
                final(s)@.pos,
            ),
            name_starts_at(old(s)@.bytes(), old(s)@.pos) && name_end(old(s)@.bytes(), old(s)@.pos)
                >= old(s)@.end ==> r == Err::<Token<'a>, Error>(
                Error::InvalidToken(
                    TokenType::ElementStart,
                    error_pos_at(old(s)@.text, old(s)@.base + old(s)@.pos - 1),
                    Some(Box::new(Error::Stream(StreamError::UnexpectedEndOfStream))),
                ),
            ),
            r matches Err(e) ==> invalid_at(e, TokenType::ElementStart, old(s)@, old(s)@.pos - 1),
    {
        let start = s.pos() - 1;
        let r = match s.consume_name() {
            Ok(name) => if s.at_end() {
                // A start tag must go on after its name.
                Err(Error::Stream(StreamError::UnexpectedEndOfStream))
            } else {
                Ok(Token::ElementStart(name))
            },
            Err(e) => Err(Error::Stream(e)),
        };
        wrap(r, TokenType::ElementStart, s, start)
    }

    fn parse_close_element(s: &mut Stream<'a>) -> (r: Result<Token<'a>, Error>)
        requires
            old(s).wf(),
            old(s)@.pos >= 2,
        ensures
            moved(old(s)@, final(s)@),
            r matches Ok(t) ==> (t matches Token::ElementEnd(e) && e is Close) && token_in(
                t,
                old(s)@,
                final(s)@,
            ),
            r matches Ok(t) ==> content_token(
                TokenType::ElementClose,
                old(s)@.pos,
                old(s)@,
                t,
                final(s)@.pos,
            ),
            r is Ok <==> content_ok(TokenType::ElementClose, old(s)@.pos, old(s)@.bytes()),
            r matches Err(e) ==> invalid_at(e, TokenType::ElementClose, old(s)@, old(s)@.pos - 2),
    {
        let start = s.pos() - 2;
        let r = Self::parse_close_element_impl(s);
        wrap(r, TokenType::ElementClose, s, start)
    }

    // '</' Name S? '>'
    fn parse_close_element_impl(s: &mut Stream<'a>) -> (r: Result<Token<'a>, Error>)
        requires
            old(s).wf(),
        ensures
            moved(old(s)@, final(s)@),
            r matches Ok(t) ==> (t matches Token::ElementEnd(e) && e is Close) && token_in(
                t,
                old(s)@,
                final(s)@,
            ),
            r matches Ok(t) ==> content_token(
                TokenType::ElementClose,
                old(s)@.pos,
                old(s)@,
                t,
                final(s)@.pos,
            ),
            r is Ok <==> content_ok(TokenType::ElementClose, old(s)@.pos, old(s)@.bytes()),
    {
        let tag_name = s.consume_name()?;
        s.skip_ascii_spaces();
        s.consume_byte(0x3E)?;
        Ok(Token::ElementEnd(ElementEnd::Close(tag_name)))
    }

    // Name Eq AttValue, or the end of the start tag.
    #[verifier::rlimit(100)]
    fn consume_attribute(s: &mut Stream<'a>) -> (r: Result<Token<'a>, Error>)
        requires
            old(s).wf(),
        ensures
            moved(old(s)@, final(s)@),
            r matches Ok(t) ==> (t is Attribute || (t matches Token::ElementEnd(e) && !(e is Close)))
                && token_in(t, old(s)@, final(s)@) && old(s)@.pos < final(s)@.pos,
            r is Ok <==> attribute_at(old(s)@.bytes(), old(s)@.pos) is Some,
            r matches Ok(t) ==> (attribute_at(old(s)@.bytes(), old(s)@.pos) matches Some((m, e))
                && m.denotes(t, old(s)@) && final(s)@.pos == e),
            ({
                let b = old(s)@.bytes();
                let q = ascii_spaces_end(b, old(s)@.pos);
                &&& (q >= b.len() || (b[q] != 0x2F && b[q] != 0x3E && !name_starts_at(b, q)))
                    ==> r == Err::<Token<'a>, Error>(Error::Stream(StreamError::InvalidName))
                &&& q < b.len() && b[q] == 0x2F && !(q + 1 < b.len() && b[q + 1] == 0x3E) ==> (
                r matches Err(Error::Stream(e)) && crate::stream::byte_error(
                    old(s)@.with_pos(q + 1),
                    0x3E,
                    e,
                ))
            }),
    {
        let ghost b = old(s)@.bytes();
        s.skip_ascii_spaces();
        if let Some(c) = s.get_curr_byte() {
            if c == 0x2F {
                s.advance(1);
                if let Err(e) = s.consume_byte(0x3E) {
                    return Err(Error::Stream(e));
                }
                return Ok(Token::ElementEnd(ElementEnd::Empty));
            } else if c == 0x3E {
                s.advance(1);
                return Ok(Token::ElementEnd(ElementEnd::Open));
            }
        }
        let name = match s.consume_name() {
            Ok(n) => n,
            Err(e) => return Err(Error::Stream(e)),
        };
        s.consume_eq()?;
        let quote = s.consume_quote()?;
        let f = |_st: &Stream<'a>, c: u8| -> (r: bool)
            ensures
                r == (c != quote),
            { c != quote };
        let ghost before_value = *s;
        let value = s.consume_bytes(f);
        proof {
            let p = before_value@.pos;
            let q = s@.pos;
            assert forall|i: int| p <= i < q implies #[trigger] b[i] != quote by {
                assert(f.ensures((&before_value.at_pos(i), before_value@.byte(i)), true));
            }
            if q < b.len() {
                assert(f.ensures((&before_value.at_pos(q), before_value@.byte(q)), false));
            }
            lemma_until_byte(b, p, q, quote);
        }
        s.consume_byte(quote)?;
        s.skip_ascii_spaces();
        Ok(Token::Attribute(name, value))
    }

    fn parse_text(s: &mut Stream<'a>) -> (r: Result<Token<'a>, Error>)
        requires
            old(s).wf(),
            !old(s)@.at_end(),
            old(s)@.byte(old(s)@.pos) != 0x3C,
        ensures
            moved(old(s)@, final(s)@),
            r matches Ok(t) ==> (t is Text || t is Whitespaces) && token_in(t, old(s)@, final(s)@)
                && old(s)@.pos < final(s)@.pos,
            r matches Ok(t) && content_token(
                TokenType::CharData,
                old(s)@.pos,
                old(s)@,
                t,
                final(s)@.pos,
            ),
    {
        let ghost b = old(s)@.bytes();
        let f = |_st: &Stream<'a>, c: u8| -> (r: bool)
            ensures
                r == (c != 0x3C),
            { c != 0x3C };
        let text = s.consume_bytes(f);
        proof {
            let p = old(s)@.pos;
            let q = s@.pos;
            assert forall|i: int| p <= i < q implies #[trigger] b[i] != 0x3C by {
                assert(f.ensures((&old(s).at_pos(i), old(s)@.byte(i)), true));
            }
            if q < b.len() {
                assert(f.ensures((&old(s).at_pos(q), old(s)@.byte(q)), false));
            }
            lemma_until_byte(b, p, q, 0x3C);
            assert(text@.content() =~= b.subrange(p, q));
        }
        let mut ts = Stream::from_span(text);
        ts.skip_spaces();
        if ts.at_end() {
            Ok(Token::Whitespaces(text))
        } else {
            Ok(Token::Text(text))
        }
    }
}

fn is_xml_digit_byte(c: u8) -> (r: bool)
    ensures
        r == crate::chars::spec_xml_digit(c),
{
    crate::chars::is_xml_digit(c)
}

/// Depth after the results `rs`, starting from depth `d`: each `>` that ends a start tag
/// adds one, each end tag takes one away unless the depth is already zero.
pub open spec fn depth_after_results(d: nat, rs: Seq<Option<Result<Token, Error>>>) -> nat
    decreases rs.len(),
{
    if rs.len() == 0 {
        d
    } else {
        let before = depth_after_results(d, rs.drop_last());
        match rs.last() {
            Some(Ok(t)) => depth_after(before, t),
            _ => before,
        }
    }
}

/// The result is an error.
pub open spec fn is_error(r: Option<Result<Token, Error>>) -> bool {
    r matches Some(Err(_))
}

/// A run of calls of `next`: `ms[i]` is the tokenizer before call `i`, `rs[i]` what it
/// returned, `ms[i + 1]` the tokenizer after it.
pub open spec fn is_run(ms: Seq<TokenizerModel>, rs: Seq<Option<Result<Token, Error>>>) -> bool {
    &&& ms.len() == rs.len() + 1
    &&& ms[0].wf()
    &&& forall|i: int| #![trigger rs[i]] 0 <= i < rs.len() ==> next_step(ms[i], rs[i], ms[i + 1])
}

/// The token sequence is finite: a run of calls that all return a result is no longer
/// than the number of bytes not yet consumed when it starts (for a new tokenizer, the
/// input length), and an error can only be the last result of such a run.
pub proof fn lemma_results_finite(
    ms: Seq<TokenizerModel>,
    rs: Seq<Option<Result<Token, Error>>>,
)
    requires
        is_run(ms, rs),
        forall|i: int| 0 <= i < rs.len() ==> (#[trigger] rs[i]) is Some,
    ensures
        rs.len() <= measure(ms[0]),
        forall|i: int| 0 <= i < rs.len() && is_error(#[trigger] rs[i]) ==> i == rs.len() - 1,
    decreases rs.len(),
{
    if rs.len() > 0 {
        assert(next_step(ms[0], rs[0], ms[1]));
        let ms1 = ms.drop_first();
        let rs1 = rs.drop_first();
        assert forall|i: int| 0 <= i < rs1.len() implies next_step(ms1[i], #[trigger] rs1[i], ms1[i + 1]) by {
            assert(next_step(ms[i + 1], rs[i + 1], ms[i + 2]));
        }
        assert forall|i: int| 0 <= i < rs1.len() implies (#[trigger] rs1[i]) is Some by {
            assert(rs[i + 1] is Some);
        }
        lemma_results_finite(ms1, rs1);
        assert forall|i: int| 0 <= i < rs.len() && is_error(#[trigger] rs[i]) implies i == rs.len()
            - 1 by {
            if i == 0 && rs.len() > 1 {
                assert(next_step(ms[1], rs[1], ms[2]));
            } else if i > 0 {
                assert(rs1[i - 1] == rs[i]);
            }
        }
    }
}

/// Once `next` has returned `None`, it returns `None` again.
pub proof fn lemma_none_is_final(
    a: TokenizerModel,
    b: TokenizerModel,
    r: Option<Result<Token, Error>>,
    c: TokenizerModel,
)
    requires
        next_step(a, None, b),
        next_step(b, r, c),
    ensures
        r is None,
{
}

/// The tokenizer's depth is the number of `>` that ended start tags minus the number of
/// end tags produced so far, where an end tag at depth zero counts for nothing; it is
/// never negative.
pub proof fn lemma_depth_counts(ms: Seq<TokenizerModel>, rs: Seq<Option<Result<Token, Error>>>)
    requires
        is_run(ms, rs),
    ensures
        ms.last().depth == depth_after_results(ms[0].depth, rs),
    decreases rs.len(),
{
    if rs.len() > 0 {
        let n = rs.len() - 1;
        let ms0 = ms.drop_last();
        let rs0 = rs.drop_last();
        assert forall|i: int| 0 <= i < rs0.len() implies next_step(ms0[i], #[trigger] rs0[i], ms0[i + 1]) by {
            assert(next_step(ms[i], rs[i], ms[i + 1]));
        }
        lemma_depth_counts(ms0, rs0);
        assert(next_step(ms[n], rs[n], ms[n + 1]));
    }
}

/// Every span of a produced token lies within the input buffer (`start <= end <= len`),
/// within the bytes that the call consumed, and denotes exactly those bytes of the buffer.
pub proof fn lemma_token_spans_in_buffer(a: TokenizerModel, t: Token, b: TokenizerModel)
    requires
        a.wf(),
        next_step(a, Some(Ok(t)), b),
    ensures
        t.within(a.stream.text, a.stream.base + a.stream.pos, a.stream.base + b.stream.pos),
        a.stream.base + b.stream.pos <= a.stream.text.len(),
        t.within(a.stream.text, 0, a.stream.text.len() as int),
{
    let text = a.stream.text;
    let lo = a.stream.base + a.stream.pos;
    let hi = a.stream.base + b.stream.pos;
    let n = text.len() as int;
    assert forall|sp: SpanModel| span_within(sp, text, lo, hi) implies #[trigger] span_within(
        sp,
        text,
        0,
        n,
    ) by {}
    match t {
        Token::Declaration(v, e, s) => {
            assert(span_within(v@, text, lo, hi));
            if let Some(x) = e {
                assert(span_within(x@, text, lo, hi));
            }
            if let Some(x) = s {
                assert(span_within(x@, text, lo, hi));
            }
        },
        Token::ProcessingInstruction(x, c) => {
            assert(span_within(x@, text, lo, hi));
            if let Some(y) = c {
                assert(span_within(y@, text, lo, hi));
            }
        },
        Token::DtdStart(x, id) | Token::EmptyDtd(x, id) => {
            assert(span_within(x@, text, lo, hi));
            if let Some(i) = id {
                match i {
                    ExternalId::System(y) => assert(span_within(y@, text, lo, hi)),
                    ExternalId::Public(y, z) => {
                        assert(span_within(y@, text, lo, hi));
                        assert(span_within(z@, text, lo, hi));
                    },
                }
            }
        },
        Token::EntityDeclaration(x, d) => {
            assert(span_within(x@, text, lo, hi));
            match d {
                EntityDefinition::EntityValue(v) => assert(span_within(v@, text, lo, hi)),
                EntityDefinition::ExternalId(i) => match i {
                    ExternalId::System(y) => assert(span_within(y@, text, lo, hi)),
                    ExternalId::Public(y, z) => {
                        assert(span_within(y@, text, lo, hi));
                        assert(span_within(z@, text, lo, hi));
                    },
                },
            }
        },
        Token::Attribute(x, y) => {
            assert(span_within(x@, text, lo, hi));
            assert(span_within(y@, text, lo, hi));
        },
        _ => {},
    }
}

} // verus!
