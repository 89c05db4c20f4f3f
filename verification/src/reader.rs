//! Line-oriented reading: the tokenizer that classifies the next lexical
//! token of a line, the object parser that resolves a token into a typed
//! node, and the statement readers for the triple and quad line formats.
use crate::database::Database;
use crate::graph::{Node, NodeView, ResourceNode, ResourceNodeView, Statement, StatementView};
use crate::iri::{spec_iri_str, spec_parse_iri, IriView, IRI};
use crate::node_factory::{
    blank_id_of, spec_lookup, spec_parse_literal, BlankNode, IRIResource, Literal, PrefixMap,
};
use crate::scan::{find_class, sfind, sfind_close, spec_is_ws, str_eq, CharClass, find_close};
use vstd::prelude::*;

verus! {

/// The supported and recognized input languages.
#[derive(Clone, Copy, PartialEq, Eq, Structural, Debug)]
pub enum Lang {
    TTL,
    TURTLE,
    NTRIPLE,
    NT,
    NQ,
    NQUADS,
    RdfXml,
    TRIG,
    TRIX,
}

/// Why a line was rejected.
#[derive(Clone, Copy, PartialEq, Eq, Structural, Debug)]
pub enum ParserErrorKind {
    /// A literal stood in subject position.
    LiteralAsSubject,
    /// The line began with a dot.
    DotAsSubject,
    /// A blank node stood in predicate position.
    BlankNodeAsPredicate,
    /// A literal stood in predicate position.
    LiteralAsPredicate,
    /// A dot stood where a term was expected.
    UnexpectedDot,
    /// A comment began in the middle of a statement.
    CommentInStatement,
    /// A blank node stood in graph position.
    GraphBlankNode,
    /// A literal stood in graph position.
    GraphLiteral,
    /// Two items were not separated by whitespace.
    MissingSeparator,
    /// The line did not end on a dot.
    NoEndingDot,
    /// The tokenizer could not classify the remaining text.
    TokenizerError,
    /// The requested input language has no line reader.
    UnsupportedFormat,
}

/// A line rejection: the 1-based line number, the character offset within
/// the line where the violation was detected, and what went wrong.
#[derive(Clone, Copy, PartialEq, Eq, Structural, Debug)]
pub struct ParserError {
    pub line: usize,
    pub pos: usize,
    pub kind: ParserErrorKind,
}

impl ParserError {
    pub fn new(kind: ParserErrorKind, line: usize, pos: usize) -> (r: ParserError)
        ensures
            r.kind == kind,
            r.line == line,
            r.pos == pos,
    {
        ParserError { line, pos, kind }
    }
}

/// An error raised when a token cannot be resolved into a node.
#[derive(Debug)]
pub struct ObjectParserError {
    pub msg: String,
}

impl ObjectParserError {
    pub fn new(msg: String) -> (r: ObjectParserError)
        ensures
            r.msg == msg,
    {
        ObjectParserError { msg }
    }
}

/// Names what `str::to_lowercase` returns: it depends on the characters
/// alone.
pub uninterp spec fn lower_of(s: Seq<char>) -> Seq<char>;

/// Relies on `str::to_lowercase`: the result is a pure function of the
/// input characters.
#[verifier::external_body]
fn to_lowercase(s: &str) -> (r: String)
    ensures
        r@ == lower_of(s@),
{
    s.to_lowercase()
}

/// `s` ends with `suffix`.
pub open spec fn seq_ends_with(s: Seq<char>, suffix: Seq<char>) -> bool {
    s.len() >= suffix.len() && s.subrange(s.len() - suffix.len(), s.len() as int) == suffix
}

fn ends_with_str(s: &str, suffix: &str) -> (r: bool)
    ensures
        r == seq_ends_with(s@, suffix@),
{
    let n = s.unicode_len();
    let m = suffix.unicode_len();
    if n < m {
        return false;
    }
    str_eq(s.substring_char(n - m, n), suffix)
}

/// The language guessed from a file name's extension, mostly on its
/// lower-case form.
pub open spec fn spec_guess_lang(low: Seq<char>, orig: Seq<char>) -> Option<Lang> {
    if seq_ends_with(low, ".nt"@) {
        Some(Lang::NTRIPLE)
    } else if seq_ends_with(low, ".nq"@) {
        Some(Lang::NQUADS)
    } else if seq_ends_with(low, ".ttl"@) {
        Some(Lang::TTL)
    } else if seq_ends_with(low, ".rdf"@) || seq_ends_with(orig, ".xml"@) {
        Some(Lang::RdfXml)
    } else if seq_ends_with(low, ".trig"@) {
        Some(Lang::TRIG)
    } else if seq_ends_with(low, ".trix"@) {
        Some(Lang::TRIG)
    } else {
        None
    }
}

impl Lang {
    /// Guesses the language from a file name's extension.
    pub fn guess_lang(file: &str) -> (r: Option<Lang>)
        ensures
            r == spec_guess_lang(lower_of(file@), file@),
    {
        let low = to_lowercase(file);
        if ends_with_str(low.as_str(), ".nt") {
            Some(Lang::NTRIPLE)
        } else if ends_with_str(low.as_str(), ".nq") {
            Some(Lang::NQUADS)
        } else if ends_with_str(low.as_str(), ".ttl") {
            Some(Lang::TTL)
        } else if ends_with_str(low.as_str(), ".rdf") || ends_with_str(file, ".xml") {
            Some(Lang::RdfXml)
        } else if ends_with_str(low.as_str(), ".trig") {
            Some(Lang::TRIG)
        } else if ends_with_str(low.as_str(), ".trix") {
            Some(Lang::TRIG)
        } else {
            None
        }
    }
}

/// What a token resolves to: an identifier in angle brackets, a blank
/// node by its remapped label, a prefixed identifier through the prefix
/// table, or a literal form.
pub open spec fn spec_parse_object(
    t: Seq<char>,
    pm: Seq<(Seq<char>, Seq<char>)>,
    strict_literal: bool,
) -> Option<NodeView> {
    if t.len() > 0 && t[0] == '<' {
        if t.len() < 2 {
            None
        } else {
            match spec_parse_iri(t.subrange(1, t.len() - 1)) {
                Some(w) => Some(NodeView::IRINode(w)),
                None => None,
            }
        }
    } else if t.len() >= 2 && t[0] == '_' && t[1] == ':' {
        Some(NodeView::BNode(blank_id_of(t.subrange(2, t.len() as int))))
    } else if !(t.len() > 0 && (t[0] == '"' || t[0] == '\'')) && sfind(t, CharClass::Colon, 0)
        != t.len() {
        let c2 = sfind(t, CharClass::Colon, 0);
        match spec_lookup(pm, t.subrange(0, c2)) {
            Some(uri) => match spec_parse_iri(uri + t.subrange(c2 + 1, t.len() as int)) {
                Some(w) => Some(NodeView::IRINode(w)),
                None => None,
            },
            None => None,
        }
    } else {
        match spec_parse_literal(t, pm) {
            Some(l) => Some(NodeView::LiteralNode(l)),
            None => None,
        }
    }
}

/// Resolves a token into a typed node.  The line formats allow bare
/// `true`/`false` and numeric tokens as literal shorthands, so the
/// `strict_literal` request reads literals exactly as the lenient form
/// does.
#[verifier::rlimit(100)]
pub fn parse_object(object: &str, prefix_mapping: &PrefixMap, strict_literal: bool) -> (r: Result<
    Node,
    ObjectParserError,
>)
    ensures
        match r {
            Ok(node) => spec_parse_object(object@, prefix_mapping@, strict_literal) == Some(node@),
            Err(_) => spec_parse_object(object@, prefix_mapping@, strict_literal) is None,
        },
{
    let n = object.unicode_len();
    if n > 0 && object.get_char(0) == '<' {
        if n < 2 {
            return Err(
                ObjectParserError::new(String::from_str("identifier token is too short")),
            );
        }
        let iri_text = object.substring_char(1, n - 1).to_owned();
        match IRI::create_iri(&iri_text) {
            Ok(v) => {
                let ghost w = v@;
                let node = Node::IRINode { iri: IRIResource::create_resource(v) };
                proof {
                    let t = object@;
                    assert(t.len() == n);
                    assert(t[0] == '<');
                    assert(iri_text@ == t.subrange(1, t.len() - 1));
                    assert(spec_parse_iri(t.subrange(1, t.len() - 1)) == Some(w));
                    assert(node@ == NodeView::IRINode(w));
                    assert(spec_parse_object(t, prefix_mapping@, strict_literal) == Some(
                        NodeView::IRINode(w),
                    ));
                }
                Ok(node)
            },
            Err(e) => Err(ObjectParserError::new(e.msg)),
        }
    } else if n >= 2 && object.get_char(0) == '_' && object.get_char(1) == ':' {
        let label = object.substring_char(2, n);
        let bnode = BlankNode::generate_from_string(label);
        let node = Node::BNode { bnode };
        proof {
            let t = object@;
            assert(t.len() >= 2 && t[0] == '_' && t[1] == ':');
            assert(!(t.len() > 0 && t[0] == '<'));
            assert(label@ == t.subrange(2, t.len() as int));
            assert(node@ == NodeView::BNode(blank_id_of(t.subrange(2, t.len() as int))));
            assert(spec_parse_object(t, prefix_mapping@, strict_literal) == Some(node@));
        }
        Ok(node)
    } else if !(n > 0 && (object.get_char(0) == '"' || object.get_char(0) == '\'')) && find_class(
        object,
        CharClass::Colon,
        0,
    ) != n {
        let c2 = find_class(object, CharClass::Colon, 0);
        let prefix = object.substring_char(0, c2);
        match prefix_mapping.get(prefix) {
            Some(uri) => {
                let mut full = uri.clone();
                full.append(object.substring_char(c2 + 1, n));
                match IRI::create_iri(&full) {
                    Ok(v) => {
                        let node = Node::IRINode { iri: IRIResource::create_resource(v) };
                        proof {
                            assert(spec_parse_object(object@, prefix_mapping@, strict_literal)
                                == Some(node@));
                        }
                        Ok(node)
                    },
                    Err(e) => Err(ObjectParserError::new(e.msg)),
                }
            },
            None => {
                let mut msg = String::from_str("unresolved prefix mapping for prefix: ");
                msg.append(prefix);
                Err(ObjectParserError::new(msg))
            },
        }
    } else {
        match Literal::parse_literal(object, prefix_mapping) {
            Ok(literal) => {
                let node = Node::LiteralNode { literal };
                proof {
                    assert(spec_parse_object(object@, prefix_mapping@, strict_literal) == Some(
                        node@,
                    ));
                }
                Ok(node)
            },
            Err(e) => Err(ObjectParserError::new(e.msg)),
        }
    }
}

/// Resolves a token with no prefix table: prefixed identifiers are a hard
/// error here.
pub fn parse_resolved_object(object: &str) -> (r: Result<Node, ObjectParserError>)
    ensures
        match r {
            Ok(node) => spec_parse_object(
                object@,
                Seq::<(Seq<char>, Seq<char>)>::empty(),
                true,
            ) == Some(node@),
            Err(_) => spec_parse_object(
                object@,
                Seq::<(Seq<char>, Seq<char>)>::empty(),
                true,
            ) is None,
        },
{
    let empty = PrefixMap::new();
    parse_object(object, &empty, true)
}

/// Mathematical value of a token.
pub enum TokenView {
    IRI { node: NodeView, pos: int, len: int },
    BNode { node: NodeView, pos: int, len: int },
    Literal { node: NodeView, pos: int, len: int },
    DOT { pos: int },
    COMMENT { pos: int },
    ERROR,
}

/// The next lexical token of a line, with its position and, for node
/// tokens, the end of its span and its resolved node.
pub enum Token {
    IRI { node: Node, pos: usize, len: usize },
    BNode { node: Node, pos: usize, len: usize },
    Literal { node: Node, pos: usize, len: usize },
    DOT { pos: usize },
    COMMENT { pos: usize },
    ERROR,
}

impl View for Token {
    type V = TokenView;

    closed spec fn view(&self) -> TokenView {
        match self {
            Token::IRI { node, pos, len } => TokenView::IRI {
                node: node@,
                pos: *pos as int,
                len: *len as int,
            },
            Token::BNode { node, pos, len } => TokenView::BNode {
                node: node@,
                pos: *pos as int,
                len: *len as int,
            },
            Token::Literal { node, pos, len } => TokenView::Literal {
                node: node@,
                pos: *pos as int,
                len: *len as int,
            },
            Token::DOT { pos } => TokenView::DOT { pos: *pos as int },
            Token::COMMENT { pos } => TokenView::COMMENT { pos: *pos as int },
            Token::ERROR => TokenView::ERROR,
        }
    }
}

/// Where the token beginning at `pos` ends: blank nodes run to the next
/// boundary character, identifiers to the closing `>`, quoted literals to
/// their closing delimiter and then to the next whitespace, anything else
/// to the next whitespace.
pub open spec fn spec_token_end(s: Seq<char>, pos: int) -> int {
    if pos + 1 < s.len() && s[pos] == '_' && s[pos + 1] == ':' {
        sfind(s, CharClass::BnodeEnd, pos)
    } else if s[pos] == '<' {
        let g = sfind(s, CharClass::Gt, pos);
        if g == s.len() {
            s.len() as int
        } else {
            g + 1
        }
    } else if s[pos] == '"' {
        spec_literal_end(s, pos, '"', 1)
    } else if pos + 2 < s.len() && s[pos] == '\'' && s[pos + 1] == '\'' && s[pos + 2] == '\'' {
        spec_literal_end(s, pos, '\'', 3)
    } else if s[pos] == '\'' {
        spec_literal_end(s, pos, '\'', 1)
    } else {
        sfind(s, CharClass::Ws, pos)
    }
}

/// The end of a quoted literal token: past the first unescaped closing
/// delimiter, on to the next whitespace; to the end of the line when the
/// literal never closes.
pub open spec fn spec_literal_end(s: Seq<char>, pos: int, c: char, n: int) -> int {
    let close = sfind_close(s, c, n, pos + n);
    if close == s.len() {
        s.len() as int
    } else {
        sfind(s, CharClass::Ws, close)
    }
}

/// What the tokenizer sees next in the rest of a line: the first
/// non-whitespace character classifies the token; a token that resolves
/// into no node reads as `ERROR`, as does a line with nothing left.
pub open spec fn spec_peek(s: Seq<char>) -> TokenView {
    let pos = sfind(s, CharClass::NonWs, 0);
    if pos == s.len() {
        TokenView::ERROR
    } else if s[pos] == '#' {
        TokenView::COMMENT { pos }
    } else if s[pos] == '.' {
        TokenView::DOT { pos }
    } else {
        let end = spec_token_end(s, pos);
        match spec_parse_object(
            s.subrange(pos, end),
            Seq::<(Seq<char>, Seq<char>)>::empty(),
            true,
        ) {
            Some(node) => match node {
                NodeView::IRINode(_) => TokenView::IRI { node, pos, len: end },
                NodeView::LiteralNode(_) => TokenView::Literal { node, pos, len: end },
                NodeView::BNode(_) => TokenView::BNode { node, pos, len: end },
            },
            None => TokenView::ERROR,
        }
    }
}

/// The tokenizer of the line formats: pure and re-entrant, it never
/// advances shared state; callers track their position themselves.
pub struct SimpleTokenizer {}

impl SimpleTokenizer {
    /// Classifies the next token of the rest of a line; see [`spec_peek`].
    #[verifier::rlimit(100)]
    pub fn peek_next_token(&self, rest_line: &str) -> (r: Token)
        ensures
            r@ == spec_peek(rest_line@),
    {
        let n = rest_line.unicode_len();
        let pos = find_class(rest_line, CharClass::NonWs, 0);
        if pos == n {
            return Token::ERROR;
        }
        let first = rest_line.get_char(pos);
        if first == '#' {
            return Token::COMMENT { pos };
        }
        if first == '.' {
            return Token::DOT { pos };
        }
        let end: usize = if pos + 1 < n && first == '_' && rest_line.get_char(pos + 1) == ':' {
            find_class(rest_line, CharClass::BnodeEnd, pos)
        } else if first == '<' {
            let g = find_class(rest_line, CharClass::Gt, pos);
            if g == n {
                n
            } else {
                g + 1
            }
        } else if first == '"' {
            self.literal_end(rest_line, pos, '"', 1)
        } else if n - pos > 2 && first == '\'' && rest_line.get_char(pos + 1) == '\''
            && rest_line.get_char(pos + 2) == '\'' {
            self.literal_end(rest_line, pos, '\'', 3)
        } else if first == '\'' {
            self.literal_end(rest_line, pos, '\'', 1)
        } else {
            find_class(rest_line, CharClass::Ws, pos)
        };
        let token_text = rest_line.substring_char(pos, end);
        match parse_resolved_object(token_text) {
            Ok(node) => match node {
                Node::IRINode { .. } => Token::IRI { node, pos, len: end },
                Node::LiteralNode { .. } => Token::Literal { node, pos, len: end },
                Node::BNode { .. } => Token::BNode { node, pos, len: end },
            },
            Err(_) => Token::ERROR,
        }
    }

    /// The end of a quoted literal token; see [`spec_literal_end`].
    fn literal_end(&self, s: &str, pos: usize, c: char, n: usize) -> (r: usize)
        requires
            1 <= n,
            pos + n <= s@.len(),
        ensures
            r == spec_literal_end(s@, pos as int, c, n as int),
            pos <= r <= s@.len(),
    {
        let len = s.unicode_len();
        let close = find_close(s, c, n, pos + n);
        proof {
            crate::scan::lemma_sfind_close_bounds(s@, c, n as int, pos + n);
        }
        if close == len {
            len
        } else {
            find_class(s, CharClass::Ws, close)
        }
    }
}

} // verus!

verus! {

/// Bounds of a token's end position.
pub proof fn lemma_token_end_bounds(s: Seq<char>, pos: int)
    requires
        0 <= pos < s.len(),
    ensures
        pos <= spec_token_end(s, pos) <= s.len(),
{
    crate::scan::lemma_sfind_bounds(s, CharClass::BnodeEnd, pos);
    crate::scan::lemma_sfind_bounds(s, CharClass::Gt, pos);
    crate::scan::lemma_sfind_bounds(s, CharClass::Ws, pos);
    if s[pos] == '"' {
        lemma_literal_end_bounds(s, pos, '"', 1);
    }
    if s[pos] == '\'' {
        lemma_literal_end_bounds(s, pos, '\'', 3);
        lemma_literal_end_bounds(s, pos, '\'', 1);
    }
}

proof fn lemma_literal_end_bounds(s: Seq<char>, pos: int, c: char, n: int)
    requires
        0 <= pos < s.len(),
        1 <= n,
    ensures
        pos <= spec_literal_end(s, pos, c, n) <= s.len(),
{
    crate::scan::lemma_sfind_close_bounds(s, c, n, pos + n);
    let close = sfind_close(s, c, n, pos + n);
    if close != s.len() {
        crate::scan::lemma_sfind_bounds(s, CharClass::Ws, close);
    }
}

/// The position right after a consumed span must hold whitespace before
/// the next item may start.
pub open spec fn has_sep(line: Seq<char>, cur: int) -> bool {
    cur < line.len() && spec_is_ws(line[cur])
}

/// What the subject step yields: a comment line is skipped, a resource
/// is found together with the next position, or the line is rejected.
pub enum SubjectStep {
    Skip,
    Found(ResourceNodeView, int),
    Fail(ParserErrorKind, int),
}

pub open spec fn spec_subject(line: Seq<char>, cur: int) -> SubjectStep {
    match spec_peek(line.subrange(cur, line.len() as int)) {
        TokenView::IRI { node, pos, len } => match node {
            NodeView::IRINode(w) => SubjectStep::Found(ResourceNodeView::IRINode(w), len),
            _ => SubjectStep::Fail(ParserErrorKind::TokenizerError, 0),
        },
        TokenView::BNode { node, pos, len } => match node {
            NodeView::BNode(id) => SubjectStep::Found(ResourceNodeView::BNode(id), len),
            _ => SubjectStep::Fail(ParserErrorKind::TokenizerError, 0),
        },
        TokenView::Literal { pos, .. } => SubjectStep::Fail(
            ParserErrorKind::LiteralAsSubject,
            cur + pos,
        ),
        TokenView::DOT { pos } => SubjectStep::Fail(ParserErrorKind::DotAsSubject, cur + pos),
        TokenView::COMMENT { .. } => SubjectStep::Skip,
        TokenView::ERROR => SubjectStep::Fail(ParserErrorKind::TokenizerError, 0),
    }
}

pub open spec fn spec_predicate(line: Seq<char>, cur: int) -> Result<
    (IriView, int),
    (ParserErrorKind, int),
> {
    match spec_peek(line.subrange(cur, line.len() as int)) {
        TokenView::IRI { node, pos, len } => match node {
            NodeView::IRINode(w) => Ok((w, cur + len)),
            _ => Err((ParserErrorKind::TokenizerError, 0)),
        },
        TokenView::BNode { pos, .. } => Err((ParserErrorKind::BlankNodeAsPredicate, cur + pos)),
        TokenView::Literal { pos, .. } => Err((ParserErrorKind::LiteralAsPredicate, cur + pos)),
        TokenView::DOT { pos } => Err((ParserErrorKind::UnexpectedDot, cur + pos)),
        TokenView::COMMENT { pos } => Err((ParserErrorKind::CommentInStatement, cur + pos)),
        TokenView::ERROR => Err((ParserErrorKind::TokenizerError, 0)),
    }
}

pub open spec fn spec_object(line: Seq<char>, cur: int) -> Result<
    (NodeView, int),
    (ParserErrorKind, int),
> {
    match spec_peek(line.subrange(cur, line.len() as int)) {
        TokenView::IRI { node, pos, len } => Ok((node, cur + len)),
        TokenView::BNode { node, pos, len } => Ok((node, cur + len)),
        TokenView::Literal { node, pos, len } => Ok((node, cur + len)),
        TokenView::DOT { pos } => Err((ParserErrorKind::UnexpectedDot, cur + pos)),
        TokenView::COMMENT { pos } => Err((ParserErrorKind::CommentInStatement, cur + pos)),
        TokenView::ERROR => Err((ParserErrorKind::TokenizerError, 0)),
    }
}

pub open spec fn spec_graph(line: Seq<char>, cur: int) -> Result<
    (IriView, int),
    (ParserErrorKind, int),
> {
    match spec_peek(line.subrange(cur, line.len() as int)) {
        TokenView::IRI { node, pos, len } => match node {
            NodeView::IRINode(w) => Ok((w, cur + len)),
            _ => Err((ParserErrorKind::TokenizerError, 0)),
        },
        TokenView::BNode { pos, .. } => Err((ParserErrorKind::GraphBlankNode, cur + pos)),
        TokenView::Literal { pos, .. } => Err((ParserErrorKind::GraphLiteral, cur + pos)),
        TokenView::DOT { pos } => Err((ParserErrorKind::UnexpectedDot, cur + pos)),
        TokenView::COMMENT { pos } => Err((ParserErrorKind::CommentInStatement, cur + pos)),
        TokenView::ERROR => Err((ParserErrorKind::TokenizerError, 0)),
    }
}

impl SimpleTokenizer {
    /// Reads the subject slot: an identifier or blank node; a comment
    /// makes the whole line a no-op.
    #[verifier::rlimit(100)]
    pub fn subject(&self, line: &str, line_no: usize, current_pos: usize) -> (r: Result<
        Option<(ResourceNode, usize)>,
        ParserError,
    >)
        requires
            current_pos <= line@.len(),
        ensures
            match r {
                Ok(opt) => match opt {
                    None => spec_subject(line@, current_pos as int) is Skip,
                    Some(p) => spec_subject(line@, current_pos as int) == SubjectStep::Found(
                        p.0@,
                        p.1 as int,
                    ) && p.1 <= line@.len(),
                },
                Err(e) => spec_subject(line@, current_pos as int) == SubjectStep::Fail(
                    e.kind,
                    e.pos as int,
                ) && e.line == line_no,
            },
    {
        let n = line.unicode_len();
        let rest = line.substring_char(current_pos, n);
        let ghost sub = line@.subrange(current_pos as int, line@.len() as int);
        proof {
            crate::scan::lemma_sfind_bounds(sub, CharClass::NonWs, 0);
            let pos = crate::scan::sfind(sub, CharClass::NonWs, 0);
            if pos < sub.len() {
                lemma_token_end_bounds(sub, pos);
            }
        }
        match self.peek_next_token(rest) {
            Token::IRI { node, pos, len } => match node {
                Node::IRINode { iri } => Ok(Some((ResourceNode::IRINode { iri }, len))),
                _ => Err(ParserError::new(ParserErrorKind::TokenizerError, line_no, 0)),
            },
            Token::BNode { node, pos, len } => match node {
                Node::BNode { bnode } => Ok(Some((ResourceNode::BNode { bnode }, len))),
                _ => Err(ParserError::new(ParserErrorKind::TokenizerError, line_no, 0)),
            },
            Token::Literal { pos, .. } => Err(
                ParserError::new(ParserErrorKind::LiteralAsSubject, line_no, current_pos + pos),
            ),
            Token::DOT { pos } => Err(
                ParserError::new(ParserErrorKind::DotAsSubject, line_no, current_pos + pos),
            ),
            Token::COMMENT { .. } => Ok(None),
            Token::ERROR => Err(ParserError::new(ParserErrorKind::TokenizerError, line_no, 0)),
        }
    }

    /// Reads the predicate slot: only an identifier is allowed.
    #[verifier::rlimit(100)]
    pub fn predicate(&self, line: &str, line_no: usize, current_pos: usize) -> (r: Result<
        (IRIResource, usize),
        ParserError,
    >)
        requires
            current_pos <= line@.len(),
        ensures
            match r {
                Ok(p) => spec_predicate(line@, current_pos as int) == Ok::<
                    (IriView, int),
                    (ParserErrorKind, int),
                >((p.0@, p.1 as int)) && p.1 <= line@.len(),
                Err(e) => spec_predicate(line@, current_pos as int) == Err::<
                    (IriView, int),
                    (ParserErrorKind, int),
                >((e.kind, e.pos as int)) && e.line == line_no,
            },
    {
        let n = line.unicode_len();
        let rest = line.substring_char(current_pos, n);
        let ghost sub = line@.subrange(current_pos as int, line@.len() as int);
        proof {
            crate::scan::lemma_sfind_bounds(sub, CharClass::NonWs, 0);
            let pos = crate::scan::sfind(sub, CharClass::NonWs, 0);
            if pos < sub.len() {
                lemma_token_end_bounds(sub, pos);
            }
        }
        match self.peek_next_token(rest) {
            Token::IRI { node, pos, len } => match node {
                Node::IRINode { iri } => Ok((iri, current_pos + len)),
                _ => Err(ParserError::new(ParserErrorKind::TokenizerError, line_no, 0)),
            },
            Token::BNode { pos, .. } => Err(
                ParserError::new(
                    ParserErrorKind::BlankNodeAsPredicate,
                    line_no,
                    current_pos + pos,
                ),
            ),
            Token::Literal { pos, .. } => Err(
                ParserError::new(
                    ParserErrorKind::LiteralAsPredicate,
                    line_no,
                    current_pos + pos,
                ),
            ),
            Token::DOT { pos } => Err(
                ParserError::new(ParserErrorKind::UnexpectedDot, line_no, current_pos + pos),
            ),
            Token::COMMENT { pos } => Err(
                ParserError::new(
                    ParserErrorKind::CommentInStatement,
                    line_no,
                    current_pos + pos,
                ),
            ),
            Token::ERROR => Err(ParserError::new(ParserErrorKind::TokenizerError, line_no, 0)),
        }
    }

    /// Reads the object slot: identifier, blank node or literal.
    #[verifier::rlimit(100)]
    pub fn object(&self, line: &str, line_no: usize, current_pos: usize) -> (r: Result<
        (Node, usize),
        ParserError,
    >)
        requires
            current_pos <= line@.len(),
        ensures
            match r {
                Ok(p) => spec_object(line@, current_pos as int) == Ok::<
                    (NodeView, int),
                    (ParserErrorKind, int),
                >((p.0@, p.1 as int)) && p.1 <= line@.len(),
                Err(e) => spec_object(line@, current_pos as int) == Err::<
                    (NodeView, int),
                    (ParserErrorKind, int),
                >((e.kind, e.pos as int)) && e.line == line_no,
            },
    {
        let n = line.unicode_len();
        let rest = line.substring_char(current_pos, n);
        let ghost sub = line@.subrange(current_pos as int, line@.len() as int);
        proof {
            crate::scan::lemma_sfind_bounds(sub, CharClass::NonWs, 0);
            let pos = crate::scan::sfind(sub, CharClass::NonWs, 0);
            if pos < sub.len() {
                lemma_token_end_bounds(sub, pos);
            }
        }
        match self.peek_next_token(rest) {
            Token::IRI { node, pos, len } => Ok((node, current_pos + len)),
            Token::BNode { node, pos, len } => Ok((node, current_pos + len)),
            Token::Literal { node, pos, len } => Ok((node, current_pos + len)),
            Token::DOT { pos } => Err(
                ParserError::new(ParserErrorKind::UnexpectedDot, line_no, current_pos + pos),
            ),
            Token::COMMENT { pos } => Err(
                ParserError::new(
                    ParserErrorKind::CommentInStatement,
                    line_no,
                    current_pos + pos,
                ),
            ),
            Token::ERROR => Err(ParserError::new(ParserErrorKind::TokenizerError, line_no, 0)),
        }
    }

    /// Reads the graph-name slot: only an identifier is allowed.
    #[verifier::rlimit(100)]
    pub fn graph(&self, line: &str, line_no: usize, current_pos: usize) -> (r: Result<
        (IRIResource, usize),
        ParserError,
    >)
        requires
            current_pos <= line@.len(),
        ensures
            match r {
                Ok(p) => spec_graph(line@, current_pos as int) == Ok::<
                    (IriView, int),
                    (ParserErrorKind, int),
                >((p.0@, p.1 as int)) && p.1 <= line@.len(),
                Err(e) => spec_graph(line@, current_pos as int) == Err::<
                    (IriView, int),
                    (ParserErrorKind, int),
                >((e.kind, e.pos as int)) && e.line == line_no,
            },
    {
        let n = line.unicode_len();
        let rest = line.substring_char(current_pos, n);
        let ghost sub = line@.subrange(current_pos as int, line@.len() as int);
        proof {
            crate::scan::lemma_sfind_bounds(sub, CharClass::NonWs, 0);
            let pos = crate::scan::sfind(sub, CharClass::NonWs, 0);
            if pos < sub.len() {
                lemma_token_end_bounds(sub, pos);
            }
        }
        match self.peek_next_token(rest) {
            Token::IRI { node, pos, len } => match node {
                Node::IRINode { iri } => Ok((iri, current_pos + len)),
                _ => Err(ParserError::new(ParserErrorKind::TokenizerError, line_no, 0)),
            },
            Token::BNode { pos, .. } => Err(
                ParserError::new(ParserErrorKind::GraphBlankNode, line_no, current_pos + pos),
            ),
            Token::Literal { pos, .. } => Err(
                ParserError::new(ParserErrorKind::GraphLiteral, line_no, current_pos + pos),
            ),
            Token::DOT { pos } => Err(
                ParserError::new(ParserErrorKind::UnexpectedDot, line_no, current_pos + pos),
            ),
            Token::COMMENT { pos } => Err(
                ParserError::new(
                    ParserErrorKind::CommentInStatement,
                    line_no,
                    current_pos + pos,
                ),
            ),
            Token::ERROR => Err(ParserError::new(ParserErrorKind::TokenizerError, line_no, 0)),
        }
    }
}

} // verus!

verus! {

/// What one line does to the database: nothing, one committed statement
/// (optionally into a named graph), or a rejection with its position.
pub enum LineOutcome {
    Skip,
    Stmt(StatementView, Option<IriView>),
    Reject(ParserErrorKind, int),
}

/// The triple-format line grammar: subject, separator, predicate,
/// separator, object, then a dot token; an empty or comment line is a
/// no-op.
#[verifier::opaque]
pub open spec fn spec_nt_line(line: Seq<char>) -> LineOutcome {
    if line.len() == 0 {
        LineOutcome::Skip
    } else {
        match spec_subject(line, 0) {
            SubjectStep::Skip => LineOutcome::Skip,
            SubjectStep::Fail(k, p) => LineOutcome::Reject(k, p),
            SubjectStep::Found(subj, cur1) => if !has_sep(line, cur1) {
                LineOutcome::Reject(ParserErrorKind::MissingSeparator, cur1)
            } else {
                match spec_predicate(line, cur1) {
                    Err((k, p)) => LineOutcome::Reject(k, p),
                    Ok((pred, cur2)) => if !has_sep(line, cur2) {
                        LineOutcome::Reject(ParserErrorKind::MissingSeparator, cur2)
                    } else {
                        match spec_object(line, cur2) {
                            Err((k, p)) => LineOutcome::Reject(k, p),
                            Ok((obj, cur3)) => match spec_peek(
                                line.subrange(cur3, line.len() as int),
                            ) {
                                TokenView::DOT { .. } => LineOutcome::Stmt(
                                    StatementView { subject: subj, predicate: pred, object: obj },
                                    None,
                                ),
                                _ => LineOutcome::Reject(ParserErrorKind::NoEndingDot, 0),
                            },
                        }
                    },
                }
            },
        }
    }
}

/// The quad-format line grammar: as the triple grammar, but a separator
/// is also demanded after the object, and an identifier graph name may
/// stand between object and dot.
#[verifier::opaque]
pub open spec fn spec_nq_line(line: Seq<char>) -> LineOutcome {
    if line.len() == 0 {
        LineOutcome::Skip
    } else {
        match spec_subject(line, 0) {
            SubjectStep::Skip => LineOutcome::Skip,
            SubjectStep::Fail(k, p) => LineOutcome::Reject(k, p),
            SubjectStep::Found(subj, cur1) => if !has_sep(line, cur1) {
                LineOutcome::Reject(ParserErrorKind::MissingSeparator, cur1)
            } else {
                match spec_predicate(line, cur1) {
                    Err((k, p)) => LineOutcome::Reject(k, p),
                    Ok((pred, cur2)) => if !has_sep(line, cur2) {
                        LineOutcome::Reject(ParserErrorKind::MissingSeparator, cur2)
                    } else {
                        match spec_object(line, cur2) {
                            Err((k, p)) => LineOutcome::Reject(k, p),
                            Ok((obj, cur3)) => if !has_sep(line, cur3) {
                                LineOutcome::Reject(ParserErrorKind::MissingSeparator, cur3)
                            } else {
                                let stmt = StatementView {
                                    subject: subj,
                                    predicate: pred,
                                    object: obj,
                                };
                                if spec_peek(line.subrange(cur3, line.len() as int)) is DOT {
                                    LineOutcome::Stmt(stmt, None)
                                } else {
                                    match spec_graph(line, cur3) {
                                        Err((k, p)) => LineOutcome::Reject(k, p),
                                        Ok((gw, cur4)) => if spec_peek(
                                            line.subrange(cur4, line.len() as int),
                                        ) is DOT {
                                            LineOutcome::Stmt(stmt, Some(gw))
                                        } else {
                                            LineOutcome::Reject(ParserErrorKind::NoEndingDot, 0)
                                        },
                                    }
                                }
                            },
                        }
                    },
                }
            },
        }
    }
}

/// How the database changes by one line outcome, given the strategy's
/// deduplication.
pub open spec fn line_applies(
    outcome: LineOutcome,
    dd: bool,
    d: Seq<StatementView>,
    g: Seq<(Seq<char>, Seq<crate::graph::StatementView>)>,
    d2: Seq<StatementView>,
    g2: Seq<(Seq<char>, Seq<StatementView>)>,
) -> bool {
    match outcome {
        LineOutcome::Skip => d2 == d && g2 == g,
        LineOutcome::Stmt(t, gname) => match gname {
            None => d2 == crate::database::store_add(d, dd, t) && g2 == g,
            Some(w) => d2 == d && g2 == crate::database::named_add(g, spec_iri_str(w), dd, t),
        },
        LineOutcome::Reject(..) => d2 == d && g2 == g,
    }
}

/// The triple-format line reader.
pub struct NTripleReader {
    tokenizer: SimpleTokenizer,
}

impl NTripleReader {
    pub fn new() -> (r: NTripleReader)
    {
        NTripleReader { tokenizer: SimpleTokenizer {} }
    }

    /// Reads one line and commits its statement, if any, to the default
    /// graph; see [`spec_nt_line`].
    pub fn read_from_line(&self, line: &str, line_no: usize, database: &mut Database) -> (r:
        Result<bool, ParserError>)
        requires
            old(database).inv(),
        ensures
            final (database).inv(),
            final (database).strategy() == old(database).strategy(),
            line_applies(
                spec_nt_line(line@),
                crate::database::type_dedups(old(database).strategy()),
                old(database).default_stmts(),
                old(database).named(),
                final (database).default_stmts(),
                final (database).named(),
            ),
            match spec_nt_line(line@) {
                LineOutcome::Skip => r == Ok::<bool, ParserError>(false),
                LineOutcome::Stmt(..) => r == Ok::<bool, ParserError>(true),
                LineOutcome::Reject(k, p) => match r {
                    Err(e) => e.kind == k && e.pos == p && e.line == line_no,
                    Ok(_) => false,
                },
            },
    {
        proof {
            reveal(spec_nt_line);
        }
        if line.is_empty() {
            return Ok(false);
        }
        let n = line.unicode_len();
        let (subject, cur1) = match self.tokenizer.subject(line, line_no, 0) {
            Ok(Some(p)) => p,
            Ok(None) => {
                return Ok(false);
            },
            Err(e) => {
                return Err(e);
            },
        };
        if !(cur1 < n && crate::scan::is_ws(line.get_char(cur1))) {
            return Err(ParserError::new(ParserErrorKind::MissingSeparator, line_no, cur1));
        }
        let (predicate, cur2) = match self.tokenizer.predicate(line, line_no, cur1) {
            Ok(p) => p,
            Err(e) => {
                return Err(e);
            },
        };
        if !(cur2 < n && crate::scan::is_ws(line.get_char(cur2))) {
            return Err(ParserError::new(ParserErrorKind::MissingSeparator, line_no, cur2));
        }
        let (object, cur3) = match self.tokenizer.object(line, line_no, cur2) {
            Ok(p) => p,
            Err(e) => {
                return Err(e);
            },
        };
        match self.tokenizer.peek_next_token(line.substring_char(cur3, n)) {
            Token::DOT { .. } => {
                database.add_statement(None, Statement::create(subject, predicate, object));
                Ok(true)
            },
            _ => Err(ParserError::new(ParserErrorKind::NoEndingDot, line_no, 0)),
        }
    }
}

/// The quad-format line reader.
pub struct NQuadsReader {
    tokenizer: SimpleTokenizer,
}

impl NQuadsReader {
    pub fn new() -> (r: NQuadsReader)
    {
        NQuadsReader { tokenizer: SimpleTokenizer {} }
    }

    /// Whether the rest of a line begins with the closing dot token.
    fn check_end(&self, line: &str) -> (r: bool)
        ensures
            r == (spec_peek(line@) is DOT),
    {
        match self.tokenizer.peek_next_token(line) {
            Token::DOT { .. } => true,
            _ => false,
        }
    }

    /// Reads one line and commits its statement, if any, to the default
    /// graph or to the named graph the line names; see [`spec_nq_line`].
    pub fn read_from_line(&self, line: &str, line_no: usize, database: &mut Database) -> (r:
        Result<bool, ParserError>)
        requires
            old(database).inv(),
        ensures
            final (database).inv(),
            final (database).strategy() == old(database).strategy(),
            line_applies(
                spec_nq_line(line@),
                crate::database::type_dedups(old(database).strategy()),
                old(database).default_stmts(),
                old(database).named(),
                final (database).default_stmts(),
                final (database).named(),
            ),
            match spec_nq_line(line@) {
                LineOutcome::Skip => r == Ok::<bool, ParserError>(false),
                LineOutcome::Stmt(..) => r == Ok::<bool, ParserError>(true),
                LineOutcome::Reject(k, p) => match r {
                    Err(e) => e.kind == k && e.pos == p && e.line == line_no,
                    Ok(_) => false,
                },
            },
    {
        proof {
            reveal(spec_nq_line);
        }
        if line.is_empty() {
            return Ok(false);
        }
        let n = line.unicode_len();
        let (subject, cur1) = match self.tokenizer.subject(line, line_no, 0) {
            Ok(Some(p)) => p,
            Ok(None) => {
                return Ok(false);
            },
            Err(e) => {
                return Err(e);
            },
        };
        if !(cur1 < n && crate::scan::is_ws(line.get_char(cur1))) {
            return Err(ParserError::new(ParserErrorKind::MissingSeparator, line_no, cur1));
        }
        let (predicate, cur2) = match self.tokenizer.predicate(line, line_no, cur1) {
            Ok(p) => p,
            Err(e) => {
                return Err(e);
            },
        };
        if !(cur2 < n && crate::scan::is_ws(line.get_char(cur2))) {
            return Err(ParserError::new(ParserErrorKind::MissingSeparator, line_no, cur2));
        }
        let (object, cur3) = match self.tokenizer.object(line, line_no, cur2) {
            Ok(p) => p,
            Err(e) => {
                return Err(e);
            },
        };
        if !(cur3 < n && crate::scan::is_ws(line.get_char(cur3))) {
            return Err(ParserError::new(ParserErrorKind::MissingSeparator, line_no, cur3));
        }
        if self.check_end(line.substring_char(cur3, n)) {
            database.add_statement(None, Statement::create(subject, predicate, object));
            return Ok(true);
        }
        let (graph_node, cur4) = match self.tokenizer.graph(line, line_no, cur3) {
            Ok(p) => p,
            Err(e) => {
                return Err(e);
            },
        };
        if self.check_end(line.substring_char(cur4, n)) {
            database.add_statement(
                Some(graph_node),
                Statement::create(subject, predicate, object),
            );
            Ok(true)
        } else {
            Err(ParserError::new(ParserErrorKind::NoEndingDot, line_no, 0))
        }
    }
}

} // verus!

verus! {

/// What ingesting a sequence of lines yields: the final default-graph
/// and named-graph contents, or the first rejection with its 1-based
/// line number and the contents committed before it.
pub enum IngestOutcome {
    Done(Seq<StatementView>, Seq<(Seq<char>, Seq<StatementView>)>),
    Failed(
        int,
        ParserErrorKind,
        int,
        Seq<StatementView>,
        Seq<(Seq<char>, Seq<StatementView>)>,
    ),
}

/// Folds the line grammar over the lines, starting at line number `ln`:
/// each committed statement lands in its store at once, and the first
/// rejected line stops the read with everything before it kept.
pub open spec fn spec_ingest(
    lines: Seq<Seq<char>>,
    quads: bool,
    dd: bool,
    d: Seq<StatementView>,
    g: Seq<(Seq<char>, Seq<StatementView>)>,
    ln: int,
) -> IngestOutcome
    decreases lines.len(),
{
    if lines.len() == 0 {
        IngestOutcome::Done(d, g)
    } else {
        let outcome = if quads {
            spec_nq_line(lines[0])
        } else {
            spec_nt_line(lines[0])
        };
        match outcome {
            LineOutcome::Skip => spec_ingest(
                lines.subrange(1, lines.len() as int),
                quads,
                dd,
                d,
                g,
                ln + 1,
            ),
            LineOutcome::Stmt(t, gname) => match gname {
                None => spec_ingest(
                    lines.subrange(1, lines.len() as int),
                    quads,
                    dd,
                    crate::database::store_add(d, dd, t),
                    g,
                    ln + 1,
                ),
                Some(w) => spec_ingest(
                    lines.subrange(1, lines.len() as int),
                    quads,
                    dd,
                    d,
                    crate::database::named_add(g, spec_iri_str(w), dd, t),
                    ln + 1,
                ),
            },
            LineOutcome::Reject(k, p) => IngestOutcome::Failed(ln, k, p, d, g),
        }
    }
}

/// The entry point for already-assembled lines of text.
pub struct Reader {}

impl Reader {
    /// Reads a sequence of text lines (1-based line numbers) into the
    /// database in the given line format.  A rejected line stops the
    /// read; statements committed from earlier lines stay.  Only the
    /// triple and quad line formats have a reader.
    #[verifier::rlimit(100)]
    pub fn read_from_lines(database: &mut Database, lines: &Vec<String>, lang: Lang) -> (r: Result<
        usize,
        ParserError,
    >)
        requires
            old(database).inv(),
        ensures
            final (database).inv(),
            final (database).strategy() == old(database).strategy(),
            match lang {
                Lang::NTRIPLE | Lang::NT | Lang::NQ | Lang::NQUADS => {
                    let quads = lang == Lang::NQ || lang == Lang::NQUADS;
                    match spec_ingest(
                        lines@.map_values(|s: String| s@),
                        quads,
                        crate::database::type_dedups(old(database).strategy()),
                        old(database).default_stmts(),
                        old(database).named(),
                        1,
                    ) {
                        IngestOutcome::Done(d2, g2) => final (database).default_stmts() == d2
                            && final (database).named() == g2 && (match r {
                            Ok(c) => c == if final (database).total() <= usize::MAX {
                                final (database).total()
                            } else {
                                usize::MAX as int
                            },
                            Err(_) => false,
                        }),
                        IngestOutcome::Failed(ln, k, p, d2, g2) => final (database)
                            .default_stmts() == d2 && final (database).named() == g2 && (match r {
                            Err(e) => e.line == ln && e.kind == k && e.pos == p,
                            Ok(_) => false,
                        }),
                    }
                },
                _ => final (database).default_stmts() == old(database).default_stmts() && final (
                    database
                ).named() == old(database).named() && (match r {
                    Err(e) => e.kind == ParserErrorKind::UnsupportedFormat,
                    Ok(_) => false,
                }),
            },
    {
        let quads: bool = match lang {
            Lang::NQ | Lang::NQUADS => true,
            Lang::NTRIPLE | Lang::NT => false,
            _ => {
                return Err(ParserError::new(ParserErrorKind::UnsupportedFormat, 1, 0));
            },
        };
        let ghost all = lines@.map_values(|s: String| s@);
        let ghost dd = crate::database::type_dedups(database.strategy());
        let nt_reader = NTripleReader::new();
        let nq_reader = NQuadsReader::new();
        let mut i: usize = 0;
        proof {
            assert(all.subrange(0, all.len() as int) =~= all);
        }
        while i < lines.len()
            invariant
                0 <= i <= lines@.len(),
                all == lines@.map_values(|s: String| s@),
                all.len() == lines@.len(),
                database.inv(),
                database.strategy() == old(database).strategy(),
                dd == crate::database::type_dedups(old(database).strategy()),
                quads == (lang == Lang::NQ || lang == Lang::NQUADS),
                lang == Lang::NTRIPLE || lang == Lang::NT || lang == Lang::NQ || lang
                    == Lang::NQUADS,
                spec_ingest(
                    all,
                    quads,
                    dd,
                    old(database).default_stmts(),
                    old(database).named(),
                    1,
                ) == spec_ingest(
                    all.subrange(i as int, all.len() as int),
                    quads,
                    dd,
                    database.default_stmts(),
                    database.named(),
                    i + 1,
                ),
            decreases lines@.len() - i,
        {
            let line = &lines[i];
            let line_no = i + 1;
            let ghost rest = all.subrange(i as int, all.len() as int);
            proof {
                assert(rest[0] == all[i as int]);
                assert(rest.subrange(1, rest.len() as int) =~= all.subrange(
                    i + 1,
                    all.len() as int,
                ));
            }
            let step = if quads {
                nq_reader.read_from_line(line.as_str(), line_no, database)
            } else {
                nt_reader.read_from_line(line.as_str(), line_no, database)
            };
            match step {
                Ok(_) => {},
                Err(e) => {
                    proof {
                        let outcome = if quads {
                            spec_nq_line(rest[0])
                        } else {
                            spec_nt_line(rest[0])
                        };
                        assert(rest[0] == lines@[i as int]@);
                        assert(outcome is Reject);
                        match outcome {
                            LineOutcome::Reject(k, p) => {
                                assert(e.kind == k && e.pos == p && e.line == i + 1);
                                assert(spec_ingest(
                                    rest,
                                    quads,
                                    dd,
                                    database.default_stmts(),
                                    database.named(),
                                    i + 1,
                                ) == IngestOutcome::Failed(
                                    i + 1,
                                    k,
                                    p,
                                    database.default_stmts(),
                                    database.named(),
                                ));
                            },
                            _ => {},
                        }
                    }
                    return Err(e);
                },
            }
            i += 1;
        }
        proof {
            assert(all.subrange(i as int, all.len() as int).len() == 0);
        }
        Ok(database.count())
    }
}

} // verus!
