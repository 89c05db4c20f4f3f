//! Statements and the graph stores that hold them.  Three interchangeable
//! store strategies answer the same queries: an unindexed deduplicating
//! set, a subject/object indexed store, and a fully indexed store with a
//! predicate index as well.
use crate::iri::{spec_iri_str, IriView, IRI};
use crate::node_factory::{
    bnode_eq, literal_eq, resource_iri_eq, spec_literal_str, BlankNode, IRIResource, Literal,
    LiteralView,
};
use crate::scan::str_eq;
use vstd::prelude::*;

verus! {

/// Mathematical value of a node allowed in subject or graph position.
#[verifier::ext_equal]
pub enum ResourceNodeView {
    IRINode(IriView),
    BNode(Seq<char>),
}

/// Mathematical value of a node in object position.
#[verifier::ext_equal]
pub enum NodeView {
    IRINode(IriView),
    LiteralNode(LiteralView),
    BNode(Seq<char>),
}

/// A node that may stand as subject or graph name: an identifier resource
/// or a blank node, never a literal.
pub enum ResourceNode {
    IRINode { iri: IRIResource },
    BNode { bnode: BlankNode },
}

impl View for ResourceNode {
    type V = ResourceNodeView;

    open spec fn view(&self) -> ResourceNodeView {
        match self {
            ResourceNode::IRINode { iri } => ResourceNodeView::IRINode(iri@),
            ResourceNode::BNode { bnode } => ResourceNodeView::BNode(bnode@),
        }
    }
}

impl Clone for ResourceNode {
    fn clone(&self) -> (r: Self)
        ensures
            r@ == self@,
    {
        match self {
            ResourceNode::IRINode { iri } => ResourceNode::IRINode { iri: iri.clone() },
            ResourceNode::BNode { bnode } => ResourceNode::BNode { bnode: bnode.clone() },
        }
    }
}

/// The canonical string of a subject-position node: the bare identifier
/// string, or `_:id`.
pub open spec fn spec_resource_key(v: ResourceNodeView) -> Seq<char> {
    match v {
        ResourceNodeView::IRINode(w) => spec_iri_str(w),
        ResourceNodeView::BNode(id) => seq!['_', ':'] + id,
    }
}

impl ResourceNode {
    /// The canonical string of this node; see [`spec_resource_key`].
    pub fn as_string(&self) -> (r: String)
        ensures
            r@ == spec_resource_key(self@),
    {
        match self {
            ResourceNode::IRINode { iri } => iri.as_string(false),
            ResourceNode::BNode { bnode } => bnode.as_string(true),
        }
    }

    /// Whether this node is a blank node.
    pub fn is_bnode(&self) -> (r: bool)
        ensures
            r == (self@ is BNode),
    {
        match self {
            ResourceNode::IRINode { .. } => false,
            ResourceNode::BNode { .. } => true,
        }
    }

    /// Whether this node is an identifier resource.
    pub fn is_uri(&self) -> (r: bool)
        ensures
            r == (self@ is IRINode),
    {
        match self {
            ResourceNode::IRINode { .. } => true,
            ResourceNode::BNode { .. } => false,
        }
    }

    /// This node as an identifier resource, or an error for a blank node.
    pub fn as_uri_resource(&self) -> (r: Result<&IRIResource, &str>)
        ensures
            match r {
                Ok(u) => self@ == ResourceNodeView::IRINode(u@),
                Err(_) => self@ is BNode,
            },
    {
        match self {
            ResourceNode::IRINode { iri } => Ok(iri),
            ResourceNode::BNode { .. } => Err("Blank Node cannot be converted to URI resource."),
        }
    }

    /// This node as a blank node, or an error for a resource.
    pub fn as_blank_node(&self) -> (r: Result<&BlankNode, &str>)
        ensures
            match r {
                Ok(b) => self@ == ResourceNodeView::BNode(b@),
                Err(_) => self@ is IRINode,
            },
    {
        match self {
            ResourceNode::IRINode { .. } => Err("URI Node cannot be converted to Blank Node."),
            ResourceNode::BNode { bnode } => Ok(bnode),
        }
    }
}

/// A node in object position: an identifier resource, a literal, or a
/// blank node.
pub enum Node {
    IRINode { iri: IRIResource },
    LiteralNode { literal: Literal },
    BNode { bnode: BlankNode },
}

impl View for Node {
    type V = NodeView;

    open spec fn view(&self) -> NodeView {
        match self {
            Node::IRINode { iri } => NodeView::IRINode(iri@),
            Node::LiteralNode { literal } => NodeView::LiteralNode(literal@),
            Node::BNode { bnode } => NodeView::BNode(bnode@),
        }
    }
}

impl Clone for Node {
    fn clone(&self) -> (r: Self)
        ensures
            r@ == self@,
    {
        match self {
            Node::IRINode { iri } => Node::IRINode { iri: iri.clone() },
            Node::LiteralNode { literal } => Node::LiteralNode { literal: literal.clone() },
            Node::BNode { bnode } => Node::BNode { bnode: bnode.clone() },
        }
    }
}

/// The canonical string of an object-position node: the bare identifier
/// string, the quoted literal form, or `_:id`.
pub open spec fn spec_node_key(v: NodeView) -> Seq<char> {
    match v {
        NodeView::IRINode(w) => spec_iri_str(w),
        NodeView::LiteralNode(l) => spec_literal_str(l, true),
        NodeView::BNode(id) => seq!['_', ':'] + id,
    }
}

impl Node {
    /// The canonical string of this node; see [`spec_node_key`].
    pub fn as_string(&self) -> (r: String)
        ensures
            r@ == spec_node_key(self@),
    {
        match self {
            Node::IRINode { iri } => iri.as_string(false),
            Node::LiteralNode { literal } => literal.as_string(true),
            Node::BNode { bnode } => bnode.as_string(true),
        }
    }

    /// Whether this node is a literal.
    pub fn is_literal(&self) -> (r: bool)
        ensures
            r == (self@ is LiteralNode),
    {
        match self {
            Node::LiteralNode { .. } => true,
            _ => false,
        }
    }

    /// Whether this node is a blank node.
    pub fn is_bnode(&self) -> (r: bool)
        ensures
            r == (self@ is BNode),
    {
        match self {
            Node::BNode { .. } => true,
            _ => false,
        }
    }

    /// Whether this node is an identifier resource.
    pub fn is_uri(&self) -> (r: bool)
        ensures
            r == (self@ is IRINode),
    {
        match self {
            Node::IRINode { .. } => true,
            _ => false,
        }
    }

    /// This node as an identifier resource, if it is one.
    pub fn as_uri_resource(&self) -> (r: Result<&IRIResource, &str>)
        ensures
            match r {
                Ok(u) => self@ == NodeView::IRINode(u@),
                Err(_) => !(self@ is IRINode),
            },
    {
        match self {
            Node::IRINode { iri } => Ok(iri),
            Node::LiteralNode { .. } => Err("Cannot convert Literal to URI Resource"),
            Node::BNode { .. } => Err("Cannot convert Blank node to URI Resource"),
        }
    }

    /// This node as a blank node, if it is one.
    pub fn as_blank_node(&self) -> (r: Result<&BlankNode, &str>)
        ensures
            match r {
                Ok(b) => self@ == NodeView::BNode(b@),
                Err(_) => !(self@ is BNode),
            },
    {
        match self {
            Node::BNode { bnode } => Ok(bnode),
            Node::IRINode { .. } => Err("Cannot convert URI Node to Blank Node"),
            Node::LiteralNode { .. } => Err("Cannot convert Literal to Blank Node"),
        }
    }

    /// This node as a literal, if it is one.
    pub fn as_literal(&self) -> (r: Result<&Literal, &str>)
        ensures
            match r {
                Ok(l) => self@ == NodeView::LiteralNode(l@),
                Err(_) => !(self@ is LiteralNode),
            },
    {
        match self {
            Node::LiteralNode { literal } => Ok(literal),
            Node::IRINode { .. } => Err("Cannot convert URI Node to Literal"),
            Node::BNode { .. } => Err("Cannot convert Blank node to Literal"),
        }
    }
}

/// Mathematical value of a statement.
#[verifier::ext_equal]
pub struct StatementView {
    pub subject: ResourceNodeView,
    pub predicate: IriView,
    pub object: NodeView,
}

/// An immutable subject, predicate, object triple.  The subject is a
/// resource, the predicate always an identifier, the object any node;
/// variables are not allowed anywhere.
pub struct Statement {
    subject: ResourceNode,
    predicate: IRIResource,
    object: Node,
}

impl View for Statement {
    type V = StatementView;

    closed spec fn view(&self) -> StatementView {
        StatementView { subject: self.subject@, predicate: self.predicate@, object: self.object@ }
    }
}

impl Clone for Statement {
    fn clone(&self) -> (r: Self)
        ensures
            r@ == self@,
    {
        let r = Statement {
            subject: self.subject.clone(),
            predicate: self.predicate.clone(),
            object: self.object.clone(),
        };
        proof {
            assert(r@ =~= self@);
        }
        r
    }
}

/// Whether two subject-position nodes are the same value.
pub(crate) fn resource_eq(a: &ResourceNode, b: &ResourceNode) -> (r: bool)
    ensures
        r == (a@ == b@),
{
    match (a, b) {
        (ResourceNode::IRINode { iri: x }, ResourceNode::IRINode { iri: y }) => resource_iri_eq(
            x,
            y,
        ),
        (ResourceNode::BNode { bnode: x }, ResourceNode::BNode { bnode: y }) => bnode_eq(x, y),
        _ => false,
    }
}

/// Whether two object-position nodes are the same value.
pub(crate) fn node_eq(a: &Node, b: &Node) -> (r: bool)
    ensures
        r == (a@ == b@),
{
    match (a, b) {
        (Node::IRINode { iri: x }, Node::IRINode { iri: y }) => resource_iri_eq(x, y),
        (Node::LiteralNode { literal: x }, Node::LiteralNode { literal: y }) => literal_eq(x, y),
        (Node::BNode { bnode: x }, Node::BNode { bnode: y }) => bnode_eq(x, y),
        _ => false,
    }
}

/// Whether two statements are the same value in all three positions.
pub fn stmt_eq(a: &Statement, b: &Statement) -> (r: bool)
    ensures
        r == (a@ == b@),
{
    let r = resource_eq(&a.subject, &b.subject) && resource_iri_eq(&a.predicate, &b.predicate)
        && node_eq(&a.object, &b.object);
    proof {
        if r {
            assert(a@ =~= b@);
        }
    }
    r
}

impl Statement {
    /// Assembles a statement from its three positions.
    pub fn create(subject: ResourceNode, predicate: IRIResource, object: Node) -> (r: Statement)
        ensures
            r@ == (StatementView { subject: subject@, predicate: predicate@, object: object@ }),
    {
        Statement { subject, predicate, object }
    }

    pub fn get_subject(&self) -> (r: &ResourceNode)
        ensures
            r@ == self@.subject,
    {
        &self.subject
    }

    pub fn get_predicate(&self) -> (r: &IRIResource)
        ensures
            r@ == self@.predicate,
    {
        &self.predicate
    }

    pub fn get_object(&self) -> (r: &Node)
        ensures
            r@ == self@.object,
    {
        &self.object
    }

    /// The deterministic `subject predicate object .` line of this
    /// statement, subject and object rendered by their kind.
    pub fn as_line(&self) -> (r: String)
        ensures
            r@ == spec_stmt_line(self@),
    {
        let mut ret = match &self.subject {
            ResourceNode::IRINode { iri } => iri.as_string(true),
            ResourceNode::BNode { bnode } => bnode.as_string(true),
        };
        crate::scan::push_char(&mut ret, ' ');
        crate::scan::push_char(&mut ret, '<');
        let p = self.predicate.as_string(false);
        ret.append(p.as_str());
        crate::scan::push_char(&mut ret, '>');
        crate::scan::push_char(&mut ret, ' ');
        let o = match &self.object {
            Node::IRINode { iri } => iri.as_string(true),
            Node::LiteralNode { literal } => literal.as_string(true),
            Node::BNode { bnode } => bnode.as_string(true),
        };
        ret.append(o.as_str());
        crate::scan::push_char(&mut ret, ' ');
        crate::scan::push_char(&mut ret, '.');
        proof {
            assert(ret@ =~= spec_stmt_line(self@));
        }
        ret
    }
}

/// The serialized line of a statement: quoted subject, predicate in angle
/// brackets, object by its kind, and a closing dot.
pub open spec fn spec_stmt_line(t: StatementView) -> Seq<char> {
    (match t.subject {
        ResourceNodeView::IRINode(w) => seq!['<'] + spec_iri_str(w) + seq!['>'],
        ResourceNodeView::BNode(id) => seq!['_', ':'] + id,
    }) + seq![' ', '<'] + spec_iri_str(t.predicate) + seq!['>', ' '] + (match t.object {
        NodeView::IRINode(w) => seq!['<'] + spec_iri_str(w) + seq!['>'],
        NodeView::LiteralNode(l) => spec_literal_str(l, true),
        NodeView::BNode(id) => seq!['_', ':'] + id,
    }) + seq![' ', '.']
}

/// The three store strategies.
pub enum GraphType {
    SimpleGraph,
    IndexedGraph,
    FullIndexedGraph,
}

} // verus!

verus! {

/// The views of a vector of statements.
pub open spec fn stmt_views(s: Seq<Statement>) -> Seq<StatementView> {
    s.map_values(|t: Statement| t@)
}

/// The canonical key of a statement's subject.
pub open spec fn spec_subj_key(t: StatementView) -> Seq<char> {
    spec_resource_key(t.subject)
}

/// The canonical key of a statement's predicate.
pub open spec fn spec_pred_key(t: StatementView) -> Seq<char> {
    spec_iri_str(t.predicate)
}

/// The canonical key of a statement's object.
pub open spec fn spec_obj_key(t: StatementView) -> Seq<char> {
    spec_node_key(t.object)
}

/// Whether a statement matches a triple pattern of optional canonical
/// keys; an absent key matches everything.
pub open spec fn stmt_matches(
    t: StatementView,
    sk: Option<Seq<char>>,
    pk: Option<Seq<char>>,
    ok: Option<Seq<char>>,
) -> bool {
    &&& match sk {
        Some(k) => spec_subj_key(t) == k,
        None => true,
    }
    &&& match pk {
        Some(k) => spec_pred_key(t) == k,
        None => true,
    }
    &&& match ok {
        Some(k) => spec_obj_key(t) == k,
        None => true,
    }
}

/// The statements matching a triple pattern, in their stored order.
pub open spec fn filter_stmts(
    s: Seq<StatementView>,
    sk: Option<Seq<char>>,
    pk: Option<Seq<char>>,
    ok: Option<Seq<char>>,
) -> Seq<StatementView>
    decreases s.len(),
{
    if s.len() == 0 {
        Seq::<StatementView>::empty()
    } else {
        let rest = filter_stmts(s.drop_last(), sk, pk, ok);
        if stmt_matches(s.last(), sk, pk, ok) {
            rest.push(s.last())
        } else {
            rest
        }
    }
}

/// The three columns a single-term query may bind.
pub enum KeyKind {
    Subj,
    Pred,
    Obj,
}

/// The canonical key of a statement in the given column.
pub open spec fn sel_key(kind: KeyKind, t: StatementView) -> Seq<char> {
    match kind {
        KeyKind::Subj => spec_subj_key(t),
        KeyKind::Pred => spec_pred_key(t),
        KeyKind::Obj => spec_obj_key(t),
    }
}

/// The statements whose key in the given column is `key`.
pub open spec fn filter_kind(s: Seq<StatementView>, kind: KeyKind, key: Seq<char>) -> Seq<
    StatementView,
> {
    match kind {
        KeyKind::Subj => filter_stmts(s, Some(key), None, None),
        KeyKind::Pred => filter_stmts(s, None, Some(key), None),
        KeyKind::Obj => filter_stmts(s, None, None, Some(key)),
    }
}

/// Filtering one more statement extends the result exactly when the new
/// statement matches.
pub proof fn lemma_filter_stmts_push(
    s: Seq<StatementView>,
    t: StatementView,
    sk: Option<Seq<char>>,
    pk: Option<Seq<char>>,
    ok: Option<Seq<char>>,
)
    ensures
        filter_stmts(s.push(t), sk, pk, ok) == if stmt_matches(t, sk, pk, ok) {
            filter_stmts(s, sk, pk, ok).push(t)
        } else {
            filter_stmts(s, sk, pk, ok)
        },
{
    assert(s.push(t).drop_last() =~= s);
    assert(s.push(t).last() == t);
}

/// When no statement matches, the filter is empty.
pub proof fn lemma_filter_stmts_all_miss(
    s: Seq<StatementView>,
    sk: Option<Seq<char>>,
    pk: Option<Seq<char>>,
    ok: Option<Seq<char>>,
)
    requires
        forall|i: int| 0 <= i < s.len() ==> !stmt_matches(#[trigger] s[i], sk, pk, ok),
    ensures
        filter_stmts(s, sk, pk, ok) == Seq::<StatementView>::empty(),
    decreases s.len(),
{
    if s.len() > 0 {
        assert(forall|i: int|
            0 <= i < s.drop_last().len() ==> #[trigger] s.drop_last()[i] == s[i]);
        lemma_filter_stmts_all_miss(s.drop_last(), sk, pk, ok);
        assert(s.last() == s[s.len() - 1]);
    }
}

/// Scans a vector of statements for those matching the optional canonical
/// key strings.
fn scan_statements(
    statements: &Vec<Statement>,
    sk: Option<&String>,
    pk: Option<&String>,
    ok: Option<&String>,
) -> (r: Vec<Statement>)
    ensures
        stmt_views(r@) == filter_stmts(
            stmt_views(statements@),
            match sk {
                Some(k) => Some(k@),
                None => None,
            },
            match pk {
                Some(k) => Some(k@),
                None => None,
            },
            match ok {
                Some(k) => Some(k@),
                None => None,
            },
        ),
{
    let ghost svs = stmt_views(statements@);
    let ghost skv: Option<Seq<char>> = match sk {
        Some(k) => Some(k@),
        None => None,
    };
    let ghost pkv: Option<Seq<char>> = match pk {
        Some(k) => Some(k@),
        None => None,
    };
    let ghost okv: Option<Seq<char>> = match ok {
        Some(k) => Some(k@),
        None => None,
    };
    let mut r: Vec<Statement> = Vec::new();
    let mut i: usize = 0;
    proof {
        assert(stmt_views(r@) =~= filter_stmts(svs.subrange(0, 0), skv, pkv, okv));
    }
    while i < statements.len()
        invariant
            0 <= i <= statements@.len(),
            svs == stmt_views(statements@),
            svs.len() == statements@.len(),
            skv == (match sk {
                Some(k) => Some(k@),
                None => None::<Seq<char>>,
            }),
            pkv == (match pk {
                Some(k) => Some(k@),
                None => None::<Seq<char>>,
            }),
            okv == (match ok {
                Some(k) => Some(k@),
                None => None::<Seq<char>>,
            }),
            stmt_views(r@) == filter_stmts(svs.subrange(0, i as int), skv, pkv, okv),
        decreases statements@.len() - i,
    {
        let t = &statements[i];
        let m_s = match sk {
            Some(k) => {
                let s = t.get_subject().as_string();
                str_eq(s.as_str(), k.as_str())
            },
            None => true,
        };
        let m_p = match pk {
            Some(k) => {
                let s = t.get_predicate().as_string(false);
                str_eq(s.as_str(), k.as_str())
            },
            None => true,
        };
        let m_o = match ok {
            Some(k) => {
                let s = t.get_object().as_string();
                str_eq(s.as_str(), k.as_str())
            },
            None => true,
        };
        proof {
            assert(svs[i as int] == statements@[i as int]@);
            assert(svs.subrange(0, i + 1).drop_last() =~= svs.subrange(0, i as int));
            assert(svs.subrange(0, i + 1).last() == svs[i as int]);
        }
        if m_s && m_p && m_o {
            r.push(t.clone());
            proof {
                assert(stmt_views(r@) =~= stmt_views(r@.drop_last()).push(r@.last()@));
            }
        }
        i += 1;
    }
    proof {
        assert(svs.subrange(0, svs.len() as int) =~= svs);
    }
    r
}

/// The unindexed store: a deduplicating set of statements, every query a
/// full scan.
pub struct SimpleGraph {
    statements: Vec<Statement>,
}

impl SimpleGraph {
    /// The statements held, in first-insertion order.
    pub closed spec fn stmts(&self) -> Seq<StatementView> {
        stmt_views(self.statements@)
    }

    /// No statement value is held twice.
    pub closed spec fn inv(&self) -> bool {
        forall|i: int, j: int|
            0 <= i < j < self.stmts().len() ==> self.stmts()[i] != self.stmts()[j]
    }

    /// An empty store.
    pub fn new() -> (r: SimpleGraph)
        ensures
            r.stmts() == Seq::<StatementView>::empty(),
            r.inv(),
    {
        let r = SimpleGraph { statements: Vec::new() };
        proof {
            assert(r.stmts() =~= Seq::<StatementView>::empty());
        }
        r
    }

    /// How many distinct statements are held.
    pub fn count(&self) -> (r: usize)
        ensures
            r == self.stmts().len(),
    {
        self.statements.len()
    }

    /// All statements, in first-insertion order.
    pub fn list_all_statements(&self) -> (r: &Vec<Statement>)
        ensures
            stmt_views(r@) == self.stmts(),
    {
        &self.statements
    }

    /// Adds a statement; one already held leaves the store unchanged.
    pub fn add_statement(&mut self, stmt: Statement)
        requires
            old(self).inv(),
        ensures
            final (self).inv(),
            final (self).stmts() == if old(self).stmts().contains(stmt@) {
                old(self).stmts()
            } else {
                old(self).stmts().push(stmt@)
            },
    {
        let n = self.statements.len();
        let mut i: usize = 0;
        while i < n
            invariant
                0 <= i <= n,
                n == self.statements@.len(),
                old(self).inv(),
                self.stmts() == old(self).stmts(),
                forall|j: int| 0 <= j < i ==> self.stmts()[j] != stmt@,
            decreases n - i,
        {
            if stmt_eq(&self.statements[i], &stmt) {
                proof {
                    assert(self.stmts().contains(stmt@)) by {
                        assert(self.stmts()[i as int] == stmt@);
                    }
                }
                return ;
            }
            i += 1;
        }
        proof {
            if self.stmts().contains(stmt@) {
                let w = choose|w: int|
                    0 <= w < self.stmts().len() && self.stmts()[w] == stmt@;
                assert(false);
            }
        }
        self.statements.push(stmt);
        proof {
            assert(self.stmts() =~= old(self).stmts().push(self.statements@.last()@));
            assert(forall|j: int|
                0 <= j < old(self).stmts().len() ==> self.stmts()[j] == old(self).stmts()[j]);
        }
    }

    /// The statements with the given subject, by a full scan.
    pub fn list_statements_for_subject(&self, subject: ResourceNode) -> (r: Vec<Statement>)
        ensures
            stmt_views(r@) == filter_kind(self.stmts(), KeyKind::Subj, spec_resource_key(subject@)),
    {
        let key = subject.as_string();
        scan_statements(&self.statements, Some(&key), None, None)
    }

    /// The statements with the given object, by a full scan.
    pub fn list_statements_for_object(&self, object: ResourceNode) -> (r: Vec<Statement>)
        ensures
            stmt_views(r@) == filter_kind(self.stmts(), KeyKind::Obj, spec_resource_key(object@)),
    {
        let key = object.as_string();
        scan_statements(&self.statements, None, None, Some(&key))
    }

    /// The statements with the given predicate, by a full scan.
    pub fn list_statements_for_predicate(&self, predicate: ResourceNode) -> (r: Vec<Statement>)
        ensures
            stmt_views(r@) == filter_kind(self.stmts(), KeyKind::Pred, spec_resource_key(predicate@)),
    {
        let key = predicate.as_string();
        scan_statements(&self.statements, None, Some(&key), None)
    }

    /// The statements matching a triple pattern of optional terms.
    pub fn list_statements(
        &self,
        subject: Option<ResourceNode>,
        predicate: Option<IRIResource>,
        object: Option<Node>,
    ) -> (r: Vec<Statement>)
        ensures
            stmt_views(r@) == filter_stmts(
                self.stmts(),
                match subject {
                    Some(s) => Some(spec_resource_key(s@)),
                    None => None,
                },
                match predicate {
                    Some(p) => Some(spec_iri_str(p@)),
                    None => None,
                },
                match object {
                    Some(o) => Some(spec_node_key(o@)),
                    None => None,
                },
            ),
    {
        let sk = match &subject {
            Some(s) => Some(s.as_string()),
            None => None,
        };
        let pk = match &predicate {
            Some(p) => Some(p.as_string(false)),
            None => None,
        };
        let ok = match &object {
            Some(o) => Some(o.as_string()),
            None => None,
        };
        scan_statements(&self.statements, sk.as_ref(), pk.as_ref(), ok.as_ref())
    }
}

} // verus!

verus! {

/// One bucket of an index: a canonical key string and the positions, in
/// insertion order, of the statements carrying that key.
struct IndexEntry {
    key: String,
    positions: Vec<usize>,
}

/// The statements standing at the given positions.
pub open spec fn positions_views(stmts: Seq<StatementView>, pos: Seq<usize>) -> Seq<
    StatementView,
> {
    pos.map_values(|p: usize| stmts[p as int])
}

/// A map from a canonical key string to the positions of the statements
/// carrying that key in one fixed column.
pub struct StatementIndex {
    entries: Vec<IndexEntry>,
}

/// One bucket is consistent with the statements: every position is in
/// range and the bucket lists exactly the statements with its key, in
/// order.
spec fn entry_ok(e: IndexEntry, stmts: Seq<StatementView>, kind: KeyKind) -> bool {
    &&& forall|j: int| 0 <= j < e.positions@.len() ==> (#[trigger] e.positions@[j]) < stmts.len()
    &&& positions_views(stmts, e.positions@) == filter_kind(stmts, kind, e.key@)
}

/// Some bucket carries this key.
spec fn has_key(idx: StatementIndex, key: Seq<char>) -> bool {
    exists|i: int| 0 <= i < idx.entries@.len() && (#[trigger] idx.entries@[i]).key@ == key
}

/// The whole index is consistent with the statements for its column:
/// bucket keys are unique, every bucket is consistent, and every
/// statement's key has a bucket.
spec fn index_ok(idx: StatementIndex, stmts: Seq<StatementView>, kind: KeyKind) -> bool {
    &&& forall|i: int, j: int|
        0 <= i < j < idx.entries@.len() ==> (#[trigger] idx.entries@[i]).key@ != (
        #[trigger] idx.entries@[j]).key@
    &&& forall|i: int| 0 <= i < idx.entries@.len() ==> entry_ok(#[trigger] idx.entries@[i], stmts, kind)
    &&& forall|i: int| 0 <= i < stmts.len() ==> has_key(idx, sel_key(kind, #[trigger] stmts[i]))
}

impl StatementIndex {
    /// An empty index, consistent with an empty store in any column.
    fn new() -> (r: StatementIndex)
        ensures
            forall|kind: KeyKind| index_ok(r, Seq::<StatementView>::empty(), kind),
    {
        StatementIndex { entries: Vec::new() }
    }

    /// The bucket for a key: exactly the matching statements' positions,
    /// or the knowledge that nothing matches.
    fn lookup(
        &self,
        key: &str,
        Ghost(stmts): Ghost<Seq<StatementView>>,
        Ghost(kind): Ghost<KeyKind>,
    ) -> (r: Option<&Vec<usize>>)
        requires
            index_ok(*self, stmts, kind),
        ensures
            match r {
                Some(pos) => positions_views(stmts, pos@) == filter_kind(stmts, kind, key@)
                    && forall|j: int|
                    0 <= j < pos@.len() ==> (#[trigger] pos@[j]) < stmts.len(),
                None => filter_kind(stmts, kind, key@) == Seq::<StatementView>::empty(),
            },
    {
        let mut i: usize = 0;
        while i < self.entries.len()
            invariant
                0 <= i <= self.entries@.len(),
                index_ok(*self, stmts, kind),
                forall|j: int| 0 <= j < i ==> (#[trigger] self.entries@[j]).key@ != key@,
            decreases self.entries@.len() - i,
        {
            if str_eq(self.entries[i].key.as_str(), key) {
                return Some(&self.entries[i].positions);
            }
            i += 1;
        }
        proof {
            assert forall|k: int| 0 <= k < stmts.len() implies !stmt_matches_kind(
                stmts[k],
                kind,
                key@,
            ) by {
                if sel_key(kind, stmts[k]) == key@ {
                    assert(has_key(*self, sel_key(kind, stmts[k])));
                    let w = choose|w: int|
                        0 <= w < self.entries@.len() && (#[trigger] self.entries@[w]).key@
                            == key@;
                    assert(false);
                }
            }
            lemma_filter_kind_all_miss(stmts, kind, key@);
        }
        None
    }

    /// Records that the statement `t`, about to stand at position `pos`,
    /// carries `key` in this index's column.
    fn add(
        &mut self,
        key: String,
        pos: usize,
        Ghost(stmts): Ghost<Seq<StatementView>>,
        Ghost(kind): Ghost<KeyKind>,
        Ghost(t): Ghost<StatementView>,
    )
        requires
            index_ok(*old(self), stmts, kind),
            pos == stmts.len(),
            key@ == sel_key(kind, t),
        ensures
            index_ok(*final (self), stmts.push(t), kind),
    {
        let ghost stmts2 = stmts.push(t);
        proof {
            assert(forall|p: int| 0 <= p < stmts.len() ==> stmts2[p] == stmts[p]);
            assert(stmts2[pos as int] == t);
        }
        let n = self.entries.len();
        let mut i: usize = 0;
        while i < n
            invariant
                0 <= i <= n,
                n == self.entries@.len(),
                *self == *old(self),
                index_ok(*old(self), stmts, kind),
                key@ == sel_key(kind, t),
                pos == stmts.len(),
                stmts2 == stmts.push(t),
                forall|j: int| 0 <= j < i ==> (#[trigger] self.entries@[j]).key@ != key@,
            decreases n - i,
        {
            if str_eq(self.entries[i].key.as_str(), key.as_str()) {
                let mut e = self.entries.remove(i);
                e.positions.push(pos);
                self.entries.push(e);
                proof {
                    lemma_index_add_existing(*old(self), *self, stmts, kind, t, i as int, pos);
                }
                return ;
            }
            i += 1;
        }
        let mut positions: Vec<usize> = Vec::new();
        positions.push(pos);
        self.entries.push(IndexEntry { key, positions });
        proof {
            lemma_index_add_fresh(*old(self), *self, stmts, kind, t, pos);
        }
    }
}

/// A statement matches the single-column pattern of `filter_kind`.
pub open spec fn stmt_matches_kind(t: StatementView, kind: KeyKind, key: Seq<char>) -> bool {
    sel_key(kind, t) == key
}

/// `filter_kind` is `filter_stmts` with a one-column pattern, so the push
/// and all-miss facts carry over.
pub proof fn lemma_filter_kind_push(s: Seq<StatementView>, t: StatementView, kind: KeyKind, key: Seq<char>)
    ensures
        filter_kind(s.push(t), kind, key) == if stmt_matches_kind(t, kind, key) {
            filter_kind(s, kind, key).push(t)
        } else {
            filter_kind(s, kind, key)
        },
{
    match kind {
        KeyKind::Subj => lemma_filter_stmts_push(s, t, Some(key), None, None),
        KeyKind::Pred => lemma_filter_stmts_push(s, t, None, Some(key), None),
        KeyKind::Obj => lemma_filter_stmts_push(s, t, None, None, Some(key)),
    }
}

pub proof fn lemma_filter_kind_all_miss(s: Seq<StatementView>, kind: KeyKind, key: Seq<char>)
    requires
        forall|i: int| 0 <= i < s.len() ==> !stmt_matches_kind(#[trigger] s[i], kind, key),
    ensures
        filter_kind(s, kind, key) == Seq::<StatementView>::empty(),
{
    match kind {
        KeyKind::Subj => lemma_filter_stmts_all_miss(s, Some(key), None, None),
        KeyKind::Pred => lemma_filter_stmts_all_miss(s, None, Some(key), None),
        KeyKind::Obj => lemma_filter_stmts_all_miss(s, None, None, Some(key)),
    }
}

/// After appending to an existing bucket (moved to the back), the index
/// is consistent with the extended statements.
proof fn lemma_index_add_existing(
    pre: StatementIndex,
    post: StatementIndex,
    stmts: Seq<StatementView>,
    kind: KeyKind,
    t: StatementView,
    at: int,
    pos: usize,
)
    requires
        index_ok(pre, stmts, kind),
        0 <= at < pre.entries@.len(),
        pre.entries@[at].key@ == sel_key(kind, t),
        pos == stmts.len(),
        post.entries@.len() == pre.entries@.len(),
        forall|j: int|
            0 <= j < post.entries@.len() - 1 ==> post.entries@[j] == pre.entries@.remove(at)[j],
        post.entries@.last().key@ == pre.entries@[at].key@,
        post.entries@.last().positions@ == pre.entries@[at].positions@.push(pos),
    ensures
        index_ok(post, stmts.push(t), kind),
{
    let stmts2 = stmts.push(t);
    let key = pre.entries@[at].key@;
    let removed = pre.entries@.remove(at);
    let ne = post.entries@.last();
    assert(forall|p: int| 0 <= p < stmts.len() ==> stmts2[p] == stmts[p]);
    // every old bucket except the moved one is unchanged and still consistent
    assert forall|i: int| 0 <= i < post.entries@.len() implies entry_ok(
        #[trigger] post.entries@[i],
        stmts2,
        kind,
    ) by {
        if i < post.entries@.len() - 1 {
            let e = post.entries@[i];
            assert(e == removed[i]);
            assert(exists|j: int| 0 <= j < pre.entries@.len() && pre.entries@[j] == e && j != at)
                by {
                if i < at {
                    assert(pre.entries@[i] == e);
                } else {
                    assert(pre.entries@[i + 1] == e);
                }
            }
            let j = choose|j: int|
                0 <= j < pre.entries@.len() && pre.entries@[j] == e && j != at;
            assert(entry_ok(e, stmts, kind));
            assert(e.key@ != key);
            assert(positions_views(stmts2, e.positions@) =~= positions_views(
                stmts,
                e.positions@,
            ));
            lemma_filter_kind_push(stmts, t, kind, e.key@);
        } else {
            // the moved bucket, with the new position at its end
            let olde = pre.entries@[at];
            assert(ne.key@ == key);
            assert(entry_ok(olde, stmts, kind));
            lemma_filter_kind_push(stmts, t, kind, key);
            assert(positions_views(stmts2, ne.positions@) =~= positions_views(
                stmts,
                olde.positions@,
            ).push(t));
        }
    }
    // keys stay unique
    assert forall|i: int, j: int|
        0 <= i < j < post.entries@.len() implies (#[trigger] post.entries@[i]).key@ != (
    #[trigger] post.entries@[j]).key@ by {
        if j < post.entries@.len() - 1 {
            if i < at {
                if j < at {
                } else {
                    assert(post.entries@[j] == pre.entries@[j + 1]);
                }
            } else {
                assert(post.entries@[i] == pre.entries@[i + 1]);
                assert(post.entries@[j] == pre.entries@[j + 1]);
            }
        } else {
            if i < at {
                assert(post.entries@[i] == pre.entries@[i]);
            } else {
                assert(post.entries@[i] == pre.entries@[i + 1]);
            }
        }
    }
    // every statement's key still has a bucket
    assert forall|i: int| 0 <= i < stmts2.len() implies has_key(
        post,
        sel_key(kind, #[trigger] stmts2[i]),
    ) by {
        if i < stmts.len() {
            let k2 = sel_key(kind, stmts[i]);
            assert(has_key(pre, k2));
            let w = choose|w: int|
                0 <= w < pre.entries@.len() && (#[trigger] pre.entries@[w]).key@ == k2;
            if w == at {
                assert(post.entries@[post.entries@.len() - 1].key@ == k2);
            } else if w < at {
                assert(post.entries@[w].key@ == k2);
            } else {
                assert(post.entries@[w - 1] == pre.entries@[w]);
            }
        } else {
            assert(stmts2[i] == t);
            assert(post.entries@[post.entries@.len() - 1].key@ == sel_key(kind, t));
        }
    }
}

/// After opening a fresh bucket for an unseen key, the index is
/// consistent with the extended statements.
proof fn lemma_index_add_fresh(
    pre: StatementIndex,
    post: StatementIndex,
    stmts: Seq<StatementView>,
    kind: KeyKind,
    t: StatementView,
    pos: usize,
)
    requires
        index_ok(pre, stmts, kind),
        pos == stmts.len(),
        forall|j: int| 0 <= j < pre.entries@.len() ==> (#[trigger] pre.entries@[j]).key@ != sel_key(
            kind,
            t,
        ),
        post.entries@.len() == pre.entries@.len() + 1,
        forall|j: int| 0 <= j < pre.entries@.len() ==> post.entries@[j] == pre.entries@[j],
        post.entries@.last().key@ == sel_key(kind, t),
        post.entries@.last().positions@ == seq![pos],
    ensures
        index_ok(post, stmts.push(t), kind),
{
    let stmts2 = stmts.push(t);
    let key = sel_key(kind, t);
    assert(forall|p: int| 0 <= p < stmts.len() ==> stmts2[p] == stmts[p]);
    // nothing in the old statements carries the fresh key
    assert forall|k: int| 0 <= k < stmts.len() implies !stmt_matches_kind(
        stmts[k],
        kind,
        key,
    ) by {
        if sel_key(kind, stmts[k]) == key {
            assert(has_key(pre, sel_key(kind, stmts[k])));
            let w = choose|w: int|
                0 <= w < pre.entries@.len() && (#[trigger] pre.entries@[w]).key@ == key;
            assert(false);
        }
    }
    lemma_filter_kind_all_miss(stmts, kind, key);
    assert forall|i: int| 0 <= i < post.entries@.len() implies entry_ok(
        #[trigger] post.entries@[i],
        stmts2,
        kind,
    ) by {
        if i < post.entries@.len() - 1 {
            let e = post.entries@[i];
            assert(e == pre.entries@[i]);
            assert(entry_ok(e, stmts, kind));
            assert(e.key@ != key);
            assert(positions_views(stmts2, e.positions@) =~= positions_views(
                stmts,
                e.positions@,
            ));
            lemma_filter_kind_push(stmts, t, kind, e.key@);
        } else {
            let ne = post.entries@[i];
            lemma_filter_kind_push(stmts, t, kind, key);
            assert(positions_views(stmts2, ne.positions@) =~= seq![t]);
            assert(filter_kind(stmts2, kind, key) =~= seq![t]);
        }
    }
    assert forall|i: int| 0 <= i < stmts2.len() implies has_key(
        post,
        sel_key(kind, #[trigger] stmts2[i]),
    ) by {
        if i < stmts.len() {
            let k2 = sel_key(kind, stmts[i]);
            assert(has_key(pre, k2));
            let w = choose|w: int|
                0 <= w < pre.entries@.len() && (#[trigger] pre.entries@[w]).key@ == k2;
            assert(post.entries@[w].key@ == k2);
        } else {
            assert(post.entries@[post.entries@.len() - 1].key@ == sel_key(kind, t));
        }
    }
}

} // verus!

verus! {

/// Clones the statements standing at the given positions, in order.
fn gather(statements: &Vec<Statement>, positions: &Vec<usize>) -> (r: Vec<Statement>)
    requires
        forall|j: int| 0 <= j < positions@.len() ==> (#[trigger] positions@[j]) < statements@.len(),
    ensures
        stmt_views(r@) == positions_views(stmt_views(statements@), positions@),
{
    let ghost svs = stmt_views(statements@);
    let mut r: Vec<Statement> = Vec::new();
    let mut j: usize = 0;
    proof {
        assert(stmt_views(r@) =~= positions_views(svs, positions@.subrange(0, 0)));
    }
    while j < positions.len()
        invariant
            0 <= j <= positions@.len(),
            svs == stmt_views(statements@),
            svs.len() == statements@.len(),
            forall|k: int| 0 <= k < positions@.len() ==> (#[trigger] positions@[k])
                < statements@.len(),
            stmt_views(r@) == positions_views(svs, positions@.subrange(0, j as int)),
        decreases positions@.len() - j,
    {
        let p = positions[j];
        let c = statements[p].clone();
        let ghost prev = stmt_views(r@);
        r.push(c);
        proof {
            assert(stmt_views(r@) =~= prev.push(r@.last()@));
            assert(positions_views(svs, positions@.subrange(0, j + 1)) =~= prev.push(
                svs[positions@[j as int] as int],
            ));
        }
        j += 1;
    }
    proof {
        assert(positions@.subrange(0, positions@.len() as int) =~= positions@);
    }
    r
}

/// The subject- and object-indexed store: statements in insertion order,
/// plus a bucket map for the subject column and one for the object
/// column.  A predicate-bound query still scans.
pub struct IndexedGraph {
    statements: Vec<Statement>,
    spo: StatementIndex,
    ops: StatementIndex,
}

impl IndexedGraph {
    /// The statements held, in insertion order.
    pub closed spec fn stmts(&self) -> Seq<StatementView> {
        stmt_views(self.statements@)
    }

    /// Both indexes list exactly the statements of their key.
    pub closed spec fn inv(&self) -> bool {
        index_ok(self.spo, self.stmts(), KeyKind::Subj) && index_ok(
            self.ops,
            self.stmts(),
            KeyKind::Obj,
        )
    }

    /// An empty store.
    pub fn new() -> (r: IndexedGraph)
        ensures
            r.stmts() == Seq::<StatementView>::empty(),
            r.inv(),
    {
        let r = IndexedGraph {
            statements: Vec::new(),
            spo: StatementIndex::new(),
            ops: StatementIndex::new(),
        };
        proof {
            assert(r.stmts() =~= Seq::<StatementView>::empty());
        }
        r
    }

    /// How many statements are held; a statement inserted twice counts
    /// twice.
    pub fn count(&self) -> (r: usize)
        ensures
            r == self.stmts().len(),
    {
        self.statements.len()
    }

    /// All statements, in insertion order.
    pub fn list_all_statements(&self) -> (r: &Vec<Statement>)
        ensures
            stmt_views(r@) == self.stmts(),
    {
        &self.statements
    }

    /// Appends a statement and indexes it under its subject and object
    /// keys.
    pub fn add_statement(&mut self, stmt: Statement)
        requires
            old(self).inv(),
        ensures
            final (self).inv(),
            final (self).stmts() == old(self).stmts().push(stmt@),
    {
        let pos = self.statements.len();
        let subj_str = stmt.get_subject().as_string();
        let obj_str = stmt.get_object().as_string();
        let ghost svs = self.stmts();
        self.spo.add(subj_str, pos, Ghost(svs), Ghost(KeyKind::Subj), Ghost(stmt@));
        self.ops.add(obj_str, pos, Ghost(svs), Ghost(KeyKind::Obj), Ghost(stmt@));
        self.statements.push(stmt);
        proof {
            assert(self.stmts() =~= svs.push(self.statements@.last()@));
        }
    }

    /// The statements with the given subject, straight from the subject
    /// index.
    pub fn list_statements_for_subject(&self, subject: ResourceNode) -> (r: Vec<Statement>)
        requires
            self.inv(),
        ensures
            stmt_views(r@) == filter_kind(self.stmts(), KeyKind::Subj, spec_resource_key(subject@)),
    {
        let key = subject.as_string();
        match self.spo.lookup(key.as_str(), Ghost(self.stmts()), Ghost(KeyKind::Subj)) {
            Some(positions) => gather(&self.statements, positions),
            None => Vec::new(),
        }
    }

    /// The statements with the given object, straight from the object
    /// index.
    pub fn list_statements_for_object(&self, object: ResourceNode) -> (r: Vec<Statement>)
        requires
            self.inv(),
        ensures
            stmt_views(r@) == filter_kind(self.stmts(), KeyKind::Obj, spec_resource_key(object@)),
    {
        let key = object.as_string();
        match self.ops.lookup(key.as_str(), Ghost(self.stmts()), Ghost(KeyKind::Obj)) {
            Some(positions) => gather(&self.statements, positions),
            None => Vec::new(),
        }
    }

    /// The statements with the given predicate: this store keeps no
    /// predicate index, so this is a full scan.
    pub fn list_statements_for_predicate(&self, predicate: ResourceNode) -> (r: Vec<Statement>)
        ensures
            stmt_views(r@) == filter_kind(self.stmts(), KeyKind::Pred, spec_resource_key(predicate@)),
    {
        let key = predicate.as_string();
        scan_statements(&self.statements, None, Some(&key), None)
    }

    /// The statements matching a triple pattern, by a full scan.
    pub fn list_statements(
        &self,
        subject: Option<ResourceNode>,
        predicate: Option<IRIResource>,
        object: Option<Node>,
    ) -> (r: Vec<Statement>)
        ensures
            stmt_views(r@) == filter_stmts(
                self.stmts(),
                match subject {
                    Some(s) => Some(spec_resource_key(s@)),
                    None => None,
                },
                match predicate {
                    Some(p) => Some(spec_iri_str(p@)),
                    None => None,
                },
                match object {
                    Some(o) => Some(spec_node_key(o@)),
                    None => None,
                },
            ),
    {
        let sk = match &subject {
            Some(s) => Some(s.as_string()),
            None => None,
        };
        let pk = match &predicate {
            Some(p) => Some(p.as_string(false)),
            None => None,
        };
        let ok = match &object {
            Some(o) => Some(o.as_string()),
            None => None,
        };
        scan_statements(&self.statements, sk.as_ref(), pk.as_ref(), ok.as_ref())
    }
}

/// The fully indexed store: bucket maps for all three columns, so any
/// single-term query reads its index; memory grows accordingly.
pub struct FullIndexedGraph {
    statements: Vec<Statement>,
    spo: StatementIndex,
    ops: StatementIndex,
    pso: StatementIndex,
}

impl FullIndexedGraph {
    /// The statements held, in insertion order.
    pub closed spec fn stmts(&self) -> Seq<StatementView> {
        stmt_views(self.statements@)
    }

    /// All three indexes list exactly the statements of their key.
    pub closed spec fn inv(&self) -> bool {
        index_ok(self.spo, self.stmts(), KeyKind::Subj) && index_ok(
            self.ops,
            self.stmts(),
            KeyKind::Obj,
        ) && index_ok(self.pso, self.stmts(), KeyKind::Pred)
    }

    /// An empty store.
    pub fn new() -> (r: FullIndexedGraph)
        ensures
            r.stmts() == Seq::<StatementView>::empty(),
            r.inv(),
    {
        let r = FullIndexedGraph {
            statements: Vec::new(),
            spo: StatementIndex::new(),
            ops: StatementIndex::new(),
            pso: StatementIndex::new(),
        };
        proof {
            assert(r.stmts() =~= Seq::<StatementView>::empty());
        }
        r
    }

    /// How many statements are held; a statement inserted twice counts
    /// twice.
    pub fn count(&self) -> (r: usize)
        ensures
            r == self.stmts().len(),
    {
        self.statements.len()
    }

    /// All statements, in insertion order.
    pub fn list_all_statements(&self) -> (r: &Vec<Statement>)
        ensures
            stmt_views(r@) == self.stmts(),
    {
        &self.statements
    }

    /// Appends a statement and indexes it under its subject, object and
    /// predicate keys.
    pub fn add_statement(&mut self, stmt: Statement)
        requires
            old(self).inv(),
        ensures
            final (self).inv(),
            final (self).stmts() == old(self).stmts().push(stmt@),
    {
        let pos = self.statements.len();
        let subj_str = stmt.get_subject().as_string();
        let obj_str = stmt.get_object().as_string();
        let pred_str = stmt.get_predicate().as_string(false);
        let ghost svs = self.stmts();
        self.spo.add(subj_str, pos, Ghost(svs), Ghost(KeyKind::Subj), Ghost(stmt@));
        self.ops.add(obj_str, pos, Ghost(svs), Ghost(KeyKind::Obj), Ghost(stmt@));
        self.pso.add(pred_str, pos, Ghost(svs), Ghost(KeyKind::Pred), Ghost(stmt@));
        self.statements.push(stmt);
        proof {
            assert(self.stmts() =~= svs.push(self.statements@.last()@));
        }
    }

    /// The statements with the given subject, from the subject index.
    pub fn list_statements_for_subject(&self, subject: ResourceNode) -> (r: Vec<Statement>)
        requires
            self.inv(),
        ensures
            stmt_views(r@) == filter_kind(self.stmts(), KeyKind::Subj, spec_resource_key(subject@)),
    {
        let key = subject.as_string();
        match self.spo.lookup(key.as_str(), Ghost(self.stmts()), Ghost(KeyKind::Subj)) {
            Some(positions) => gather(&self.statements, positions),
            None => Vec::new(),
        }
    }

    /// The statements with the given object, from the object index.
    pub fn list_statements_for_object(&self, object: ResourceNode) -> (r: Vec<Statement>)
        requires
            self.inv(),
        ensures
            stmt_views(r@) == filter_kind(self.stmts(), KeyKind::Obj, spec_resource_key(object@)),
    {
        let key = object.as_string();
        match self.ops.lookup(key.as_str(), Ghost(self.stmts()), Ghost(KeyKind::Obj)) {
            Some(positions) => gather(&self.statements, positions),
            None => Vec::new(),
        }
    }

    /// The statements with the given predicate, from the predicate index.
    pub fn list_statements_for_predicate(&self, predicate: ResourceNode) -> (r: Vec<Statement>)
        requires
            self.inv(),
        ensures
            stmt_views(r@) == filter_kind(self.stmts(), KeyKind::Pred, spec_resource_key(predicate@)),
    {
        let key = predicate.as_string();
        match self.pso.lookup(key.as_str(), Ghost(self.stmts()), Ghost(KeyKind::Pred)) {
            Some(positions) => gather(&self.statements, positions),
            None => Vec::new(),
        }
    }

    /// The statements matching a triple pattern, by a full scan.
    pub fn list_statements(
        &self,
        subject: Option<ResourceNode>,
        predicate: Option<IRIResource>,
        object: Option<Node>,
    ) -> (r: Vec<Statement>)
        ensures
            stmt_views(r@) == filter_stmts(
                self.stmts(),
                match subject {
                    Some(s) => Some(spec_resource_key(s@)),
                    None => None,
                },
                match predicate {
                    Some(p) => Some(spec_iri_str(p@)),
                    None => None,
                },
                match object {
                    Some(o) => Some(spec_node_key(o@)),
                    None => None,
                },
            ),
    {
        let sk = match &subject {
            Some(s) => Some(s.as_string()),
            None => None,
        };
        let pk = match &predicate {
            Some(p) => Some(p.as_string(false)),
            None => None,
        };
        let ok = match &object {
            Some(o) => Some(o.as_string()),
            None => None,
        };
        scan_statements(&self.statements, sk.as_ref(), pk.as_ref(), ok.as_ref())
    }
}

} // verus!

verus! {

/// What the deduplicating store holds after inserting the statements of
/// `ts` in order: each value kept once, at its first position.
pub open spec fn dedup_stmts(ts: Seq<StatementView>) -> Seq<StatementView>
    decreases ts.len(),
{
    if ts.len() == 0 {
        Seq::<StatementView>::empty()
    } else {
        let r = dedup_stmts(ts.drop_last());
        if r.contains(ts.last()) {
            r
        } else {
            r.push(ts.last())
        }
    }
}

/// Deduplication keeps exactly the values that were inserted.
pub proof fn lemma_dedup_membership(ts: Seq<StatementView>)
    ensures
        forall|x: StatementView| dedup_stmts(ts).contains(x) <==> ts.contains(x),
    decreases ts.len(),
{
    if ts.len() > 0 {
        lemma_dedup_membership(ts.drop_last());
        let r = dedup_stmts(ts.drop_last());
        let d = dedup_stmts(ts);
        assert forall|x: StatementView| d.contains(x) implies ts.contains(x) by {
            let w = choose|w: int| 0 <= w < d.len() && d[w] == x;
            if w < r.len() {
                assert(r[w] == x);
                assert(r.contains(x));
                assert(ts.drop_last().contains(x));
                let v = choose|v: int| 0 <= v < ts.drop_last().len() && ts.drop_last()[v] == x;
                assert(ts.drop_last()[v] == ts[v]);
                assert(ts.contains(x)) by {
                    assert(ts[v] == x);
                }
            } else {
                assert(d == r.push(ts.last()));
                assert(x == ts.last());
                assert(ts.contains(x)) by {
                    assert(ts[ts.len() - 1] == x);
                }
            }
        }
        assert forall|x: StatementView| ts.contains(x) implies d.contains(x) by {
            let w = choose|w: int| 0 <= w < ts.len() && ts[w] == x;
            if w < ts.len() - 1 {
                assert(ts.drop_last()[w] == ts[w]);
                assert(ts.drop_last().contains(x)) by {
                    assert(ts.drop_last()[w] == x);
                }
                assert(r.contains(x));
                let v = choose|v: int| 0 <= v < r.len() && r[v] == x;
                if r.contains(ts.last()) {
                    assert(d == r);
                    assert(d.contains(x));
                } else {
                    assert(d == r.push(ts.last()));
                    assert(d[v] == x);
                    assert(d.contains(x));
                }
            } else {
                assert(x == ts.last());
                if r.contains(ts.last()) {
                    assert(d == r);
                    assert(d.contains(x));
                } else {
                    assert(d == r.push(ts.last()));
                    assert(d.contains(x)) by {
                        assert(d[d.len() - 1] == x);
                    }
                }
            }
        }
    }
}

/// A pattern filter returns exactly the held statements that match.
pub proof fn lemma_filter_membership(
    s: Seq<StatementView>,
    sk: Option<Seq<char>>,
    pk: Option<Seq<char>>,
    ok: Option<Seq<char>>,
)
    ensures
        forall|x: StatementView|
            filter_stmts(s, sk, pk, ok).contains(x) <==> s.contains(x) && stmt_matches(
                x,
                sk,
                pk,
                ok,
            ),
    decreases s.len(),
{
    if s.len() > 0 {
        lemma_filter_membership(s.drop_last(), sk, pk, ok);
        let r = filter_stmts(s.drop_last(), sk, pk, ok);
        let f = filter_stmts(s, sk, pk, ok);
        assert forall|x: StatementView| f.contains(x) implies s.contains(x) && stmt_matches(
            x,
            sk,
            pk,
            ok,
        ) by {
            let w = choose|w: int| 0 <= w < f.len() && f[w] == x;
            if w < r.len() {
                assert(r[w] == x);
                assert(r.contains(x));
                assert(s.drop_last().contains(x));
                let v = choose|v: int| 0 <= v < s.drop_last().len() && s.drop_last()[v] == x;
                assert(s.drop_last()[v] == s[v]);
                assert(s.contains(x)) by {
                    assert(s[v] == x);
                }
            } else {
                assert(f == r.push(s.last()));
                assert(x == s.last());
                assert(s.contains(x)) by {
                    assert(s[s.len() - 1] == x);
                }
            }
        }
        assert forall|x: StatementView| s.contains(x) && stmt_matches(x, sk, pk, ok) implies f
            .contains(x) by {
            let w = choose|w: int| 0 <= w < s.len() && s[w] == x;
            if w < s.len() - 1 {
                assert(s.drop_last()[w] == s[w]);
                assert(s.drop_last().contains(x)) by {
                    assert(s.drop_last()[w] == x);
                }
                assert(r.contains(x));
                let v = choose|v: int| 0 <= v < r.len() && r[v] == x;
                if stmt_matches(s.last(), sk, pk, ok) {
                    assert(f == r.push(s.last()));
                    assert(f[v] == x);
                    assert(f.contains(x));
                } else {
                    assert(f == r);
                    assert(f.contains(x));
                }
            } else {
                assert(x == s.last());
                assert(f == r.push(s.last()));
                assert(f.contains(x)) by {
                    assert(f[f.len() - 1] == x);
                }
            }
        }
    }
}

/// Store agreement: for one and the same insertion sequence, a
/// subject-bound query answers with exactly the inserted statements
/// carrying that subject key, whether the store deduplicates (the
/// unindexed set) or appends (the indexed stores) — as sets, all three
/// strategies return the same result.
pub proof fn lemma_stores_agree(ts: Seq<StatementView>, subject_key: Seq<char>)
    ensures
        forall|x: StatementView|
            filter_kind(ts, KeyKind::Subj, subject_key).contains(x) <==> ts.contains(x)
                && spec_subj_key(x) == subject_key,
        filter_kind(dedup_stmts(ts), KeyKind::Subj, subject_key).to_set() == filter_kind(
            ts,
            KeyKind::Subj,
            subject_key,
        ).to_set(),
{
    lemma_filter_membership(ts, Some(subject_key), None, None);
    lemma_filter_membership(dedup_stmts(ts), Some(subject_key), None, None);
    lemma_dedup_membership(ts);
    let a = filter_kind(dedup_stmts(ts), KeyKind::Subj, subject_key);
    let b = filter_kind(ts, KeyKind::Subj, subject_key);
    assert forall|x: StatementView| a.contains(x) == b.contains(x) by {
        assert(a.contains(x) <==> dedup_stmts(ts).contains(x) && spec_subj_key(x) == subject_key);
        assert(b.contains(x) <==> ts.contains(x) && spec_subj_key(x) == subject_key);
    }
    assert(a.to_set() =~= b.to_set());
}

} // verus!
