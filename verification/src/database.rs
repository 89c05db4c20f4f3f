//! The database: one default graph store and a name-to-store table for
//! named graphs, all using the store strategy chosen at creation.
use crate::graph::{
    filter_kind, filter_stmts, FullIndexedGraph, GraphType, IndexedGraph, KeyKind, Node,
    ResourceNode, SimpleGraph, Statement, StatementView, stmt_views,
};
use crate::iri::spec_iri_str;
use crate::node_factory::IRIResource;
use crate::scan::str_eq;
use vstd::prelude::*;

verus! {

/// One graph store behind the strategy chosen at database creation.
pub enum GraphStore {
    Simple(SimpleGraph),
    Indexed(IndexedGraph),
    Full(FullIndexedGraph),
}

/// Whether a strategy deduplicates inserted statements (only the
/// unindexed set does).
pub open spec fn type_dedups(t: GraphType) -> bool {
    t is SimpleGraph
}

/// What a store holds after one more statement: unchanged when it
/// deduplicates and already holds the value, else appended.
pub open spec fn store_add(s: Seq<StatementView>, dedups: bool, t: StatementView) -> Seq<
    StatementView,
> {
    if dedups && s.contains(t) {
        s
    } else {
        s.push(t)
    }
}

impl GraphStore {
    /// The statements held.
    pub closed spec fn stmts(&self) -> Seq<StatementView> {
        match self {
            GraphStore::Simple(g) => g.stmts(),
            GraphStore::Indexed(g) => g.stmts(),
            GraphStore::Full(g) => g.stmts(),
        }
    }

    /// The store's internal consistency.
    pub closed spec fn inv(&self) -> bool {
        match self {
            GraphStore::Simple(g) => g.inv(),
            GraphStore::Indexed(g) => g.inv(),
            GraphStore::Full(g) => g.inv(),
        }
    }

    /// Whether this store deduplicates.
    pub closed spec fn dedups(&self) -> bool {
        self is Simple
    }

    /// The strategy this store implements.
    pub closed spec fn kind(&self) -> GraphType {
        match self {
            GraphStore::Simple(_) => GraphType::SimpleGraph,
            GraphStore::Indexed(_) => GraphType::IndexedGraph,
            GraphStore::Full(_) => GraphType::FullIndexedGraph,
        }
    }

    /// An empty store of the given strategy.
    pub fn new_store(graph_type: &GraphType) -> (r: GraphStore)
        ensures
            r.stmts() == Seq::<StatementView>::empty(),
            r.inv(),
            r.kind() == graph_type,
            r.dedups() == type_dedups(*graph_type),
    {
        match graph_type {
            GraphType::SimpleGraph => GraphStore::Simple(SimpleGraph::new()),
            GraphType::IndexedGraph => GraphStore::Indexed(IndexedGraph::new()),
            GraphType::FullIndexedGraph => GraphStore::Full(FullIndexedGraph::new()),
        }
    }

    /// How many statements are held.
    pub fn count(&self) -> (r: usize)
        ensures
            r == self.stmts().len(),
    {
        match self {
            GraphStore::Simple(g) => g.count(),
            GraphStore::Indexed(g) => g.count(),
            GraphStore::Full(g) => g.count(),
        }
    }

    /// All statements, in stored order.
    pub fn list_all_statements(&self) -> (r: &Vec<Statement>)
        ensures
            stmt_views(r@) == self.stmts(),
    {
        match self {
            GraphStore::Simple(g) => g.list_all_statements(),
            GraphStore::Indexed(g) => g.list_all_statements(),
            GraphStore::Full(g) => g.list_all_statements(),
        }
    }

    /// Adds a statement by the store's strategy.
    pub fn add_statement(&mut self, stmt: Statement)
        requires
            old(self).inv(),
        ensures
            final (self).inv(),
            final (self).stmts() == store_add(old(self).stmts(), old(self).dedups(), stmt@),
            final (self).kind() == old(self).kind(),
    {
        match self {
            GraphStore::Simple(g) => g.add_statement(stmt),
            GraphStore::Indexed(g) => g.add_statement(stmt),
            GraphStore::Full(g) => g.add_statement(stmt),
        }
    }

    /// The statements with the given subject.
    pub fn list_statements_for_subject(&self, subject: ResourceNode) -> (r: Vec<Statement>)
        requires
            self.inv(),
        ensures
            stmt_views(r@) == filter_kind(
                self.stmts(),
                KeyKind::Subj,
                crate::graph::spec_resource_key(subject@),
            ),
    {
        match self {
            GraphStore::Simple(g) => g.list_statements_for_subject(subject),
            GraphStore::Indexed(g) => g.list_statements_for_subject(subject),
            GraphStore::Full(g) => g.list_statements_for_subject(subject),
        }
    }

    /// The statements with the given object.
    pub fn list_statements_for_object(&self, object: ResourceNode) -> (r: Vec<Statement>)
        requires
            self.inv(),
        ensures
            stmt_views(r@) == filter_kind(
                self.stmts(),
                KeyKind::Obj,
                crate::graph::spec_resource_key(object@),
            ),
    {
        match self {
            GraphStore::Simple(g) => g.list_statements_for_object(object),
            GraphStore::Indexed(g) => g.list_statements_for_object(object),
            GraphStore::Full(g) => g.list_statements_for_object(object),
        }
    }

    /// The statements with the given predicate.
    pub fn list_statements_for_predicate(&self, predicate: ResourceNode) -> (r: Vec<Statement>)
        requires
            self.inv(),
        ensures
            stmt_views(r@) == filter_kind(
                self.stmts(),
                KeyKind::Pred,
                crate::graph::spec_resource_key(predicate@),
            ),
    {
        match self {
            GraphStore::Simple(g) => g.list_statements_for_predicate(predicate),
            GraphStore::Indexed(g) => g.list_statements_for_predicate(predicate),
            GraphStore::Full(g) => g.list_statements_for_predicate(predicate),
        }
    }

    /// The statements matching a triple pattern of optional terms.
    pub fn list_statements(
        &self,
        subject: Option<ResourceNode>,
        predicate: Option<IRIResource>,
        object: Option<Node>,
    ) -> (r: Vec<Statement>)
        ensures
            stmt_views(r@) == filter_stmts(
                self.stmts(),
                match subject {
                    Some(s) => Some(crate::graph::spec_resource_key(s@)),
                    None => None,
                },
                match predicate {
                    Some(p) => Some(spec_iri_str(p@)),
                    None => None,
                },
                match object {
                    Some(o) => Some(crate::graph::spec_node_key(o@)),
                    None => None,
                },
            ),
    {
        match self {
            GraphStore::Simple(g) => g.list_statements(subject, predicate, object),
            GraphStore::Indexed(g) => g.list_statements(subject, predicate, object),
            GraphStore::Full(g) => g.list_statements(subject, predicate, object),
        }
    }
}

/// A named graph: its name IRI's canonical string and its store.
pub struct NamedGraph {
    name: String,
    graph: GraphStore,
}

impl NamedGraph {
    pub fn get_name(&self) -> (r: &String)
        ensures
            r@ == self.spec_name(),
    {
        &self.name
    }

    pub fn get_graph(&self) -> (r: &GraphStore)
        ensures
            r.stmts() == self.spec_stmts(),
    {
        &self.graph
    }

    pub closed spec fn spec_name(&self) -> Seq<char> {
        self.name@
    }

    pub closed spec fn spec_stmts(&self) -> Seq<StatementView> {
        self.graph.stmts()
    }
}

/// First match for a graph name among the named graphs.
pub open spec fn spec_graphs_lookup(
    n: Seq<(Seq<char>, Seq<StatementView>)>,
    key: Seq<char>,
) -> Option<Seq<StatementView>>
    decreases n.len(),
{
    if n.len() == 0 {
        None
    } else if n[0].0 == key {
        Some(n[0].1)
    } else {
        spec_graphs_lookup(n.subrange(1, n.len() as int), key)
    }
}

/// Index of the first named graph carrying the key, or the length when
/// there is none.
pub open spec fn find_name(n: Seq<(Seq<char>, Seq<StatementView>)>, key: Seq<char>) -> int
    decreases n.len(),
{
    if n.len() == 0 {
        0
    } else if n[0].0 == key {
        0
    } else {
        1 + find_name(n.subrange(1, n.len() as int), key)
    }
}

/// The named graphs after routing one statement to `key`: the existing
/// entry moves to the back with the statement added by the strategy, or a
/// fresh entry is appended.
pub open spec fn named_add(
    n: Seq<(Seq<char>, Seq<StatementView>)>,
    key: Seq<char>,
    dedups: bool,
    t: StatementView,
) -> Seq<(Seq<char>, Seq<StatementView>)> {
    let i = find_name(n, key);
    if i < n.len() {
        n.remove(i).push((key, store_add(n[i].1, dedups, t)))
    } else {
        n.push((key, seq![t]))
    }
}

/// `find_name` answers `at` when everything before misses and `at` hits.
pub proof fn lemma_find_name_is(
    n: Seq<(Seq<char>, Seq<StatementView>)>,
    key: Seq<char>,
    at: int,
)
    requires
        0 <= at <= n.len(),
        forall|j: int| 0 <= j < at ==> (#[trigger] n[j]).0 != key,
        at == n.len() || n[at].0 == key,
    ensures
        find_name(n, key) == at,
    decreases at,
{
    if n.len() > 0 {
        if at > 0 {
            let rest = n.subrange(1, n.len() as int);
            assert(forall|j: int| 0 <= j < rest.len() ==> (#[trigger] rest[j]) == n[j + 1]);
            lemma_find_name_is(rest, key, at - 1);
        }
    }
}

/// Sum of the statement counts of the named graphs.
pub open spec fn spec_sum_counts(n: Seq<(Seq<char>, Seq<StatementView>)>) -> int
    decreases n.len(),
{
    if n.len() == 0 {
        0
    } else {
        n.last().1.len() + spec_sum_counts(n.drop_last())
    }
}

/// The thin fan-out layer: one default store and a name-to-store table,
/// every store of the one strategy chosen at creation.  A named store is
/// created lazily on the first statement addressed to its name.
pub struct Database {
    graph_type: GraphType,
    default_graph: GraphStore,
    named_graphs: Vec<NamedGraph>,
}

impl Database {
    /// The statements of the default graph.
    pub closed spec fn default_stmts(&self) -> Seq<StatementView> {
        self.default_graph.stmts()
    }

    /// The named graphs: name key and statements, in creation order.
    pub closed spec fn named(&self) -> Seq<(Seq<char>, Seq<StatementView>)> {
        self.named_graphs@.map_values(|n: NamedGraph| (n.name@, n.graph.stmts()))
    }

    /// The strategy all stores use.
    pub closed spec fn strategy(&self) -> GraphType {
        self.graph_type
    }

    /// Every store is consistent, of the chosen strategy, and graph names
    /// are unique.
    pub closed spec fn inv(&self) -> bool {
        &&& self.default_graph.inv()
        &&& self.default_graph.kind() == self.graph_type
        &&& forall|i: int|
            0 <= i < self.named_graphs@.len() ==> (#[trigger] self.named_graphs@[i]).graph.inv()
                && self.named_graphs@[i].graph.kind() == self.graph_type
        &&& forall|i: int, j: int|
            0 <= i < j < self.named_graphs@.len() ==> (#[trigger] self.named_graphs@[i]).name@ != (
            #[trigger] self.named_graphs@[j]).name@
    }

    /// Statements held over all stores together.
    pub open spec fn total(&self) -> int {
        self.default_stmts().len() + spec_sum_counts(self.named())
    }

    /// A database of the given store strategy, with an empty default
    /// graph and no named graphs.
    pub fn new(graph_type: GraphType) -> (r: Database)
        ensures
            r.inv(),
            r.default_stmts() == Seq::<StatementView>::empty(),
            r.named() == Seq::<(Seq<char>, Seq<StatementView>)>::empty(),
            r.strategy() == graph_type,
    {
        let default_graph = GraphStore::new_store(&graph_type);
        let r = Database { graph_type, default_graph, named_graphs: Vec::new() };
        proof {
            assert(r.named() =~= Seq::<(Seq<char>, Seq<StatementView>)>::empty());
        }
        r
    }

    /// The total statement count over the default and all named graphs;
    /// saturates at the machine limit.
    pub fn count(&self) -> (r: usize)
        ensures
            r == if self.total() <= usize::MAX {
                self.total()
            } else {
                usize::MAX as int
            },
    {
        let mut count: usize = self.default_graph.count();
        let mut i: usize = 0;
        while i < self.named_graphs.len()
            invariant
                0 <= i <= self.named_graphs@.len(),
                count == ({
                    let partial = self.default_stmts().len() + spec_sum_counts(
                        self.named().subrange(0, i as int),
                    );
                    if partial <= usize::MAX {
                        partial
                    } else {
                        usize::MAX as int
                    }
                }),
            decreases self.named_graphs@.len() - i,
        {
            let c = self.named_graphs[i].graph.count();
            proof {
                let pre = self.named().subrange(0, i as int);
                let cur = self.named().subrange(0, i + 1);
                assert(cur.drop_last() =~= pre);
                assert(cur.last() == self.named()[i as int]);
                crate::database::lemma_sum_counts_nonneg(pre);
            }
            count = count.saturating_add(c);
            i += 1;
        }
        proof {
            assert(self.named().subrange(0, self.named().len() as int) =~= self.named());
        }
        count
    }

    /// The named graphs, in creation order.
    pub fn get_named_graphs(&self) -> (r: &Vec<NamedGraph>)
        ensures
            r@.map_values(|n: NamedGraph| (n.spec_name(), n.spec_stmts())) == self.named(),
    {
        &self.named_graphs
    }

    /// The default graph store.
    pub fn get_default_graph(&self) -> (r: &GraphStore)
        ensures
            r.stmts() == self.default_stmts(),
            self.inv() ==> r.inv(),
    {
        &self.default_graph
    }

    /// The names of all named graphs, in creation order.
    pub fn get_named_graph_names(&self) -> (r: Vec<String>)
        ensures
            r@.map_values(|s: String| s@) == self.named().map_values(
                |p: (Seq<char>, Seq<StatementView>)| p.0,
            ),
    {
        let mut ret: Vec<String> = Vec::new();
        let mut i: usize = 0;
        while i < self.named_graphs.len()
            invariant
                0 <= i <= self.named_graphs@.len(),
                ret@.len() == i,
                forall|j: int| 0 <= j < i ==> (#[trigger] ret@[j])@ == self.named()[j].0,
            decreases self.named_graphs@.len() - i,
        {
            ret.push(self.named_graphs[i].name.clone());
            i += 1;
        }
        proof {
            assert(ret@.map_values(|s: String| s@) =~= self.named().map_values(
                |p: (Seq<char>, Seq<StatementView>)| p.0,
            ));
        }
        ret
    }

    /// The named store for a graph name, if one exists.
    pub fn get_named_graph(&self, name: &str) -> (r: Option<&GraphStore>)
        ensures
            match r {
                Some(g) => spec_graphs_lookup(self.named(), name@) == Some(g.stmts()) && (
                self.inv() ==> g.inv()),
                None => spec_graphs_lookup(self.named(), name@) is None,
            },
    {
        let mut i: usize = 0;
        proof {
            assert(self.named().subrange(0, self.named().len() as int) =~= self.named());
        }
        while i < self.named_graphs.len()
            invariant
                0 <= i <= self.named_graphs@.len(),
                spec_graphs_lookup(self.named(), name@) == spec_graphs_lookup(
                    self.named().subrange(i as int, self.named().len() as int),
                    name@,
                ),
            decreases self.named_graphs@.len() - i,
        {
            proof {
                let rest = self.named().subrange(i as int, self.named().len() as int);
                assert(rest[0] == self.named()[i as int]);
                assert(rest.subrange(1, rest.len() as int) =~= self.named().subrange(
                    i + 1,
                    self.named().len() as int,
                ));
            }
            if str_eq(self.named_graphs[i].name.as_str(), name) {
                return Some(&self.named_graphs[i].graph);
            }
            i += 1;
        }
        proof {
            assert(self.named().subrange(i as int, self.named().len() as int).len() == 0);
        }
        None
    }

    /// Routes a statement to the named graph when a name is given (the
    /// store is created lazily), else to the default graph.
    pub fn add_statement(&mut self, graph: Option<IRIResource>, stmt: Statement)
        requires
            old(self).inv(),
        ensures
            final (self).inv(),
            final (self).strategy() == old(self).strategy(),
            match graph {
                None => final (self).default_stmts() == store_add(
                    old(self).default_stmts(),
                    type_dedups(old(self).strategy()),
                    stmt@,
                ) && final (self).named() == old(self).named(),
                Some(g) => {
                    let key = spec_iri_str(g@);
                    &&& final (self).default_stmts() == old(self).default_stmts()
                    &&& final (self).named() == named_add(
                        old(self).named(),
                        key,
                        type_dedups(old(self).strategy()),
                        stmt@,
                    )
                    &&& match spec_graphs_lookup(old(self).named(), key) {
                        Some(b) => final (self).named().len() == old(self).named().len()
                            && spec_graphs_lookup(final (self).named(), key) == Some(
                            store_add(b, type_dedups(old(self).strategy()), stmt@),
                        ) && (forall|k2: Seq<char>|
                            k2 != key ==> #[trigger] spec_graphs_lookup(final (self).named(), k2)
                                == spec_graphs_lookup(old(self).named(), k2)),
                        None => final (self).named() == old(self).named().push(
                            (key, seq![stmt@]),
                        ),
                    }
                },
            },
    {
        match graph {
            None => {
                proof {
                    assert(self.default_graph.dedups() == type_dedups(self.graph_type));
                }
                self.default_graph.add_statement(stmt);
                proof {
                    assert(final (self).named() =~= old(self).named());
                }
            },
            Some(graph_iri) => {
                let graph_str = graph_iri.get_iri().as_string();
                self.add_to_named(graph_str, stmt);
            },
        }
    }

    /// Adds to the named graph with the given canonical name string,
    /// creating it first when absent.
    fn add_to_named(&mut self, graph_str: String, stmt: Statement)
        requires
            old(self).inv(),
        ensures
            final (self).inv(),
            final (self).strategy() == old(self).strategy(),
            final (self).default_stmts() == old(self).default_stmts(),
            final (self).named() == named_add(
                old(self).named(),
                graph_str@,
                type_dedups(old(self).strategy()),
                stmt@,
            ),
            match spec_graphs_lookup(old(self).named(), graph_str@) {
                Some(b) => final (self).named().len() == old(self).named().len()
                    && spec_graphs_lookup(final (self).named(), graph_str@) == Some(
                    store_add(b, type_dedups(old(self).strategy()), stmt@),
                ) && (forall|k2: Seq<char>|
                    k2 != graph_str@ ==> #[trigger] spec_graphs_lookup(final (self).named(), k2)
                        == spec_graphs_lookup(old(self).named(), k2)),
                None => final (self).named() == old(self).named().push(
                    (graph_str@, seq![stmt@]),
                ),
            },
    {
        let n = self.named_graphs.len();
        let mut i: usize = 0;
        while i < n
            invariant
                0 <= i <= n,
                n == self.named_graphs@.len(),
                *self == *old(self),
                old(self).inv(),
                forall|j: int| 0 <= j < i ==> (#[trigger] self.named_graphs@[j]).name@
                    != graph_str@,
            decreases n - i,
        {
            if str_eq(self.named_graphs[i].name.as_str(), graph_str.as_str()) {
                let ghost pre_named = self.named();
                let mut entry = self.named_graphs.remove(i);
                proof {
                    assert(entry.graph.inv());
                    assert(entry.graph.dedups() == type_dedups(self.graph_type));
                }
                entry.graph.add_statement(stmt);
                self.named_graphs.push(entry);
                proof {
                    lemma_named_update(
                        pre_named,
                        self.named(),
                        i as int,
                        graph_str@,
                        store_add(pre_named[i as int].1, type_dedups(self.graph_type), stmt@),
                    );
                    assert(spec_graphs_lookup(pre_named, graph_str@) == Some(
                        pre_named[i as int].1,
                    )) by {
                        lemma_lookup_first(pre_named, graph_str@, i as int);
                    }
                    lemma_find_name_is(pre_named, graph_str@, i as int);
                    assert(self.named() =~= pre_named.remove(i as int).push(
                        (
                            graph_str@,
                            store_add(
                                pre_named[i as int].1,
                                type_dedups(self.graph_type),
                                stmt@,
                            ),
                        ),
                    ));
                }
                return ;
            }
            i += 1;
        }
        proof {
            lemma_lookup_none(self.named(), graph_str@);
            lemma_find_name_is(self.named(), graph_str@, self.named().len() as int);
        }
        let mut store = GraphStore::new_store(&self.graph_type);
        store.add_statement(stmt);
        self.named_graphs.push(NamedGraph { name: graph_str, graph: store });
        proof {
            assert(final (self).named() =~= old(self).named().push(
                (self.named_graphs@.last().name@, seq![stmt@]),
            ));
        }
    }
}

/// The sum of store sizes is never negative.
pub proof fn lemma_sum_counts_nonneg(n: Seq<(Seq<char>, Seq<StatementView>)>)
    ensures
        spec_sum_counts(n) >= 0,
    decreases n.len(),
{
    if n.len() > 0 {
        lemma_sum_counts_nonneg(n.drop_last());
    }
}

/// When the entries before `at` miss the key and entry `at` carries it,
/// lookup answers with entry `at`.
proof fn lemma_lookup_first(
    n: Seq<(Seq<char>, Seq<StatementView>)>,
    key: Seq<char>,
    at: int,
)
    requires
        0 <= at < n.len(),
        n[at].0 == key,
        forall|j: int| 0 <= j < at ==> (#[trigger] n[j]).0 != key,
    ensures
        spec_graphs_lookup(n, key) == Some(n[at].1),
    decreases at,
{
    if at > 0 {
        let rest = n.subrange(1, n.len() as int);
        assert(rest[at - 1] == n[at]);
        assert(forall|j: int| 0 <= j < at - 1 ==> (#[trigger] rest[j]) == n[j + 1]);
        lemma_lookup_first(rest, key, at - 1);
    }
}

/// When no entry carries the key, lookup misses.
proof fn lemma_lookup_none(n: Seq<(Seq<char>, Seq<StatementView>)>, key: Seq<char>)
    requires
        forall|j: int| 0 <= j < n.len() ==> (#[trigger] n[j]).0 != key,
    ensures
        spec_graphs_lookup(n, key) is None,
    decreases n.len(),
{
    if n.len() > 0 {
        let rest = n.subrange(1, n.len() as int);
        assert(forall|j: int| 0 <= j < rest.len() ==> (#[trigger] rest[j]) == n[j + 1]);
        lemma_lookup_none(rest, key);
    }
}

/// Moving the updated entry `at` to the back, with a new bucket value,
/// redirects lookup of its key to the new value and leaves every other
/// key's lookup unchanged.
proof fn lemma_named_update(
    pre: Seq<(Seq<char>, Seq<StatementView>)>,
    post: Seq<(Seq<char>, Seq<StatementView>)>,
    at: int,
    key: Seq<char>,
    b2: Seq<StatementView>,
)
    requires
        0 <= at < pre.len(),
        pre[at].0 == key,
        forall|j: int| 0 <= j < at ==> (#[trigger] pre[j]).0 != key,
        forall|i2: int, j2: int| 0 <= i2 < j2 < pre.len() ==> (#[trigger] pre[i2]).0 != (
        #[trigger] pre[j2]).0,
        post.len() == pre.len(),
        forall|j: int| 0 <= j < post.len() - 1 ==> #[trigger] post[j] == pre.remove(at)[j],
        post.last() == (key, b2),
    ensures
        spec_graphs_lookup(post, key) == Some(b2),
        forall|k2: Seq<char>|
            k2 != key ==> #[trigger] spec_graphs_lookup(post, k2) == spec_graphs_lookup(pre, k2),
{
    assert forall|j: int| 0 <= j < post.len() - 1 implies (#[trigger] post[j]).0 != key by {
        if j < at {
            assert(post[j] == pre[j]);
        } else {
            assert(post[j] == pre[j + 1]);
        }
    }
    lemma_lookup_first(post, key, post.len() - 1);
    assert forall|k2: Seq<char>| k2 != key implies #[trigger] spec_graphs_lookup(post, k2)
        == spec_graphs_lookup(pre, k2) by {
        lemma_lookup_other(pre, post, at, key, k2);
    }
}

/// Helper for [`lemma_named_update`]: any other key sees the same first
/// match in the rearranged list.
proof fn lemma_lookup_other(
    pre: Seq<(Seq<char>, Seq<StatementView>)>,
    post: Seq<(Seq<char>, Seq<StatementView>)>,
    at: int,
    key: Seq<char>,
    k2: Seq<char>,
)
    requires
        0 <= at < pre.len(),
        pre[at].0 == key,
        forall|i2: int, j2: int| 0 <= i2 < j2 < pre.len() ==> (#[trigger] pre[i2]).0 != (
        #[trigger] pre[j2]).0,
        post.len() == pre.len(),
        forall|j: int| 0 <= j < post.len() - 1 ==> #[trigger] post[j] == pre.remove(at)[j],
        post.last().0 == key,
        k2 != key,
    ensures
        spec_graphs_lookup(post, k2) == spec_graphs_lookup(pre, k2),
{
    let found_pre = exists|j: int| 0 <= j < pre.len() && (#[trigger] pre[j]).0 == k2;
    if found_pre {
        let w = choose|w: int| 0 <= w < pre.len() && (#[trigger] pre[w]).0 == k2;
        assert(forall|j: int| 0 <= j < w ==> (#[trigger] pre[j]).0 != k2);
        lemma_lookup_first(pre, k2, w);
        assert(w != at);
        let w2 = if w < at {
            w
        } else {
            w - 1
        };
        assert(post[w2] == pre[w]);
        assert forall|j: int| 0 <= j < w2 implies (#[trigger] post[j]).0 != k2 by {
            if j < at {
                assert(post[j] == pre[j]);
            } else {
                assert(post[j] == pre[j + 1]);
            }
        }
        lemma_lookup_first(post, k2, w2);
    } else {
        assert(forall|j: int| 0 <= j < pre.len() ==> (#[trigger] pre[j]).0 != k2);
        lemma_lookup_none(pre, k2);
        assert forall|j: int| 0 <= j < post.len() implies (#[trigger] post[j]).0 != k2 by {
            if j < post.len() - 1 {
                if j < at {
                    assert(post[j] == pre[j]);
                } else {
                    assert(post[j] == pre[j + 1]);
                }
            }
        }
        lemma_lookup_none(post, k2);
    }
}

} // verus!
