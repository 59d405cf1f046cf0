//! The dependency graph of a set of specs, and the dependencies of one spec.
//!
//! A dependency reference is loose text: the name of a spec, its sequence
//! number padded with zeros, or the bare number. Resolution turns a reference
//! into the identifier of a spec, or into nothing.

use std::collections::HashMap;
use vstd::hash_map::StringHashMap;
use vstd::prelude::*;

use crate::numbers::{
    padded_decimal, padded_decimal_chars, signed_decimal, signed_decimal_chars,
};
use crate::reader::{
    copy_optional, reference_number, reference_number_of, Spec, SpecView,
};
use crate::text::{from_chars, push_all, push_str, to_chars, trim, trim_chars};

verus! {

/// A spec as a node of the graph.
#[derive(Clone, Debug)]
pub struct DependencyNode {
    pub id: String,
    pub name: String,
    pub number: i32,
    pub status: String,
    pub priority: String,
    pub tags: Vec<String>,
}

/// The model of a [`DependencyNode`].
pub struct NodeView {
    pub id: Seq<char>,
    pub name: Seq<char>,
    pub number: i32,
    pub status: Seq<char>,
    pub priority: Seq<char>,
    pub tags: Seq<Seq<char>>,
}

impl View for DependencyNode {
    type V = NodeView;

    open spec fn view(&self) -> NodeView {
        NodeView {
            id: self.id@,
            name: self.name@,
            number: self.number,
            status: self.status@,
            priority: self.priority@,
            tags: self.tags.deep_view(),
        }
    }
}

impl DeepView for DependencyNode {
    type V = NodeView;

    open spec fn deep_view(&self) -> NodeView {
        self@
    }
}

/// An edge of the graph, from a spec to one that depends on it.
#[derive(Clone, Debug)]
pub struct DependencyEdge {
    pub source: String,
    pub target: String,
    pub edge_type: String,
}

/// The model of a [`DependencyEdge`].
pub struct EdgeView {
    pub source: Seq<char>,
    pub target: Seq<char>,
    pub edge_type: Seq<char>,
}

impl View for DependencyEdge {
    type V = EdgeView;

    open spec fn view(&self) -> EdgeView {
        EdgeView { source: self.source@, target: self.target@, edge_type: self.edge_type@ }
    }
}

impl DeepView for DependencyEdge {
    type V = EdgeView;

    open spec fn deep_view(&self) -> EdgeView {
        self@
    }
}

/// The dependency graph of a set of specs.
#[derive(Clone, Debug)]
pub struct DependencyGraph {
    pub nodes: Vec<DependencyNode>,
    pub edges: Vec<DependencyEdge>,
}

/// The model of a [`DependencyGraph`].
pub struct GraphView {
    pub nodes: Seq<NodeView>,
    pub edges: Seq<EdgeView>,
}

impl View for DependencyGraph {
    type V = GraphView;

    open spec fn view(&self) -> GraphView {
        GraphView { nodes: self.nodes.deep_view(), edges: self.edges.deep_view() }
    }
}

/// What a dependency view shows of a spec.
#[derive(Clone, Debug)]
pub struct DependencyInfo {
    pub spec_name: String,
    pub title: Option<String>,
    pub status: String,
}

/// The model of a [`DependencyInfo`].
pub struct InfoView {
    pub spec_name: Seq<char>,
    pub title: Option<Seq<char>>,
    pub status: Seq<char>,
}

impl View for DependencyInfo {
    type V = InfoView;

    open spec fn view(&self) -> InfoView {
        InfoView {
            spec_name: self.spec_name@,
            title: self.title.deep_view(),
            status: self.status@,
        }
    }
}

impl DeepView for DependencyInfo {
    type V = InfoView;

    open spec fn deep_view(&self) -> InfoView {
        self@
    }
}

/// The specs that one spec depends on, and those that depend on it.
#[derive(Clone, Debug)]
pub struct SpecDependencies {
    pub depends_on: Vec<DependencyInfo>,
    pub required_by: Vec<DependencyInfo>,
}

/// The model of a [`SpecDependencies`].
pub struct SpecDependenciesView {
    pub depends_on: Seq<InfoView>,
    pub required_by: Seq<InfoView>,
}

impl View for SpecDependencies {
    type V = SpecDependenciesView;

    open spec fn view(&self) -> SpecDependenciesView {
        SpecDependenciesView {
            depends_on: self.depends_on.deep_view(),
            required_by: self.required_by.deep_view(),
        }
    }
}

// ---------------------------------------------------------------------------
// Indexes
// ---------------------------------------------------------------------------

/// An index from names to spec identifiers. A later entry for a name replaces
/// an earlier one.
pub struct NameIndex {
    map: StringHashMap<String>,
}

impl View for NameIndex {
    type V = Map<Seq<char>, Seq<char>>;

    closed spec fn view(&self) -> Map<Seq<char>, Seq<char>> {
        Map::new(|k: Seq<char>| self.map@.contains_key(k), |k: Seq<char>| self.map@[k]@)
    }
}

impl NameIndex {
    /// An empty index.
    pub fn new() -> (r: NameIndex)
        ensures
            r@ == Map::<Seq<char>, Seq<char>>::empty(),
    {
        let r = NameIndex { map: StringHashMap::new() };
        assert(r@ =~= Map::<Seq<char>, Seq<char>>::empty());
        r
    }

    /// Enters `id` under `name`.
    pub fn insert(&mut self, name: String, id: String)
        ensures
            final(self)@ == old(self)@.insert(name@, id@),
    {
        self.map.insert(name, id);
        assert(self@ =~= old(self)@.insert(name@, id@));
    }

    /// The identifier entered under `name`.
    pub fn get(&self, name: &str) -> (r: Option<&String>)
        ensures
            r.deep_view() == (if self@.contains_key(name@) {
                Some(self@[name@])
            } else {
                None
            }),
    {
        self.map.get(name)
    }
}

/// An index from sequence numbers to spec identifiers. A later entry for a
/// number replaces an earlier one.
pub struct NumberIndex {
    map: HashMap<i32, String>,
}

impl View for NumberIndex {
    type V = Map<i32, Seq<char>>;

    closed spec fn view(&self) -> Map<i32, Seq<char>> {
        Map::new(|k: i32| self.map@.contains_key(k), |k: i32| self.map@[k]@)
    }
}

impl NumberIndex {
    /// An empty index.
    pub fn new() -> (r: NumberIndex)
        ensures
            r@ == Map::<i32, Seq<char>>::empty(),
    {
        let r = NumberIndex { map: HashMap::new() };
        assert(r@ =~= Map::<i32, Seq<char>>::empty());
        r
    }

    /// Enters `id` under `number`.
    pub fn insert(&mut self, number: i32, id: String)
        ensures
            final(self)@ == old(self)@.insert(number, id@),
    {
        self.map.insert(number, id);
        assert(self@ =~= old(self)@.insert(number, id@));
    }

    /// The identifier entered under `number`.
    pub fn get(&self, number: i32) -> (r: Option<&String>)
        ensures
            r.deep_view() == (if self@.contains_key(number) {
                Some(self@[number])
            } else {
                None
            }),
    {
        self.map.get(&number)
    }
}

// ---------------------------------------------------------------------------
// Resolution, as a model
// ---------------------------------------------------------------------------

/// The identifier that a dependency reference resolves to: that entered under
/// its trimmed text; failing that, that entered under the number that it
/// names; else none.
pub open spec fn resolved(
    dep: Seq<char>,
    by_name: Map<Seq<char>, Seq<char>>,
    by_number: Map<i32, Seq<char>>,
) -> Option<Seq<char>> {
    let t = trim(dep);
    if by_name.contains_key(t) {
        Some(by_name[t])
    } else {
        match reference_number(dep) {
            Some(n) => if by_number.contains_key(n) {
                Some(by_number[n])
            } else {
                None
            },
            None => None,
        }
    }
}

/// The name index of a set of specs: each spec with a number is entered under
/// its name, its zero-padded number and its bare number, later specs
/// replacing earlier ones.
pub open spec fn indexed_names(specs: Seq<SpecView>) -> Map<Seq<char>, Seq<char>>
    decreases specs.len(),
{
    if specs.len() == 0 {
        Map::empty()
    } else {
        let m = indexed_names(specs.drop_last());
        let s = specs.last();
        match s.spec_number {
            Some(n) => m.insert(s.spec_name, s.id).insert(padded_decimal(n as int), s.id).insert(
                signed_decimal(n as int),
                s.id,
            ),
            None => m,
        }
    }
}

/// The number index of a set of specs: each spec with a number is entered
/// under it, later specs replacing earlier ones.
pub open spec fn indexed_numbers(specs: Seq<SpecView>) -> Map<i32, Seq<char>>
    decreases specs.len(),
{
    if specs.len() == 0 {
        Map::empty()
    } else {
        let m = indexed_numbers(specs.drop_last());
        let s = specs.last();
        match s.spec_number {
            Some(n) => m.insert(n, s.id),
            None => m,
        }
    }
}

/// The node of a spec with number `n`: named by its title, or `Spec` and the
/// number; of `medium` priority where it has none.
pub open spec fn node_of(s: SpecView, n: i32) -> NodeView {
    NodeView {
        id: s.id,
        name: match s.title {
            Some(t) => t,
            None => "Spec "@ + signed_decimal(n as int),
        },
        number: n,
        status: s.status,
        priority: match s.priority {
            Some(p) => p,
            None => "medium"@,
        },
        tags: s.tags,
    }
}

/// The nodes of a set of specs: one for each spec with a number, in order.
pub open spec fn nodes_of(specs: Seq<SpecView>) -> Seq<NodeView>
    decreases specs.len(),
{
    if specs.len() == 0 {
        Seq::empty()
    } else {
        let rest = nodes_of(specs.drop_last());
        match specs.last().spec_number {
            Some(n) => rest.push(node_of(specs.last(), n)),
            None => rest,
        }
    }
}

/// The edge that says that `dependent` depends on `dependency`.
pub open spec fn edge(dependency: Seq<char>, dependent: Seq<char>) -> EdgeView {
    EdgeView { source: dependency, target: dependent, edge_type: "dependsOn"@ }
}

/// The edges that the first `k` references of `s` give: one for each
/// reference that resolves to another spec.
pub open spec fn edges_into(
    s: SpecView,
    by_name: Map<Seq<char>, Seq<char>>,
    by_number: Map<i32, Seq<char>>,
    k: int,
) -> Seq<EdgeView>
    decreases k,
{
    if k <= 0 {
        Seq::empty()
    } else {
        let rest = edges_into(s, by_name, by_number, k - 1);
        match resolved(s.depends_on[k - 1], by_name, by_number) {
            Some(t) => if t != s.id {
                rest.push(edge(t, s.id))
            } else {
                rest
            },
            None => rest,
        }
    }
}

/// The edges that the first `n` specs give: those of each spec with a number,
/// in order.
pub open spec fn edges_of(
    specs: Seq<SpecView>,
    by_name: Map<Seq<char>, Seq<char>>,
    by_number: Map<i32, Seq<char>>,
    n: int,
) -> Seq<EdgeView>
    decreases n,
{
    if n <= 0 {
        Seq::empty()
    } else {
        let rest = edges_of(specs, by_name, by_number, n - 1);
        let s = specs[n - 1];
        if s.spec_number is Some {
            rest + edges_into(s, by_name, by_number, s.depends_on.len() as int)
        } else {
            rest
        }
    }
}

/// The dependency graph of a set of specs.
pub open spec fn graph_of(specs: Seq<SpecView>) -> GraphView {
    GraphView {
        nodes: nodes_of(specs),
        edges: edges_of(
            specs,
            indexed_names(specs),
            indexed_numbers(specs),
            specs.len() as int,
        ),
    }
}

// ---------------------------------------------------------------------------
// The graph
// ---------------------------------------------------------------------------

/// Resolves a dependency reference to a spec identifier: by its trimmed text
/// in the name index; failing that, by the number in front of its first
/// hyphen in the number index.
pub fn resolve_dependency(dep: &str, by_name: &NameIndex, by_number: &NumberIndex) -> (r: Option<
    String,
>)
    ensures
        r.deep_view() == resolved(dep@, by_name@, by_number@),
{
    let chars = to_chars(dep);
    let trimmed = from_chars(&trim_chars(&chars));
    match by_name.get(trimmed.as_str()) {
        Some(id) => {
            return Some(id.clone());
        },
        None => {},
    }
    match reference_number_of(&chars) {
        Some(n) => match by_number.get(n) {
            Some(id) => Some(id.clone()),
            None => None,
        },
        None => None,
    }
}

/// The node of a spec with number `n`.
fn make_node(spec: &Spec, n: i32) -> (r: DependencyNode)
    ensures
        r@ == node_of(spec@, n),
{
    let name = match &spec.title {
        Some(t) => t.clone(),
        None => {
            let mut text: Vec<char> = Vec::new();
            push_str(&mut text, "Spec ");
            push_all(&mut text, &signed_decimal_chars(n));
            assert(text@ =~= "Spec "@ + signed_decimal(n as int));
            from_chars(&text)
        },
    };
    let priority = match &spec.priority {
        Some(p) => p.clone(),
        None => "medium".to_owned(),
    };
    DependencyNode {
        id: spec.id.clone(),
        name,
        number: n,
        status: spec.status.clone(),
        priority,
        tags: spec.tags.clone(),
    }
}

/// Appends the edges that the references of `spec` give.
fn push_edges(
    edges: &mut Vec<DependencyEdge>,
    spec: &Spec,
    by_name: &NameIndex,
    by_number: &NumberIndex,
)
    ensures
        final(edges).deep_view() == old(edges).deep_view() + edges_into(
            spec@,
            by_name@,
            by_number@,
            spec@.depends_on.len() as int,
        ),
{
    let mut k: usize = 0;
    assert(edges.deep_view() =~= old(edges).deep_view() + edges_into(
        spec@,
        by_name@,
        by_number@,
        0,
    ));
    while k < spec.depends_on.len()
        invariant
            k <= spec.depends_on.len(),
            spec@.depends_on.len() == spec.depends_on.len(),
            edges.deep_view() == old(edges).deep_view() + edges_into(
                spec@,
                by_name@,
                by_number@,
                k as int,
            ),
        decreases spec.depends_on.len() - k,
    {
        let ghost before = edges.deep_view();
        assert(spec@.depends_on[k as int] == spec.depends_on@[k as int]@);
        match resolve_dependency(spec.depends_on[k].as_str(), by_name, by_number) {
            Some(target_id) => {
                if target_id != spec.id {
                    let item = DependencyEdge {
                        source: target_id,
                        target: spec.id.clone(),
                        edge_type: "dependsOn".to_owned(),
                    };
                    edges.push(item);
                    assert(edges.deep_view() =~= before.push(item@));
                }
            },
            None => {},
        }
        assert(edges.deep_view() =~= old(edges).deep_view() + edges_into(
            spec@,
            by_name@,
            by_number@,
            k + 1,
        ));
        k += 1;
    }
}

/// Builds the dependency graph of a set of specs.
///
/// Only specs with a sequence number take part. Each is a node. Each of its
/// references that resolves to another spec is an edge from that spec to it:
/// edges point from what is depended upon to what depends. A reference that
/// resolves to nothing, or to the spec itself, gives no edge.
pub fn build_dependency_graph(specs: &[Spec]) -> (g: DependencyGraph)
    ensures
        g@ == graph_of(specs.deep_view()),
{
    let ghost views = specs.deep_view();
    let mut by_name = NameIndex::new();
    let mut by_number = NumberIndex::new();
    let mut nodes: Vec<DependencyNode> = Vec::new();
    let mut i: usize = 0;
    proof {
        assert(views.take(0) =~= Seq::<SpecView>::empty());
        assert(nodes.deep_view() =~= nodes_of(views.take(0)));
    }
    while i < specs.len()
        invariant
            i <= specs.len(),
            views == specs.deep_view(),
            by_name@ == indexed_names(views.take(i as int)),
            by_number@ == indexed_numbers(views.take(i as int)),
            nodes.deep_view() == nodes_of(views.take(i as int)),
        decreases specs.len() - i,
    {
        let spec = &specs[i];
        let ghost before = nodes.deep_view();
        proof {
            assert(views[i as int] == specs@[i as int]@);
            assert(views.take(i + 1).drop_last() =~= views.take(i as int));
            assert(views.take(i + 1).last() == spec@);
        }
        match spec.spec_number {
            Some(n) => {
                by_name.insert(spec.spec_name.clone(), spec.id.clone());
                by_name.insert(from_chars(&padded_decimal_chars(n)), spec.id.clone());
                by_name.insert(from_chars(&signed_decimal_chars(n)), spec.id.clone());
                by_number.insert(n, spec.id.clone());
                let node = make_node(spec, n);
                nodes.push(node);
                assert(nodes.deep_view() =~= before.push(node@));
            },
            None => {},
        }
        i += 1;
    }
    assert(views.take(specs.len() as int) =~= views);

    let mut edges: Vec<DependencyEdge> = Vec::new();
    let mut j: usize = 0;
    assert(edges.deep_view() =~= edges_of(views, by_name@, by_number@, 0));
    while j < specs.len()
        invariant
            j <= specs.len(),
            views == specs.deep_view(),
            edges.deep_view() == edges_of(views, by_name@, by_number@, j as int),
        decreases specs.len() - j,
    {
        assert(views[j as int] == specs@[j as int]@);
        if specs[j].spec_number.is_some() {
            push_edges(&mut edges, &specs[j], &by_name, &by_number);
        }
        j += 1;
    }
    DependencyGraph { nodes, edges }
}

// ---------------------------------------------------------------------------
// The dependencies of one spec
// ---------------------------------------------------------------------------

/// The positions under which the specs of a set are found: each under its
/// name, and each with a number under its zero-padded and its bare number,
/// later specs replacing earlier ones.
pub open spec fn indexed_positions(specs: Seq<SpecView>) -> Map<Seq<char>, int>
    decreases specs.len(),
{
    if specs.len() == 0 {
        Map::empty()
    } else {
        let m = indexed_positions(specs.drop_last());
        let s = specs.last();
        let i = specs.len() - 1;
        match s.spec_number {
            Some(n) => m.insert(s.spec_name, i).insert(padded_decimal(n as int), i).insert(
                signed_decimal(n as int),
                i,
            ),
            None => m.insert(s.spec_name, i),
        }
    }
}

/// The position of the spec that a dependency reference names: that found
/// under its trimmed text; failing that, that found under the number that it
/// names, written bare.
pub open spec fn referenced_position(dep: Seq<char>, positions: Map<Seq<char>, int>) -> Option<
    int,
> {
    let t = trim(dep);
    if positions.contains_key(t) {
        Some(positions[t])
    } else {
        match reference_number(dep) {
            Some(n) => if positions.contains_key(signed_decimal(n as int)) {
                Some(positions[signed_decimal(n as int)])
            } else {
                None
            },
            None => None,
        }
    }
}

/// The position of the spec with this name, untrimmed.
pub open spec fn named_position_in(name: Seq<char>, positions: Map<Seq<char>, int>) -> Option<
    int,
> {
    if positions.contains_key(name) {
        Some(positions[name])
    } else {
        None
    }
}

/// What a dependency view shows of a spec.
pub open spec fn info_of(s: SpecView) -> InfoView {
    InfoView { spec_name: s.spec_name, title: s.title, status: s.status }
}

/// What the first `k` references show: one entry for each reference that
/// names a spec of the set, in order.
pub open spec fn dependency_infos(
    deps: Seq<Seq<char>>,
    specs: Seq<SpecView>,
    positions: Map<Seq<char>, int>,
    k: int,
) -> Seq<InfoView>
    decreases k,
{
    if k <= 0 {
        Seq::empty()
    } else {
        let rest = dependency_infos(deps, specs, positions, k - 1);
        match referenced_position(deps[k - 1], positions) {
            Some(p) => rest.push(info_of(specs[p])),
            None => rest,
        }
    }
}

/// What the first `k` names of dependents show: one entry for each name that
/// a spec of the set answers to, in order.
pub open spec fn dependent_infos(
    names: Seq<Seq<char>>,
    specs: Seq<SpecView>,
    positions: Map<Seq<char>, int>,
    k: int,
) -> Seq<InfoView>
    decreases k,
{
    if k <= 0 {
        Seq::empty()
    } else {
        let rest = dependent_infos(names, specs, positions, k - 1);
        match named_position_in(names[k - 1], positions) {
            Some(p) => rest.push(info_of(specs[p])),
            None => rest,
        }
    }
}

/// The dependencies of `spec` within `all`.
pub open spec fn dependencies_of(spec: SpecView, all: Seq<SpecView>) -> SpecDependenciesView {
    let positions = indexed_positions(all);
    SpecDependenciesView {
        depends_on: dependency_infos(spec.depends_on, all, positions, spec.depends_on.len() as int),
        required_by: dependent_infos(
            spec.required_by,
            all,
            positions,
            spec.required_by.len() as int,
        ),
    }
}

/// An index from names to positions in a set of specs.
struct PositionIndex {
    map: StringHashMap<usize>,
}

impl PositionIndex {
    /// The positions by name.
    closed spec fn view(&self) -> Map<Seq<char>, int> {
        Map::new(|k: Seq<char>| self.map@.contains_key(k), |k: Seq<char>| self.map@[k] as int)
    }

    /// Whether every position in the index lies below `n`.
    closed spec fn below(&self, n: int) -> bool {
        forall|k: Seq<char>| self.map@.contains_key(k) ==> (#[trigger] self.map@[k]) < n
    }

    /// An empty index.
    fn new() -> (r: PositionIndex)
        ensures
            r.view() == Map::<Seq<char>, int>::empty(),
            r.below(0),
    {
        let r = PositionIndex { map: StringHashMap::new() };
        assert(r.view() =~= Map::<Seq<char>, int>::empty());
        r
    }

    /// Enters `position` under `name`.
    fn insert(&mut self, name: String, position: usize)
        requires
            old(self).below(position + 1),
        ensures
            final(self).view() == old(self).view().insert(name@, position as int),
            final(self).below(position + 1),
    {
        self.map.insert(name, position);
        assert(self.view() =~= old(self).view().insert(name@, position as int));
    }

    /// The position entered under `name`.
    fn get(&self, name: &str) -> (r: Option<usize>)
        ensures
            match r {
                Some(p) => self.view().contains_key(name@) && self.view()[name@] == p,
                None => !self.view().contains_key(name@),
            },
    {
        match self.map.get(name) {
            Some(p) => Some(*p),
            None => None,
        }
    }

    /// A position found in an index that lies below `n` lies below `n`.
    proof fn lemma_below(&self, n: int, name: Seq<char>)
        requires
            self.below(n),
            self.view().contains_key(name),
        ensures
            0 <= self.view()[name] < n,
    {
    }

    /// An index that lies below `n` lies below anything larger.
    proof fn lemma_below_more(&self, n: int, m: int)
        requires
            self.below(n),
            n <= m,
        ensures
            self.below(m),
    {
    }
}

/// Indexes the positions of a set of specs.
fn index_positions(specs: &[Spec]) -> (r: PositionIndex)
    ensures
        r.view() == indexed_positions(specs.deep_view()),
        r.below(specs.len() as int),
{
    let ghost views = specs.deep_view();
    let mut index = PositionIndex::new();
    let mut i: usize = 0;
    assert(views.take(0) =~= Seq::<SpecView>::empty());
    while i < specs.len()
        invariant
            i <= specs.len(),
            views == specs.deep_view(),
            index.view() == indexed_positions(views.take(i as int)),
            index.below(i as int),
        decreases specs.len() - i,
    {
        let spec = &specs[i];
        proof {
            assert(views[i as int] == specs@[i as int]@);
            assert(views.take(i + 1).drop_last() =~= views.take(i as int));
            assert(views.take(i + 1).last() == spec@);
        }
        proof {
            index.lemma_below_more(i as int, i + 1);
        }
        index.insert(spec.spec_name.clone(), i);
        match spec.spec_number {
            Some(n) => {
                index.insert(from_chars(&padded_decimal_chars(n)), i);
                index.insert(from_chars(&signed_decimal_chars(n)), i);
            },
            None => {},
        }
        i += 1;
    }
    assert(views.take(specs.len() as int) =~= views);
    index
}

/// What a dependency view shows of a spec.
fn make_info(spec: &Spec) -> (r: DependencyInfo)
    ensures
        r@ == info_of(spec@),
{
    DependencyInfo {
        spec_name: spec.spec_name.clone(),
        title: copy_optional(&spec.title),
        status: spec.status.clone(),
    }
}

/// The position of the spec that a dependency reference names.
fn position_referenced(dep: &str, index: &PositionIndex) -> (r: Option<usize>)
    ensures
        match r {
            Some(p) => referenced_position(dep@, index.view()) == Some(p as int),
            None => referenced_position(dep@, index.view()) is None,
        },
{
    let chars = to_chars(dep);
    let trimmed = from_chars(&trim_chars(&chars));
    match index.get(trimmed.as_str()) {
        Some(p) => {
            return Some(p);
        },
        None => {},
    }
    match reference_number_of(&chars) {
        Some(n) => index.get(from_chars(&signed_decimal_chars(n)).as_str()),
        None => None,
    }
}

/// The dependencies of one spec within a set: what its references name, and
/// what its dependents are, each with name, title and status.
///
/// A reference that names no spec of the set is left out; so is the name of a
/// dependent that no spec of the set answers to.
pub fn get_spec_dependencies(spec: &Spec, all_specs: &[Spec]) -> (r: SpecDependencies)
    ensures
        r@ == dependencies_of(spec@, all_specs.deep_view()),
{
    let ghost views = all_specs.deep_view();
    let index = index_positions(all_specs);
    let ghost positions = index.view();
    let mut depends_on: Vec<DependencyInfo> = Vec::new();
    let mut k: usize = 0;
    assert(depends_on.deep_view() =~= dependency_infos(spec@.depends_on, views, positions, 0));
    while k < spec.depends_on.len()
        invariant
            k <= spec.depends_on.len(),
            spec@.depends_on.len() == spec.depends_on.len(),
            views == all_specs.deep_view(),
            positions == index.view(),
            index.below(all_specs.len() as int),
            depends_on.deep_view() == dependency_infos(
                spec@.depends_on,
                views,
                positions,
                k as int,
            ),
        decreases spec.depends_on.len() - k,
    {
        let ghost before = depends_on.deep_view();
        assert(spec@.depends_on[k as int] == spec.depends_on@[k as int]@);
        match position_referenced(spec.depends_on[k].as_str(), &index) {
            Some(p) => {
                proof {
                    let t = trim(spec@.depends_on[k as int]);
                    if positions.contains_key(t) {
                        index.lemma_below(all_specs.len() as int, t);
                    } else {
                        let n = reference_number(spec@.depends_on[k as int]).unwrap();
                        index.lemma_below(all_specs.len() as int, signed_decimal(n as int));
                    }
                    assert(views[p as int] == all_specs@[p as int]@);
                }
                let info = make_info(&all_specs[p]);
                depends_on.push(info);
                assert(depends_on.deep_view() =~= before.push(info@));
            },
            None => {},
        }
        k += 1;
    }
    let mut required_by: Vec<DependencyInfo> = Vec::new();
    let mut m: usize = 0;
    assert(required_by.deep_view() =~= dependent_infos(spec@.required_by, views, positions, 0));
    while m < spec.required_by.len()
        invariant
            m <= spec.required_by.len(),
            spec@.required_by.len() == spec.required_by.len(),
            views == all_specs.deep_view(),
            positions == index.view(),
            index.below(all_specs.len() as int),
            required_by.deep_view() == dependent_infos(
                spec@.required_by,
                views,
                positions,
                m as int,
            ),
        decreases spec.required_by.len() - m,
    {
        let ghost before = required_by.deep_view();
        assert(spec@.required_by[m as int] == spec.required_by@[m as int]@);
        match index.get(spec.required_by[m].as_str()) {
            Some(p) => {
                proof {
                    index.lemma_below(all_specs.len() as int, spec@.required_by[m as int]);
                    assert(views[p as int] == all_specs@[p as int]@);
                }
                let info = make_info(&all_specs[p]);
                required_by.push(info);
                assert(required_by.deep_view() =~= before.push(info@));
            },
            None => {},
        }
        m += 1;
    }
    SpecDependencies { depends_on, required_by }
}

} // verus!
