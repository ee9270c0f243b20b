//! Splitting a query plan into stages that run in different places.

use std::collections::{HashMap, HashSet};
use std::sync::Arc;
use vstd::prelude::*;

use crate::frontend::plan_node::node::{base_of, distribution_of, inputs_of, PlanNode, PlanRef};
use crate::frontend::property::{DistView, Distribution, WithDistribution};

verus! {

broadcast use vstd::std_specs::hash::group_hash_axioms;

/// The number of a stage.
pub type StageId = u64;

/// Fragment part of `Query`.
#[derive(Debug)]
pub struct QueryStage {
    pub id: StageId,
    pub root: PlanRef,
    pub distribution: Distribution,
}

/// A stage that is shared.
pub type QueryStageRef = Arc<QueryStage>;

/// A stage by its meaning.
pub struct StageView {
    pub id: StageId,
    pub root: PlanRef,
    pub dist: DistView,
}

/// Stages by their meaning.
pub open spec fn stage_views(stages: Map<StageId, QueryStageRef>) -> Map<StageId, StageView> {
    stages.map_values(|s: QueryStageRef| StageView { id: s.id, root: s.root, dist: s.distribution@ })
}

/// Edges by their meaning.
pub open spec fn edge_views(edges: Map<StageId, HashSet<StageId>>) -> Map<StageId, Set<StageId>> {
    edges.map_values(|s: HashSet<StageId>| s@)
}

/// The stages and how they are connected.
#[verifier::ext_equal]
pub struct GraphView {
    pub stages: Map<StageId, StageView>,
    pub child_edges: Map<StageId, Set<StageId>>,
    pub parent_edges: Map<StageId, Set<StageId>>,
    pub exchange_id_to_stage: Map<i32, StageId>,
}

/// The stages at the other ends of a stage's edges.
pub open spec fn ends(edges: Map<StageId, Set<StageId>>, id: StageId) -> Set<StageId> {
    if edges.contains_key(id) {
        edges[id]
    } else {
        Set::empty()
    }
}

/// The edges with one more.
pub open spec fn with_edge(edges: Map<StageId, Set<StageId>>, from: StageId, to: StageId) -> Map<
    StageId,
    Set<StageId>,
> {
    edges.insert(from, ends(edges, from).insert(to))
}

/// The graph with a link from a parent stage to a child stage.
pub open spec fn with_link(g: GraphView, parent: StageId, exchange_id: i32, child: StageId) -> GraphView {
    GraphView {
        stages: g.stages,
        child_edges: with_edge(g.child_edges, parent, child),
        parent_edges: with_edge(g.parent_edges, child, parent),
        exchange_id_to_stage: g.exchange_id_to_stage.insert(exchange_id, child),
    }
}

/// The graph with one more stage.
pub open spec fn with_stage(g: GraphView, stage: StageView) -> GraphView {
    GraphView { stages: g.stages.insert(stage.id, stage), ..g }
}

/// Edges for every stage: where a stage has none, an empty set stands for that.
pub open spec fn completed(edges: Map<StageId, Set<StageId>>, ids: Set<StageId>) -> Map<StageId, Set<StageId>> {
    Map::new(|id: StageId| edges.contains_key(id) || ids.contains(id), |id: StageId| ends(edges, id))
}

/// A graph without stages.
pub open spec fn empty_graph() -> GraphView {
    GraphView {
        stages: Map::empty(),
        child_edges: Map::empty(),
        parent_edges: Map::empty(),
        exchange_id_to_stage: Map::empty(),
    }
}

/// Maintains how each stage are connected.
pub struct StageGraph {
    pub id: StageId,
    pub stages: HashMap<StageId, QueryStageRef>,
    /// Traverse from top to down. Used in split plan into stages.
    pub child_edges: HashMap<StageId, HashSet<StageId>>,
    /// Traverse from down to top. Used in schedule each stage.
    pub parent_edges: HashMap<StageId, HashSet<StageId>>,
    /// Indicates which stage the exchange executor is running on.
    /// Look up child stage for exchange source so that parent stage knows where to pull data.
    pub exchange_id_to_stage: HashMap<i32, StageId>,
}

impl View for StageGraph {
    type V = GraphView;

    open spec fn view(&self) -> GraphView {
        GraphView {
            stages: stage_views(self.stages@),
            child_edges: edge_views(self.child_edges@),
            parent_edges: edge_views(self.parent_edges@),
            exchange_id_to_stage: self.exchange_id_to_stage@,
        }
    }
}

impl StageGraph {
    /// The stage with the given number, which exists.
    pub fn get_stage_unchecked(&self, stage_id: &StageId) -> (r: QueryStageRef)
        requires
            self@.stages.contains_key(*stage_id),
        ensures
            self.stages@.contains_key(*stage_id),
            r == self.stages@[*stage_id],
            (StageView { id: r.id, root: r.root, dist: r.distribution@ }) == self@.stages[*stage_id],
    {
        self.stages.get(stage_id).unwrap().clone()
    }

    /// The children of a stage that exists.
    pub fn get_child_stages_unchecked(&self, stage_id: &StageId) -> (r: &HashSet<StageId>)
        requires
            self@.child_edges.contains_key(*stage_id),
        ensures
            r@ == self@.child_edges[*stage_id],
    {
        self.child_edges.get(stage_id).unwrap()
    }
}

/// The stage exists and has no children.
pub open spec fn is_leaf(g: GraphView, id: StageId) -> bool {
    g.stages.contains_key(id) && g.child_edges[id] == Set::<StageId>::empty()
}

/// `x` occurs in the list from position `i` on.
spec fn pending(seq: Seq<&StageId>, i: int, x: StageId) -> bool {
    exists|k: int| i <= k < seq.len() && *(#[trigger] seq[k]) == x
}

/// Contains the connection info of each stage.
pub struct Query {
    /// Query id should always be unique.
    pub query_id: u128,
    pub stage_graph: StageGraph,
}

impl Query {
    /// The stages without children, each once, in some order.
    pub fn leaf_stages(&self) -> (r: Vec<StageId>)
        requires
            self.stage_graph@.stages.dom().subset_of(self.stage_graph@.child_edges.dom()),
        ensures
            r@.no_duplicates(),
            forall|id: StageId| #[trigger] r@.contains(id) <==> is_leaf(self.stage_graph@, id),
    {
        let mut r: Vec<StageId> = Vec::new();
        for id in iter: self.stage_graph.stages.keys()
            invariant
                self.stage_graph@.stages.dom().subset_of(self.stage_graph@.child_edges.dom()),
                iter.seq().unref().to_set() == self.stage_graph.stages@.dom(),
                iter.seq().no_duplicates(),
                r@.no_duplicates(),
                forall|x: StageId| #[trigger]
                    r@.contains(x) ==> is_leaf(self.stage_graph@, x) && !pending(iter.seq(), iter.index(), x),
                forall|x: StageId| #[trigger]
                    is_leaf(self.stage_graph@, x) ==> r@.contains(x) || pending(iter.seq(), iter.index(), x),
        {
            let ghost before = r@;
            let ghost i = iter.index();
            let ghost seq = iter.seq();
            proof {
                assert(seq.unref()[i] == *id);
                assert(seq.unref().to_set().contains(*id));
                assert(self.stage_graph@.stages.contains_key(*id));
                assert(self.stage_graph@.child_edges.contains_key(*id));
                assert(pending(seq, i, *id)) by {
                    assert(*seq[i] == *id);
                }
                assert forall|x: StageId| pending(seq, i + 1, x) == (pending(seq, i, x) && x != *id) by {
                    if pending(seq, i, x) {
                        let k = choose|k: int| i <= k < seq.len() && *(#[trigger] seq[k]) == x;
                        if x != *id {
                            assert(k != i);
                        }
                    }
                    if pending(seq, i + 1, x) {
                        let k = choose|k: int| i + 1 <= k < seq.len() && *(#[trigger] seq[k]) == x;
                        assert(seq[k] != seq[i]);
                    }
                }
            }
            let children = self.stage_graph.get_child_stages_unchecked(id);
            proof {
                assert(is_leaf(self.stage_graph@, *id) == (children@ =~= Set::<StageId>::empty()));
            }
            if children.is_empty() {
                r.push(*id);
                proof {
                    assert(!before.contains(*id));
                    assert forall|a: int, b: int| 0 <= a < b < r@.len() implies r@[a] != r@[b] by {
                        if b == before.len() {
                            assert(before.contains(before[a]));
                        }
                    }
                    assert forall|x: StageId| #[trigger] r@.contains(x) == (before.contains(x) || x == *id) by {
                        if before.contains(x) {
                            let k = before.index_of(x);
                            assert(r@[k] == x);
                        }
                        assert(r@[before.len() as int] == *id);
                    }
                }
            }
        }
        proof {
            assert forall|id: StageId| #[trigger] r@.contains(id) <==> is_leaf(self.stage_graph@, id) by {
                if is_leaf(self.stage_graph@, id) {
                    assert(r@.contains(id));
                }
            }
        }
        r
    }

    /// The parents of a stage that exists.
    pub fn get_parents(&self, stage_id: &StageId) -> (r: &HashSet<StageId>)
        requires
            self.stage_graph@.parent_edges.contains_key(*stage_id),
        ensures
            r@ == self.stage_graph@.parent_edges[*stage_id],
    {
        self.stage_graph.parent_edges.get(stage_id).unwrap()
    }
}

/// Collects the stages and how they are connected.
pub struct StageGraphBuilder {
    stages: HashMap<StageId, QueryStageRef>,
    child_edges: HashMap<StageId, HashSet<StageId>>,
    parent_edges: HashMap<StageId, HashSet<StageId>>,
    exchange_id_to_stage: HashMap<i32, StageId>,
}

impl View for StageGraphBuilder {
    type V = GraphView;

    closed spec fn view(&self) -> GraphView {
        GraphView {
            stages: stage_views(self.stages@),
            child_edges: edge_views(self.child_edges@),
            parent_edges: edge_views(self.parent_edges@),
            exchange_id_to_stage: self.exchange_id_to_stage@,
        }
    }
}

/// Adds an edge.
fn add_edge(edges: &mut HashMap<StageId, HashSet<StageId>>, from: StageId, to: StageId)
    ensures
        edge_views(final(edges)@) == with_edge(edge_views(old(edges)@), from, to),
{
    let ghost before = edges@;
    // If the stage does not exist, create a new set containing the other stage. Otherwise
    // just insert.
    let mut targets = match edges.remove(&from) {
        Some(targets) => targets,
        None => HashSet::new(),
    };
    targets.insert(to);
    edges.insert(from, targets);
    proof {
        assert(edge_views(edges@) =~= with_edge(edge_views(before), from, to));
    }
}

/// Gives the stage an empty set of edges if it has no edges.
fn complete_edges(edges: &mut HashMap<StageId, HashSet<StageId>>, id: StageId)
    ensures
        edge_views(final(edges)@) == completed(edge_views(old(edges)@), Set::empty().insert(id)),
{
    let ghost before = edges@;
    if edges.get(&id).is_none() {
        edges.insert(id, HashSet::new());
    }
    proof {
        assert(edge_views(edges@) =~= completed(edge_views(before), Set::empty().insert(id)));
    }
}

impl StageGraphBuilder {
    /// A builder without stages.
    pub fn new() -> (r: StageGraphBuilder)
        ensures
            r@ == empty_graph(),
    {
        let r = StageGraphBuilder {
            stages: HashMap::new(),
            child_edges: HashMap::new(),
            parent_edges: HashMap::new(),
            exchange_id_to_stage: HashMap::new(),
        };
        proof {
            assert(r@ =~= empty_graph());
        }
        r
    }

    /// The graph of the stages. Every stage has a set of children and of parents.
    pub fn build(self, stage_id: StageId) -> (r: StageGraph)
        ensures
            r.id == stage_id,
            r@ == complete_graph(self@),
    {
        let mut child_edges = self.child_edges;
        let mut parent_edges = self.parent_edges;
        let ghost children = edge_views(child_edges@);
        let ghost parents = edge_views(parent_edges@);
        for id in iter: self.stages.keys()
            invariant
                iter.seq().unref().to_set() == self.stages@.dom(),
                forall|x: StageId| children.contains_key(x) ==> #[trigger] edge_views(child_edges@).contains_key(x),
                forall|x: StageId| parents.contains_key(x) ==> #[trigger] edge_views(parent_edges@).contains_key(x),
                forall|x: StageId| #[trigger]
                    edge_views(child_edges@).contains_key(x) ==> (children.contains_key(x)
                        || self.stages@.contains_key(x)) && edge_views(child_edges@)[x] == ends(children, x),
                forall|x: StageId| #[trigger]
                    edge_views(parent_edges@).contains_key(x) ==> (parents.contains_key(x)
                        || self.stages@.contains_key(x)) && edge_views(parent_edges@)[x] == ends(parents, x),
                forall|x: StageId| #[trigger]
                    self.stages@.contains_key(x) ==> (edge_views(child_edges@).contains_key(x) && edge_views(
                        parent_edges@,
                    ).contains_key(x)) || pending(iter.seq(), iter.index(), x),
        {
            let ghost i = iter.index();
            let ghost seq = iter.seq();
            proof {
                assert(seq.unref()[i] == *id);
                assert(seq.unref().to_set().contains(*id));
                assert forall|x: StageId| pending(seq, i, x) implies x == *id || pending(seq, i + 1, x) by {
                    let k = choose|k: int| i <= k < seq.len() && *(#[trigger] seq[k]) == x;
                    assert(k == i || i + 1 <= k);
                }
            }
            complete_edges(&mut child_edges, *id);
            complete_edges(&mut parent_edges, *id);
        }
        proof {
            assert(edge_views(child_edges@) =~= completed(children, self.stages@.dom()));
            assert(edge_views(parent_edges@) =~= completed(parents, self.stages@.dom()));
            assert(stage_views(self.stages@).dom() =~= self.stages@.dom());
        }
        StageGraph {
            id: stage_id,
            stages: self.stages,
            child_edges,
            parent_edges,
            exchange_id_to_stage: self.exchange_id_to_stage,
        }
    }

    /// Link parent stage and child stage. Maintain the mappings of parent -> child and child ->
    /// parent.
    ///
    /// # Arguments
    ///
    /// * `exchange_id` - The operator id of exchange executor.
    pub fn link_to_child(&mut self, parent_id: StageId, exchange_id: i32, child_id: StageId)
        ensures
            final(self)@ == with_link(old(self)@, parent_id, exchange_id, child_id),
    {
        add_edge(&mut self.child_edges, parent_id, child_id);
        add_edge(&mut self.parent_edges, child_id, parent_id);
        self.exchange_id_to_stage.insert(exchange_id, child_id);
    }

    /// Adds a stage.
    pub fn add_node(&mut self, stage: QueryStageRef)
        ensures
            final(self)@ == with_stage(
                old(self)@,
                (StageView { id: stage.id, root: stage.root, dist: stage.distribution@ }),
            ),
    {
        let ghost before = self.stages@;
        self.stages.insert(stage.id, stage);
        proof {
            assert(stage_views(self.stages@) =~= stage_views(before).insert(
                stage.id,
                StageView { id: stage.id, root: stage.root, dist: stage.distribution@ },
            ));
        }
    }
}

/// A call of the builder.
pub enum BuildStep {
    Node(StageView),
    Link { parent: StageId, exchange_id: i32, child: StageId },
}

/// What the builder holds after the first `n` calls.
pub open spec fn built(steps: Seq<BuildStep>, n: int) -> GraphView
    decreases n,
{
    if n <= 0 {
        empty_graph()
    } else {
        match steps[n - 1] {
            BuildStep::Node(stage) => with_stage(built(steps, n - 1), stage),
            BuildStep::Link { parent, exchange_id, child } => with_link(
                built(steps, n - 1),
                parent,
                exchange_id,
                child,
            ),
        }
    }
}

/// One of the first `n` calls linked the parent to the child.
pub open spec fn linked(steps: Seq<BuildStep>, n: int, parent: StageId, child: StageId) -> bool {
    exists|k: int|
        0 <= k < n && #[trigger] steps[k] is Link && steps[k]->parent == parent && steps[k]->child == child
}

/// A stage that was added, and not replaced, is what the graph holds under its number.
pub proof fn law_added_stage_is_found(steps: Seq<BuildStep>, n: int, k: int)
    requires
        0 <= k < n <= steps.len(),
        steps[k] is Node,
        forall|j: int| k < j < n && #[trigger] steps[j] is Node ==> (steps[j]->Node_0).id != (steps[k]->Node_0).id,
    ensures
        complete_graph(built(steps, n)).stages.contains_key((steps[k]->Node_0).id),
        complete_graph(built(steps, n)).stages[(steps[k]->Node_0).id] == steps[k]->Node_0,
    decreases n,
{
    if k < n - 1 {
        law_added_stage_is_found(steps, n - 1, k);
    }
}

/// The graph holds no stage that was not added.
pub proof fn law_only_added_stages_are_found(steps: Seq<BuildStep>, n: int, id: StageId)
    requires
        0 <= n <= steps.len(),
        forall|j: int| 0 <= j < n && #[trigger] steps[j] is Node ==> (steps[j]->Node_0).id != id,
    ensures
        !complete_graph(built(steps, n)).stages.contains_key(id),
    decreases n,
{
    if n > 0 {
        law_only_added_stages_are_found(steps, n - 1, id);
    }
}

proof fn lemma_edges_are_links(steps: Seq<BuildStep>, n: int, parent: StageId, child: StageId)
    requires
        0 <= n <= steps.len(),
    ensures
        ends(built(steps, n).child_edges, parent).contains(child) == linked(steps, n, parent, child),
        ends(built(steps, n).parent_edges, child).contains(parent) == linked(steps, n, parent, child),
    decreases n,
{
    if n > 0 {
        lemma_edges_are_links(steps, n - 1, parent, child);
        let last = steps[n - 1];
        let same = last is Link && last->parent == parent && last->child == child;
        assert(linked(steps, n, parent, child) == (linked(steps, n - 1, parent, child) || same)) by {
            if linked(steps, n - 1, parent, child) {
                let k = choose|k: int|
                    0 <= k < n - 1 && #[trigger] steps[k] is Link && steps[k]->parent == parent && steps[k]->child
                        == child;
                assert(steps[k] is Link);
            }
            if same {
                assert(steps[n - 1] is Link);
            }
        }
    }
}

/// In every graph that a builder makes, a stage that was added has a set of children and
/// of parents. Its children are the stages to which it was linked, and children and
/// parents mirror each other.
pub proof fn law_children_mirror_parents(steps: Seq<BuildStep>, n: int, parent: StageId, child: StageId)
    requires
        0 <= n <= steps.len(),
    ensures
        ({
            let g = complete_graph(built(steps, n));
            &&& g.stages.contains_key(parent) ==> g.child_edges.contains_key(parent) && g.parent_edges.contains_key(
                parent,
            )
            &&& g.child_edges.contains_key(parent) ==> g.child_edges[parent].contains(child) == linked(
                steps,
                n,
                parent,
                child,
            )
            &&& g.parent_edges.contains_key(child) ==> g.parent_edges[child].contains(parent) == linked(
                steps,
                n,
                parent,
                child,
            )
            &&& (g.child_edges.contains_key(parent) && g.child_edges[parent].contains(child)) <==> (
            g.parent_edges.contains_key(child) && g.parent_edges[child].contains(parent))
        }),
{
    lemma_edges_are_links(steps, n, parent, child);
}

/// The graph with edges for every stage.
pub open spec fn complete_graph(g: GraphView) -> GraphView {
    GraphView {
        stages: g.stages,
        child_edges: completed(g.child_edges, g.stages.dom()),
        parent_edges: completed(g.parent_edges, g.stages.dom()),
        exchange_id_to_stage: g.exchange_id_to_stage,
    }
}

/// The plans right below a plan's root.
pub open spec fn below(plan: PlanRef) -> Seq<PlanRef> {
    inputs_of(*plan)
}

/// The id of a plan's root.
pub open spec fn id_of(plan: PlanRef) -> i32 {
    base_of(*plan)@.id
}

/// What the splitting has so far: the graph, and the number of the next stage.
#[verifier::ext_equal]
pub struct SplitView {
    pub graph: GraphView,
    pub next: int,
}

/// Each plan right below a node is a smaller plan.
pub proof fn lemma_input_smaller(node: PlanRef, i: int)
    requires
        0 <= i < below(node).len(),
    ensures
        decreases_to!(node => below(node)[i]),
{
    match &*node {
        PlanNode::LogicalInsert(n) => {
            assert(decreases_to!(node => n.input));
        },
        PlanNode::LogicalProject(n) => {
            assert(decreases_to!(node => n.input));
        },
        PlanNode::LogicalAgg(n) => {
            assert(decreases_to!(node => n.input));
        },
        PlanNode::LogicalJoin(n) => {
            assert(decreases_to!(node => n.left));
            assert(decreases_to!(node => n.right));
        },
        PlanNode::BatchHashJoin(n) => {
            assert(decreases_to!(node => n.logical.left));
            assert(decreases_to!(node => n.logical.right));
        },
        PlanNode::BatchExchange(n) => {
            assert(decreases_to!(node => n.input));
        },
        PlanNode::StreamHashJoin(n) => {
            assert(decreases_to!(node => n.logical.left));
            assert(decreases_to!(node => n.logical.right));
        },
        PlanNode::StreamExchange(n) => {
            assert(decreases_to!(node => n.input));
        },
        _ => {},
    }
}

/// The state with a new stage for a plan.
pub open spec fn opened(s: SplitView, root: PlanRef) -> SplitView {
    SplitView {
        graph: with_stage(
            s.graph,
            StageView { id: s.next as StageId, root, dist: distribution_of(*root) },
        ),
        next: s.next + 1,
    }
}

/// The state after the plan was split that belongs, up to its exchanges, to the
/// stage `cur`.
pub open spec fn split_spec(node: PlanRef, cur: StageId, s: SplitView) -> SplitView
    decreases node, 1int, 0int,
{
    split_inputs(node, below(node).len() as int, cur, s)
}

/// The state after the first `n` plans below a node were split. Those below an
/// exchange form stages of their own.
pub open spec fn split_inputs(node: PlanRef, n: int, cur: StageId, s: SplitView) -> SplitView
    decreases node, 0int, n,
{
    if n <= 0 || n > below(node).len() {
        s
    } else {
        proof {
            lemma_input_smaller(node, n - 1);
        }
        let before = split_inputs(node, n - 1, cur, s);
        let child = below(node)[n - 1];
        if *node is BatchExchange {
            let stage = before.next as StageId;
            let with = opened(before, child);
            split_spec(
                child,
                stage,
                SplitView { graph: with_link(with.graph, cur, id_of(node), stage), next: with.next },
            )
        } else {
            split_spec(child, cur, before)
        }
    }
}

/// How many stages the plan adds to the one that it belongs to.
pub open spec fn added_stages(node: PlanRef) -> int
    decreases node, 1int, 0int,
{
    added_by_inputs(node, below(node).len() as int)
}

/// How many stages the first `n` plans below a node add.
pub open spec fn added_by_inputs(node: PlanRef, n: int) -> int
    decreases node, 0int, n,
{
    if n <= 0 || n > below(node).len() {
        0
    } else {
        proof {
            lemma_input_smaller(node, n - 1);
        }
        added_by_inputs(node, n - 1) + (if *node is BatchExchange {
            1int
        } else {
            0int
        }) + added_stages(below(node)[n - 1])
    }
}

/// The splitting numbers as many stages as the plan adds.
pub proof fn law_split_counts_stages(node: PlanRef, cur: StageId, s: SplitView)
    ensures
        split_spec(node, cur, s).next == s.next + added_stages(node),
        added_stages(node) >= 0,
    decreases node, 1int, 0int,
{
    lemma_split_inputs_count(node, below(node).len() as int, cur, s);
}

proof fn lemma_split_inputs_count(node: PlanRef, n: int, cur: StageId, s: SplitView)
    requires
        0 <= n <= below(node).len(),
    ensures
        split_inputs(node, n, cur, s).next == s.next + added_by_inputs(node, n),
        added_by_inputs(node, n) >= 0,
    decreases node, 0int, n,
{
    if n > 0 {
        lemma_split_inputs_count(node, n - 1, cur, s);
        lemma_input_smaller(node, n - 1);
        let before = split_inputs(node, n - 1, cur, s);
        let child = below(node)[n - 1];
        let stage = before.next as StageId;
        let with = opened(before, child);
        law_split_counts_stages(
            child,
            stage,
            SplitView { graph: with_link(with.graph, cur, id_of(node), stage), next: with.next },
        );
        law_split_counts_stages(child, cur, before);
    }
}

proof fn lemma_added_prefix(node: PlanRef, i: int, n: int)
    requires
        0 <= i <= n <= below(node).len(),
    ensures
        added_by_inputs(node, i) <= added_by_inputs(node, n),
    decreases n,
{
    if i < n {
        lemma_added_prefix(node, i, n - 1);
        law_split_counts_stages(below(node)[n - 1], 0, SplitView { graph: empty_graph(), next: 0 });
    }
}

/// `BatchPlanFragmenter` splits a query plan into fragments.
pub struct BatchPlanFragmenter {
    stage_graph_builder: StageGraphBuilder,
    next_stage_id: u64,
}

impl View for BatchPlanFragmenter {
    type V = SplitView;

    closed spec fn view(&self) -> SplitView {
        SplitView { graph: self.stage_graph_builder@, next: self.next_stage_id as int }
    }
}

/// `uuid::Uuid::new_v4` makes a random number, of which nothing is known.
#[verifier::external_body]
fn random_query_id() -> (r: u128) {
    uuid::Uuid::new_v4().as_u128()
}

/// The graph of a whole plan: its root forms the stage with the number 0.
pub open spec fn split_plan(node: PlanRef) -> SplitView {
    split_spec(node, 0, opened(SplitView { graph: empty_graph(), next: 0 }, node))
}

impl BatchPlanFragmenter {
    /// A fragmenter that has seen no plan.
    pub fn new() -> (r: BatchPlanFragmenter)
        ensures
            r@ == (SplitView { graph: empty_graph(), next: 0 }),
    {
        BatchPlanFragmenter { stage_graph_builder: StageGraphBuilder::new(), next_stage_id: 0 }
    }

    /// Split the plan node into each stages, based on exchange node.
    pub fn split(self, batch_node: PlanRef) -> (r: Query)
        requires
            self@ == (SplitView { graph: empty_graph(), next: 0 }),
            added_stages(batch_node) < u64::MAX,
        ensures
            r.stage_graph.id == 0,
            r.stage_graph@ == complete_graph(split_plan(batch_node).graph),
    {
        let query_id: u128 = random_query_id();
        self.split_with_id(batch_node, query_id)
    }

    /// Split the plan node into each stages; the query gets the given id.
    pub fn split_with_id(self, batch_node: PlanRef, query_id: u128) -> (r: Query)
        requires
            self@ == (SplitView { graph: empty_graph(), next: 0 }),
            added_stages(batch_node) < u64::MAX,
        ensures
            r.query_id == query_id,
            r.stage_graph.id == 0,
            r.stage_graph@ == complete_graph(split_plan(batch_node).graph),
    {
        let mut fragmenter = self;
        let root_id = fragmenter.new_query_stage(&batch_node);
        fragmenter.build_stage(root_id, &batch_node);
        let stage_graph = fragmenter.stage_graph_builder.build(root_id);
        Query { query_id, stage_graph }
    }

    /// Opens a stage for a plan.
    fn new_query_stage(&mut self, node: &PlanRef) -> (r: StageId)
        requires
            old(self)@.next < u64::MAX,
        ensures
            r == old(self)@.next,
            final(self)@ == opened(old(self)@, *node),
    {
        let next_stage_id: u64 = self.next_stage_id;
        self.next_stage_id = next_stage_id + 1;
        let stage = Arc::new(
            QueryStage { id: next_stage_id, root: node.clone(), distribution: node.distribution().copy() },
        );
        self.stage_graph_builder.add_node(stage);
        next_stage_id
    }

    /// Based on current stage, use stage graph builder to recursively build the DAG plan (splits
    /// the plan by exchange node.). Children under pipeline-breaker separately forms a stage
    /// (aka plan fragment).
    fn build_stage(&mut self, cur_stage: StageId, node: &PlanRef)
        requires
            old(self)@.next + added_stages(*node) <= u64::MAX,
        ensures
            final(self)@ == split_spec(*node, cur_stage, old(self)@),
        decreases *node,
    {
        // NOTE: The breaker's children will not be logically removed after plan slicing,
        // but their serialized plan will ignore the children. Therefore, the compute-node
        // will eventually only receive the sliced part.
        let ghost start = self@;
        let inputs = node.inputs();
        let is_exchange: bool = matches!(&**node, PlanNode::BatchExchange(_));
        let exchange_id: i32 = node.plan_base().id;
        let ghost n = inputs@.len() as int;
        let mut i: usize = 0;
        while i < inputs.len()
            invariant
                i <= n,
                n == inputs@.len(),
                inputs@ == below(*node),
                is_exchange == (**node is BatchExchange),
                exchange_id == id_of(*node),
                start.next + added_by_inputs(*node, n) <= u64::MAX,
                self@ == split_inputs(*node, i as int, cur_stage, start),
            decreases n - i,
        {
            proof {
                lemma_input_smaller(*node, i as int);
                lemma_split_inputs_count(*node, i as int, cur_stage, start);
                lemma_added_prefix(*node, i + 1, n);
                law_split_counts_stages(inputs@[i as int], cur_stage, self@);
            }
            if is_exchange {
                // If plan node is a exchange node, for each inputs (child), new a query stage and
                // link with current stage.
                let child_id = self.new_query_stage(&inputs[i]);
                self.stage_graph_builder.link_to_child(cur_stage, exchange_id, child_id);
                self.build_stage(child_id, &inputs[i]);
            } else {
                // All child nodes still belongs to current stage if no exchange.
                self.build_stage(cur_stage, &inputs[i]);
            }
            i = i + 1;
        }
    }
}

/// The stages form a tree: they are numbered from 0 on, the two kinds of edges
/// mirror each other, a child has a larger number than its parent, and every
/// stage but the first has just one parent.
pub open spec fn is_tree(s: SplitView) -> bool {
    &&& forall|id: StageId| #[trigger] s.graph.stages.contains_key(id) <==> id < s.next
    &&& forall|id: StageId| #[trigger] s.graph.stages.contains_key(id) ==> s.graph.stages[id].id == id
    &&& forall|p: StageId, c: StageId| #[trigger]
        ends(s.graph.child_edges, p).contains(c) <==> ends(s.graph.parent_edges, c).contains(p)
    &&& forall|p: StageId, c: StageId| #[trigger]
        ends(s.graph.child_edges, p).contains(c) ==> p < c < s.next
    &&& forall|c: StageId| 1 <= c < s.next ==> #[trigger] has_one_parent(s.graph, c)
}

/// `c` has just one parent, with a smaller number.
pub open spec fn has_one_parent(g: GraphView, c: StageId) -> bool {
    exists|p: StageId| p < c && #[trigger] only_parent(g, p, c)
}

/// `p` is the only parent of `c`.
pub open spec fn only_parent(g: GraphView, p: StageId, c: StageId) -> bool {
    ends(g.parent_edges, c) == Set::empty().insert(p)
}

proof fn lemma_new_child_keeps_tree(s: SplitView, cur: StageId, exchange_id: i32, child: PlanRef)
    requires
        is_tree(s),
        cur < s.next <= u64::MAX,
    ensures
        is_tree(
            SplitView {
                graph: with_link(opened(s, child).graph, cur, exchange_id, s.next as StageId),
                next: s.next + 1,
            },
        ),
{
    let new = s.next as StageId;
    let g = with_link(opened(s, child).graph, cur, exchange_id, new);
    let t = SplitView { graph: g, next: s.next + 1 };
    assert forall|p: StageId, c: StageId|
        ends(g.child_edges, p).contains(c) == (ends(s.graph.child_edges, p).contains(c) || (p == cur && c == new)) by {}
    assert forall|p: StageId, c: StageId|
        ends(g.parent_edges, c).contains(p) == (ends(s.graph.parent_edges, c).contains(p) || (p == cur && c == new)) by {}
    assert forall|c: StageId| 1 <= c < t.next implies #[trigger] has_one_parent(g, c) by {
        if c == new {
            assert(ends(s.graph.parent_edges, new) =~= Set::<StageId>::empty()) by {
                assert forall|p: StageId| !ends(s.graph.parent_edges, new).contains(p) by {
                    if ends(s.graph.parent_edges, new).contains(p) {
                        assert(ends(s.graph.child_edges, p).contains(new));
                    }
                }
            }
            assert(ends(g.parent_edges, new) =~= Set::empty().insert(cur));
            assert(only_parent(g, cur, c));
        } else {
            assert(has_one_parent(s.graph, c));
            let p = choose|p: StageId| p < c && #[trigger] only_parent(s.graph, p, c);
            assert(ends(g.parent_edges, c) == ends(s.graph.parent_edges, c));
            assert(only_parent(g, p, c));
        }
    }
}

proof fn lemma_split_keeps_tree(node: PlanRef, cur: StageId, s: SplitView)
    requires
        is_tree(s),
        cur < s.next,
        s.next + added_stages(node) <= u64::MAX + 1,
    ensures
        is_tree(split_spec(node, cur, s)),
    decreases node, 1int, 0int,
{
    lemma_split_inputs_keep_tree(node, below(node).len() as int, cur, s);
}

proof fn lemma_split_inputs_keep_tree(node: PlanRef, n: int, cur: StageId, s: SplitView)
    requires
        0 <= n <= below(node).len(),
        is_tree(s),
        cur < s.next,
        s.next + added_by_inputs(node, n) <= u64::MAX + 1,
    ensures
        is_tree(split_inputs(node, n, cur, s)),
        split_inputs(node, n, cur, s).next >= s.next,
    decreases node, 0int, n,
{
    lemma_split_inputs_count(node, n, cur, s);
    if n > 0 {
        let before = split_inputs(node, n - 1, cur, s);
        let child = below(node)[n - 1];
        law_split_counts_stages(child, cur, before);
        lemma_split_inputs_keep_tree(node, n - 1, cur, s);
        lemma_split_inputs_count(node, n - 1, cur, s);
        lemma_input_smaller(node, n - 1);
        if let PlanNode::BatchExchange(_) = &*node {
            let stage = before.next as StageId;
            lemma_new_child_keeps_tree(before, cur, id_of(node), child);
            let with = opened(before, child);
            lemma_split_keeps_tree(
                child,
                stage,
                SplitView { graph: with_link(with.graph, cur, id_of(node), stage), next: with.next },
            );
        } else {
            lemma_split_keeps_tree(child, cur, before);
        }
    }
}

/// The stages of a plan form a tree whose root has the number 0.
pub proof fn law_stages_form_tree(node: PlanRef)
    requires
        added_stages(node) < u64::MAX,
    ensures
        is_tree(split_plan(node)),
        split_plan(node).next == 1 + added_stages(node),
{
    let start = opened(SplitView { graph: empty_graph(), next: 0 }, node);
    law_split_counts_stages(node, 0, start);
    assert(is_tree(start));
    lemma_split_keeps_tree(node, 0, start);
}

/// The state `t` has all stages and edges of the state `s`.
pub open spec fn extends(t: SplitView, s: SplitView) -> bool {
    &&& t.next >= s.next
    &&& forall|id: StageId| #[trigger]
        s.graph.stages.contains_key(id) ==> t.graph.stages.contains_key(id) && t.graph.stages[id] == s.graph.stages[id]
    &&& forall|p: StageId, c: StageId| #[trigger]
        ends(s.graph.child_edges, p).contains(c) ==> ends(t.graph.child_edges, p).contains(c)
    &&& forall|e: i32| #[trigger]
        s.graph.exchange_id_to_stage.contains_key(e) ==> t.graph.exchange_id_to_stage.contains_key(e)
}

proof fn lemma_split_extends(node: PlanRef, cur: StageId, s: SplitView)
    requires
        is_tree(s),
        cur < s.next,
        s.next + added_stages(node) <= u64::MAX + 1,
    ensures
        extends(split_spec(node, cur, s), s),
    decreases node, 1int, 0int,
{
    lemma_split_inputs_extend(node, below(node).len() as int, cur, s);
}

proof fn lemma_split_inputs_extend(node: PlanRef, n: int, cur: StageId, s: SplitView)
    requires
        0 <= n <= below(node).len(),
        is_tree(s),
        cur < s.next,
        s.next + added_by_inputs(node, n) <= u64::MAX + 1,
    ensures
        extends(split_inputs(node, n, cur, s), s),
    decreases node, 0int, n,
{
    if n > 0 {
        let before = split_inputs(node, n - 1, cur, s);
        let child = below(node)[n - 1];
        law_split_counts_stages(child, cur, before);
        lemma_split_inputs_extend(node, n - 1, cur, s);
        lemma_split_inputs_keep_tree(node, n - 1, cur, s);
        lemma_split_inputs_count(node, n - 1, cur, s);
        lemma_input_smaller(node, n - 1);
        if let PlanNode::BatchExchange(_) = &*node {
            let stage = before.next as StageId;
            lemma_new_child_keeps_tree(before, cur, id_of(node), child);
            let with = opened(before, child);
            let next = SplitView { graph: with_link(with.graph, cur, id_of(node), stage), next: with.next };
            assert(extends(next, before)) by {
                assert forall|p: StageId, c: StageId| #[trigger]
                    ends(before.graph.child_edges, p).contains(c) implies ends(next.graph.child_edges, p).contains(c) by {}
            }
            lemma_split_extends(child, stage, next);
        } else {
            lemma_split_extends(child, cur, before);
        }
    }
}

/// The first stage holds the plan itself, with its distribution.
pub proof fn law_first_stage_is_the_plan(node: PlanRef)
    requires
        added_stages(node) < u64::MAX,
    ensures
        complete_graph(split_plan(node).graph).stages.contains_key(0),
        complete_graph(split_plan(node).graph).stages[0] == (StageView {
            id: 0,
            root: node,
            dist: distribution_of(*node),
        }),
{
    let start = opened(SplitView { graph: empty_graph(), next: 0 }, node);
    assert(is_tree(start));
    lemma_split_extends(node, 0, start);
    assert(start.graph.stages.contains_key(0));
}

/// What stands below an exchange becomes a stage of its own, with the next number: its root is the plan
/// right below the exchange, and it is a child of the stage of the exchange, which finds it by the
/// exchange's id.
pub proof fn law_exchange_opens_stage(node: PlanRef, cur: StageId, s: SplitView)
    requires
        *node is BatchExchange,
        is_tree(s),
        cur < s.next,
        s.next + added_stages(node) <= u64::MAX + 1,
    ensures
        ({
            let t = split_spec(node, cur, s);
            let stage = s.next as StageId;
            let child = (node->BatchExchange_0).input;
            &&& t.graph.stages.contains_key(stage)
            &&& t.graph.stages[stage] == (StageView { id: stage, root: child, dist: distribution_of(*child) })
            &&& ends(t.graph.child_edges, cur).contains(stage)
            &&& t.graph.exchange_id_to_stage.contains_key(base_of(*node)@.id)
        }),
{
    let child = below(node)[0];
    let stage = s.next as StageId;
    assert(below(node).len() == 1);
    assert(split_inputs(node, 0, cur, s) == s);
    let with = opened(s, child);
    let next = SplitView { graph: with_link(with.graph, cur, id_of(node), stage), next: with.next };
    assert(added_by_inputs(node, 1) == added_by_inputs(node, 0) + 1 + added_stages(child));
    law_split_counts_stages(child, stage, next);
    lemma_new_child_keeps_tree(s, cur, id_of(node), child);
    lemma_split_extends(child, stage, next);
    assert(split_inputs(node, 1, cur, s) == split_spec(child, stage, next));
    assert(next.graph.stages.contains_key(stage));
    assert(ends(next.graph.child_edges, cur).contains(stage));
    assert(next.graph.exchange_id_to_stage.contains_key(id_of(node)));
}

/// A node that is no exchange opens no stage of its own: with a single plan below it, the stages are
/// those of this plan, and with none there are no further stages.
pub proof fn law_other_nodes_open_no_stage(node: PlanRef, cur: StageId, s: SplitView)
    requires
        !(*node is BatchExchange),
    ensures
        inputs_of(*node).len() == 0 ==> split_spec(node, cur, s) == s,
        inputs_of(*node).len() == 1 ==> split_spec(node, cur, s) == split_spec(inputs_of(*node)[0], cur, s),
        inputs_of(*node).len() == 2 ==> split_spec(node, cur, s) == split_spec(
            inputs_of(*node)[1],
            cur,
            split_spec(inputs_of(*node)[0], cur, s),
        ),
{
    reveal_with_fuel(split_inputs, 4);
    assert(split_inputs(node, 0, cur, s) == s);
    if below(node).len() >= 1 {
        assert(split_inputs(node, 1, cur, s) == split_spec(below(node)[0], cur, s));
    }
}

/// One more edge is found at its beginning, and all others stay.
pub proof fn law_added_edge_is_found(edges: Map<StageId, Set<StageId>>, from: StageId, to: StageId, a: StageId, b: StageId)
    ensures
        ends(with_edge(edges, from, to), a).contains(b) <==> (a == from && b == to) || (edges.contains_key(a)
            && edges[a].contains(b)),
{
}

} // verus!
