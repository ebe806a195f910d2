use vstd::prelude::*;
use std::collections::HashMap;
use crate::node::{NodeView, PaperNode};
use crate::paper_id::{key_of, lemma_key_of_injective, CiteError, PaperID};
use crate::parser::{
    lemma_records_from_blocks, nodes_view, outer_html_matches, page_records, parse_page_into_paper_nodes,
    result_selector,
};

verus! {

broadcast use {
    vstd::std_specs::hash::group_hash_axioms,
    crate::paper_id::lemma_id_len,
    crate::node::lemma_node_id_len,
};

/// The graph as plain values: nodes in insertion order, the level of each
/// node, and the number of nodes on each level.
pub struct GraphView {
    pub nodes: Seq<NodeView>,
    pub levels: Seq<nat>,
    pub pops: Seq<nat>,
}

/// Some node carries identifier `id`.
pub open spec fn has_id(nodes: Seq<NodeView>, id: Seq<u8>) -> bool {
    exists|j: int| 0 <= j < nodes.len() && #[trigger] nodes[j].id == id
}

/// How many entries of `levels` equal `k`.
pub open spec fn count_level(levels: Seq<nat>, k: nat) -> nat
    decreases levels.len(),
{
    if levels.len() == 0 {
        0
    } else {
        count_level(levels.drop_last(), k) + if levels.last() == k {
            1nat
        } else {
            0nat
        }
    }
}

pub open spec fn sum(s: Seq<nat>) -> nat
    decreases s.len(),
{
    if s.len() == 0 {
        0
    } else {
        sum(s.drop_last()) + s.last()
    }
}

impl GraphView {
    /// The invariant of every graph the library builds.
    pub open spec fn well_formed(self) -> bool {
        let n = self.nodes.len();
        &&& self.levels.len() == n
        &&& forall|i: int, j: int|
            #![trigger self.nodes[i], self.nodes[j]]
            0 <= i < n && 0 <= j < n && self.nodes[i].id == self.nodes[j].id ==> i == j
        &&& forall|i: int| 0 <= i < n ==> (#[trigger] self.nodes[i]).id.len() == 12
        &&& forall|i: int| 0 <= i < n ==> (#[trigger] self.nodes[i]).cited_by.no_duplicates()
        &&& forall|i: int, k: int|
            0 <= i < n && 0 <= k < self.nodes[i].cited_by.len() ==> has_id(
                self.nodes,
                #[trigger] self.nodes[i].cited_by[k],
            )
        &&& n > 0 ==> self.levels[0] == 0
        &&& forall|i: int| 0 <= i < n ==> #[trigger] self.levels[i] <= i && self.levels[i] < self.pops.len()
        &&& forall|k: int| 0 <= k < self.pops.len() ==> #[trigger] self.pops[k] == count_level(self.levels, k as nat)
        &&& sum(self.pops) == n
    }
}

pub open spec fn with_citer(n: NodeView, id: Seq<u8>) -> NodeView {
    NodeView { cited_by: n.cited_by.push(id), ..n }
}

/// `pops` with level `l` counted once more, grown with zeros to reach it.
pub open spec fn bump(pops: Seq<nat>, l: nat) -> Seq<nat> {
    let ext = if pops.len() <= l {
        pops + Seq::new((l + 1 - pops.len()) as nat, |i: int| 0nat)
    } else {
        pops
    };
    ext.update(l as int, ext[l as int] + 1)
}

/// The graph holding `r` alone, as its seed.
pub open spec fn seed_graph(r: NodeView) -> GraphView {
    GraphView {
        nodes: seq![NodeView { cited_by: Seq::empty(), ..r }],
        levels: seq![0nat],
        pops: seq![1nat],
    }
}

/// One record found on the citer page of node `p`: ignored if it is `p`
/// itself; a new edge to an already known paper, unless that edge exists;
/// otherwise a new node one level below `p`, with an edge to it.
pub open spec fn merge_record(g: GraphView, p: int, r: NodeView) -> GraphView {
    if r.id == g.nodes[p].id {
        g
    } else if has_id(g.nodes, r.id) {
        if g.nodes[p].cited_by.contains(r.id) {
            g
        } else {
            GraphView { nodes: g.nodes.update(p, with_citer(g.nodes[p], r.id)), ..g }
        }
    } else {
        let l = g.levels[p] + 1;
        GraphView {
            nodes: g.nodes.update(p, with_citer(g.nodes[p], r.id)).push(
                NodeView { cited_by: Seq::empty(), ..r },
            ),
            levels: g.levels.push(l),
            pops: bump(g.pops, l),
        }
    }
}

/// The records of a citer page of node `p`, merged in document order.
pub open spec fn expand_records(g: GraphView, p: int, recs: Seq<NodeView>) -> GraphView
    decreases recs.len(),
{
    if recs.len() == 0 {
        g
    } else {
        merge_record(expand_records(g, p, recs.drop_last()), p, recs.last())
    }
}

pub proof fn lemma_count_absent(levels: Seq<nat>, k: nat)
    requires
        forall|i: int| 0 <= i < levels.len() ==> levels[i] != k,
    ensures
        count_level(levels, k) == 0,
    decreases levels.len(),
{
    if levels.len() > 0 {
        lemma_count_absent(levels.drop_last(), k);
    }
}

pub proof fn lemma_count_below_len(levels: Seq<nat>, k: nat)
    requires
        levels.len() > 0,
        levels[0] != k,
    ensures
        count_level(levels, k) < levels.len(),
    decreases levels.len(),
{
    if levels.len() > 1 {
        assert(levels.drop_last()[0] == levels[0]);
        lemma_count_below_len(levels.drop_last(), k);
    } else {
        assert(count_level(levels.drop_last(), k) == 0);
    }
}

pub proof fn lemma_sum_push_zero(s: Seq<nat>)
    ensures
        sum(s.push(0)) == sum(s),
{
    assert(s.push(0).drop_last() =~= s);
}

pub proof fn lemma_sum_increment(s: Seq<nat>, k: int)
    requires
        0 <= k < s.len(),
    ensures
        sum(s.update(k, s[k] + 1)) == sum(s) + 1,
    decreases s.len(),
{
    let t = s.update(k, s[k] + 1);
    if k == s.len() - 1 {
        assert(t.drop_last() =~= s.drop_last());
    } else {
        lemma_sum_increment(s.drop_last(), k);
        assert(t.drop_last() =~= s.drop_last().update(k, s[k] + 1));
    }
}

/// Merging one record keeps the invariant, the parent's identity, and every
/// level already assigned; a new node lands one level below the parent.
pub proof fn lemma_merge_record(g: GraphView, p: int, r: NodeView)
    requires
        g.well_formed(),
        0 <= p < g.nodes.len(),
        r.id.len() == 12,
    ensures
        ({
            let h = merge_record(g, p, r);
            &&& h.well_formed()
            &&& h.nodes.len() >= g.nodes.len()
            &&& h.nodes.len() <= g.nodes.len() + 1
            &&& h.pops.len() >= g.pops.len()
            &&& h.nodes[p].id == g.nodes[p].id
            &&& h.nodes[p].url == g.nodes[p].url
            &&& h.levels.subrange(0, g.levels.len() as int) == g.levels
            &&& forall|i: int| g.nodes.len() <= i < h.nodes.len() ==> h.levels[i] == g.levels[p] + 1
            &&& forall|i: int| 0 <= i < g.nodes.len() ==> (#[trigger] h.nodes[i]).id == g.nodes[i].id
            &&& r.id != g.nodes[p].id ==> has_id(h.nodes, r.id) && h.nodes[p].cited_by.contains(r.id)
            &&& forall|id: Seq<u8>| has_id(g.nodes, id) ==> #[trigger] has_id(h.nodes, id)
            &&& forall|id: Seq<u8>| #[trigger] g.nodes[p].cited_by.contains(id) ==> h.nodes[p].cited_by.contains(id)
        }),
{
    let h = merge_record(g, p, r);
    let n = g.nodes.len();
    assert(h.levels.subrange(0, g.levels.len() as int) =~= g.levels) by {
        if !(r.id == g.nodes[p].id) && !has_id(g.nodes, r.id) {
            assert(h.levels.subrange(0, g.levels.len() as int) =~= g.levels);
        }
    }
    assert forall|id: Seq<u8>| has_id(g.nodes, id) implies #[trigger] has_id(h.nodes, id) by {
        let j = choose|j: int| 0 <= j < n && #[trigger] g.nodes[j].id == id;
        assert(h.nodes[j].id == id);
    }
    if r.id == g.nodes[p].id {
    } else if has_id(g.nodes, r.id) {
        if g.nodes[p].cited_by.contains(r.id) {
        } else {
            let c = g.nodes[p].cited_by;
            assert(h.nodes[p].cited_by == c.push(r.id));
            assert(c.push(r.id)[c.len() as int] == r.id);
            assert forall|i: int, k: int|
                0 <= i < n && 0 <= k < h.nodes[i].cited_by.len() implies has_id(
                h.nodes,
                #[trigger] h.nodes[i].cited_by[k],
            ) by {
                if i != p || k < c.len() {
                    assert(has_id(g.nodes, g.nodes[i].cited_by[k]));
                }
            }
            assert(h.nodes[p].cited_by.no_duplicates());
        }
    } else {
        let l = g.levels[p] + 1;
        let c = g.nodes[p].cited_by;
        let ext = if g.pops.len() <= l {
            g.pops + Seq::new((l + 1 - g.pops.len()) as nat, |i: int| 0nat)
        } else {
            g.pops
        };
        assert(l <= g.pops.len());
        assert(h.levels == g.levels.push(l));
        assert(h.nodes[n as int].id == r.id);
        assert(!c.contains(r.id)) by {
            if c.contains(r.id) {
                let k = choose|k: int| 0 <= k < c.len() && c[k] == r.id;
                assert(has_id(g.nodes, g.nodes[p].cited_by[k]));
            }
        }
        assert(h.nodes[p].cited_by == c.push(r.id));
        assert(c.push(r.id)[c.len() as int] == r.id);
        assert(h.nodes[p].cited_by.no_duplicates());
        assert forall|i: int, k: int|
            0 <= i < h.nodes.len() && 0 <= k < h.nodes[i].cited_by.len() implies has_id(
            h.nodes,
            #[trigger] h.nodes[i].cited_by[k],
        ) by {
            if i == p && k == c.len() {
                assert(h.nodes[n as int].id == r.id);
            } else if i < n {
                assert(has_id(g.nodes, g.nodes[i].cited_by[k]));
            }
        }
        assert forall|i: int, j: int|
            #![trigger h.nodes[i], h.nodes[j]]
            0 <= i < h.nodes.len() && 0 <= j < h.nodes.len() && h.nodes[i].id == h.nodes[j].id implies i == j by {
            if i == n && j < n {
                assert(g.nodes[j].id == r.id);
            } else if j == n && i < n {
                assert(g.nodes[i].id == r.id);
            } else if i < n && j < n {
                assert(g.nodes[i].id == g.nodes[j].id);
            }
        }
        // level counts
        assert forall|k: int| 0 <= k < ext.len() implies #[trigger] ext[k] == count_level(g.levels, k as nat) by {
            if k >= g.pops.len() {
                lemma_count_absent(g.levels, k as nat);
            }
        }
        assert(h.levels.drop_last() =~= g.levels);
        assert forall|k: int| 0 <= k < h.pops.len() implies #[trigger] h.pops[k] == count_level(h.levels, k as nat) by {
        }
        if g.pops.len() <= l {
            assert(ext =~= g.pops.push(0));
            lemma_sum_push_zero(g.pops);
        }
        lemma_sum_increment(ext, l as int);
        assert forall|i: int| 0 <= i < h.nodes.len() implies #[trigger] h.levels[i] <= i && h.levels[i] < h.pops.len() by {
            if i < n {
                assert(h.levels[i] == g.levels[i]);
            }
        }
        assert(h.nodes[p].cited_by.contains(r.id));
    }
    assert forall|id: Seq<u8>| #[trigger] g.nodes[p].cited_by.contains(id) implies h.nodes[p].cited_by.contains(id) by {
        let c = g.nodes[p].cited_by;
        let k = choose|k: int| 0 <= k < c.len() && c[k] == id;
        assert(h.nodes[p].cited_by[k] == id);
    }
}

pub open spec fn ids_well_formed(recs: Seq<NodeView>) -> bool {
    forall|j: int| 0 <= j < recs.len() ==> (#[trigger] recs[j]).id.len() == 12
}

/// Merging a page keeps the invariant and every level already assigned; each
/// node it adds lands one level below the parent; afterwards every record
/// other than the parent is a node that the parent lists as a citer.
pub proof fn lemma_expand_records(g: GraphView, p: int, recs: Seq<NodeView>)
    requires
        g.well_formed(),
        0 <= p < g.nodes.len(),
        ids_well_formed(recs),
    ensures
        ({
            let h = expand_records(g, p, recs);
            &&& h.well_formed()
            &&& h.nodes.len() >= g.nodes.len()
            &&& h.pops.len() >= g.pops.len()
            &&& h.nodes[p].id == g.nodes[p].id
            &&& h.nodes[p].url == g.nodes[p].url
            &&& h.levels.subrange(0, g.levels.len() as int) == g.levels
            &&& forall|i: int| g.nodes.len() <= i < h.nodes.len() ==> h.levels[i] == g.levels[p] + 1
            &&& forall|i: int| 0 <= i < g.nodes.len() ==> (#[trigger] h.nodes[i]).id == g.nodes[i].id
            &&& forall|j: int|
                0 <= j < recs.len() && (#[trigger] recs[j]).id != g.nodes[p].id ==> has_id(h.nodes, recs[j].id)
                    && h.nodes[p].cited_by.contains(recs[j].id)
        }),
    decreases recs.len(),
{
    if recs.len() > 0 {
        let rest = recs.drop_last();
        assert forall|j: int| 0 <= j < rest.len() implies (#[trigger] rest[j]).id.len() == 12 by {
            assert(rest[j] == recs[j]);
        }
        lemma_expand_records(g, p, rest);
        let h1 = expand_records(g, p, rest);
        assert(recs.last() == recs[recs.len() - 1]);
        lemma_merge_record(h1, p, recs.last());
        let h = expand_records(g, p, recs);
        assert(h.levels.subrange(0, g.levels.len() as int) =~= g.levels) by {
            assert(h.levels.subrange(0, h1.levels.len() as int) == h1.levels);
            assert forall|i: int| 0 <= i < g.levels.len() implies h.levels[i] == g.levels[i] by {
                assert(h.levels.subrange(0, h1.levels.len() as int)[i] == h1.levels[i]);
                assert(h1.levels.subrange(0, g.levels.len() as int)[i] == g.levels[i]);
            }
        }
        assert forall|i: int| g.nodes.len() <= i < h.nodes.len() implies h.levels[i] == g.levels[p] + 1 by {
            assert(h1.levels.subrange(0, g.levels.len() as int)[p] == g.levels[p]);
            if i < h1.nodes.len() {
                assert(h.levels.subrange(0, h1.levels.len() as int)[i] == h1.levels[i]);
            }
        }
        assert forall|j: int|
            0 <= j < recs.len() && (#[trigger] recs[j]).id != g.nodes[p].id implies has_id(h.nodes, recs[j].id)
                && h.nodes[p].cited_by.contains(recs[j].id) by {
            if j < rest.len() {
                assert(rest[j] == recs[j]);
                assert(has_id(h1.nodes, rest[j].id));
                assert(h1.nodes[p].cited_by.contains(rest[j].id));
            }
        }
    }
}

/// Merging records that are all already merged changes nothing.
pub proof fn lemma_expand_nothing_new(h: GraphView, p: int, recs: Seq<NodeView>)
    requires
        0 <= p < h.nodes.len(),
        forall|j: int|
            0 <= j < recs.len() ==> (#[trigger] recs[j]).id == h.nodes[p].id || (has_id(h.nodes, recs[j].id)
                && h.nodes[p].cited_by.contains(recs[j].id)),
    ensures
        expand_records(h, p, recs) == h,
    decreases recs.len(),
{
    if recs.len() > 0 {
        let rest = recs.drop_last();
        assert forall|j: int| 0 <= j < rest.len() implies (#[trigger] rest[j]).id == h.nodes[p].id || (has_id(
            h.nodes,
            rest[j].id,
        ) && h.nodes[p].cited_by.contains(rest[j].id)) by {
            assert(rest[j] == recs[j]);
        }
        lemma_expand_nothing_new(h, p, rest);
        assert(recs.last() == recs[recs.len() - 1]);
    }
}

/// Expanding a node twice with the same page gives the graph that expanding
/// it once gives.
pub proof fn lemma_expand_idempotent(g: GraphView, p: int, recs: Seq<NodeView>)
    requires
        g.well_formed(),
        0 <= p < g.nodes.len(),
        ids_well_formed(recs),
    ensures
        expand_records(expand_records(g, p, recs), p, recs) == expand_records(g, p, recs),
{
    lemma_expand_records(g, p, recs);
    lemma_expand_nothing_new(expand_records(g, p, recs), p, recs);
}

pub open spec fn nat_seq(v: Seq<usize>) -> Seq<nat> {
    v.map_values(|x: usize| x as nat)
}

/// The citation graph: nodes in insertion order, the level of each, the
/// population of each level, and an index from identifier key to position.
pub struct CitationGraph {
    level_populations: Vec<usize>,
    paper_nodes: Vec<PaperNode>,
    levels: Vec<usize>,
    index: HashMap<u128, usize>,
}

impl View for CitationGraph {
    type V = GraphView;

    closed spec fn view(&self) -> GraphView {
        GraphView {
            nodes: nodes_view(self.paper_nodes@),
            levels: nat_seq(self.levels@),
            pops: nat_seq(self.level_populations@),
        }
    }
}

impl CitationGraph {
    /// The graph's invariant, with its index agreeing with its nodes.
    pub closed spec fn wf(&self) -> bool {
        &&& self@.well_formed()
        &&& forall|i: int|
            0 <= i < self.paper_nodes@.len() ==> #[trigger] self.index@.contains_key(key_of(self@.nodes[i].id))
                && self.index@[key_of(self@.nodes[i].id)] == i
        &&& forall|k: u128|
            #[trigger] self.index@.contains_key(k) ==> self.index@[k] < self.paper_nodes@.len() && key_of(
                self@.nodes[self.index@[k] as int].id,
            ) == k
    }

    /// Every graph the library builds satisfies the model's invariant.
    pub proof fn lemma_view_well_formed(&self)
        requires
            self.wf(),
        ensures
            self@.well_formed(),
    {
    }

    /// An empty graph.
    pub fn new() -> (r: CitationGraph)
        ensures
            r.wf(),
            r@ == (GraphView { nodes: Seq::empty(), levels: Seq::empty(), pops: Seq::empty() }),
    {
        let r = CitationGraph {
            level_populations: Vec::new(),
            paper_nodes: Vec::new(),
            levels: Vec::new(),
            index: HashMap::new(),
        };
        assert(r@.nodes =~= Seq::empty());
        assert(r@.levels =~= Seq::empty());
        assert(r@.pops =~= Seq::empty());
        r
    }

    /// Number of nodes.
    pub fn len(&self) -> (r: usize)
        ensures
            r == self@.nodes.len(),
    {
        self.paper_nodes.len()
    }

    /// The node at insertion index `i`.
    pub fn node_at(&self, i: usize) -> (r: &PaperNode)
        requires
            i < self@.nodes.len(),
        ensures
            r@ == self@.nodes[i as int],
    {
        &self.paper_nodes[i]
    }

    /// The level of the node at insertion index `i`.
    pub fn level_of(&self, i: usize) -> (r: usize)
        requires
            self.wf(),
            i < self@.nodes.len(),
        ensures
            r == self@.levels[i as int],
    {
        self.levels[i]
    }

    /// The number of nodes on each level.
    pub fn level_populations(&self) -> (r: Vec<usize>)
        ensures
            nat_seq(r@) == self@.pops,
    {
        let mut r: Vec<usize> = Vec::new();
        let mut i: usize = 0;
        while i < self.level_populations.len()
            invariant
                i <= self.level_populations@.len(),
                r@ =~= self.level_populations@.subrange(0, i as int),
            decreases self.level_populations@.len() - i,
        {
            r.push(self.level_populations[i]);
            i = i + 1;
        }
        assert(self.level_populations@.subrange(0, i as int) =~= self.level_populations@);
        r
    }

    /// The index of the node with identifier `id`, if there is one.
    pub fn lookup(&self, id: &PaperID) -> (r: Option<usize>)
        requires
            self.wf(),
        ensures
            match r {
                Some(j) => j < self@.nodes.len() && self@.nodes[j as int].id == id@,
                None => !has_id(self@.nodes, id@),
            },
    {
        let k = id.key();
        match self.index.get(&k) {
            Some(j) => {
                proof {
                    lemma_key_of_injective(self@.nodes[*j as int].id, id@);
                }
                Some(*j)
            },
            None => {
                proof {
                    if has_id(self@.nodes, id@) {
                        let i = choose|i: int| 0 <= i < self@.nodes.len() && #[trigger] self@.nodes[i].id == id@;
                        assert(self.index@.contains_key(key_of(self@.nodes[i].id)));
                    }
                }
                None
            },
        }
    }

    /// Promotes `node` to the seed of an empty graph: it becomes index 0, on
    /// level 0, with no citers.
    pub fn add_paper_node(&mut self, node: PaperNode) -> (r: Result<(), CiteError>)
        requires
            old(self).wf(),
        ensures
            final(self).wf(),
            old(self)@.nodes.len() > 0 ==> r == Err::<(), CiteError>(CiteError::AlreadySeeded)
                && final(self)@ == old(self)@,
            old(self)@.nodes.len() == 0 ==> r is Ok && final(self)@ == seed_graph(node@),
    {
        if self.paper_nodes.len() > 0 {
            return Err(CiteError::AlreadySeeded);
        }
        let mut node = node;
        node.clear_citers();
        let k = node.id().key();
        self.index.insert(k, 0);
        self.paper_nodes.push(node);
        self.levels = Vec::new();
        self.levels.push(0);
        self.level_populations = Vec::new();
        self.level_populations.push(1);
        proof {
            let g = seed_graph(node@);
            assert(self@.nodes =~= g.nodes);
            assert(self@.levels =~= g.levels);
            assert(self@.pops =~= g.pops);
            assert(g.levels.drop_last() =~= Seq::<nat>::empty());
            assert(g.pops.drop_last() =~= Seq::<nat>::empty());
            assert(g.levels.last() == 0nat);
            assert(count_level(g.levels.drop_last(), 0) == 0);
            assert(count_level(g.levels, 0) == 1);
            assert(g.pops.last() == 1nat);
            assert(sum(g.pops.drop_last()) == 0);
            assert(self@.nodes[0].cited_by.no_duplicates());
            assert forall|q: u128| #[trigger] self.index@.contains_key(q) implies self.index@[q] < self.paper_nodes@.len()
                && key_of(self@.nodes[self.index@[q] as int].id) == q by {
                if q != k {
                    assert(old(self).index@.contains_key(q));
                }
            }
        }
        Ok(())
    }

    /// Merges one record found on the citer page of `parent`; says whether a
    /// node and whether an edge were added.
    fn merge_one(&mut self, parent: usize, rec: &PaperNode) -> (r: (bool, bool))
        requires
            old(self).wf(),
            parent < old(self)@.nodes.len(),
        ensures
            final(self).wf(),
            final(self)@ == merge_record(old(self)@, parent as int, rec@),
            final(self)@.nodes.len() == old(self)@.nodes.len() + if r.0 { 1int } else { 0int },
            final(self)@.nodes[parent as int].cited_by.len() == old(self)@.nodes[parent as int].cited_by.len()
                + if r.1 { 1int } else { 0int },
    {
        let ghost g = self@;
        proof {
            lemma_merge_record(g, parent as int, rec@);
        }
        let rid = rec.id();
        let pid = self.paper_nodes[parent].id();
        if rid.same_as(&pid) {
            return (false, false);
        }
        match self.lookup(&rid) {
            Some(_) => {
                if self.paper_nodes[parent].cites(&rid) {
                    return (false, false);
                }
                self.paper_nodes[parent].add_citer(rid);
                proof {
                    let h = merge_record(g, parent as int, rec@);
                    assert(self@.nodes =~= h.nodes);
                    assert forall|i: int|
                        0 <= i < self.paper_nodes@.len() implies #[trigger] self.index@.contains_key(
                        key_of(self@.nodes[i].id),
                    ) && self.index@[key_of(self@.nodes[i].id)] == i by {
                        assert(self@.nodes[i].id == g.nodes[i].id);
                    }
                    assert forall|q: u128| #[trigger] self.index@.contains_key(q) implies self.index@[q]
                        < self.paper_nodes@.len() && key_of(self@.nodes[self.index@[q] as int].id) == q by {
                        assert(self@.nodes[self.index@[q] as int].id == g.nodes[self.index@[q] as int].id);
                    }
                }
                (false, true)
            },
            None => {
                assert(self.levels@[parent as int] as nat == g.levels[parent as int]);
                assert(g.levels[parent as int] <= parent);
                assert(g.nodes.len() == self.paper_nodes@.len());
                let pos: usize = self.paper_nodes.len();
                let l: usize = self.levels[parent] + 1;
                let node = PaperNode::new(rid, rec.get_title(), rec.year(), rec.cited_by_url());
                self.paper_nodes[parent].add_citer(rid);
                self.paper_nodes.push(node);
                self.levels.push(l);
                proof {
                    assert(g.levels[0] == 0);
                    lemma_count_below_len(g.levels, l as nat);
                }
                if self.level_populations.len() == l {
                    self.level_populations.push(0);
                }
                let c: usize = self.level_populations[l];
                self.level_populations.set(l, c + 1);
                self.index.insert(rid.key(), pos);
                proof {
                    let h = merge_record(g, parent as int, rec@);
                    assert(self@.nodes =~= h.nodes);
                    assert(self@.levels =~= h.levels);
                    assert(self@.pops =~= h.pops);
                    assert forall|i: int|
                        0 <= i < self.paper_nodes@.len() implies #[trigger] self.index@.contains_key(
                        key_of(self@.nodes[i].id),
                    ) && self.index@[key_of(self@.nodes[i].id)] == i by {
                        if i < pos {
                            assert(self@.nodes[i].id == g.nodes[i].id);
                            assert(g.nodes[i].id != rid@);
                            if key_of(g.nodes[i].id) == key_of(rid@) {
                                lemma_key_of_injective(g.nodes[i].id, rid@);
                            }
                        }
                    }
                    assert forall|q: u128| #[trigger] self.index@.contains_key(q) implies self.index@[q]
                        < self.paper_nodes@.len() && key_of(self@.nodes[self.index@[q] as int].id) == q by {
                        if q != key_of(rid@) {
                            assert(old(self).index@.contains_key(q));
                            assert(self@.nodes[self.index@[q] as int].id == g.nodes[self.index@[q] as int].id);
                        }
                    }
                }
                (true, true)
            },
        }
    }

    /// Merges the records of a citer page of `parent`, in order; returns how
    /// many nodes and how many edges were added.
    pub fn merge_records(&mut self, parent: usize, records: &Vec<PaperNode>) -> (r: (usize, usize))
        requires
            old(self).wf(),
            parent < old(self)@.nodes.len(),
        ensures
            final(self).wf(),
            final(self)@ == expand_records(old(self)@, parent as int, nodes_view(records@)),
            r.0 == final(self)@.nodes.len() - old(self)@.nodes.len(),
            r.1 == final(self)@.nodes[parent as int].cited_by.len() - old(self)@.nodes[parent as int].cited_by.len(),
    {
        let ghost g = self@;
        let ghost recs = nodes_view(records@);
        let mut added: usize = 0;
        let mut edges: usize = 0;
        let mut i: usize = 0;
        assert(recs.subrange(0, 0) =~= Seq::<NodeView>::empty());
        while i < records.len()
            invariant
                self.wf(),
                i <= records@.len(),
                recs == nodes_view(records@),
                parent < g.nodes.len(),
                self@ == expand_records(g, parent as int, recs.subrange(0, i as int)),
                added <= i,
                edges <= i,
                self@.nodes.len() == g.nodes.len() + added,
                self@.nodes[parent as int].cited_by.len() == g.nodes[parent as int].cited_by.len() + edges,
            decreases records@.len() - i,
        {
            assert(recs.subrange(0, i + 1).drop_last() =~= recs.subrange(0, i as int));
            assert(recs.subrange(0, i + 1).last() == records@[i as int]@);
            let (n, e) = self.merge_one(parent, &records[i]);
            if n {
                added = added + 1;
            }
            if e {
                edges = edges + 1;
            }
            i = i + 1;
        }
        assert(recs.subrange(0, i as int) =~= recs);
        (added, edges)
    }

    /// Expands the node at `index` with the page listing its citers: each
    /// record found there becomes a citer of it, as a new node one level
    /// below it unless the paper is already in the graph. Returns how many
    /// nodes and how many edges were added.
    pub fn expand_node(&mut self, index: usize, cited_by_html: &str) -> (r: Result<(usize, usize), CiteError>)
        requires
            old(self).wf(),
        ensures
            final(self).wf(),
            index >= old(self)@.nodes.len() ==> r == Err::<(usize, usize), CiteError>(CiteError::NoSuchParent)
                && final(self)@ == old(self)@,
            index < old(self)@.nodes.len() && old(self)@.nodes[index as int].url is None ==> r == Err::<
                (usize, usize),
                CiteError,
            >(CiteError::ParentNotExpandable) && final(self)@ == old(self)@,
            index < old(self)@.nodes.len() && old(self)@.nodes[index as int].url is Some ==> {
                let g = old(self)@;
                let h = final(self)@;
                &&& h == expand_records(g, index as int, page_records(cited_by_html@))
                &&& r == Ok::<(usize, usize), CiteError>(
                    (
                        (h.nodes.len() - g.nodes.len()) as usize,
                        (h.nodes[index as int].cited_by.len() - g.nodes[index as int].cited_by.len()) as usize,
                    ),
                )
                &&& h.levels.subrange(0, g.levels.len() as int) == g.levels
                &&& forall|i: int| g.nodes.len() <= i < h.nodes.len() ==> h.levels[i] == g.levels[index as int] + 1
            },
    {
        if index >= self.paper_nodes.len() {
            return Err(CiteError::NoSuchParent);
        }
        if !self.paper_nodes[index].is_expandable() {
            return Err(CiteError::ParentNotExpandable);
        }
        let records = parse_page_into_paper_nodes(cited_by_html);
        proof {
            let recs = nodes_view(records@);
            assert forall|j: int| 0 <= j < recs.len() implies (#[trigger] recs[j]).id.len() == 12 by {
                assert(recs[j] == records@[j]@);
            }
            lemma_expand_records(self@, index as int, recs);
        }
        let (n, e) = self.merge_records(index, &records);
        Ok((n, e))
    }

    /// The records of a result page, from which a seed can be chosen; the
    /// graph is left as it is.
    pub fn add_page_to_graph(&self, html: &str) -> (r: Vec<PaperNode>)
        ensures
            nodes_view(r@) == page_records(html@),
    {
        parse_page_into_paper_nodes(html)
    }

    /// An empty graph and the records of a result page, from which its seed
    /// can be chosen.
    pub fn init_graph_from_page(html: &str) -> (r: (CitationGraph, Vec<PaperNode>))
        ensures
            r.0.wf(),
            r.0@ == (GraphView { nodes: Seq::empty(), levels: Seq::empty(), pops: Seq::empty() }),
            nodes_view(r.1@) == page_records(html@),
    {
        let g = CitationGraph::new();
        let records = g.add_page_to_graph(html);
        (g, records)
    }
}

/// `recs` without the records that carry identifier `x`.
pub open spec fn without_id(recs: Seq<NodeView>, x: Seq<u8>) -> Seq<NodeView>
    decreases recs.len(),
{
    if recs.len() == 0 {
        Seq::empty()
    } else {
        let rest = without_id(recs.drop_last(), x);
        if recs.last().id == x {
            rest
        } else {
            rest.push(recs.last())
        }
    }
}

/// Records carrying the parent's own identifier change nothing: expanding
/// with them gives the graph that expanding without them gives, and a
/// parent that does not list itself as a citer still does not.
pub proof fn lemma_self_citation_ignored(g: GraphView, p: int, recs: Seq<NodeView>)
    requires
        g.well_formed(),
        0 <= p < g.nodes.len(),
        ids_well_formed(recs),
    ensures
        expand_records(g, p, recs) == expand_records(g, p, without_id(recs, g.nodes[p].id)),
        !g.nodes[p].cited_by.contains(g.nodes[p].id) ==> !expand_records(g, p, recs).nodes[p].cited_by.contains(
            g.nodes[p].id,
        ),
    decreases recs.len(),
{
    if recs.len() > 0 {
        let x = g.nodes[p].id;
        let rest = recs.drop_last();
        assert forall|j: int| 0 <= j < rest.len() implies (#[trigger] rest[j]).id.len() == 12 by {
            assert(rest[j] == recs[j]);
        }
        assert(recs.last() == recs[recs.len() - 1]);
        lemma_self_citation_ignored(g, p, rest);
        lemma_expand_records(g, p, rest);
        let h1 = expand_records(g, p, rest);
        lemma_merge_record(h1, p, recs.last());
        let w = without_id(recs, x);
        if recs.last().id != x {
            assert(w.drop_last() =~= without_id(rest, x));
            assert(w.last() == recs.last());
            let c = h1.nodes[p].cited_by;
            let h = expand_records(g, p, recs);
            if !g.nodes[p].cited_by.contains(x) && h.nodes[p].cited_by.contains(x) {
                let k = choose|k: int| 0 <= k < h.nodes[p].cited_by.len() && h.nodes[p].cited_by[k] == x;
                if h.nodes[p].cited_by != c {
                    assert(h.nodes[p].cited_by == c.push(recs.last().id));
                    if k < c.len() {
                        assert(c.contains(x));
                    }
                } else {
                    assert(c.contains(x));
                }
            }
        }
    }
}

/// Expansion changes the level populations only by the nodes it adds, all
/// counted on the level below the parent; every other level keeps its count,
/// and levels first reached start from zero.
pub proof fn lemma_expand_populations(g: GraphView, p: int, recs: Seq<NodeView>)
    requires
        g.well_formed(),
        0 <= p < g.nodes.len(),
        ids_well_formed(recs),
    ensures
        ({
            let h = expand_records(g, p, recs);
            let l = g.levels[p] + 1;
            &&& h.pops.len() >= g.pops.len()
            &&& sum(h.pops) == h.nodes.len()
            &&& forall|k: int|
                0 <= k < h.pops.len() ==> #[trigger] h.pops[k] == (if k < g.pops.len() {
                    g.pops[k]
                } else {
                    0
                }) + (if k == l {
                    h.nodes.len() - g.nodes.len()
                } else {
                    0
                })
        }),
{
    lemma_expand_records(g, p, recs);
    let h = expand_records(g, p, recs);
    let l = g.levels[p] + 1;
    let n = g.nodes.len() as int;
    let tail = h.levels.subrange(n, h.levels.len() as int);
    assert(h.levels =~= g.levels + tail) by {
        assert(h.levels.subrange(0, n) == g.levels);
    }
    assert forall|k: int| 0 <= k < h.pops.len() implies #[trigger] h.pops[k] == (if k < g.pops.len() {
        g.pops[k]
    } else {
        0
    }) + (if k == l {
        h.nodes.len() - g.nodes.len()
    } else {
        0
    }) by {
        lemma_count_concat(g.levels, tail, k as nat);
        lemma_count_constant(tail, l, k as nat);
        if k >= g.pops.len() {
            lemma_count_absent(g.levels, k as nat);
        }
    }
}

pub proof fn lemma_count_concat(a: Seq<nat>, b: Seq<nat>, k: nat)
    ensures
        count_level(a + b, k) == count_level(a, k) + count_level(b, k),
    decreases b.len(),
{
    if b.len() == 0 {
        assert(a + b =~= a);
    } else {
        lemma_count_concat(a, b.drop_last(), k);
        assert((a + b).drop_last() =~= a + b.drop_last());
        assert((a + b).last() == b.last());
    }
}

pub proof fn lemma_count_constant(s: Seq<nat>, l: nat, k: nat)
    requires
        forall|i: int| 0 <= i < s.len() ==> s[i] == l,
    ensures
        count_level(s, k) == if k == l {
            s.len()
        } else {
            0
        },
    decreases s.len(),
{
    if s.len() > 0 {
        lemma_count_constant(s.drop_last(), l, k);
    }
}

/// Expanding a node twice with the same citer page gives the graph that
/// expanding it once gives.
pub proof fn lemma_expand_page_twice(g: &CitationGraph, p: int, html: Seq<char>)
    requires
        g.wf(),
        0 <= p < g@.nodes.len(),
    ensures
        expand_records(expand_records(g@, p, page_records(html)), p, page_records(html)) == expand_records(
            g@,
            p,
            page_records(html),
        ),
{
    lemma_records_from_blocks(outer_html_matches(html, result_selector()));
    lemma_expand_idempotent(g@, p, page_records(html));
}

/// No two nodes of a graph share an identifier.
pub proof fn lemma_ids_unique(g: &CitationGraph, i: int, j: int)
    requires
        g.wf(),
        0 <= i < g@.nodes.len(),
        0 <= j < g@.nodes.len(),
        g@.nodes[i].id == g@.nodes[j].id,
    ensures
        i == j,
{
}

/// Every identifier listed as a citer is the identifier of a node.
pub proof fn lemma_citers_closed(g: &CitationGraph, i: int, k: int)
    requires
        g.wf(),
        0 <= i < g@.nodes.len(),
        0 <= k < g@.nodes[i].cited_by.len(),
    ensures
        has_id(g@.nodes, g@.nodes[i].cited_by[k]),
{
}

/// The level populations add up to the number of nodes.
pub proof fn lemma_populations_sum(g: &CitationGraph)
    requires
        g.wf(),
    ensures
        sum(g@.pops) == g@.nodes.len(),
{
}

} // verus!