use vstd::prelude::*;
use vstd::string::StringExecFns;
use crate::graph::{CitationGraph, GraphView};
use crate::node::NodeView;
use crate::paper_id::id_text;
use crate::text::push_char;

verus! {

broadcast use crate::node::lemma_node_id_len;

pub open spec fn digit_char(d: nat) -> char {
    ((d + 48) as u8) as char
}

/// Decimal notation of `n`.
pub open spec fn decimal(n: nat) -> Seq<char>
    decreases n,
{
    if n < 10 {
        seq![digit_char(n)]
    } else {
        decimal(n / 10).push(digit_char(n % 10))
    }
}

/// Indices below `n`, ascending, of the nodes that node `i` lists as citers.
pub open spec fn citers_upto(nodes: Seq<NodeView>, i: int, n: nat) -> Seq<nat>
    decreases n,
{
    if n == 0 {
        Seq::empty()
    } else {
        let rest = citers_upto(nodes, i, (n - 1) as nat);
        if nodes[i].cited_by.contains(nodes[n - 1].id) {
            rest.push((n - 1) as nat)
        } else {
            rest
        }
    }
}

/// Numbers in decimal, separated by `", "`.
pub open spec fn index_list(s: Seq<nat>) -> Seq<char>
    decreases s.len(),
{
    if s.len() == 0 {
        Seq::empty()
    } else if s.len() == 1 {
        decimal(s[0])
    } else {
        index_list(s.drop_last()) + ", "@ + decimal(s.last())
    }
}

pub open spec fn citers_line(g: GraphView, i: int) -> Seq<char> {
    let c = citers_upto(g.nodes, i, g.nodes.len());
    if c.len() > 0 {
        "      Cited by: "@ + index_list(c) + "\n"@
    } else {
        Seq::empty()
    }
}

/// The lines describing node `i`.
pub open spec fn node_block(g: GraphView, i: int) -> Seq<char> {
    let n = g.nodes[i];
    "    "@ + decimal(i as nat) + " -----\n"@
        + "      Title: "@ + n.title + "\n"@
        + "      ID: "@ + id_text(n.id) + "\n"@
        + citers_line(g, i)
        + "      Can be expanded: "@ + (if n.url is Some { "true"@ } else { "false"@ }) + "\n"@
}

pub open spec fn blocks_upto(g: GraphView, n: nat) -> Seq<char>
    decreases n,
{
    if n == 0 {
        Seq::empty()
    } else {
        blocks_upto(g, (n - 1) as nat) + node_block(g, n - 1)
    }
}

/// The text form of a graph: a header, then each node in insertion order.
pub open spec fn snapshot_text(g: GraphView) -> Seq<char> {
    "Citation Graph {\n"@ + blocks_upto(g, g.nodes.len()) + "}"@
}

/// Appends the decimal notation of `n`.
pub fn push_decimal(s: &mut String, n: usize)
    ensures
        final(s)@ == old(s)@ + decimal(n as nat),
    decreases n,
{
    if n >= 10 {
        push_decimal(s, n / 10);
    }
    let d: u8 = (n % 10) as u8;
    push_char(s, (d + 48) as char);
    assert(final(s)@ =~= old(s)@ + decimal(n as nat));
}

/// The indices of the nodes that node `i` lists as citers, and how many.
fn citers_text(g: &CitationGraph, i: usize) -> (r: (String, usize))
    requires
        g.wf(),
        i < g@.nodes.len(),
    ensures
        r.0@ == index_list(citers_upto(g@.nodes, i as int, g@.nodes.len())),
        r.1 == citers_upto(g@.nodes, i as int, g@.nodes.len()).len(),
{
    let mut out = String::new();
    let node = g.node_at(i);
    let n = g.len();
    let mut j: usize = 0;
    let mut count: usize = 0;
    while j < n
        invariant
            g.wf(),
            n == g@.nodes.len(),
            i < n,
            j <= n,
            node@ == g@.nodes[i as int],
            count == citers_upto(g@.nodes, i as int, j as nat).len(),
            count <= j,
            out@ == index_list(citers_upto(g@.nodes, i as int, j as nat)),
        decreases n - j,
    {
        let ghost before = citers_upto(g@.nodes, i as int, j as nat);
        let id = g.node_at(j).id();
        if node.cites(&id) {
            let ghost after = before.push(j as nat);
            assert(after.drop_last() =~= before);
            if count > 0 {
                out.append(", ");
            }
            push_decimal(&mut out, j);
            count = count + 1;
            proof {
                if before.len() == 0 {
                    assert(index_list(before) =~= Seq::<char>::empty());
                    assert(after.len() == 1);
                    assert(index_list(after) == decimal(j as nat));
                }
                assert(out@ =~= index_list(after));
            }
        }
        j = j + 1;
    }
    (out, count)
}

impl CitationGraph {
    /// The lines describing node `i`.
    fn node_block_text(&self, i: usize) -> (r: String)
        requires
            self.wf(),
            i < self@.nodes.len(),
        ensures
            r@ == node_block(self@, i as int),
    {
        let node = self.node_at(i);
        let mut out = "    ".to_owned();
        push_decimal(&mut out, i);
        out.append(" -----\n");
        out.append("      Title: ");
        let title = node.get_title();
        out.append(title.as_str());
        out.append("\n");
        out.append("      ID: ");
        let id = node.id().as_text();
        out.append(id.as_str());
        out.append("\n");
        let ghost before_citers = out@;
        let (list, count) = citers_text(self, i);
        if count > 0 {
            out.append("      Cited by: ");
            out.append(list.as_str());
            out.append("\n");
        }
        assert(out@ =~= before_citers + citers_line(self@, i as int));
        out.append("      Can be expanded: ");
        if node.is_expandable() {
            out.append("true");
        } else {
            out.append("false");
        }
        out.append("\n");
        assert(out@ =~= node_block(self@, i as int));
        out
    }

    /// A text rendering of the graph: a header line, then for each node in
    /// insertion order its index, title, identifier, the ascending indices of
    /// its citers (if any), and whether it can be expanded.
    pub fn snapshot(&self) -> (r: String)
        requires
            self.wf(),
        ensures
            r@ == snapshot_text(self@),
    {
        let mut out = "Citation Graph {\n".to_owned();
        let n = self.len();
        let mut i: usize = 0;
        while i < n
            invariant
                self.wf(),
                n == self@.nodes.len(),
                i <= n,
                out@ == "Citation Graph {\n"@ + blocks_upto(self@, i as nat),
            decreases n - i,
        {
            let block = self.node_block_text(i);
            out.append(block.as_str());
            assert(out@ =~= "Citation Graph {\n"@ + blocks_upto(self@, (i + 1) as nat));
            i = i + 1;
        }
        out.append("}");
        out
    }
}

} // verus!
