//! A node's dependencies, found once its root block has been read: for each
//! `Ref(...)` binding of the node, in binding order, the id of the last node of
//! the same root (parallel blocks included) whose `::OUT` block declares the
//! address that the binding reads. A binding that no node of the root produces
//! adds no dependency.

use vstd::prelude::*;
use crate::ast::{ActionNode, Block, InputSource, ParallelBlock};
use crate::schedule::{actions_of, collect_actions};
use crate::syntax::{BlockV, InputV, NodeV, ParallelV, SourceV, block_v, node_v};
use crate::text::{owned, str_eq, strs};

verus! {

/// The addresses that a node's `Ref(...)` bindings read, in binding order.
pub open spec fn ref_targets(ins: Seq<InputV>) -> Seq<Seq<char>>
    decreases ins.len(),
{
    if ins.len() == 0 {
        Seq::empty()
    } else {
        let rest = ref_targets(ins.drop_last());
        match ins.last().source {
            SourceV::Ref(t) => rest.push(t),
            SourceV::Literal(_) => rest,
        }
    }
}

pub open spec fn node_targets(n: NodeV) -> Seq<Seq<char>> {
    match n.inputs {
        Some(bs) => ref_targets(bs),
        None => Seq::empty(),
    }
}

/// Whether a node declares an output at this address.
pub open spec fn produces(n: NodeV, addr: Seq<char>) -> bool {
    n.outputs matches Some(o) && exists|k: int| 0 <= k < o.len() && (#[trigger] o[k]).address == addr
}

/// The producer of an address: the last node (in order) that declares it as an
/// output, as the output map keeps the last binding it is given.
pub open spec fn last_producer(nodes: Seq<NodeV>, addr: Seq<char>) -> Option<int>
    decreases nodes.len(),
{
    if nodes.len() == 0 {
        None
    } else if produces(nodes.last(), addr) {
        Some(nodes.len() - 1)
    } else {
        last_producer(nodes.drop_last(), addr)
    }
}

pub proof fn lemma_last_producer(nodes: Seq<NodeV>, addr: Seq<char>)
    ensures
        match last_producer(nodes, addr) {
            Some(j) => 0 <= j < nodes.len() && produces(nodes[j], addr),
            None => forall|j: int| 0 <= j < nodes.len() ==> !produces(#[trigger] nodes[j], addr),
        },
    decreases nodes.len(),
{
    if nodes.len() > 0 && !produces(nodes.last(), addr) {
        lemma_last_producer(nodes.drop_last(), addr);
        assert forall|j: int| 0 <= j < nodes.len() - 1 implies nodes.drop_last()[j] == #[trigger] nodes[j] by {}
    }
}

/// The ids of the producers of some addresses, in order; an address that no
/// node produces is left out.
pub open spec fn producer_ids(targets: Seq<Seq<char>>, nodes: Seq<NodeV>) -> Seq<Seq<char>>
    decreases targets.len(),
{
    if targets.len() == 0 {
        Seq::empty()
    } else {
        let rest = producer_ids(targets.drop_last(), nodes);
        match last_producer(nodes, targets.last()) {
            Some(j) => rest.push(nodes[j].id),
            None => rest,
        }
    }
}

/// The action nodes of a root's blocks, in order: each action block, and the
/// nodes of each parallel block in place.
pub open spec fn nodes_of(bs: Seq<BlockV>) -> Seq<NodeV>
    decreases bs.len(),
{
    if bs.len() == 0 {
        Seq::empty()
    } else {
        nodes_of(bs.drop_last()) + match bs.last() {
            BlockV::Action(n) => seq![n],
            BlockV::Parallel(p) => p.nodes,
            _ => Seq::empty(),
        }
    }
}

/// A node with its dependencies set among the nodes of its root.
pub open spec fn linked(n: NodeV, nodes: Seq<NodeV>) -> NodeV {
    NodeV { depends_on: producer_ids(node_targets(n), nodes), ..n }
}

pub open spec fn link_block(b: BlockV, nodes: Seq<NodeV>) -> BlockV {
    match b {
        BlockV::Action(n) => BlockV::Action(linked(n, nodes)),
        BlockV::Parallel(p) => BlockV::Parallel(
            ParallelV { id: p.id, nodes: p.nodes.map_values(|n: NodeV| linked(n, nodes)) },
        ),
        _ => b,
    }
}

/// The blocks of a root, each action node with its dependencies set among the
/// root's action nodes.
pub open spec fn link_blocks(bs: Seq<BlockV>) -> Seq<BlockV> {
    bs.map_values(|b: BlockV| link_block(b, nodes_of(bs)))
}

pub open spec fn nodes_v(nodes: Seq<&ActionNode>) -> Seq<NodeV> {
    nodes.map_values(|n: &ActionNode| node_v(*n))
}

fn node_produces(n: &ActionNode, addr: &str) -> (r: bool)
    ensures
        r == produces(node_v(*n), addr@),
{
    match &n.outputs {
        Some(o) => {
            let ghost ov = node_v(*n).outputs->0;
            assert(ov.len() == o@.len());
            let mut k: usize = 0;
            while k < o.len()
                invariant
                    0 <= k <= o@.len(),
                    n.outputs == Some(*o),
                    ov == node_v(*n).outputs->0,
                    ov.len() == o@.len(),
                    forall|j: int| 0 <= j < k ==> (#[trigger] ov[j]).address != addr@,
                decreases o@.len() - k,
            {
                assert(ov[k as int].address == o@[k as int].address@);
                if str_eq(o[k].address.as_str(), addr) {
                    return true;
                }
                k = k + 1;
            }
            false
        },
        None => false,
    }
}

/// The index of the last node that declares an output at this address.
fn producer_index(nodes: &Vec<&ActionNode>, addr: &str) -> (r: Option<usize>)
    ensures
        match r {
            Some(j) => last_producer(nodes_v(nodes@), addr@) == Some(j as int),
            None => last_producer(nodes_v(nodes@), addr@) is None,
        },
{
    let ghost nv = nodes_v(nodes@);
    let mut i: usize = nodes.len();
    assert(nv.subrange(0, i as int) == nv);
    while i > 0
        invariant
            0 <= i <= nodes@.len(),
            nv == nodes_v(nodes@),
            last_producer(nv, addr@) == last_producer(nv.subrange(0, i as int), addr@),
        decreases i,
    {
        let ghost p = nv.subrange(0, i as int);
        assert(p.drop_last() == nv.subrange(0, i - 1));
        if node_produces(nodes[i - 1], addr) {
            return Some(i - 1);
        }
        i = i - 1;
    }
    None
}

/// The ids of the nodes that a node depends on, among the given nodes: for each
/// `Ref(...)` binding of the node, the id of the last node producing the
/// address it reads, if any.
pub fn dependency_ids(nodes: &Vec<&ActionNode>, node: &ActionNode) -> (r: Vec<String>)
    ensures
        strs(r@) == producer_ids(node_targets(node_v(*node)), nodes_v(nodes@)),
{
    let ghost nv = nodes_v(nodes@);
    let mut res: Vec<String> = Vec::new();
    assert(strs(res@) =~= Seq::<Seq<char>>::empty());
    match &node.inputs {
        None => res,
        Some(bs) => {
            let ghost bv = node_v(*node).inputs->0;
            assert(bv.len() == bs@.len());
            let mut i: usize = 0;
            while i < bs.len()
                invariant
                    0 <= i <= bs@.len(),
                    nv == nodes_v(nodes@),
                    node.inputs == Some(*bs),
                    bv == node_v(*node).inputs->0,
                    bv.len() == bs@.len(),
                    strs(res@) == producer_ids(ref_targets(bv.subrange(0, i as int)), nv),
                decreases bs@.len() - i,
            {
                let ghost p = bv.subrange(0, i + 1);
                assert(p.drop_last() == bv.subrange(0, i as int));
                assert(p.last() == bv[i as int]);
                match &bs[i].source {
                    InputSource::Ref(t) => {
                        let ghost ts = ref_targets(bv.subrange(0, i as int));
                        assert(ref_targets(p) == ts.push(t@));
                        assert(ts.push(t@).drop_last() == ts);
                        match producer_index(nodes, t.as_str()) {
                            Some(j) => {
                                proof {
                                    lemma_last_producer(nv, t@);
                                }
                                let ghost before = res@;
                                res.push(owned(nodes[j].id.as_str()));
                                assert(strs(res@) =~= strs(before).push(nv[j as int].id));
                            },
                            None => {},
                        }
                    },
                    InputSource::Literal(_) => {},
                }
                i = i + 1;
            }
            assert(bv.subrange(0, bs@.len() as int) == bv);
            res
        },
    }
}

proof fn lemma_nodes_of(bs: Seq<Block>)
    ensures
        actions_of(bs).map_values(|n: ActionNode| node_v(n)) == nodes_of(bs.map_values(|b: Block| block_v(b))),
    decreases bs.len(),
{
    let bv = bs.map_values(|b: Block| block_v(b));
    if bs.len() > 0 {
        lemma_nodes_of(bs.drop_last());
        assert(bv.drop_last() =~= bs.drop_last().map_values(|b: Block| block_v(b)));
        let a = actions_of(bs.drop_last());
        let tail = match bs.last() {
            Block::Action(n) => seq![n],
            Block::Parallel(p) => p.nodes@,
            _ => Seq::<ActionNode>::empty(),
        };
        assert((a + tail).map_values(|n: ActionNode| node_v(n)) =~= a.map_values(|n: ActionNode| node_v(n))
            + tail.map_values(|n: ActionNode| node_v(n)));
        assert(bv.last() == block_v(bs.last()));
        match bs.last() {
            Block::Action(n) => {
                assert(tail.map_values(|n: ActionNode| node_v(n)) =~= seq![node_v(n)]);
            },
            Block::Parallel(p) => {},
            _ => {
                assert(tail.map_values(|n: ActionNode| node_v(n)) =~= Seq::<NodeV>::empty());
            },
        }
    } else {
        assert(actions_of(bs).map_values(|n: ActionNode| node_v(n)) =~= Seq::<NodeV>::empty());
    }
}

/// Whether `ids` holds, for each action node of a block in order, the
/// dependencies it gets among `nodes`.
pub open spec fn block_ids(b: BlockV, ids: Seq<Vec<String>>, nodes: Seq<NodeV>) -> bool {
    match b {
        BlockV::Action(n) => ids.len() == 1 && strs(ids[0]@) == producer_ids(node_targets(n), nodes),
        BlockV::Parallel(p) => ids.len() == p.nodes.len() && forall|j: int|
            0 <= j < ids.len() ==> strs((#[trigger] ids[j])@) == producer_ids(node_targets(p.nodes[j]), nodes),
        _ => true,
    }
}

fn node_with(n: ActionNode, deps: Vec<String>) -> (r: ActionNode)
    ensures
        node_v(r) == (NodeV { depends_on: strs(deps@), ..node_v(n) }),
{
    let mut n = n;
    n.depends_on = deps;
    n
}

fn link_parallel(p: ParallelBlock, ids: Vec<Vec<String>>, Ghost(nodes): Ghost<Seq<NodeV>>) -> (r: ParallelBlock)
    requires
        block_ids(block_v(Block::Parallel(p)), ids@, nodes),
    ensures
        block_v(Block::Parallel(r)) == link_block(block_v(Block::Parallel(p)), nodes),
{
    let ghost pv = p.nodes@.map_values(|n: ActionNode| node_v(n));
    let ghost ids0 = ids@;
    let ParallelBlock { id, nodes: mut rest } = p;
    let mut ids = ids;
    let mut out: Vec<ActionNode> = Vec::new();
    let ghost mut i: int = 0;
    assert(out@.map_values(|n: ActionNode| node_v(n)) =~= Seq::<NodeV>::empty());
    while rest.len() > 0
        invariant
            0 <= i <= pv.len(),
            ids0.len() == pv.len(),
            rest@.map_values(|n: ActionNode| node_v(n)) == pv.subrange(i, pv.len() as int),
            ids@ == ids0.subrange(i, ids0.len() as int),
            forall|j: int| 0 <= j < ids0.len() ==> strs((#[trigger] ids0[j])@) == producer_ids(node_targets(pv[j]), nodes),
            out@.map_values(|n: ActionNode| node_v(n)) == pv.subrange(0, i).map_values(|n: NodeV| linked(n, nodes)),
        decreases rest@.len(),
    {
        assert(rest@.map_values(|n: ActionNode| node_v(n)).len() == rest@.len());
        assert(i < pv.len());
        assert(pv.subrange(i, pv.len() as int)[0] == pv[i]);
        assert(rest@.map_values(|n: ActionNode| node_v(n))[0] == pv[i]);
        assert(ids@.len() > 0);
        let ghost r0 = rest@;
        let n = rest.remove(0);
        let d = ids.remove(0);
        assert(d == ids0[i]);
        let ghost before = out@.map_values(|n: ActionNode| node_v(n));
        let m = node_with(n, d);
        out.push(m);
        assert(out@.map_values(|n: ActionNode| node_v(n)) =~= before.push(linked(pv[i], nodes)));
        assert(pv.subrange(0, i + 1).map_values(|n: NodeV| linked(n, nodes)) =~= pv.subrange(0, i).map_values(
            |n: NodeV| linked(n, nodes),
        ).push(linked(pv[i], nodes)));
        assert(rest@ == r0.subrange(1, r0.len() as int));
        proof {
            let rm = rest@.map_values(|n: ActionNode| node_v(n));
            let r0m = r0.map_values(|n: ActionNode| node_v(n));
            assert forall|k: int| 0 <= k < rm.len() implies #[trigger] rm[k] == pv.subrange(i + 1, pv.len() as int)[k] by {
                assert(rest@[k] == r0[k + 1]);
                assert(r0m[k + 1] == pv.subrange(i, pv.len() as int)[k + 1]);
            }
            assert(rm =~= pv.subrange(i + 1, pv.len() as int));
        }
        proof {
            i = i + 1;
        }
    }
    assert(i == pv.len());
    assert(pv.subrange(0, i) == pv);
    ParallelBlock { id, nodes: out }
}

/// Sets the dependencies of every action node of a root's blocks: the ids of
/// the producers, among all the action nodes of these blocks, of the addresses
/// that its `Ref(...)` bindings read.
pub fn link_dependencies(blocks: Vec<Block>) -> (r: Vec<Block>)
    ensures
        r@.map_values(|b: Block| block_v(b)) == link_blocks(blocks@.map_values(|b: Block| block_v(b))),
{
    let ghost b0 = blocks@;
    let ghost bv = blocks@.map_values(|b: Block| block_v(b));
    let ghost nv = nodes_of(bv);
    let mut ids: Vec<Vec<Vec<String>>> = Vec::new();
    {
        let nodes = collect_actions(&blocks);
        proof {
            lemma_nodes_of(blocks@);
            assert(nodes_v(nodes@) =~= nodes@.map_values(|n: &ActionNode| *n).map_values(|n: ActionNode| node_v(n)));
        }
        let mut i: usize = 0;
        while i < blocks.len()
            invariant
                0 <= i <= blocks@.len(),
                bv == blocks@.map_values(|b: Block| block_v(b)),
                nodes_v(nodes@) == nv,
                ids@.len() == i,
                forall|j: int| 0 <= j < i ==> block_ids(bv[j], (#[trigger] ids@[j])@, nv),
            decreases blocks@.len() - i,
        {
            let mut per: Vec<Vec<String>> = Vec::new();
            match &blocks[i] {
                Block::Action(n) => {
                    per.push(dependency_ids(&nodes, n));
                },
                Block::Parallel(p) => {
                    let ghost pv = p.nodes@.map_values(|n: ActionNode| node_v(n));
                    let mut j: usize = 0;
                    while j < p.nodes.len()
                        invariant
                            0 <= j <= p.nodes@.len(),
                            pv == p.nodes@.map_values(|n: ActionNode| node_v(n)),
                            nodes_v(nodes@) == nv,
                            per@.len() == j,
                            forall|k: int| 0 <= k < j ==> strs((#[trigger] per@[k])@) == producer_ids(node_targets(pv[k]), nv),
                        decreases p.nodes@.len() - j,
                    {
                        per.push(dependency_ids(&nodes, &p.nodes[j]));
                        j = j + 1;
                    }
                },
                _ => {},
            }
            ids.push(per);
            i = i + 1;
        }
    }
    let ghost ids0 = ids@;
    let mut rest = blocks;
    let mut out: Vec<Block> = Vec::new();
    let ghost mut i: int = 0;
    assert(out@.map_values(|b: Block| block_v(b)) =~= Seq::<BlockV>::empty());
    while rest.len() > 0
        invariant
            0 <= i <= bv.len(),
            ids0.len() == bv.len(),
            rest@.map_values(|b: Block| block_v(b)) == bv.subrange(i, bv.len() as int),
            ids@ == ids0.subrange(i, ids0.len() as int),
            forall|j: int| 0 <= j < ids0.len() ==> block_ids(bv[j], (#[trigger] ids0[j])@, nv),
            out@.map_values(|b: Block| block_v(b)) == bv.subrange(0, i).map_values(|b: BlockV| link_block(b, nv)),
        decreases rest@.len(),
    {
        assert(rest@.map_values(|b: Block| block_v(b)).len() == rest@.len());
        assert(i < bv.len());
        assert(bv.subrange(i, bv.len() as int)[0] == bv[i]);
        assert(rest@.map_values(|b: Block| block_v(b))[0] == bv[i]);
        assert(ids@.len() > 0);
        let ghost r0 = rest@;
        let b = rest.remove(0);
        let mut per = ids.remove(0);
        assert(per@ == ids0[i]@);
        let ghost before = out@.map_values(|b: Block| block_v(b));
        let nb = match b {
            Block::Action(n) => {
                let d = per.remove(0);
                Block::Action(node_with(n, d))
            },
            Block::Parallel(p) => Block::Parallel(link_parallel(p, per, Ghost(nv))),
            other => other,
        };
        assert(block_v(nb) == link_block(bv[i], nv));
        out.push(nb);
        assert(out@.map_values(|b: Block| block_v(b)) =~= before.push(link_block(bv[i], nv)));
        assert(bv.subrange(0, i + 1).map_values(|b: BlockV| link_block(b, nv)) =~= bv.subrange(0, i).map_values(
            |b: BlockV| link_block(b, nv),
        ).push(link_block(bv[i], nv)));
        assert(rest@ == r0.subrange(1, r0.len() as int));
        proof {
            let rm = rest@.map_values(|b: Block| block_v(b));
            let r0m = r0.map_values(|b: Block| block_v(b));
            assert forall|k: int| 0 <= k < rm.len() implies #[trigger] rm[k] == bv.subrange(i + 1, bv.len() as int)[k] by {
                assert(rest@[k] == r0[k + 1]);
                assert(r0m[k + 1] == bv.subrange(i, bv.len() as int)[k + 1]);
            }
            assert(rm =~= bv.subrange(i + 1, bv.len() as int));
        }
        proof {
            i = i + 1;
        }
    }
    assert(i == bv.len());
    assert(bv.subrange(0, i) == bv);
    out
}

} // verus!
