//! Run-wide bookkeeping of a program's execution: loading context blocks,
//! finding a level's nodes, the dependency ids of the traces, merging ledgers
//! of nodes run side by side, and the overall status.

use vstd::prelude::*;
use crate::ast::{ActionNode, AetherValue, Block, value_json};
use crate::executor::NodeTrace;
use crate::json::JVal;
use crate::ledger::{StateLedger, keys_distinct, lemma_pairs_map, pairs_map, write_spec};
use crate::schedule::{
    cycle_message, dep_graph, find_named, first_named, has_cycle, ids_distinct, lemma_first_named, names_of,
    node_view, ordered_schedule, schedule_of, seqs_of, topological_sort,
};
use crate::text::{owned, str_eq, strs};

verus! {

/// The ledger after writing each context pair, in order (untyped writes);
/// the first refused write (an address already written) ends the load.
pub open spec fn insert_all(led: Map<Seq<char>, JVal>, data: Seq<(String, AetherValue)>) -> Result<Map<Seq<char>, JVal>, Seq<char>>
    decreases data.len(),
{
    if data.len() == 0 {
        Ok(led)
    } else {
        match insert_all(led, data.drop_last()) {
            Ok(m) => write_spec(m, data.last().0@, value_json(data.last().1), None),
            Err(e) => Err(e),
        }
    }
}

/// The ledger after loading the context blocks among a root's blocks, in
/// order, or the first refused write.
pub open spec fn load_spec(led: Map<Seq<char>, JVal>, blocks: Seq<Block>) -> Result<Map<Seq<char>, JVal>, Seq<char>>
    decreases blocks.len(),
{
    if blocks.len() == 0 {
        Ok(led)
    } else {
        match load_spec(led, blocks.drop_last()) {
            Ok(m) => match blocks.last() {
                Block::Context(c) => insert_all(m, c.data@),
                _ => Ok(m),
            },
            Err(e) => Err(e),
        }
    }
}

proof fn lemma_insert_all_err(led: Map<Seq<char>, JVal>, data: Seq<(String, AetherValue)>, k: int, e: Seq<char>)
    requires
        0 <= k <= data.len(),
        insert_all(led, data.subrange(0, k)) == Err::<Map<Seq<char>, JVal>, Seq<char>>(e),
    ensures
        insert_all(led, data) == Err::<Map<Seq<char>, JVal>, Seq<char>>(e),
    decreases data.len() - k,
{
    if k < data.len() {
        assert(data.subrange(0, k + 1).drop_last() == data.subrange(0, k));
        lemma_insert_all_err(led, data, k + 1, e);
    } else {
        assert(data.subrange(0, k) == data);
    }
}

proof fn lemma_load_err(led: Map<Seq<char>, JVal>, blocks: Seq<Block>, k: int, e: Seq<char>)
    requires
        0 <= k <= blocks.len(),
        load_spec(led, blocks.subrange(0, k)) == Err::<Map<Seq<char>, JVal>, Seq<char>>(e),
    ensures
        load_spec(led, blocks) == Err::<Map<Seq<char>, JVal>, Seq<char>>(e),
    decreases blocks.len() - k,
{
    if k < blocks.len() {
        assert(blocks.subrange(0, k + 1).drop_last() == blocks.subrange(0, k));
        lemma_load_err(led, blocks, k + 1, e);
    } else {
        assert(blocks.subrange(0, k) == blocks);
    }
}

/// Loads a root's context blocks into the ledger; a context address that is
/// already written is refused with the ledger's message.
pub fn load_context(ledger: &mut StateLedger, blocks: &Vec<Block>) -> (r: Result<(), String>)
    ensures
        match load_spec(old(ledger)@, blocks@) {
            Ok(m) => r is Ok && final(ledger)@ == m,
            Err(e) => r matches Err(x) && x@ == e,
        },
{
    let mut i: usize = 0;
    while i < blocks.len()
        invariant
            0 <= i <= blocks@.len(),
            load_spec(old(ledger)@, blocks@.subrange(0, i as int)) == Ok::<Map<Seq<char>, JVal>, Seq<char>>(ledger@),
        decreases blocks@.len() - i,
    {
        let ghost p = blocks@.subrange(0, i + 1);
        assert(p.drop_last() == blocks@.subrange(0, i as int));
        match &blocks[i] {
            Block::Context(c) => {
                let ghost base = ledger@;
                let mut j: usize = 0;
                while j < c.data.len()
                    invariant
                        0 <= j <= c.data@.len(),
                        insert_all(base, c.data@.subrange(0, j as int)) == Ok::<Map<Seq<char>, JVal>, Seq<char>>(ledger@),
                        0 <= i < blocks@.len(),
                        blocks@[i as int] == Block::Context(*c),
                        load_spec(old(ledger)@, blocks@.subrange(0, i as int)) == Ok::<Map<Seq<char>, JVal>, Seq<char>>(base),
                    decreases c.data@.len() - j,
                {
                    let ghost q = c.data@.subrange(0, j + 1);
                    assert(q.drop_last() == c.data@.subrange(0, j as int));
                    let (k, v) = &c.data[j];
                    match ledger.write(k.as_str(), v.to_json(), None) {
                        Ok(()) => {},
                        Err(e) => {
                            proof {
                                lemma_insert_all_err(base, c.data@, j + 1, e@);
                                let ghost p2 = blocks@.subrange(0, i + 1);
                                assert(p2.drop_last() == blocks@.subrange(0, i as int));
                                assert(p2.last() == blocks@[i as int]);
                                lemma_load_err(old(ledger)@, blocks@, i + 1, e@);
                            }
                            return Err(e);
                        },
                    }
                    j = j + 1;
                }
                assert(c.data@.subrange(0, c.data@.len() as int) == c.data@);
            },
            _ => {},
        }
        i = i + 1;
    }
    assert(blocks@.subrange(0, blocks@.len() as int) == blocks@);
    Ok(())
}

/// The nodes of a level, by index: the first node with each listed id, ids
/// without a node left out.
pub open spec fn level_spec(nodes: Seq<ActionNode>, ids: Seq<String>) -> Seq<usize>
    decreases ids.len(),
{
    if ids.len() == 0 {
        Seq::empty()
    } else {
        let rest = level_spec(nodes, ids.drop_last());
        match first_named(nodes, ids.last()@, 0) {
            Some(j) => rest.push(j as usize),
            None => rest,
        }
    }
}

/// The indices of a level's nodes.
pub fn level_nodes(nodes: &Vec<&ActionNode>, level: &Vec<String>) -> (r: Vec<usize>)
    ensures
        r@ == level_spec(node_view(nodes@), level@),
        forall|k: int| 0 <= k < r@.len() ==> (#[trigger] r@[k]) < nodes@.len(),
{
    let ghost nv = node_view(nodes@);
    let mut res: Vec<usize> = Vec::new();
    let mut i: usize = 0;
    while i < level.len()
        invariant
            0 <= i <= level@.len(),
            nv == node_view(nodes@),
            res@ == level_spec(nv, level@.subrange(0, i as int)),
            forall|k: int| 0 <= k < res@.len() ==> (#[trigger] res@[k]) < nodes@.len(),
        decreases level@.len() - i,
    {
        let ghost p = level@.subrange(0, i + 1);
        assert(p.drop_last() == level@.subrange(0, i as int));
        proof {
            lemma_first_named(nv, level@[i as int]@, 0);
        }
        match find_named(nodes, level[i].as_str()) {
            Some(j) => {
                res.push(j);
            },
            None => {},
        }
        i = i + 1;
    }
    assert(level@.subrange(0, level@.len() as int) == level@);
    res
}

/// The nodes that each level of a schedule runs, by index, as `level_nodes`
/// picks them.
pub open spec fn level_picks(nodes: Seq<ActionNode>, levels: Seq<Vec<String>>) -> Seq<Seq<usize>> {
    levels.map_values(|l: Vec<String>| level_spec(nodes, l@))
}

/// What the run of a root does next.
pub enum RunStep {
    /// Run these nodes (indices into the root's action nodes), side by side
    /// when there are several, each on its own copy of the ledger.
    Level(Vec<usize>),
    /// Every level has run.
    Done,
}

/// The run of one root's action nodes: its schedule's levels, by node index,
/// handed out one by one in order.
pub struct RootRun {
    picks: Vec<Vec<usize>>,
    next: usize,
}

impl RootRun {
    #[verifier::type_invariant]
    spec fn within(self) -> bool {
        self.next <= self.picks@.len()
    }

    /// The levels of the run, by node index.
    pub closed spec fn levels_v(self) -> Seq<Seq<usize>> {
        seqs_of(self.picks@)
    }

    /// The number of levels handed out so far.
    pub closed spec fn handed_out(self) -> nat {
        self.next as nat
    }

    /// The run of a root's action nodes, none handed out yet: the levels of
    /// their schedule, in order, each as `level_nodes` picks its nodes. Fails
    /// as the schedule does (two nodes with one id, or a dependency cycle).
    pub fn plan(actions: &Vec<&ActionNode>) -> (r: Result<RootRun, String>)
        ensures
            r is Ok <==> ids_distinct(node_view(actions@)) && !has_cycle(dep_graph(node_view(actions@))),
            r matches Err(m) ==> m@ == cycle_message(),
            r matches Ok(rr) ==> rr.handed_out() == 0 && exists|levels: Seq<Vec<String>>|
                #[trigger] schedule_of(node_view(actions@), names_of(levels)) && ordered_schedule(
                    node_view(actions@),
                    names_of(levels),
                ) && rr.levels_v() == level_picks(node_view(actions@), levels),
    {
        let levels = match topological_sort(actions) {
            Ok(l) => l,
            Err(e) => {
                return Err(e);
            },
        };
        let ghost nv = node_view(actions@);
        let mut picks: Vec<Vec<usize>> = Vec::new();
        let mut m: usize = 0;
        while m < levels.len()
            invariant
                0 <= m <= levels@.len(),
                nv == node_view(actions@),
                seqs_of(picks@) == level_picks(nv, levels@.subrange(0, m as int)),
            decreases levels@.len() - m,
        {
            let p = level_nodes(actions, &levels[m]);
            let ghost before = seqs_of(picks@);
            picks.push(p);
            assert(seqs_of(picks@) =~= before.push(level_spec(nv, levels@[m as int]@)));
            assert(levels@.subrange(0, m + 1) =~= levels@.subrange(0, m as int).push(levels@[m as int]));
            assert(level_picks(nv, levels@.subrange(0, m + 1)) =~= level_picks(nv, levels@.subrange(0, m as int)).push(
                level_spec(nv, levels@[m as int]@),
            ));
            m = m + 1;
        }
        assert(levels@.subrange(0, levels@.len() as int) == levels@);
        let rr = RootRun { picks, next: 0 };
        assert(schedule_of(nv, names_of(levels@)));
        Ok(rr)
    }

    /// The next level to run, or `Done` when every level has run.
    pub fn step(&mut self) -> (r: RunStep)
        ensures
            final(self).levels_v() == old(self).levels_v(),
            old(self).handed_out() < old(self).levels_v().len() ==> {
                &&& r matches RunStep::Level(p) && p@ == old(self).levels_v()[old(self).handed_out() as int]
                &&& final(self).handed_out() == old(self).handed_out() + 1
            },
            old(self).handed_out() >= old(self).levels_v().len() ==> r is Done && final(self).handed_out()
                == old(self).handed_out(),
    {
        proof {
            use_type_invariant(&*self);
        }
        if self.next < self.picks.len() {
            let p = copy_indices(&self.picks[self.next]);
            self.next = self.next + 1;
            RunStep::Level(p)
        } else {
            RunStep::Done
        }
    }
}

fn copy_indices(v: &Vec<usize>) -> (r: Vec<usize>)
    ensures
        r@ == v@,
{
    let mut res: Vec<usize> = Vec::new();
    let mut i: usize = 0;
    while i < v.len()
        invariant
            0 <= i <= v@.len(),
            res@ == v@.subrange(0, i as int),
        decreases v@.len() - i,
    {
        res.push(v[i]);
        i = i + 1;
    }
    assert(v@.subrange(0, v@.len() as int) == v@);
    res
}

/// A copy of a list of texts.
fn copy_names(v: &Vec<String>) -> (r: Vec<String>)
    ensures
        strs(r@) == strs(v@),
{
    let mut res: Vec<String> = Vec::new();
    let mut i: usize = 0;
    while i < v.len()
        invariant
            0 <= i <= v@.len(),
            strs(res@) == strs(v@.subrange(0, i as int)),
        decreases v@.len() - i,
    {
        let ghost before = res@;
        res.push(owned(v[i].as_str()));
        assert(strs(res@) =~= strs(before).push(v@[i as int]@));
        assert(strs(v@.subrange(0, i + 1)) =~= strs(v@.subrange(0, i as int)).push(v@[i as int]@));
        i = i + 1;
    }
    assert(v@.subrange(0, v@.len() as int) == v@);
    res
}

/// Sets the dependency ids of each trace from `start` on: those that the first
/// node with the trace's node id holds (traces of no node are left as they are).
pub fn annotate_dependencies(trace: &mut Vec<NodeTrace>, start: usize, nodes: &Vec<&ActionNode>)
    ensures
        final(trace)@.len() == old(trace)@.len(),
        forall|i: int|
            0 <= i < old(trace)@.len() ==> {
                let t = #[trigger] final(trace)@[i];
                let o = old(trace)@[i];
                &&& t.node == o.node && t.intent == o.intent && t.safety == o.safety
                &&& t.status == o.status && t.duration_ms == o.duration_ms && t.output == o.output
                &&& t.validation_results == o.validation_results && t.asl_match == o.asl_match
                &&& t.asl_warnings == o.asl_warnings && t.heal_log == o.heal_log
                &&& if i < start {
                    t.depends_on == o.depends_on
                } else {
                    match first_named(node_view(nodes@), o.node@, 0) {
                        Some(j) => strs(t.depends_on@) == strs(node_view(nodes@)[j].depends_on@),
                        None => t.depends_on == o.depends_on,
                    }
                }
            },
{
    let ghost nv = node_view(nodes@);
    let mut i: usize = start;
    if i > trace.len() {
        i = trace.len();
    }
    while i < trace.len()
        invariant
            start <= i || i == old(trace)@.len(),
            i <= trace@.len(),
            trace@.len() == old(trace)@.len(),
            nv == node_view(nodes@),
            forall|k: int|
                0 <= k < old(trace)@.len() ==> {
                    let t = #[trigger] trace@[k];
                    let o = old(trace)@[k];
                    &&& t.node == o.node && t.intent == o.intent && t.safety == o.safety
                    &&& t.status == o.status && t.duration_ms == o.duration_ms && t.output == o.output
                    &&& t.validation_results == o.validation_results && t.asl_match == o.asl_match
                    &&& t.asl_warnings == o.asl_warnings && t.heal_log == o.heal_log
                    &&& if k < start || k >= i {
                        t.depends_on == o.depends_on
                    } else {
                        match first_named(nv, o.node@, 0) {
                            Some(j) => strs(t.depends_on@) == strs(nv[j].depends_on@),
                            None => t.depends_on == o.depends_on,
                        }
                    }
                },
        decreases trace@.len() - i,
    {
        proof {
            lemma_first_named(nv, trace@[i as int].node@, 0);
        }
        match find_named(nodes, trace[i].node.as_str()) {
            Some(j) => {
                let deps = copy_names(&nodes[j].depends_on);
                let mut t = trace.remove(i);
                t.depends_on = deps;
                trace.insert(i, t);
            },
            None => {},
        }
        i = i + 1;
    }
}

/// Merges the ledger of a node run on its own copy: every address of the copy
/// is written into the main ledger; writes to addresses the main ledger
/// already holds are refused, so those keep their values.
pub fn merge_ledger(main: &mut StateLedger, local: &StateLedger)
    ensures
        final(main)@ == local@.union_prefer_right(old(main)@),
{
    let pairs = local.export();
    proof {
        lemma_pairs_map(pairs@);
    }
    let mut i: usize = 0;
    while i < pairs.len()
        invariant
            0 <= i <= pairs@.len(),
            keys_distinct(pairs@),
            pairs_map(pairs@) == local@,
            main@ == pairs_map(pairs@.subrange(0, i as int)).union_prefer_right(old(main)@),
        decreases pairs@.len() - i,
    {
        let ghost p = pairs@.subrange(0, i + 1);
        assert(p.drop_last() == pairs@.subrange(0, i as int));
        let ghost before = main@;
        let (k, v) = &pairs[i];
        proof {
            let pre = pairs@.subrange(0, i as int);
            assert(keys_distinct(pre)) by {
                assert forall|a: int, b: int| 0 <= a < pre.len() && 0 <= b < pre.len() && a != b implies pre[a].0@ != pre[b].0@ by {
                    assert(pre[a] == pairs@[a] && pre[b] == pairs@[b]);
                }
            }
            lemma_pairs_map(pre);
            if pairs_map(pre).contains_key(k@) {
                let w = choose|w: int| 0 <= w < pre.len() && pre[w].0@ == k@;
                assert(pre[w] == pairs@[w]);
            }
            assert(pairs@[i as int] == (*k, *v));
            assert(p.last() == pairs@[i as int]);
        }
        let _ = main.write(k.as_str(), crate::json::clone_json(v), None);
        assert(main@ =~= pairs_map(p).union_prefer_right(old(main)@));
        i = i + 1;
    }
    assert(pairs@.subrange(0, pairs@.len() as int) == pairs@);
}

/// A node succeeded when it completed or was skipped.
pub open spec fn trace_ok(t: NodeTrace) -> bool {
    t.status@ == "COMPLETED"@ || t.status@ == "SKIPPED"@
}

/// The number of traces of nodes that did not succeed.
pub open spec fn failures(ts: Seq<NodeTrace>) -> nat
    decreases ts.len(),
{
    if ts.len() == 0 {
        0
    } else {
        failures(ts.drop_last()) + if trace_ok(ts.last()) {
            0nat
        } else {
            1nat
        }
    }
}

proof fn lemma_failures_le(ts: Seq<NodeTrace>)
    ensures
        failures(ts) <= ts.len(),
    decreases ts.len(),
{
    if ts.len() > 0 {
        lemma_failures_le(ts.drop_last());
    }
}

/// Counts the traces of nodes that did not succeed.
pub fn count_failures(trace: &Vec<NodeTrace>) -> (r: usize)
    ensures
        r == failures(trace@),
{
    let mut n: usize = 0;
    let mut i: usize = 0;
    while i < trace.len()
        invariant
            0 <= i <= trace@.len(),
            n == failures(trace@.subrange(0, i as int)),
        decreases trace@.len() - i,
    {
        let ghost p = trace@.subrange(0, i + 1);
        assert(p.drop_last() == trace@.subrange(0, i as int));
        proof {
            lemma_failures_le(p);
        }
        let ok = str_eq(trace[i].status.as_str(), "COMPLETED") || str_eq(trace[i].status.as_str(), "SKIPPED");
        if !ok {
            n = n + 1;
        }
        i = i + 1;
    }
    assert(trace@.subrange(0, trace@.len() as int) == trace@);
    n
}

/// The overall status of a run: SUCCESS when no node failed.
pub fn global_status(nodes_failed: usize) -> (r: &'static str)
    ensures
        r@ == (if nodes_failed == 0 {
            "SUCCESS"@
        } else {
            "PARTIAL_FAILURE"@
        }),
{
    if nodes_failed == 0 {
        "SUCCESS"
    } else {
        "PARTIAL_FAILURE"
    }
}

} // verus!
