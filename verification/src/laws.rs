//! Properties of the kernel that relate its operations: the ledger's reads
//! and writes, the safety gate, the schedule, node outcomes, run status and
//! the names that pipelines and guest code use.

use vstd::prelude::*;
use crate::depends::{link_block, link_blocks, linked, node_targets, nodes_of, produces, producer_ids, last_producer, lemma_last_producer};
use crate::syntax::{BlockV, NodeV};
use crate::ast::{ActionNode, AetherType, BinOperator, SafetyLevel, safety_from_tag, safety_rank, safety_short, type_accepts};
use crate::eval::{EvalV, FloatOp, binop_spec, ok};
use crate::guest::{blank, first_nonblank_indent, indent, return_line, top_level};
use crate::json::truthy;
use crate::syntax::comparison_op;
use crate::text::{join, lead_ws, lines, seq_starts_with, trim_start};
use crate::executor::{
    CheckV, PostV, PreV, checks_spec, commit_spec, node_outputs, node_safety, node_validation,
    post_spec, pre_spec, validation_fails,
};
use crate::guest::{sanitized, sanitized_chars};
use crate::json::JVal;
use crate::ledger::write_spec;
use crate::run::{failures, level_picks, level_spec, trace_ok};
use crate::executor::NodeTrace;
use crate::schedule::{
    dep_graph, first_named, ids_distinct, increasing, is_layering, lemma_first_named, level_names, levels_match, names_of,
    ordered_schedule, schedule_of,
};
use crate::registry::first_with_id;
use crate::short::{
    HeadV, exec_lang, expand_node_spec, hex_text, hex_upper_digit, hint_spec, node_id_text, node_text,
    parse_head, reg_safety,
};
use crate::text::{all_ascii, ascii_lower};

verus! {

// ---------------------------------------------------------------------------
// The ledger
// ---------------------------------------------------------------------------

/// Reading an address after a write that was not refused gives the value
/// written.
pub proof fn law_read_after_write(led: Map<Seq<char>, JVal>, a: Seq<char>, v: JVal, t: Option<AetherType>)
    requires
        write_spec(led, a, v, t) is Ok,
    ensures
        write_spec(led, a, v, t)->Ok_0.contains_key(a),
        write_spec(led, a, v, t)->Ok_0[a] == v,
{
}

/// A write changes no other address.
pub proof fn law_write_keeps_other_addresses(led: Map<Seq<char>, JVal>, a: Seq<char>, v: JVal, t: Option<AetherType>, b: Seq<char>)
    requires
        b != a,
    ensures
        match write_spec(led, a, v, t) {
            Ok(m) => m.contains_key(b) == led.contains_key(b) && (led.contains_key(b) ==> m[b] == led[b]),
            Err(_) => true,
        },
{
}

/// A write is refused exactly when its declared type does not accept the
/// value or the address already holds a value; an untyped write to a new
/// address is never refused.
pub proof fn law_write_refused_iff_mismatch_or_written(led: Map<Seq<char>, JVal>, a: Seq<char>, v: JVal, t: Option<AetherType>)
    ensures
        write_spec(led, a, v, t) is Err <==> ((t matches Some(ty) && !type_accepts(ty, v)) || led.contains_key(a)),
        t is None && !led.contains_key(a) ==> write_spec(led, a, v, t) is Ok,
{
}

/// The ledger is append-only: an address, once written, keeps its value
/// through every later write.
pub proof fn law_written_address_never_changes(led: Map<Seq<char>, JVal>, a: Seq<char>, v: JVal, t: Option<AetherType>, b: Seq<char>)
    requires
        led.contains_key(b),
    ensures
        match write_spec(led, a, v, t) {
            Ok(m) => m.contains_key(b) && m[b] == led[b],
            Err(_) => true,
        },
{
}

// ---------------------------------------------------------------------------
// The safety gate
// ---------------------------------------------------------------------------

/// A node allowed at one auto-approve level is allowed at every higher level.
pub proof fn law_gate_monotone(n: ActionNode, a: SafetyLevel, b: SafetyLevel)
    requires
        safety_rank(node_safety(n)) <= safety_rank(a),
        safety_rank(a) <= safety_rank(b),
    ensures
        safety_rank(node_safety(n)) <= safety_rank(b),
{
}

/// A node whose declared level exceeds the auto-approve level never reaches
/// its guest code: it finishes BLOCKED, as a failure.
pub proof fn law_blocked_nodes_never_run(n: ActionNode, auto: SafetyLevel, led: Map<Seq<char>, JVal>, ans: Seq<JVal>)
    requires
        safety_rank(node_safety(n)) > safety_rank(auto),
    ensures
        pre_spec(n, auto, led, ans) matches PreV::Finish(s, _, ok) && s == "BLOCKED"@ && !ok,
{
}

/// The guest code of a node runs only when its declared level is allowed.
pub proof fn law_running_nodes_pass_the_gate(n: ActionNode, auto: SafetyLevel, led: Map<Seq<char>, JVal>, ans: Seq<JVal>)
    requires
        pre_spec(n, auto, led, ans) is Run,
    ensures
        safety_rank(node_safety(n)) <= safety_rank(auto),
{
}

/// The short tag of each safety level is read back as that level.
pub proof fn law_safety_tag_round_trip(l: SafetyLevel)
    ensures
        all_ascii(safety_short(l)),
        safety_from_tag(ascii_lower(safety_short(l))) == Some(l),
{
    reveal_strlit("l0");
    reveal_strlit("l1");
    reveal_strlit("l2");
    reveal_strlit("l3");
    reveal_strlit("l4");
    reveal_strlit("pure");
    reveal_strlit("read_only");
    reveal_strlit("state_mod");
    reveal_strlit("net_egress");
    reveal_strlit("full_egress");
    reveal_strlit("system_root");
    let s = safety_short(l);
    assert(ascii_lower(s) =~= s);
    match l {
        SafetyLevel::L0Pure => {},
        SafetyLevel::L1ReadOnly => {
            assert(s[1] != "l0"@[1]);
        },
        SafetyLevel::L2StateMod => {
            assert(s[1] != "l0"@[1] && s[1] != "l1"@[1]);
        },
        SafetyLevel::L3NetEgress => {
            assert(s[1] != "l0"@[1] && s[1] != "l1"@[1] && s[1] != "l2"@[1]);
        },
        SafetyLevel::L4SystemRoot => {
            assert(s[1] != "l0"@[1] && s[1] != "l1"@[1] && s[1] != "l2"@[1] && s[1] != "l3"@[1]);
        },
    }
}

// ---------------------------------------------------------------------------
// The schedule
// ---------------------------------------------------------------------------

proof fn lemma_resolve_in_range(deps: Seq<String>, nodes: Seq<ActionNode>)
    requires
        nodes.len() <= usize::MAX,
    ensures
        forall|k: int| 0 <= k < crate::schedule::resolve(deps, nodes).len() ==> #[trigger] crate::schedule::resolve(deps, nodes)[k] < nodes.len(),
    decreases deps.len(),
{
    if deps.len() > 0 {
        lemma_resolve_in_range(deps.drop_last(), nodes);
        crate::schedule::lemma_first_named(nodes, deps.last()@, 0);
        let rest = crate::schedule::resolve(deps.drop_last(), nodes);
        match crate::schedule::first_named(nodes, deps.last()@, 0) {
            Some(j) => {
                assert((j as usize) as int == j);
                assert forall|k: int| 0 <= k < rest.push(j as usize).len() implies #[trigger] rest.push(j as usize)[k] < nodes.len() by {
                    if k < rest.len() {
                        assert(rest.push(j as usize)[k] == rest[k]);
                    }
                }
            },
            None => {},
        }
    }
}

proof fn lemma_level_of_name(nodes: Seq<ActionNode>, lv: Seq<int>, idx: Seq<Seq<usize>>, i: int, m: int)
    requires
        ids_distinct(nodes),
        lv.len() == nodes.len(),
        levels_match(idx, lv),
        0 <= i < nodes.len(),
        0 <= m < idx.len(),
        level_names(idx, nodes)[m].contains(nodes[i].id@),
    ensures
        lv[i] == m,
{
    let names = level_names(idx, nodes);
    let a = choose|a: int| 0 <= a < names[m].len() && names[m][a] == nodes[i].id@;
    assert(names[m] == idx[m].map_values(|x: usize| nodes[x as int].id@));
    let x = idx[m][a] as int;
    assert(x < lv.len() && lv[x] == m);
    assert(nodes[x].id@ == nodes[i].id@);
}

/// In a schedule of nodes with distinct ids, a node is on a later level than
/// every node named among its dependencies.
pub proof fn law_schedule_respects_dependencies(nodes: Seq<ActionNode>, names: Seq<Seq<Seq<char>>>, i: int, k: int, m1: int, m2: int)
    requires
        ids_distinct(nodes),
        nodes.len() <= usize::MAX,
        schedule_of(nodes, names),
        0 <= i < nodes.len(),
        0 <= k < dep_graph(nodes)[i].len(),
        0 <= m1 < names.len(),
        names[m1].contains(nodes[dep_graph(nodes)[i][k] as int].id@),
        0 <= m2 < names.len(),
        names[m2].contains(nodes[i].id@),
    ensures
        m1 < m2,
{
    let (lv, idx) = choose|lv: Seq<int>, idx: Seq<Seq<usize>>|
        #[trigger] is_layering(dep_graph(nodes), lv) && #[trigger] levels_match(idx, lv) && names
            == level_names(idx, nodes);
    let g = dep_graph(nodes);
    let j = g[i][k] as int;
    assert(lv[j] < lv[i]);
    lemma_resolve_in_range(nodes[i].depends_on@, nodes);
    assert(g[i] == crate::schedule::resolve(nodes[i].depends_on@, nodes));
    assert(0 <= j < nodes.len());
    lemma_level_of_name(nodes, lv, idx, j, m1);
    lemma_level_of_name(nodes, lv, idx, i, m2);
}

/// Every node of a schedule is on one of its levels.
pub proof fn law_schedule_covers_every_node(nodes: Seq<ActionNode>, names: Seq<Seq<Seq<char>>>, i: int)
    requires
        schedule_of(nodes, names),
        nodes.len() <= usize::MAX,
        0 <= i < nodes.len(),
    ensures
        exists|m: int| 0 <= m < names.len() && #[trigger] names[m].contains(nodes[i].id@),
{
    let (lv, idx) = choose|lv: Seq<int>, idx: Seq<Seq<usize>>|
        #[trigger] is_layering(dep_graph(nodes), lv) && #[trigger] levels_match(idx, lv) && names
            == level_names(idx, nodes);
    let m = lv[i];
    assert(0 <= m < idx.len() && idx[m].contains(i as usize));
    let a = choose|a: int| 0 <= a < idx[m].len() && idx[m][a] == i as usize;
    assert(names[m] == idx[m].map_values(|x: usize| nodes[x as int].id@));
    assert((i as usize) as int == i);
    assert(names[m][a] == nodes[i].id@);
    assert(names[m].contains(nodes[i].id@));
}

proof fn lemma_layering_unique(g: Seq<Seq<usize>>, lv1: Seq<int>, lv2: Seq<int>, k: nat)
    requires
        crate::schedule::preds_in_range(g),
        is_layering(g, lv1),
        is_layering(g, lv2),
    ensures
        forall|i: int| 0 <= i < lv1.len() && lv1[i] <= k ==> #[trigger] lv2[i] == lv1[i],
    decreases k,
{
    if k > 0 {
        lemma_layering_unique(g, lv1, lv2, (k - 1) as nat);
    }
    assert forall|i: int| 0 <= i < lv1.len() && lv1[i] <= k implies #[trigger] lv2[i] == lv1[i] by {
        if lv1[i] < k {
        } else if lv1[i] == 0 {
            if lv2[i] > 0 {
                let q = choose|q: int| 0 <= q < g[i].len() && lv2[#[trigger] g[i][q] as int] == lv2[i] - 1;
                assert(g[i][q] < g.len());
                assert(lv1[g[i][q] as int] < lv1[i]);
                assert(lv1[g[i][q] as int] >= 0);
            }
        } else {
            // every producer is below, on the same level in both layerings
            assert forall|q: int| 0 <= q < g[i].len() implies lv2[#[trigger] g[i][q] as int] == lv1[g[i][q] as int] by {
                assert(g[i][q] < g.len());
                assert(lv1[g[i][q] as int] < lv1[i]);
                assert(lv1[g[i][q] as int] <= k - 1);
            }
            let q1 = choose|q: int| 0 <= q < g[i].len() && lv1[#[trigger] g[i][q] as int] == lv1[i] - 1;
            assert(lv2[g[i][q1] as int] < lv2[i]);
            assert(lv2[i] > 0);
            let q2 = choose|q: int| 0 <= q < g[i].len() && lv2[#[trigger] g[i][q] as int] == lv2[i] - 1;
            assert(lv1[g[i][q2] as int] < lv1[i]);
        }
    }
}

proof fn lemma_increasing_unique(a: Seq<usize>, b: Seq<usize>)
    requires
        increasing(a),
        increasing(b),
        forall|x: usize| a.contains(x) <==> b.contains(x),
    ensures
        a == b,
    decreases a.len(),
{
    if a.len() == 0 {
        if b.len() > 0 {
            assert(b.contains(b[0]));
        }
        assert(a =~= b);
    } else {
        assert(a.contains(a[0]));
        assert(b.contains(a[0]));
        assert(b.contains(b[0]));
        assert(a.contains(b[0]));
        let wb = choose|w: int| 0 <= w < b.len() && b[w] == a[0];
        let wa = choose|w: int| 0 <= w < a.len() && a[w] == b[0];
        if wb > 0 {
            assert(b[0] < b[wb]);
        }
        if wa > 0 {
            assert(a[0] < a[wa]);
        }
        assert(a[0] == b[0]);
        let a2 = a.drop_first();
        let b2 = b.drop_first();
        assert forall|x: usize| a2.contains(x) <==> b2.contains(x) by {
            if a2.contains(x) {
                let w = choose|w: int| 0 <= w < a2.len() && a2[w] == x;
                assert(a[w + 1] == x && a[0] < a[w + 1]);
                assert(a.contains(x));
                assert(b.contains(x));
                let v = choose|v: int| 0 <= v < b.len() && b[v] == x;
                assert(v != 0);
                assert(b2[v - 1] == x);
            }
            if b2.contains(x) {
                let w = choose|w: int| 0 <= w < b2.len() && b2[w] == x;
                assert(b[w + 1] == x && b[0] < b[w + 1]);
                assert(b.contains(x));
                assert(a.contains(x));
                let v = choose|v: int| 0 <= v < a.len() && a[v] == x;
                assert(v != 0);
                assert(a2[v - 1] == x);
            }
        }
        lemma_increasing_unique(a2, b2);
        assert(a =~= seq![a[0]] + a2);
        assert(b =~= seq![b[0]] + b2);
    }
}

proof fn lemma_level_spec_of_names(nodes: Seq<ActionNode>, ss: Seq<String>, ix: Seq<usize>)
    requires
        ids_distinct(nodes),
        forall|a: int| 0 <= a < ix.len() ==> (#[trigger] ix[a]) < nodes.len(),
        ss.map_values(|s: String| s@) == ix.map_values(|x: usize| nodes[x as int].id@),
    ensures
        level_spec(nodes, ss) == ix,
    decreases ss.len(),
{
    let sv = ss.map_values(|s: String| s@);
    let iv = ix.map_values(|x: usize| nodes[x as int].id@);
    assert(sv.len() == iv.len());
    if ss.len() > 0 {
        let sd = ss.drop_last().map_values(|s: String| s@);
        let id = ix.drop_last().map_values(|x: usize| nodes[x as int].id@);
        assert forall|a: int| 0 <= a < sd.len() implies #[trigger] sd[a] == id[a] by {
            assert(sv[a] == iv[a]);
        }
        assert(sd =~= id);
        lemma_level_spec_of_names(nodes, ss.drop_last(), ix.drop_last());
        let x = ix.last() as int;
        assert(sv[ss.len() - 1] == iv[ss.len() - 1]);
        assert(ss.last()@ == nodes[x].id@);
        lemma_first_named(nodes, ss.last()@, 0);
        match first_named(nodes, ss.last()@, 0) {
            Some(j) => {
                assert(j == x);
            },
            None => {
                assert(nodes[x].id@ != ss.last()@);
            },
        }
        assert(ix.drop_last().push(ix.last()) =~= ix);
    } else {
        assert(ix.len() == 0);
        assert(ix =~= Seq::<usize>::empty());
    }
}

/// Running the levels of a schedule of nodes with distinct ids in order, each
/// level's nodes as `level_nodes` picks them, runs every node exactly once
/// (on one level, listed once there), and runs a node on a later level than
/// every node named among its dependencies.
pub proof fn law_levels_run_each_node_once(nodes: Seq<ActionNode>, levels: Seq<Vec<String>>, i: int)
    requires
        ids_distinct(nodes),
        nodes.len() <= usize::MAX,
        schedule_of(nodes, names_of(levels)),
        0 <= i < nodes.len(),
    ensures
        exists|m: int| 0 <= m < levels.len() && (#[trigger] level_picks(nodes, levels)[m]).contains(i as usize),
        forall|m1: int, m2: int|
            0 <= m1 < levels.len() && 0 <= m2 < levels.len() && (#[trigger] level_picks(nodes, levels)[m1]).contains(
                i as usize,
            ) && (#[trigger] level_picks(nodes, levels)[m2]).contains(i as usize) ==> m1 == m2,
        forall|m: int| 0 <= m < levels.len() ==> (#[trigger] level_picks(nodes, levels)[m]).no_duplicates(),
        forall|k: int, m1: int, m2: int|
            0 <= k < dep_graph(nodes)[i].len() && 0 <= m1 < levels.len() && 0 <= m2 < levels.len()
                && #[trigger] level_picks(nodes, levels)[m1].contains(dep_graph(nodes)[i][k])
                && #[trigger] level_picks(nodes, levels)[m2].contains(i as usize) ==> m1 < m2,
{
    let (lv, idx) = choose|lv: Seq<int>, idx: Seq<Seq<usize>>|
        #[trigger] is_layering(dep_graph(nodes), lv) && #[trigger] levels_match(idx, lv) && names_of(levels)
            == level_names(idx, nodes);
    let picks = level_picks(nodes, levels);
    assert(idx.len() == levels.len()) by {
        assert(names_of(levels).len() == levels.len());
        assert(level_names(idx, nodes).len() == idx.len());
    }
    assert forall|m: int| 0 <= m < levels.len() implies #[trigger] picks[m] == idx[m] by {
        assert(names_of(levels)[m] == levels[m]@.map_values(|s: String| s@));
        assert(level_names(idx, nodes)[m] == idx[m].map_values(|x: usize| nodes[x as int].id@));
        assert forall|a: int| 0 <= a < idx[m].len() implies (#[trigger] idx[m][a]) < nodes.len() by {
            assert(idx[m][a] < lv.len());
        }
        lemma_level_spec_of_names(nodes, levels[m]@, idx[m]);
    }
    let m0 = lv[i];
    assert(idx[m0].contains(i as usize));
    assert(picks[m0] == idx[m0]);
    assert forall|m1: int, m2: int|
        0 <= m1 < levels.len() && 0 <= m2 < levels.len() && (#[trigger] picks[m1]).contains(i as usize)
            && (#[trigger] picks[m2]).contains(i as usize) implies m1 == m2 by {
        assert(picks[m1] == idx[m1] && picks[m2] == idx[m2]);
        let a1 = choose|a: int| 0 <= a < idx[m1].len() && idx[m1][a] == i as usize;
        let a2 = choose|a: int| 0 <= a < idx[m2].len() && idx[m2][a] == i as usize;
        assert(lv[idx[m1][a1] as int] == m1);
        assert(lv[idx[m2][a2] as int] == m2);
    }
    assert forall|m: int| 0 <= m < levels.len() implies (#[trigger] picks[m]).no_duplicates() by {
        assert(picks[m] == idx[m]);
    }
    assert forall|k: int, m1: int, m2: int|
        0 <= k < dep_graph(nodes)[i].len() && 0 <= m1 < levels.len() && 0 <= m2 < levels.len()
            && #[trigger] picks[m1].contains(dep_graph(nodes)[i][k]) && #[trigger] picks[m2].contains(i as usize)
        implies m1 < m2 by {
        let g = dep_graph(nodes);
        lemma_resolve_in_range(nodes[i].depends_on@, nodes);
        assert(g[i] == crate::schedule::resolve(nodes[i].depends_on@, nodes));
        let j = g[i][k];
        assert(picks[m1] == idx[m1] && picks[m2] == idx[m2]);
        let a1 = choose|a: int| 0 <= a < idx[m1].len() && idx[m1][a] == j;
        let a2 = choose|a: int| 0 <= a < idx[m2].len() && idx[m2][a] == i as usize;
        assert(lv[idx[m1][a1] as int] == m1);
        assert(lv[idx[m2][a2] as int] == m2);
        assert(lv[j as int] < lv[i]);
    }
}

/// Scheduling is deterministic: the schedule of a list of nodes is fixed by
/// the nodes alone (levels in dependency order, each listing its nodes in the
/// order they are given), so every run orders a program's nodes alike.
pub proof fn law_schedule_is_determined(nodes: Seq<ActionNode>, names1: Seq<Seq<Seq<char>>>, names2: Seq<Seq<Seq<char>>>)
    requires
        ordered_schedule(nodes, names1),
        ordered_schedule(nodes, names2),
        nodes.len() <= usize::MAX,
    ensures
        names1 == names2,
{
    let g = dep_graph(nodes);
    assert(crate::schedule::preds_in_range(g)) by {
        assert forall|i: int, k: int| 0 <= i < g.len() && 0 <= k < g[i].len() implies (#[trigger] g[i][k]) < g.len() by {
            lemma_resolve_in_range(nodes[i].depends_on@, nodes);
            assert(g[i] == crate::schedule::resolve(nodes[i].depends_on@, nodes));
        }
    }
    let (lv1, idx1) = choose|lv: Seq<int>, idx: Seq<Seq<usize>>|
        #[trigger] is_layering(g, lv) && #[trigger] levels_match(idx, lv) && names1 == level_names(idx, nodes)
            && forall|m: int| 0 <= m < idx.len() ==> increasing(#[trigger] idx[m]) && idx[m].len() > 0;
    let (lv2, idx2) = choose|lv: Seq<int>, idx: Seq<Seq<usize>>|
        #[trigger] is_layering(g, lv) && #[trigger] levels_match(idx, lv) && names2 == level_names(idx, nodes)
            && forall|m: int| 0 <= m < idx.len() ==> increasing(#[trigger] idx[m]) && idx[m].len() > 0;
    assert forall|i: int| 0 <= i < lv1.len() implies #[trigger] lv2[i] == lv1[i] by {
        lemma_layering_unique(g, lv1, lv2, lv1[i] as nat);
    }
    assert(lv1 =~= lv2);
    if idx1.len() < idx2.len() {
        let m = idx1.len() as int;
        assert(idx2[m].len() > 0);
        assert(lv1[idx2[m][0] as int] == m);
    }
    if idx2.len() < idx1.len() {
        let m = idx2.len() as int;
        assert(idx1[m].len() > 0);
        assert(lv1[idx1[m][0] as int] == m);
    }
    assert(idx1.len() == idx2.len());
    assert forall|m: int| 0 <= m < idx1.len() implies #[trigger] idx1[m] == idx2[m] by {
        assert forall|x: usize| idx1[m].contains(x) <==> idx2[m].contains(x) by {
            if idx1[m].contains(x) {
                let w = choose|w: int| 0 <= w < idx1[m].len() && idx1[m][w] == x;
                assert(x < lv1.len() && lv1[x as int] == m);
                assert(idx2[lv2[x as int]].contains((x as int) as usize));
            }
            if idx2[m].contains(x) {
                let w = choose|w: int| 0 <= w < idx2[m].len() && idx2[m][w] == x;
                assert(x < lv2.len() && lv2[x as int] == m);
                assert(idx1[lv1[x as int]].contains((x as int) as usize));
            }
        }
        lemma_increasing_unique(idx1[m], idx2[m]);
    }
    assert(idx1 =~= idx2);
}

// ---------------------------------------------------------------------------
// Node outcomes
// ---------------------------------------------------------------------------

/// No binding has this address.
pub open spec fn not_output(bs: Seq<crate::ast::OutputBinding>, a: Seq<char>) -> bool {
    forall|k: int| 0 <= k < bs.len() ==> #[trigger] bs[k].address@ != a
}

/// `m` is `led` with `v` at each binding's address.
pub open spec fn outputs_written(m: Map<Seq<char>, JVal>, led: Map<Seq<char>, JVal>, bs: Seq<crate::ast::OutputBinding>, v: JVal) -> bool {
    &&& forall|k: int| 0 <= k < bs.len() ==> m.contains_key(#[trigger] bs[k].address@) && m[bs[k].address@] == v
    &&& forall|a: Seq<char>|
        #[trigger] not_output(bs, a) ==> (m.contains_key(a) == led.contains_key(a) && (led.contains_key(a) ==> m[a]
            == led[a]))
}

proof fn lemma_commit_writes(led: Map<Seq<char>, JVal>, bs: Seq<crate::ast::OutputBinding>, v: JVal)
    requires
        commit_spec(led, bs, v).1 is None,
    ensures
        outputs_written(commit_spec(led, bs, v).0, led, bs, v),
    decreases bs.len(),
{
    if bs.len() > 0 {
        let rest = bs.subrange(1, bs.len() as int);
        let led2 = led.insert(bs[0].address@, v);
        assert(write_spec(led, bs[0].address@, v, Some(bs[0].declared_type)) is Ok);
        assert(commit_spec(led, bs, v) == commit_spec(led2, rest, v));
        lemma_commit_writes(led2, rest, v);
        let m = commit_spec(led, bs, v).0;
        assert forall|k: int| 0 <= k < bs.len() implies m.contains_key(#[trigger] bs[k].address@) && m[bs[k].address@] == v by {
            if k > 0 {
                assert(rest[k - 1] == bs[k]);
            } else {
                if exists|q: int| 0 <= q < rest.len() && #[trigger] rest[q].address@ == bs[0].address@ {
                    let q = choose|q: int| 0 <= q < rest.len() && #[trigger] rest[q].address@ == bs[0].address@;
                    assert(rest[q].address@ == bs[0].address@);
                } else {
                    assert forall|q: int| 0 <= q < rest.len() implies #[trigger] rest[q].address@ != bs[0].address@ by {}
                    assert(not_output(rest, bs[0].address@));
                    assert(led2.contains_key(bs[0].address@) && led2[bs[0].address@] == v);
                }
            }
        }
        assert forall|a: Seq<char>| #[trigger] not_output(bs, a) implies (m.contains_key(a) == led.contains_key(a)
            && (led.contains_key(a) ==> m[a] == led[a])) by {
            assert(bs[0].address@ != a);
            assert forall|q: int| 0 <= q < rest.len() implies #[trigger] rest[q].address@ != a by {
                assert(rest[q] == bs[q + 1]);
            }
            assert(not_output(rest, a));
            assert(m.contains_key(a) == led2.contains_key(a));
            assert(led2.contains_key(a) ==> m[a] == led2[a]);
        }
    }
}

/// A node that fails validation (a failed HALT or RETRY assertion) leaves the
/// ledger as it was before the node ran.
pub proof fn law_failed_validation_restores_ledger(n: ActionNode, led: Map<Seq<char>, JVal>, v: JVal, ans: Seq<Seq<JVal>>)
    requires
        post_spec(n, led, Ok(v), ans).0 matches PostV::Finish(s, _, _) && s == "VALIDATION_FAILED"@,
    ensures
        post_spec(n, led, Ok(v), ans).1 == led,
{
    reveal_strlit("VALIDATION_FAILED");
    reveal_strlit("TYPE_ERROR");
    reveal_strlit("COMPLETED");
    assert("TYPE_ERROR"@.len() == 10);
    assert("COMPLETED"@.len() == 9);
}

/// A completed node has written its output at each of its output addresses,
/// and left every other address as it was.
pub proof fn law_completed_node_writes_outputs(n: ActionNode, led: Map<Seq<char>, JVal>, v: JVal, ans: Seq<Seq<JVal>>)
    requires
        post_spec(n, led, Ok(v), ans).0 matches PostV::Finish(_, _, ok) && ok,
    ensures
        outputs_written(post_spec(n, led, Ok(v), ans).1, led, node_outputs(n), v),
{
    lemma_commit_writes(led, node_outputs(n), v);
}

/// A guest error leaves the ledger unchanged.
pub proof fn law_guest_error_keeps_ledger(n: ActionNode, led: Map<Seq<char>, JVal>, e: Seq<char>, ans: Seq<Seq<JVal>>)
    ensures
        post_spec(n, led, Err(e), ans).1 == led,
        post_spec(n, led, Err(e), ans).0 matches PostV::Finish(_, _, ok) && !ok,
{
}

// ---------------------------------------------------------------------------
// Run status
// ---------------------------------------------------------------------------

/// A run has no failures exactly when every node completed or was skipped.
pub proof fn law_success_iff_every_node_succeeded(ts: Seq<NodeTrace>)
    ensures
        failures(ts) == 0 <==> forall|i: int| 0 <= i < ts.len() ==> trace_ok(#[trigger] ts[i]),
    decreases ts.len(),
{
    if ts.len() > 0 {
        let t = ts.drop_last();
        law_success_iff_every_node_succeeded(t);
        if failures(ts) == 0 {
            assert forall|i: int| 0 <= i < ts.len() implies trace_ok(#[trigger] ts[i]) by {
                if i < ts.len() - 1 {
                    assert(t[i] == ts[i]);
                }
            }
        }
        if forall|i: int| 0 <= i < ts.len() ==> trace_ok(#[trigger] ts[i]) {
            assert forall|i: int| 0 <= i < t.len() implies trace_ok(#[trigger] t[i]) by {
                assert(t[i] == ts[i]);
            }
            assert(trace_ok(ts[ts.len() - 1]));
        }
    }
}

// ---------------------------------------------------------------------------
// Names
// ---------------------------------------------------------------------------

proof fn lemma_hex_len(n: nat)
    ensures
        hex_text(n).len() >= 1,
        n >= 16 ==> hex_text(n).len() >= 2,
        n >= 1 ==> hex_text(n)[0] != '0',
    decreases n,
{
    if n >= 16 {
        lemma_hex_len(n / 16);
        assert(hex_text(n)[0] == hex_text(n / 16)[0]);
    }
}

proof fn lemma_hex_digit_injective(x: nat, y: nat)
    requires
        x < 16,
        y < 16,
        hex_upper_digit(x) == hex_upper_digit(y),
    ensures
        x == y,
{
    assert(hex_upper_digit(x) as u32 == if x < 10 { 48 + x } else { 55 + x });
    assert(hex_upper_digit(y) as u32 == if y < 10 { 48 + y } else { 55 + y });
}

proof fn lemma_hex_injective(a: nat, b: nat)
    requires
        hex_text(a) == hex_text(b),
    ensures
        a == b,
    decreases a,
{
    lemma_hex_len(a);
    lemma_hex_len(b);
    if a < 16 && b < 16 {
        assert(hex_upper_digit(a) == hex_text(a)[0]);
        assert(hex_upper_digit(b) == hex_text(b)[0]);
        lemma_hex_digit_injective(a, b);
    } else if a >= 16 && b >= 16 {
        let ha = hex_text(a);
        assert(ha.drop_last() == hex_text(a / 16));
        assert(hex_text(b).drop_last() == hex_text(b / 16));
        lemma_hex_injective(a / 16, b / 16);
        assert(ha.last() == hex_upper_digit(a % 16));
        assert(hex_text(b).last() == hex_upper_digit(b % 16));
        lemma_hex_digit_injective((a % 16) as nat, (b % 16) as nat);
    } else if a < 16 {
        assert(hex_text(a).len() == 1);
    } else {
        assert(hex_text(b).len() == 1);
    }
}

/// The nodes of an Aether-Short pipeline get distinct ids: different node
/// numbers give different ids.
pub proof fn law_node_ids_distinct(a: nat, b: nat)
    requires
        a != b,
    ensures
        node_id_text(a) != node_id_text(b),
{
    reveal_strlit("0xA");
    lemma_hex_len(a);
    lemma_hex_len(b);
    if node_id_text(a) == node_id_text(b) {
        let pa = if a < 16 { seq!['0'] + hex_text(a) } else { hex_text(a) };
        let pb = if b < 16 { seq!['0'] + hex_text(b) } else { hex_text(b) };
        assert(node_id_text(a) == "0xA"@ + pa);
        assert(pa =~= node_id_text(a).subrange(3, node_id_text(a).len() as int));
        assert(pb =~= node_id_text(b).subrange(3, node_id_text(b).len() as int));
        if a < 16 && b < 16 {
            assert(hex_text(a) =~= pa.drop_first());
            assert(hex_text(b) =~= pb.drop_first());
            lemma_hex_injective(a, b);
        } else if a >= 16 && b >= 16 {
            lemma_hex_injective(a, b);
        } else if a < 16 {
            assert(pa[0] == '0');
            assert(pb[0] != '0');
        } else {
            assert(pb[0] == '0');
            assert(pa[0] != '0');
        }
    }
}

proof fn lemma_sanitized_chars(s: Seq<char>)
    ensures
        forall|i: int| 0 <= i < sanitized_chars(s).len() ==> #[trigger] sanitized_chars(s)[i] != '$'
            && sanitized_chars(s)[i] != '.',
    decreases s.len(),
{
    if s.len() > 0 {
        lemma_sanitized_chars(s.drop_last());
        let p = sanitized_chars(s.drop_last());
        assert forall|i: int| 0 <= i < sanitized_chars(s).len() implies #[trigger] sanitized_chars(s)[i] != '$'
            && sanitized_chars(s)[i] != '.' by {
            if i < p.len() {
                assert(sanitized_chars(s)[i] == p[i]);
            }
        }
    }
}

/// The guest variable name of an address starts with `_ae_` and holds no `$`
/// and no `.`.
pub proof fn law_sanitized_names(addr: Seq<char>)
    ensures
        sanitized(addr).subrange(0, 4) == "_ae_"@,
        forall|i: int| 4 <= i < sanitized(addr).len() ==> #[trigger] sanitized(addr)[i] != '$' && sanitized(addr)[i] != '.',
{
    reveal_strlit("_ae_");
    lemma_sanitized_chars(addr);
    assert(sanitized(addr).subrange(0, 4) =~= "_ae_"@);
    assert forall|i: int| 4 <= i < sanitized(addr).len() implies #[trigger] sanitized(addr)[i] != '$' && sanitized(addr)[i] != '.' by {
        assert(sanitized(addr)[i] == sanitized_chars(addr)[i - 4]);
    }
}

// ---------------------------------------------------------------------------
// Dependencies of parsed nodes
// ---------------------------------------------------------------------------

proof fn lemma_nodes_of_linked(bs: Seq<BlockV>, all: Seq<NodeV>)
    ensures
        nodes_of(bs.map_values(|b: BlockV| link_block(b, all))) == nodes_of(bs).map_values(|n: NodeV| linked(n, all)),
    decreases bs.len(),
{
    let lb = bs.map_values(|b: BlockV| link_block(b, all));
    if bs.len() > 0 {
        assert(lb.drop_last() =~= bs.drop_last().map_values(|b: BlockV| link_block(b, all)));
        lemma_nodes_of_linked(bs.drop_last(), all);
        let a = nodes_of(bs.drop_last());
        let tail = match bs.last() {
            BlockV::Action(n) => seq![n],
            BlockV::Parallel(p) => p.nodes,
            _ => Seq::<NodeV>::empty(),
        };
        assert((a + tail).map_values(|n: NodeV| linked(n, all)) =~= a.map_values(|n: NodeV| linked(n, all)) + tail.map_values(
            |n: NodeV| linked(n, all),
        ));
        assert(lb.last() == link_block(bs.last(), all));
        match bs.last() {
            BlockV::Action(n) => {
                assert(tail.map_values(|n: NodeV| linked(n, all)) =~= seq![linked(n, all)]);
            },
            BlockV::Parallel(p) => {},
            _ => {
                assert(tail.map_values(|n: NodeV| linked(n, all)) =~= Seq::<NodeV>::empty());
            },
        }
    } else {
        assert(nodes_of(bs).map_values(|n: NodeV| linked(n, all)) =~= Seq::<NodeV>::empty());
    }
}

proof fn lemma_producer_ids(ts: Seq<Seq<char>>, all: Seq<NodeV>, k: int)
    requires
        0 <= k < producer_ids(ts, all).len(),
    ensures
        exists|j: int, t: int|
            0 <= j < all.len() && 0 <= t < ts.len() && all[j].id == producer_ids(ts, all)[k] && #[trigger] produces(
                all[j],
                #[trigger] ts[t],
            ) && last_producer(all, ts[t]) == Some(j),
    decreases ts.len(),
{
    let rest = producer_ids(ts.drop_last(), all);
    lemma_last_producer(all, ts.last());
    if k < rest.len() {
        lemma_producer_ids(ts.drop_last(), all, k);
        let (j, t) = choose|j: int, t: int|
            0 <= j < all.len() && 0 <= t < ts.drop_last().len() && all[j].id == rest[k] && #[trigger] produces(
                all[j],
                #[trigger] ts.drop_last()[t],
            ) && last_producer(all, ts.drop_last()[t]) == Some(j);
        assert(ts.drop_last()[t] == ts[t]);
        match last_producer(all, ts.last()) {
            Some(p) => {
                assert(producer_ids(ts, all)[k] == rest.push(all[p].id)[k]);
            },
            None => {},
        }
        assert(produces(all[j], ts[t]));
    } else {
        let t = ts.len() - 1;
        let j = last_producer(all, ts.last())->Some_0;
        assert(produces(all[j], ts[t]));
    }
}

/// The dependencies of a parsed node are node ids: each names a node of the
/// same root that declares, in its `::OUT` block, an address that the node
/// reads through a `Ref(...)` binding (the last node of the root declaring it).
pub proof fn law_dependencies_name_producers(bs: Seq<BlockV>, i: int, k: int)
    requires
        0 <= i < nodes_of(link_blocks(bs)).len(),
        0 <= k < nodes_of(link_blocks(bs))[i].depends_on.len(),
    ensures
        ({
            let ns = nodes_of(link_blocks(bs));
            exists|j: int, t: int|
                0 <= j < ns.len() && 0 <= t < node_targets(ns[i]).len() && ns[j].id == ns[i].depends_on[k]
                    && #[trigger] produces(ns[j], #[trigger] node_targets(ns[i])[t])
                    && last_producer(ns, node_targets(ns[i])[t]) == Some(j)
        }),
{
    let all = nodes_of(bs);
    let ns = nodes_of(link_blocks(bs));
    lemma_nodes_of_linked(bs, all);
    assert(ns == all.map_values(|n: NodeV| linked(n, all)));
    assert(ns.len() == all.len());
    let ts = node_targets(all[i]);
    assert(ns[i] == linked(all[i], all));
    assert(node_targets(ns[i]) == ts);
    lemma_producer_ids(ts, all, k);
    let (j, t) = choose|j: int, t: int|
        0 <= j < all.len() && 0 <= t < ts.len() && all[j].id == producer_ids(ts, all)[k] && #[trigger] produces(
            all[j],
            #[trigger] ts[t],
        ) && last_producer(all, ts[t]) == Some(j);
    assert(ns[j] == linked(all[j], all));
    assert(produces(ns[j], ts[t]) == produces(all[j], ts[t]));
    lemma_last_producer_linked(all, ts[t]);
}

proof fn lemma_last_producer_linked(all: Seq<NodeV>, a: Seq<char>)
    ensures
        last_producer(all.map_values(|n: NodeV| linked(n, all)), a) == last_producer(all, a),
{
    let ns = all.map_values(|n: NodeV| linked(n, all));
    assert forall|j: int| 0 <= j < all.len() implies produces(#[trigger] ns[j], a) == produces(all[j], a) by {
        assert(ns[j] == linked(all[j], all));
    }
    lemma_last_producer_same(all, ns, a);
}

proof fn lemma_last_producer_same(xs: Seq<NodeV>, ys: Seq<NodeV>, a: Seq<char>)
    requires
        xs.len() == ys.len(),
        forall|j: int| 0 <= j < xs.len() ==> produces(#[trigger] ys[j], a) == produces(xs[j], a),
    ensures
        last_producer(ys, a) == last_producer(xs, a),
    decreases xs.len(),
{
    if xs.len() > 0 {
        assert(produces(ys[xs.len() - 1], a) == produces(xs[xs.len() - 1], a));
        assert forall|j: int| 0 <= j < xs.len() - 1 implies produces(#[trigger] ys.drop_last()[j], a) == produces(
            xs.drop_last()[j],
            a,
        ) by {
            assert(ys.drop_last()[j] == ys[j]);
            assert(xs.drop_last()[j] == xs[j]);
        }
        lemma_last_producer_same(xs.drop_last(), ys.drop_last(), a);
    }
}

// ---------------------------------------------------------------------------
// Expanded nodes
// ---------------------------------------------------------------------------

/// Whether `p` occurs in `s`.
pub open spec fn occurs_in(p: Seq<char>, s: Seq<char>) -> bool {
    exists|i: int| 0 <= i && i + p.len() <= s.len() && #[trigger] s.subrange(i, i + p.len()) == p
}

/// The declaration of a safety name in a `::META` block.
pub open spec fn safety_decl(name: Seq<char>) -> Seq<char> {
    "_safety: \""@ + name + "\""@
}

/// The opening of an `::EXEC` block in a language.
pub open spec fn exec_decl(lang: Seq<char>) -> Seq<char> {
    "::EXEC<"@ + lang + ">"@
}

proof fn lemma_occurs_in_prefix(p: Seq<char>, x: Seq<char>, y: Seq<char>)
    requires
        occurs_in(p, x),
        x.len() <= y.len(),
        y.subrange(0, x.len() as int) == x,
    ensures
        occurs_in(p, y),
{
    let i = choose|i: int| 0 <= i && i + p.len() <= x.len() && #[trigger] x.subrange(i, i + p.len()) == p;
    assert(y.subrange(i, i + p.len()) =~= x.subrange(i, i + p.len()));
}

#[verifier::spinoff_prover]
#[verifier::rlimit(40)]
proof fn lemma_node_text_safety(h: HeadV, code: Seq<char>, v: Option<Seq<char>>, reg: Seq<crate::registry::AslEntry>)
    ensures
        occurs_in(safety_decl(reg_safety(reg, h.intent)), node_text(h, code, v, reg)),
{
    reveal_strlit("      _safety: \"");
    reveal_strlit("_safety: \"");
    reveal_strlit("\"\n");
    reveal_strlit("\"");
    let s = node_text(h, code, v, reg);
    let safe = reg_safety(reg, h.intent);
    let x = "  \u{a7}ACT "@ + h.id + " {\n"@ + "    ::META {\n"@ + "      _intent: \""@ + h.intent + "\",\n"@;
    let t = x + "      _safety: \""@ + safe + "\"\n"@;
    let p = safety_decl(safe);
    assert(t.subrange(x.len() + 6int, x.len() + 6int + p.len()) =~= p);
    assert(s.subrange(0, t.len() as int) =~= t);
    lemma_occurs_in_prefix(p, t, s);
}

#[verifier::spinoff_prover]
#[verifier::rlimit(40)]
proof fn lemma_node_text_exec(h: HeadV, code: Seq<char>, v: Option<Seq<char>>, reg: Seq<crate::registry::AslEntry>)
    ensures
        occurs_in(exec_decl(exec_lang(h, reg)), node_text(h, code, v, reg)),
{
    reveal_strlit("    ::EXEC<");
    reveal_strlit("::EXEC<");
    reveal_strlit("> {\n");
    reveal_strlit(">");
    let s = node_text(h, code, v, reg);
    let safe = reg_safety(reg, h.intent);
    let lang = exec_lang(h, reg);
    let x = "  \u{a7}ACT "@ + h.id + " {\n"@ + "    ::META {\n"@ + "      _intent: \""@ + h.intent + "\",\n"@
        + "      _safety: \""@ + safe + "\"\n"@ + "    }\n"@ + crate::short::in_block(h.args);
    let t = x + "    ::EXEC<"@ + lang + "> {\n"@;
    let q = exec_decl(lang);
    assert(t.subrange(x.len() + 4int, x.len() + 4int + q.len()) =~= q);
    assert(s.subrange(0, t.len() as int) =~= t);
    lemma_occurs_in_prefix(q, t, s);
}

proof fn lemma_safety_names(tag: Seq<char>)
    ensures
        tag == "l1"@ ==> crate::short::safety_name(tag) == "read_only"@,
        tag == "l2"@ ==> crate::short::safety_name(tag) == "state_mod"@,
        tag == "l3"@ ==> crate::short::safety_name(tag) == "net_egress"@,
        tag == "l4"@ ==> crate::short::safety_name(tag) == "system_root"@,
        (tag != "l1"@ && tag != "l2"@ && tag != "l3"@ && tag != "l4"@) ==> crate::short::safety_name(tag) == "pure"@,
        safety_from_tag(crate::short::safety_name(tag)) is Some,
{
    reveal_strlit("l0");
    reveal_strlit("l1");
    reveal_strlit("l2");
    reveal_strlit("l3");
    reveal_strlit("l4");
    reveal_strlit("pure");
    reveal_strlit("read_only");
    reveal_strlit("state_mod");
    reveal_strlit("net_egress");
    reveal_strlit("system_root");
    if tag == "l1"@ {
        assert(tag[1] != "l0"@[1]);
    } else if tag == "l2"@ {
        assert(tag[1] != "l0"@[1] && tag[1] != "l1"@[1]);
    } else if tag == "l3"@ {
        assert(tag[1] != "l0"@[1] && tag[1] != "l1"@[1] && tag[1] != "l2"@[1]);
    } else if tag == "l4"@ {
        assert(tag[1] != "l0"@[1] && tag[1] != "l1"@[1] && tag[1] != "l2"@[1] && tag[1] != "l3"@[1]);
    }
}

/// A node expanded from a pipeline line declares the safety of its intent's
/// registry entry (tag l1 as read_only, l2 as state_mod, l3 as net_egress, l4
/// as system_root, anything else, or no entry, as pure), a name that the
/// parser accepts; and its code runs in the language of its hint, upper-cased,
/// else in the entry's recommended language, else in PYTHON.
pub proof fn law_expanded_node_safety_and_language(header: Seq<char>, rem: Seq<Seq<char>>, reg: Seq<crate::registry::AslEntry>, counter: nat)
    requires
        expand_node_spec(header, rem, reg, counter) is Ok,
    ensures
        parse_head(header, counter) is Ok,
        ({
            let h = parse_head(header, counter)->Ok_0;
            let s = expand_node_spec(header, rem, reg, counter)->Ok_0.0;
            let tag = match first_with_id(reg, h.intent) {
                Some(i) => reg[i].safety@,
                None => "l0"@,
            };
            &&& tag == "l1"@ ==> occurs_in(safety_decl("read_only"@), s)
            &&& tag == "l2"@ ==> occurs_in(safety_decl("state_mod"@), s)
            &&& tag == "l3"@ ==> occurs_in(safety_decl("net_egress"@), s)
            &&& tag == "l4"@ ==> occurs_in(safety_decl("system_root"@), s)
            &&& (tag != "l1"@ && tag != "l2"@ && tag != "l3"@ && tag != "l4"@) ==> occurs_in(safety_decl("pure"@), s)
            &&& safety_from_tag(reg_safety(reg, h.intent)) is Some
            &&& occurs_in(safety_decl(reg_safety(reg, h.intent)), s)
            &&& h.hint == Some("python"@) ==> occurs_in(exec_decl("PYTHON"@), s)
            &&& h.hint == Some("js"@) ==> occurs_in(exec_decl("JS"@), s)
            &&& h.hint == Some("shell"@) ==> occurs_in(exec_decl("SHELL"@), s)
            &&& h.hint is None ==> match first_with_id(reg, h.intent) {
                Some(i) => match reg[i].recommended_lang {
                    Some(l) => occurs_in(exec_decl(l@), s),
                    None => occurs_in(exec_decl("PYTHON"@), s),
                },
                None => occurs_in(exec_decl("PYTHON"@), s),
            }
        }),
{
    let h = parse_head(header, counter)->Ok_0;
    match expand_node_spec(header, rem, reg, counter) {
        Ok(_) => {
            if h.has_code {
                let (code, v, _) = crate::short::collect_spec(rem)->Ok_0;
                lemma_node_text_safety(h, code, v, reg);
                lemma_node_text_exec(h, code, v, reg);
            } else {
                lemma_node_text_safety(h, Seq::empty(), None, reg);
                lemma_node_text_exec(h, Seq::empty(), None, reg);
            }
            reveal_strlit("l0");
            let tag = match first_with_id(reg, h.intent) {
                Some(i) => reg[i].safety@,
                None => "l0"@,
            };
            assert(reg_safety(reg, h.intent) == crate::short::safety_name(tag));
            lemma_safety_names(tag);
            reveal_strlit("python");
            reveal_strlit("js");
            reveal_strlit("shell");
        },
        Err(_) => {},
    }
}

// ---------------------------------------------------------------------------
// Guest scripts, expressions and types
// ---------------------------------------------------------------------------

/// In the Python script of a node, the code's lines are kept one for one,
/// except that a `return X` line at the code's base indentation (that of its
/// first non-blank line, or less) becomes `_ae_result = X` with its
/// indentation kept; every other line, a `return` inside a nested function
/// among them, is kept unchanged.
pub proof fn law_python_top_level_returns(code: Seq<char>, i: int)
    requires
        0 <= i < lines(code).len(),
    ensures
        ({
            let ls = lines(code);
            let base = first_nonblank_indent(ls);
            let out = Seq::new(ls.len(), |j: int| return_line(ls[j], base));
            let l = ls[i];
            let t = trim_start(l);
            &&& forall|j: int|
                0 <= j < ls.len() && !blank(#[trigger] ls[j]) && (forall|q: int| 0 <= q < j ==> blank(ls[q])) ==> base
                    == indent(ls[j])
            &&& top_level(code) == join(out, seq!['\n'])
            &&& out.len() == ls.len()
            &&& indent(l) > base ==> out[i] == l
            &&& !seq_starts_with(t, "return "@) ==> out[i] == l
            &&& (indent(l) <= base && seq_starts_with(t, "return "@)) ==> out[i] == l.subrange(0, lead_ws(l) as int)
                + "_ae_result = "@ + t.subrange(7, t.len() as int)
        }),
{
    let ls = lines(code);
    assert forall|j: int|
        0 <= j < ls.len() && !blank(#[trigger] ls[j]) && (forall|q: int| 0 <= q < j ==> blank(ls[q])) implies first_nonblank_indent(
        ls,
    ) == indent(ls[j]) by {
        lemma_first_nonblank(ls, j);
    }
}

proof fn lemma_first_nonblank(ls: Seq<Seq<char>>, j: int)
    requires
        0 <= j < ls.len(),
        !blank(ls[j]),
        forall|q: int| 0 <= q < j ==> blank(ls[q]),
    ensures
        first_nonblank_indent(ls) == indent(ls[j]),
    decreases j,
{
    if j > 0 {
        assert(blank(ls[0]));
        assert forall|q: int| 0 <= q < j - 1 implies blank(#[trigger] ls.drop_first()[q]) by {
            assert(ls.drop_first()[q] == ls[q + 1]);
        }
        lemma_first_nonblank(ls.drop_first(), j - 1);
    }
}

/// Comparison tokens name distinct operators, and `!=` is the negation of
/// `==`: on any operands, the comparison read from `!=` evaluates to the
/// opposite of the one read from `==`.
pub proof fn law_comparison_tokens(t1: Seq<char>, t2: Seq<char>, l: JVal, r: JVal, ans: Seq<JVal>, pos: nat)
    ensures
        comparison_op("=="@) is Some,
        comparison_op("!="@) is Some,
        (comparison_op(t1) is Some && comparison_op(t1) == comparison_op(t2)) ==> t1 == t2,
        match binop_spec(comparison_op("=="@)->Some_0, l, r, ans, pos).0 {
            EvalV::Done(Ok(JVal::Bool(b))) => binop_spec(comparison_op("!="@)->Some_0, l, r, ans, pos).0 == ok(
                JVal::Bool(!b),
            ),
            _ => false,
        },
{
    reveal_strlit("==");
    reveal_strlit("!=");
    reveal_strlit(">");
    reveal_strlit("<");
    reveal_strlit(">=");
    reveal_strlit("<=");
    assert("=="@[0] != "!="@[0]);
    assert(">="@[0] != "<="@[0]);
    assert("=="@.len() != ">"@.len());
}

/// `OR` is disjunction: it gives true when either operand is truthy and false
/// when neither is, and it differs from `AND` exactly when one operand is
/// truthy and the other is not.
pub proof fn law_or_is_disjunction(l: JVal, r: JVal, ans: Seq<JVal>, pos: nat)
    ensures
        binop_spec(BinOperator::Or, l, r, ans, pos).1 == pos,
        truthy(l) ==> binop_spec(BinOperator::Or, l, r, ans, pos).0 == ok(JVal::Bool(true)),
        truthy(r) ==> binop_spec(BinOperator::Or, l, r, ans, pos).0 == ok(JVal::Bool(true)),
        (!truthy(l) && !truthy(r)) ==> binop_spec(BinOperator::Or, l, r, ans, pos).0 == ok(JVal::Bool(false)),
        (binop_spec(BinOperator::Or, l, r, ans, pos).0 != binop_spec(BinOperator::And, l, r, ans, pos).0) <==> (
        truthy(l) != truthy(r)),
{
}

/// `Type<Bool>` accepts exactly the JSON booleans, both of them; so a typed
/// write of a boolean to a fresh address succeeds, whatever the boolean.
pub proof fn law_bool_type_accepts_booleans(v: JVal, b: bool, led: Map<Seq<char>, JVal>, a: Seq<char>)
    ensures
        type_accepts(AetherType::Bool, JVal::Bool(b)),
        type_accepts(AetherType::Bool, v) <==> v is Bool,
        !led.contains_key(a) ==> write_spec(led, a, JVal::Bool(b), Some(AetherType::Bool)) == Ok::<
            Map<Seq<char>, JVal>,
            Seq<char>,
        >(led.insert(a, JVal::Bool(b))),
{
}

/// The binding line that an argument of a pipeline node gets in its `::IN`
/// block.
pub open spec fn ref_line(a: Seq<char>) -> Seq<char> {
    "      "@ + a + ": Ref("@ + a + ")\n"@
}

proof fn lemma_in_lines_concat(a: Seq<Seq<char>>, b: Seq<Seq<char>>)
    ensures
        crate::short::in_lines(a + b) == crate::short::in_lines(a) + crate::short::in_lines(b),
    decreases b.len(),
{
    if b.len() == 0 {
        assert(a + b =~= a);
        assert(crate::short::in_lines(b) =~= Seq::<char>::empty());
        assert(crate::short::in_lines(a) + crate::short::in_lines(b) =~= crate::short::in_lines(a));
    } else {
        lemma_in_lines_concat(a, b.drop_last());
        assert((a + b).drop_last() =~= a + b.drop_last());
        assert((a + b).last() == b.last());
    }
}

/// The `::IN` block of a pipeline node binds each argument of its header to a
/// reference of itself, in order, one line each: binding lines concatenate
/// over concatenated argument lists, a single argument gives its own line,
/// and the block of non-empty arguments is those lines in an `::IN { }`
/// block. Every argument's line is in the expanded node.
pub proof fn law_in_block_binds_each_argument(h: HeadV, code: Seq<char>, v: Option<Seq<char>>, reg: Seq<crate::registry::AslEntry>, a: Seq<Seq<char>>, b: Seq<Seq<char>>, k: int)
    requires
        0 <= k < h.args.len(),
    ensures
        crate::short::in_lines(a + b) == crate::short::in_lines(a) + crate::short::in_lines(b),
        crate::short::in_lines(seq![h.args[k]]) == ref_line(h.args[k]),
        crate::short::in_block(h.args) == "    ::IN {\n"@ + crate::short::in_lines(h.args) + "    }\n"@,
        occurs_in(ref_line(h.args[k]), crate::short::in_block(h.args)),
        occurs_in(ref_line(h.args[k]), node_text(h, code, v, reg)),
{
    lemma_in_lines_concat(a, b);
    let x = h.args[k];
    assert(seq![x].drop_last() =~= Seq::<Seq<char>>::empty());
    assert(crate::short::in_lines(Seq::<Seq<char>>::empty()) =~= Seq::<char>::empty());
    assert(crate::short::in_lines(seq![x]) =~= ref_line(x));
    let pre = h.args.take(k);
    let post = h.args.skip(k + 1);
    assert(h.args =~= pre + seq![x] + post);
    lemma_in_lines_concat(pre, seq![x]);
    lemma_in_lines_concat(pre + seq![x], post);
    let il = crate::short::in_lines(h.args);
    assert(il == crate::short::in_lines(pre) + ref_line(x) + crate::short::in_lines(post));
    let ib = crate::short::in_block(h.args);
    let hd = "    ::IN {\n"@ + crate::short::in_lines(pre);
    let t = hd + ref_line(x);
    assert(t.subrange(hd.len() as int, (hd.len() + ref_line(x).len()) as int) =~= ref_line(x));
    assert(ib.subrange(0, t.len() as int) =~= t);
    lemma_occurs_in_prefix(ref_line(x), t, ib);
    lemma_node_text_in(h, code, v, reg, t);
}

#[verifier::spinoff_prover]
#[verifier::rlimit(40)]
proof fn lemma_node_text_in(h: HeadV, code: Seq<char>, v: Option<Seq<char>>, reg: Seq<crate::registry::AslEntry>, t: Seq<char>)
    requires
        h.args.len() > 0,
        t.len() <= crate::short::in_block(h.args).len(),
        crate::short::in_block(h.args).subrange(0, t.len() as int) == t,
    ensures
        forall|p: Seq<char>| occurs_in(p, t) ==> occurs_in(p, node_text(h, code, v, reg)),
{
    let s = node_text(h, code, v, reg);
    let safe = reg_safety(reg, h.intent);
    let x = "  \u{a7}ACT "@ + h.id + " {\n"@ + "    ::META {\n"@ + "      _intent: \""@ + h.intent + "\",\n"@
        + "      _safety: \""@ + safe + "\"\n"@ + "    }\n"@;
    let ib = crate::short::in_block(h.args);
    let y = x + ib;
    assert(s.subrange(0, y.len() as int) =~= y);
    assert forall|p: Seq<char>| occurs_in(p, t) implies occurs_in(p, s) by {
        let i = choose|i: int| 0 <= i && i + p.len() <= t.len() && #[trigger] t.subrange(i, i + p.len()) == p;
        assert(s.subrange(x.len() + i, x.len() + i + p.len()) =~= t.subrange(i, i + p.len()));
    }
}

/// Each arithmetic and comparison token names the step of its own symbol:
/// `+ - * / %` add, subtract, multiply, divide and take the remainder, and
/// `> < >= <=` compare as greater, less, at least and at most.
pub proof fn law_operator_tokens_name_their_steps()
    ensures
        crate::eval::arith_float_op(crate::syntax::additive_op("+"@)->Some_0) == FloatOp::Add,
        crate::eval::arith_float_op(crate::syntax::additive_op("-"@)->Some_0) == FloatOp::Sub,
        crate::eval::arith_float_op(crate::syntax::multiplicative_op("*"@)->Some_0) == FloatOp::Mul,
        crate::eval::arith_float_op(crate::syntax::multiplicative_op("/"@)->Some_0) == FloatOp::Div,
        crate::eval::arith_float_op(crate::syntax::multiplicative_op("%"@)->Some_0) == FloatOp::Mod,
        crate::eval::cmp_float_op(comparison_op(">"@)->Some_0) == FloatOp::Gt,
        crate::eval::cmp_float_op(comparison_op("<"@)->Some_0) == FloatOp::Lt,
        crate::eval::cmp_float_op(comparison_op(">="@)->Some_0) == FloatOp::Ge,
        crate::eval::cmp_float_op(comparison_op("<="@)->Some_0) == FloatOp::Le,
        crate::syntax::additive_op("+"@) is Some && crate::syntax::additive_op("-"@) is Some,
        crate::syntax::multiplicative_op("*"@) is Some && crate::syntax::multiplicative_op("/"@) is Some
            && crate::syntax::multiplicative_op("%"@) is Some,
        comparison_op(">"@) is Some && comparison_op("<"@) is Some && comparison_op(">="@) is Some && comparison_op(
            "<="@,
        ) is Some,
{
    reveal_strlit("+");
    reveal_strlit("-");
    reveal_strlit("*");
    reveal_strlit("/");
    reveal_strlit("%");
    reveal_strlit("==");
    reveal_strlit("!=");
    reveal_strlit(">");
    reveal_strlit("<");
    reveal_strlit(">=");
    reveal_strlit("<=");
    assert("+"@[0] != "-"@[0]);
    assert("*"@[0] != "/"@[0] && "*"@[0] != "%"@[0] && "/"@[0] != "%"@[0]);
    assert(">"@.len() != "=="@.len() && ">"@.len() != "!="@.len());
    assert("<"@[0] != ">"@[0]);
    assert(">="@[0] != "=="@[0] && ">="@[0] != "!="@[0]);
    assert("<="@[0] != "=="@[0] && "<="@[0] != "!="@[0] && "<="@[0] != ">="@[0]);
    assert("<="@.len() != ">"@.len() && "<="@.len() != "<"@.len() && ">="@.len() != ">"@.len() && ">="@.len() != "<"@.len());
}

/// `AND` is conjunction: true when both operands are truthy, false otherwise.
pub proof fn law_and_is_conjunction(l: JVal, r: JVal, ans: Seq<JVal>, pos: nat)
    ensures
        binop_spec(BinOperator::And, l, r, ans, pos).1 == pos,
        (truthy(l) && truthy(r)) ==> binop_spec(BinOperator::And, l, r, ans, pos).0 == ok(JVal::Bool(true)),
        !truthy(l) ==> binop_spec(BinOperator::And, l, r, ans, pos).0 == ok(JVal::Bool(false)),
        !truthy(r) ==> binop_spec(BinOperator::And, l, r, ans, pos).0 == ok(JVal::Bool(false)),
        binop_spec(BinOperator::Eq, l, r, ans, pos).0 == ok(JVal::Bool(crate::json::json_eq(l, r))),
{
}

/// How the declared types split JSON values: no type accepts null; `Int`
/// and `Float` split the numbers between them; `String` takes every string,
/// and the types held in strings (`JSONString`, `Blob`, `Ref`) take only
/// strings; `List` and `Tensor` take the arrays, `JSONObject` and `Map` the
/// objects, `Table` both; `JSON` takes every value but null.
pub proof fn law_types_split_values(t: AetherType, v: JVal)
    ensures
        !type_accepts(t, JVal::Null),
        (type_accepts(AetherType::Int, v) || type_accepts(AetherType::Float, v)) <==> v is Num,
        !(type_accepts(AetherType::Int, v) && type_accepts(AetherType::Float, v)),
        type_accepts(AetherType::String, v) <==> v is Str,
        (type_accepts(AetherType::JSONString, v) || type_accepts(AetherType::Blob, v) || type_accepts(AetherType::Ref, v))
            ==> v is Str,
        type_accepts(AetherType::Ref, v) == type_accepts(AetherType::String, v),
        type_accepts(AetherType::List, v) <==> v is Arr,
        type_accepts(AetherType::Tensor, v) == type_accepts(AetherType::List, v),
        type_accepts(AetherType::JSONObject, v) <==> v is Obj,
        type_accepts(AetherType::MapType, v) == type_accepts(AetherType::JSONObject, v),
        type_accepts(AetherType::Table, v) == (type_accepts(AetherType::List, v) || type_accepts(AetherType::JSONObject, v)),
        type_accepts(AetherType::JSON, v) <==> !(v is Null),
{
}

} // verus!
