//! The execution engine's decisions: safety gate, node header, the work
//! before and after running guest code, retries, and run-wide bookkeeping.
//! Running guest processes, timing, healing calls and printing are done by
//! the caller between these steps.

use vstd::prelude::*;
use crate::ast::{
    ActionNode, AetherType, Assertion, HaltAction, InputSource, OutputBinding, SafetyLevel,
    safety_label, safety_rank, safety_short, type_accepts, value_json,
};
use crate::eval::{Eval, EvalV, FloatTask, eval_expr, eval_spec, eval_view};
use crate::json::{
    JNum, JVal, JsonValue, clone_json, is_truthy, jview, jviews, lemma_jviews, lemma_mviews,
    member_insert, members_insert, mviews, push_chars, truthy,
};
use crate::eval::FloatOp;
use crate::ledger::{StateLedger, mismatch_message};
use crate::show::{expr_debug, expr_text};
use crate::registry::{AslRegistry, first_with_id, opt_view};
use crate::text::{owned, str_eq, string_of};

verus! {

/// Execution settings.
pub struct ExecutionConfig {
    /// Highest safety level that runs without approval.
    pub auto_approve_level: SafetyLevel,
    /// Check intents against the ASL registry.
    pub use_registry: bool,
    /// Treat unregistered intents as errors in the registry check.
    pub strict_registry: bool,
}

impl Default for ExecutionConfig {
    fn default() -> (r: ExecutionConfig)
        ensures
            r.auto_approve_level == SafetyLevel::L2StateMod,
            r.use_registry,
            !r.strict_registry,
    {
        ExecutionConfig {
            auto_approve_level: SafetyLevel::L2StateMod,
            use_registry: true,
            strict_registry: false,
        }
    }
}

/// Outcome of one VALIDATE assertion.
pub struct ValidationResult {
    pub assertion: String,
    pub passed: bool,
    /// "HALT", "RETRY" or "WARN".
    pub action: String,
}

/// Trace of one node's execution.
pub struct NodeTrace {
    pub node: String,
    pub intent: String,
    pub safety: String,
    pub status: String,
    pub duration_ms: u64,
    pub output: JsonValue,
    pub validation_results: Vec<ValidationResult>,
    /// Node ids this node depends on.
    pub depends_on: Vec<String>,
    /// Matched ASL registry entry id, if any.
    pub asl_match: Option<String>,
    /// Registry warnings (safety mismatch).
    pub asl_warnings: Vec<String>,
    /// Self-healing attempts.
    pub heal_log: Vec<String>,
}

pub struct Telemetry {
    pub total_duration_ms: u64,
    pub nodes_executed: usize,
    pub nodes_failed: usize,
    pub nodes_skipped: usize,
}

pub struct SysInfo {
    pub execution_id: String,
    pub host_agent: String,
    pub timestamp_start: String,
    pub timestamp_end: String,
    pub global_status: String,
}

// ---------------------------------------------------------------------------
// Node metadata
// ---------------------------------------------------------------------------

pub open spec fn node_intent(n: ActionNode) -> Seq<char> {
    match n.meta {
        Some(m) => match m.intent {
            Some(s) => s@,
            None => Seq::empty(),
        },
        None => Seq::empty(),
    }
}

/// The declared safety level of a node (L0 when none is declared).
pub open spec fn node_safety(n: ActionNode) -> SafetyLevel {
    match n.meta {
        Some(m) => match m.safety {
            Some(s) => s,
            None => SafetyLevel::L0Pure,
        },
        None => SafetyLevel::L0Pure,
    }
}

pub fn node_safety_level(n: &ActionNode) -> (r: SafetyLevel)
    ensures
        r == node_safety(*n),
{
    match &n.meta {
        Some(m) => match &m.safety {
            Some(s) => *s,
            None => SafetyLevel::L0Pure,
        },
        None => SafetyLevel::L0Pure,
    }
}

pub open spec fn blocked_message(n: ActionNode, auto: SafetyLevel) -> Seq<char> {
    "Node "@ + n.id@ + " requires "@ + safety_label(node_safety(n)) + " but auto-approve is set to "@
        + safety_label(auto) + ". Execution blocked."@
}

/// The safety gate: a node whose declared level exceeds the auto-approve level
/// is blocked.
pub fn check_safety(node: &ActionNode, auto_approve_level: &SafetyLevel) -> (r: Result<(), String>)
    ensures
        r is Ok <==> safety_rank(node_safety(*node)) <= safety_rank(*auto_approve_level),
        r matches Err(m) ==> m@ == blocked_message(*node, *auto_approve_level),
{
    let level = node_safety_level(node);
    if level.exceeds(auto_approve_level) {
        let mut out: Vec<char> = Vec::new();
        push_chars(&mut out, "Node ");
        push_chars(&mut out, node.id.as_str());
        push_chars(&mut out, " requires ");
        push_chars(&mut out, level.label());
        push_chars(&mut out, " but auto-approve is set to ");
        push_chars(&mut out, auto_approve_level.label());
        push_chars(&mut out, ". Execution blocked.");
        return Err(string_of(out.as_slice()));
    }
    Ok(())
}

/// What a node's traces say about it, whatever happens when it runs.
pub struct NodeHeader {
    pub intent: String,
    pub safety: String,
    pub asl_match: Option<String>,
    pub asl_warnings: Vec<String>,
}

/// The registry annotation of a node: none without a registry or an intent;
/// otherwise the matched entry id and the mismatch warning of the check.
pub open spec fn header_ok(h: NodeHeader, n: ActionNode, reg: Option<AslRegistry>, strict: bool) -> bool {
    &&& h.intent@ == node_intent(n)
    &&& h.safety@ == safety_label(node_safety(n))
    &&& match reg {
        Some(r) if node_intent(n).len() > 0 => match first_with_id(r.entries@, node_intent(n)) {
            Some(i) => {
                &&& opt_view(h.asl_match) == Some(r.entries@[i].id@)
                &&& h.asl_warnings@.len() == (if crate::text::unicode_lower(r.entries@[i].safety@)
                    == crate::text::unicode_lower(safety_short(node_safety(n))) {
                    0int
                } else {
                    1int
                })
                &&& h.asl_warnings@.len() == 1 ==> h.asl_warnings@[0]@
                    == crate::registry::mismatch_warning(
                    node_intent(n),
                    r.entries@[i].safety@,
                    safety_short(node_safety(n)),
                )
            },
            None => h.asl_match is None && h.asl_warnings@.len() == 0,
        },
        _ => h.asl_match is None && h.asl_warnings@.len() == 0,
    }
}

pub fn node_header(node: &ActionNode, registry: Option<&AslRegistry>, strict: bool) -> (r: NodeHeader)
    ensures
        header_ok(
            r,
            *node,
            match registry {
                Some(g) => Some(*g),
                None => None,
            },
            strict,
        ),
{
    proof {
        reveal_strlit("");
    }
    let intent: String = match &node.meta {
        Some(m) => match &m.intent {
            Some(s) => owned(s.as_str()),
            None => owned(""),
        },
        None => owned(""),
    };
    let level = node_safety_level(node);
    let safety = owned(level.label());
    let (asl_match, asl_warnings) = match registry {
        Some(reg) => {
            if !intent.as_str().is_empty() {
                let check = reg.check(intent.as_str(), level.short_tag(), strict);
                let mut ws: Vec<String> = Vec::new();
                match check.warning {
                    Some(w) => {
                        ws.push(w);
                    },
                    None => {},
                }
                (check.matched_id, ws)
            } else {
                (None, Vec::new())
            }
        },
        None => (None, Vec::new()),
    };
    let r = NodeHeader { intent, safety, asl_match, asl_warnings };
    assert(r.intent@ == node_intent(*node));
    assert(r.safety@ == safety_label(node_safety(*node)));
    r
}


// ---------------------------------------------------------------------------
// Traces
// ---------------------------------------------------------------------------

pub open spec fn strings_view(v: Seq<String>) -> Seq<Seq<char>> {
    v.map_values(|s: String| s@)
}

/// A trace of a node with the header's fields, this status and output, and
/// no validation results, dependencies, duration or healing log yet.
pub open spec fn trace_basic(t: NodeTrace, n: ActionNode, h: NodeHeader, status: Seq<char>, out: JVal) -> bool {
    &&& t.node@ == n.id@
    &&& t.intent@ == h.intent@
    &&& t.safety@ == h.safety@
    &&& t.status@ == status
    &&& t.duration_ms == 0
    &&& t.output@ == out
    &&& t.depends_on@.len() == 0
    &&& opt_view(t.asl_match) == opt_view(h.asl_match)
    &&& strings_view(t.asl_warnings@) == strings_view(h.asl_warnings@)
    &&& t.heal_log@.len() == 0
}

pub fn clone_strings(v: &Vec<String>) -> (r: Vec<String>)
    ensures
        strings_view(r@) == strings_view(v@),
{
    let mut out: Vec<String> = Vec::new();
    let mut i: usize = 0;
    while i < v.len()
        invariant
            0 <= i <= v@.len(),
            out@.len() == i,
            forall|j: int| 0 <= j < i ==> (#[trigger] out@[j])@ == v@[j]@,
        decreases v@.len() - i,
    {
        out.push(owned(v[i].as_str()));
        i = i + 1;
    }
    assert(strings_view(out@) =~= strings_view(v@));
    out
}

pub fn clone_opt_string(o: &Option<String>) -> (r: Option<String>)
    ensures
        opt_view(r) == opt_view(*o),
{
    match o {
        Some(s) => Some(owned(s.as_str())),
        None => None,
    }
}

fn new_trace(node: &ActionNode, header: &NodeHeader, status: &str, output: JsonValue) -> (r: NodeTrace)
    ensures
        trace_basic(r, *node, *header, status@, output@),
        r.validation_results@.len() == 0,
{
    NodeTrace {
        node: owned(node.id.as_str()),
        intent: owned(header.intent.as_str()),
        safety: owned(header.safety.as_str()),
        status: owned(status),
        duration_ms: 0,
        output,
        validation_results: Vec::new(),
        depends_on: Vec::new(),
        asl_match: clone_opt_string(&header.asl_match),
        asl_warnings: clone_strings(&header.asl_warnings),
        heal_log: Vec::new(),
    }
}

/// A one-member object `{key: value}`.
pub open spec fn single(key: Seq<char>, v: JVal) -> JVal {
    JVal::Obj(seq![(key, v)])
}

fn single_obj(key: &str, v: JsonValue) -> (r: JsonValue)
    ensures
        r@ == single(key@, v@),
{
    let mut ms: Vec<(String, JsonValue)> = Vec::new();
    ms.push((owned(key), v));
    let r = JsonValue::Object(ms);
    proof {
        lemma_mviews(ms@);
        assert(mviews(ms@) =~= seq![(key@, v@)]);
    }
    r
}

// ---------------------------------------------------------------------------
// Before the guest runs: gate, condition, inputs
// ---------------------------------------------------------------------------

/// The value bound to an input: the ledger's value at a reference (null when
/// absent), or the literal's value.
pub open spec fn binding_value(b: crate::ast::InputBinding, led: Map<Seq<char>, JVal>) -> JVal {
    match b.source {
        InputSource::Ref(a) => if led.contains_key(a@) {
            led[a@]
        } else {
            JVal::Null
        },
        InputSource::Literal(v) => value_json(v),
    }
}

/// The inputs object: each binding's address mapped to its value, in key order.
pub open spec fn inputs_members(bs: Seq<crate::ast::InputBinding>, led: Map<Seq<char>, JVal>) -> Seq<(Seq<char>, JVal)>
    decreases bs.len(),
{
    if bs.len() == 0 {
        Seq::empty()
    } else {
        member_insert(inputs_members(bs.drop_last(), led), bs.last().address@, binding_value(bs.last(), led))
    }
}

pub open spec fn node_inputs(n: ActionNode, led: Map<Seq<char>, JVal>) -> JVal {
    match n.inputs {
        Some(bs) => JVal::Obj(inputs_members(bs@, led)),
        None => JVal::Obj(Seq::empty()),
    }
}

/// Resolves a node's inputs from the ledger.
pub fn resolve_inputs(node: &ActionNode, ledger: &StateLedger) -> (r: JsonValue)
    ensures
        r@ == node_inputs(*node, ledger@),
{
    let mut ms: Vec<(String, JsonValue)> = Vec::new();
    match &node.inputs {
        Some(bs) => {
            let mut i: usize = 0;
            while i < bs.len()
                invariant
                    0 <= i <= bs@.len(),
                    mviews(ms@) == inputs_members(bs@.subrange(0, i as int), ledger@),
                decreases bs@.len() - i,
            {
                let ghost p = bs@.subrange(0, i + 1);
                assert(p.drop_last() == bs@.subrange(0, i as int));
                let b = &bs[i];
                let v = match &b.source {
                    InputSource::Ref(a) => match ledger.read(a.as_str()) {
                        Some(x) => clone_json(x),
                        None => JsonValue::Null,
                    },
                    InputSource::Literal(l) => l.to_json(),
                };
                members_insert(&mut ms, owned(b.address.as_str()), v);
                i = i + 1;
            }
            assert(bs@.subrange(0, bs@.len() as int) == bs@);
        },
        None => {},
    }
    let r = JsonValue::Object(ms);
    proof {
        lemma_mviews(ms@);
        if node.inputs is None {
            assert(mviews(ms@) =~= Seq::<(Seq<char>, JVal)>::empty());
        }
    }
    r
}

/// The outcome of the steps before a node's guest code runs.
pub enum PreGuest {
    /// A float step of the condition is needed first.
    Need(FloatTask),
    /// The node is finished without running: trace and success.
    Finish(NodeTrace, bool),
    /// Run the guest code with these inputs.
    Run(JsonValue),
}

pub enum PreV {
    Need(FloatOp, JNum, JNum),
    Finish(Seq<char>, JVal, bool),
    Run(JVal),
}

/// Before running: a node above the auto-approve level is BLOCKED; a condition
/// that fails to evaluate gives ERROR; a false condition gives SKIPPED (a
/// success); otherwise the guest runs with the resolved inputs.
pub open spec fn pre_spec(n: ActionNode, auto: SafetyLevel, led: Map<Seq<char>, JVal>, ans: Seq<JVal>) -> PreV {
    if safety_rank(node_safety(n)) > safety_rank(auto) {
        PreV::Finish("BLOCKED"@, single("error"@, JVal::Str(blocked_message(n, auto))), false)
    } else {
        match n.condition {
            Some(c) => match eval_spec(c, led, ans, 0).0 {
                EvalV::Need(op, a, b) => PreV::Need(op, a, b),
                EvalV::Done(Ok(v)) => if !truthy(v) {
                    PreV::Finish("SKIPPED"@, single("reason"@, JVal::Str("Condition evaluated to false"@)), true)
                } else {
                    PreV::Run(node_inputs(n, led))
                },
                EvalV::Done(Err(e)) => PreV::Finish(
                    "ERROR"@,
                    single("error"@, JVal::Str("Condition eval error: "@ + e)),
                    false,
                ),
            },
            None => PreV::Run(node_inputs(n, led)),
        }
    }
}

pub open spec fn pre_view(p: PreGuest, n: ActionNode, h: NodeHeader) -> PreV {
    match p {
        PreGuest::Need(t) => PreV::Need(t.op, t.left@, t.right@),
        PreGuest::Finish(t, ok) => PreV::Finish(t.status@, t.output@, ok),
        PreGuest::Run(v) => PreV::Run(v@),
    }
}

/// The steps of a node before its guest code runs, with the float answers of
/// its condition so far.
pub fn before_guest(
    node: &ActionNode,
    header: &NodeHeader,
    ledger: &StateLedger,
    auto_approve_level: &SafetyLevel,
    answers: &Vec<JsonValue>,
) -> (r: PreGuest)
    ensures
        pre_view(r, *node, *header) == pre_spec(*node, *auto_approve_level, ledger@, jviews(answers@)),
        r matches PreGuest::Finish(t, _) ==> trace_basic(t, *node, *header, t.status@, t.output@)
            && t.validation_results@.len() == 0,
{
    match check_safety(node, auto_approve_level) {
        Err(msg) => {
            let out = single_obj("error", JsonValue::String(msg));
            return PreGuest::Finish(new_trace(node, header, "BLOCKED", out), false);
        },
        Ok(()) => {},
    }
    match &node.condition {
        Some(c) => match eval_expr(c, ledger, answers) {
            Eval::Need(t) => {
                return PreGuest::Need(t);
            },
            Eval::Done(Ok(v)) => {
                if !is_truthy(&v) {
                    let out = single_obj("reason", JsonValue::String(owned("Condition evaluated to false")));
                    return PreGuest::Finish(new_trace(node, header, "SKIPPED", out), true);
                }
            },
            Eval::Done(Err(e)) => {
                let mut m: Vec<char> = Vec::new();
                push_chars(&mut m, "Condition eval error: ");
                push_chars(&mut m, e.as_str());
                let out = single_obj("error", JsonValue::String(string_of(m.as_slice())));
                return PreGuest::Finish(new_trace(node, header, "ERROR", out), false);
            },
        },
        None => {},
    }
    PreGuest::Run(resolve_inputs(node, ledger))
}


// ---------------------------------------------------------------------------
// After the guest ran: outputs, validation
// ---------------------------------------------------------------------------

pub open spec fn node_outputs(n: ActionNode) -> Seq<OutputBinding> {
    match n.outputs {
        Some(bs) => bs@,
        None => Seq::empty(),
    }
}

pub open spec fn node_validation(n: ActionNode) -> Seq<Assertion> {
    match n.validation {
        Some(a) => a@,
        None => Seq::empty(),
    }
}

/// Writing a node's output at each output binding in turn, checked against
/// the binding's declared type: the first refusal stops the writes, and the
/// ledger keeps the writes made before it.
pub open spec fn commit_spec(led: Map<Seq<char>, JVal>, bs: Seq<OutputBinding>, v: JVal) -> (Map<Seq<char>, JVal>, Option<Seq<char>>)
    decreases bs.len(),
{
    if bs.len() == 0 {
        (led, None)
    } else {
        match crate::ledger::write_spec(led, bs[0].address@, v, Some(bs[0].declared_type)) {
            Ok(m) => commit_spec(m, bs.subrange(1, bs.len() as int), v),
            Err(e) => (led, Some(e)),
        }
    }
}

/// The float answers given for assertion `i` (none when the list is shorter).
pub open spec fn answers_at(ans: Seq<Seq<JVal>>, i: int) -> Seq<JVal> {
    if 0 <= i < ans.len() {
        ans[i]
    } else {
        Seq::empty()
    }
}

pub open spec fn action_name(a: HaltAction) -> Seq<char> {
    match a {
        HaltAction::Halt => "HALT"@,
        HaltAction::Retry(_) => "RETRY"@,
        HaltAction::Warn => "WARN"@,
    }
}

/// Whether assertions from the `k`-th on passed, or the float step that
/// assertion `i` needs first.
pub enum CheckV {
    Passed(Seq<bool>),
    Need(int, FloatOp, JNum, JNum),
}

/// An assertion passes when its condition evaluates to a truthy value; an
/// evaluation error counts as a failure.
pub open spec fn passed_of(r: Result<JVal, Seq<char>>) -> bool {
    match r {
        Ok(v) => truthy(v),
        Err(_) => false,
    }
}

pub open spec fn checks_spec(asr: Seq<Assertion>, led: Map<Seq<char>, JVal>, ans: Seq<Seq<JVal>>, k: int) -> CheckV
    decreases asr.len() - k,
{
    if k >= asr.len() || k < 0 {
        CheckV::Passed(Seq::empty())
    } else {
        match eval_spec(asr[k].condition, led, answers_at(ans, k), 0).0 {
            EvalV::Need(op, a, b) => CheckV::Need(k, op, a, b),
            EvalV::Done(r) => match checks_spec(asr, led, ans, k + 1) {
                CheckV::Passed(ps) => CheckV::Passed(seq![passed_of(r)] + ps),
                CheckV::Need(i, op, a, b) => CheckV::Need(i, op, a, b),
            },
        }
    }
}

pub open spec fn checks_prepend(ps: Seq<bool>, c: CheckV) -> CheckV {
    match c {
        CheckV::Passed(qs) => CheckV::Passed(ps + qs),
        CheckV::Need(i, op, a, b) => CheckV::Need(i, op, a, b),
    }
}

/// A failed HALT or RETRY assertion fails the node; a failed WARN does not.
pub open spec fn validation_fails(asr: Seq<Assertion>, ps: Seq<bool>) -> bool {
    exists|i: int| 0 <= i < asr.len() && !ps[i] && !(asr[i].on_fail is Warn)
}

/// The recorded results: each assertion's debug text, whether it passed, and
/// its action name.
pub open spec fn results_match(rs: Seq<ValidationResult>, asr: Seq<Assertion>, ps: Seq<bool>) -> bool {
    &&& rs.len() == asr.len()
    &&& ps.len() == asr.len()
    &&& forall|i: int|
        0 <= i < rs.len() ==> (#[trigger] rs[i]).assertion@ == expr_text(asr[i].condition)
            && rs[i].passed == ps[i] && rs[i].action@ == action_name(asr[i].on_fail)
}

/// The outcome of a node after its guest code ran: a float step of assertion
/// `i` to answer first, or the finished trace's status, output and success.
pub enum PostV {
    Need(int, FloatOp, JNum, JNum),
    Finish(Seq<char>, JVal, bool),
}

/// A guest error gives EXEC_ERROR; an output refused by a declared type gives
/// TYPE_ERROR (the writes before it stay); a failed HALT or RETRY assertion
/// gives VALIDATION_FAILED with the ledger as it was before the writes;
/// otherwise COMPLETED with the outputs written. The second part is the ledger
/// afterwards.
pub open spec fn post_spec(n: ActionNode, led: Map<Seq<char>, JVal>, res: Result<JVal, Seq<char>>, ans: Seq<Seq<JVal>>) -> (PostV, Map<Seq<char>, JVal>) {
    match res {
        Err(m) => (PostV::Finish("EXEC_ERROR"@, single("error"@, JVal::Str(m)), false), led),
        Ok(v) => {
            let (m, e) = commit_spec(led, node_outputs(n), v);
            match e {
                Some(msg) => (
                    PostV::Finish(
                        "TYPE_ERROR"@,
                        JVal::Obj(seq![("error"@, JVal::Str(msg)), ("raw_output"@, v)]),
                        false,
                    ),
                    m,
                ),
                None => match checks_spec(node_validation(n), m, ans, 0) {
                    CheckV::Need(i, op, a, b) => (PostV::Need(i, op, a, b), led),
                    CheckV::Passed(ps) => if validation_fails(node_validation(n), ps) {
                        (PostV::Finish("VALIDATION_FAILED"@, v, false), led)
                    } else {
                        (PostV::Finish("COMPLETED"@, v, true), m)
                    },
                },
            }
        },
    }
}

/// The outcome of the steps after a node's guest code ran.
pub enum PostGuest {
    /// Assertion `.0` needs this float step first.
    Need(usize, FloatTask),
    /// The node's trace and success.
    Finish(NodeTrace, bool),
}

pub open spec fn post_view(p: PostGuest) -> PostV {
    match p {
        PostGuest::Need(i, t) => PostV::Need(i as int, t.op, t.left@, t.right@),
        PostGuest::Finish(t, ok) => PostV::Finish(t.status@, t.output@, ok),
    }
}

fn action_label(a: HaltAction) -> (r: &'static str)
    ensures
        r@ == action_name(a),
{
    match a {
        HaltAction::Halt => "HALT",
        HaltAction::Retry(_) => "RETRY",
        HaltAction::Warn => "WARN",
    }
}

/// Writes the output at each output binding; on a refused write (type
/// mismatch, or an address already written) returns its message, with the
/// writes before it made.
fn commit_outputs(work: &mut StateLedger, bs: &Vec<OutputBinding>, output: &JsonValue) -> (r: Option<String>)
    ensures
        commit_spec(old(work)@, bs@, output@) == (final(work)@, opt_view(r)),
{
    let mut i: usize = 0;
    assert(bs@.subrange(0, bs@.len() as int) == bs@);
    while i < bs.len()
        invariant
            0 <= i <= bs@.len(),
            commit_spec(old(work)@, bs@, output@) == commit_spec(work@, bs@.subrange(i as int, bs@.len() as int), output@),
        decreases bs@.len() - i,
    {
        let ghost sub = bs@.subrange(i as int, bs@.len() as int);
        assert(sub[0] == bs@[i as int]);
        assert(sub.subrange(1, sub.len() as int) == bs@.subrange(i + 1, bs@.len() as int));
        let b = &bs[i];
        match work.write(b.address.as_str(), clone_json(output), Some(&b.declared_type)) {
            Err(e) => {
                return Some(e);
            },
            Ok(()) => {},
        }
        i = i + 1;
    }
    None
}

/// Checks a node's assertions against the ledger: the results and whether the
/// node fails, or the float step that an assertion needs first.
fn run_checks(asr: &Vec<Assertion>, work: &StateLedger, answers: &Vec<Vec<JsonValue>>) -> (r: Result<(Vec<ValidationResult>, bool), (usize, FloatTask)>)
    ensures
        match r {
            Ok((rs, failed)) => match checks_spec(asr@, work@, answers@.map_values(|a: Vec<JsonValue>| jviews(a@)), 0) {
                CheckV::Passed(ps) => results_match(rs@, asr@, ps) && failed == validation_fails(asr@, ps),
                _ => false,
            },
            Err((i, t)) => checks_spec(asr@, work@, answers@.map_values(|a: Vec<JsonValue>| jviews(a@)), 0)
                == CheckV::Need(i as int, t.op, t.left@, t.right@),
        },
{
    let ghost ans = answers@.map_values(|a: Vec<JsonValue>| jviews(a@));
    let ghost led = work@;
    let empty: Vec<JsonValue> = Vec::new();
    let mut results: Vec<ValidationResult> = Vec::new();
    let mut failed = false;
    let ghost mut ps: Seq<bool> = Seq::empty();
    let mut i: usize = 0;
    while i < asr.len()
        invariant
            0 <= i <= asr@.len(),
            empty@.len() == 0,
            led == work@,
            ans == answers@.map_values(|a: Vec<JsonValue>| jviews(a@)),
            ps.len() == i,
            results@.len() == i,
            checks_spec(asr@, led, ans, 0) == checks_prepend(ps, checks_spec(asr@, led, ans, i as int)),
            forall|j: int|
                0 <= j < i ==> (#[trigger] results@[j]).assertion@ == expr_text(asr@[j].condition)
                    && results@[j].passed == ps[j] && results@[j].action@ == action_name(asr@[j].on_fail),
            failed == (exists|j: int| 0 <= j < i && !ps[j] && !(asr@[j].on_fail is Warn)),
        decreases asr@.len() - i,
    {
        let a = &asr[i];
        let ai: &Vec<JsonValue> = if i < answers.len() {
            &answers[i]
        } else {
            &empty
        };
        assert(jviews(ai@) == answers_at(ans, i as int)) by {
            if i < answers@.len() {
            } else {
                assert(jviews(ai@) =~= Seq::<JVal>::empty());
            }
        }
        match eval_expr(&a.condition, work, ai) {
            Eval::Need(t) => {
                return Err((i, t));
            },
            Eval::Done(r) => {
                let passed = match &r {
                    Ok(v) => is_truthy(v),
                    Err(_) => false,
                };
                let ghost rv = match r {
                    Ok(v) => Ok(v@),
                    Err(m) => Err(m@),
                };
                assert(passed == passed_of(rv));
                proof {
                    assert(seq![passed] + Seq::<bool>::empty() =~= seq![passed]);
                    match checks_spec(asr@, led, ans, i + 1) {
                        CheckV::Passed(qs) => {
                            assert(ps + (seq![passed] + qs) =~= ps.push(passed) + qs);
                        },
                        _ => {},
                    }
                }
                results.push(ValidationResult {
                    assertion: expr_debug(&a.condition),
                    passed,
                    action: owned(action_label(a.on_fail)),
                });
                if !passed && !matches!(a.on_fail, HaltAction::Warn) {
                    failed = true;
                }
                proof {
                    let ghost old_ps = ps;
                    ps = ps.push(passed);
                    assert forall|j: int| 0 <= j < i implies ps[j] == old_ps[j] by {}
                    assert(failed == (exists|j: int| 0 <= j < i + 1 && !ps[j] && !(asr@[j].on_fail is Warn))) by {
                        if failed && !(exists|j: int| 0 <= j < i && !old_ps[j] && !(asr@[j].on_fail is Warn)) {
                            assert(!ps[i as int] && !(asr@[i as int].on_fail is Warn));
                        }
                        if exists|j: int| 0 <= j < i + 1 && !ps[j] && !(asr@[j].on_fail is Warn) {
                            let j = choose|j: int| 0 <= j < i + 1 && !ps[j] && !(asr@[j].on_fail is Warn);
                            if j < i {
                                assert(!old_ps[j]);
                            }
                        }
                    }
                }
            },
        }
        i = i + 1;
    }
    proof {
        assert(ps + Seq::<bool>::empty() =~= ps);
    }
    Ok((results, failed))
}

/// The steps of a node after its guest code ran with result `result`, with
/// the float answers of each assertion so far.
pub fn after_guest(
    node: &ActionNode,
    header: &NodeHeader,
    ledger: &mut StateLedger,
    result: Result<JsonValue, String>,
    answers: &Vec<Vec<JsonValue>>,
) -> (r: PostGuest)
    ensures
        ({
            let res = match result {
                Ok(v) => Ok(v@),
                Err(m) => Err(m@),
            };
            let (pv, led) = post_spec(*node, old(ledger)@, res, answers@.map_values(|a: Vec<JsonValue>| jviews(a@)));
            post_view(r) == pv && final(ledger)@ == led
        }),
        r matches PostGuest::Finish(t, _) ==> trace_basic(t, *node, *header, t.status@, t.output@),
        r matches PostGuest::Finish(t, _) ==> (t.status@ == "VALIDATION_FAILED"@ || t.status@ == "COMPLETED"@)
            ==> match checks_spec(node_validation(*node), commit_spec(old(ledger)@, node_outputs(*node), t.output@).0,
                answers@.map_values(|a: Vec<JsonValue>| jviews(a@)), 0) {
                CheckV::Passed(ps) => results_match(t.validation_results@, node_validation(*node), ps),
                _ => false,
            },
        r matches PostGuest::Finish(t, _) ==> !(t.status@ == "VALIDATION_FAILED"@ || t.status@ == "COMPLETED"@)
            ==> t.validation_results@.len() == 0,
{
    match result {
        Err(msg) => {
            proof {
                reveal_strlit("EXEC_ERROR");
                reveal_strlit("VALIDATION_FAILED");
                reveal_strlit("COMPLETED");
                assert("EXEC_ERROR"@.len() == 10);
                assert("EXEC_ERROR"@ != "VALIDATION_FAILED"@);
                assert("EXEC_ERROR"@[0] != "COMPLETED"@[0]);
            }
            let out = single_obj("error", JsonValue::String(msg));
            PostGuest::Finish(new_trace(node, header, "EXEC_ERROR", out), false)
        },
        Ok(output) => {
            let mut work = ledger.snapshot();
            let type_err = match &node.outputs {
                Some(bs) => commit_outputs(&mut work, bs, &output),
                None => None,
            };
            assert(commit_spec(old(ledger)@, node_outputs(*node), output@) == (work@, opt_view(type_err)));
            match type_err {
                Some(e) => {
                    *ledger = work;
                    let mut ms: Vec<(String, JsonValue)> = Vec::new();
                    ms.push((owned("error"), JsonValue::String(e)));
                    ms.push((owned("raw_output"), output));
                    proof {
                        lemma_mviews(ms@);
                        assert(mviews(ms@) =~= seq![("error"@, JVal::Str(e@)), ("raw_output"@, output@)]);
                        reveal_strlit("TYPE_ERROR");
                        reveal_strlit("VALIDATION_FAILED");
                        reveal_strlit("COMPLETED");
                        assert("TYPE_ERROR"@.len() == 10);
                        assert("TYPE_ERROR"@ != "VALIDATION_FAILED"@);
                        assert("TYPE_ERROR"@[0] != "COMPLETED"@[0]);
                    }
                    let out = JsonValue::Object(ms);
                    return PostGuest::Finish(new_trace(node, header, "TYPE_ERROR", out), false);
                },
                None => {},
            }
            let empty_asr: Vec<Assertion> = Vec::new();
            let asr = match &node.validation {
                Some(a) => a,
                None => &empty_asr,
            };
            assert(asr@ == node_validation(*node));
            match run_checks(asr, &work, answers) {
                Err((i, t)) => PostGuest::Need(i, t),
                Ok((results, failed)) => {
                    if failed {
                        let mut t = new_trace(node, header, "VALIDATION_FAILED", output);
                        t.validation_results = results;
                        assert(commit_spec(old(ledger)@, node_outputs(*node), t.output@).0 == work@);
                        PostGuest::Finish(t, false)
                    } else {
                        *ledger = work;
                        let mut t = new_trace(node, header, "COMPLETED", output);
                        t.validation_results = results;
                        assert(commit_spec(old(ledger)@, node_outputs(*node), t.output@).0 == ledger@);
                        PostGuest::Finish(t, true)
                    }
                },
            }
        },
    }
}

} // verus!
