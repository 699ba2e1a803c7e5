//! Self-healing of nodes whose RETRY assertions fail: how many attempts a
//! node allows, which failure asks for healing, the healing log, and the
//! request text for the model that proposes fixed code. The model call and
//! the re-runs are made by the caller between these steps.

use vstd::prelude::*;
use crate::ast::{ActionNode, Assertion, GuestLang, HaltAction};
use crate::executor::{NodeTrace, ValidationResult, node_validation};
use crate::json::{JsonValue, decimal, json_parses, json_text, push_chars, push_decimal, to_json_text};
use crate::text::{owned, str_eq, string_of};

verus! {

/// The largest retry count among a node's RETRY assertions (3 for one that
/// names none); 0 when there is none.
pub open spec fn retry_limit(asr: Seq<Assertion>) -> nat
    decreases asr.len(),
{
    if asr.len() == 0 {
        0
    } else {
        let rest = retry_limit(asr.drop_last());
        match asr.last().on_fail {
            HaltAction::Retry(n) => {
                let m: nat = match n {
                    Some(k) => k as nat,
                    None => 3,
                };
                if m > rest {
                    m
                } else {
                    rest
                }
            },
            _ => rest,
        }
    }
}

/// How many healing attempts a node allows.
pub fn max_retries(node: &ActionNode) -> (r: u32)
    ensures
        r == retry_limit(node_validation(*node)),
{
    let empty: Vec<Assertion> = Vec::new();
    let asr = match &node.validation {
        Some(a) => a,
        None => &empty,
    };
    let mut best: u32 = 0;
    let mut i: usize = 0;
    while i < asr.len()
        invariant
            0 <= i <= asr@.len(),
            asr@ == node_validation(*node),
            best == retry_limit(asr@.subrange(0, i as int)),
        decreases asr@.len() - i,
    {
        let ghost p = asr@.subrange(0, i + 1);
        assert(p.drop_last() == asr@.subrange(0, i as int));
        match asr[i].on_fail {
            HaltAction::Retry(n) => {
                let m: u32 = match n {
                    Some(k) => k,
                    None => 3,
                };
                if m > best {
                    best = m;
                }
            },
            _ => {},
        }
        i = i + 1;
    }
    assert(asr@.subrange(0, asr@.len() as int) == asr@);
    best
}

/// The index of the first failed RETRY result at or after `k`.
pub open spec fn first_retry_failure(rs: Seq<ValidationResult>, k: int) -> Option<int>
    decreases rs.len() - k,
{
    if k < 0 || k >= rs.len() {
        None
    } else if !rs[k].passed && rs[k].action@ == "RETRY"@ {
        Some(k)
    } else {
        first_retry_failure(rs, k + 1)
    }
}

/// The assertion that a trace asks to heal: the text of its first failed
/// RETRY result, when the trace failed validation.
pub open spec fn retry_target_spec(t: NodeTrace) -> Option<Seq<char>> {
    if t.status@ == "VALIDATION_FAILED"@ {
        match first_retry_failure(t.validation_results@, 0) {
            Some(i) => Some(t.validation_results@[i].assertion@),
            None => None,
        }
    } else {
        None
    }
}

/// The failed assertion to heal, if the trace is a validation failure with a
/// failed RETRY assertion.
pub fn retry_target(t: &NodeTrace) -> (r: Option<String>)
    ensures
        match r {
            Some(s) => retry_target_spec(*t) == Some(s@),
            None => retry_target_spec(*t) is None,
        },
{
    if !str_eq(t.status.as_str(), "VALIDATION_FAILED") {
        return None;
    }
    let rs = &t.validation_results;
    let mut i: usize = 0;
    while i < rs.len()
        invariant
            0 <= i <= rs@.len(),
            rs@ == t.validation_results@,
            t.status@ == "VALIDATION_FAILED"@,
            first_retry_failure(rs@, 0) == first_retry_failure(rs@, i as int),
        decreases rs@.len() - i,
    {
        if !rs[i].passed && str_eq(rs[i].action.as_str(), "RETRY") {
            assert(first_retry_failure(rs@, i as int) == Some(i as int));
            return Some(owned(rs[i].assertion.as_str()));
        }
        i = i + 1;
    }
    None
}

pub open spec fn failed_line(n: nat, assertion: Seq<char>) -> Seq<char> {
    "[attempt "@ + decimal(n) + "] validation failed on: "@ + assertion
}

pub open spec fn applied_line(n: nat) -> Seq<char> {
    "[attempt "@ + decimal(n) + "] LLM healing applied"@
}

pub open spec fn unavailable_line(n: nat, e: Seq<char>) -> Seq<char> {
    "[attempt "@ + decimal(n) + "] healing unavailable: "@ + e
}

fn log_line(n: u64, rest: &str) -> (r: String)
    ensures
        r@ == "[attempt "@ + decimal(n as nat) + rest@,
{
    let mut out: Vec<char> = Vec::new();
    push_chars(&mut out, "[attempt ");
    push_decimal(&mut out, n);
    push_chars(&mut out, rest);
    string_of(out.as_slice())
}

fn log_line2(n: u64, mid: &str, tail: &str) -> (r: String)
    ensures
        r@ == "[attempt "@ + decimal(n as nat) + mid@ + tail@,
{
    let mut out: Vec<char> = Vec::new();
    push_chars(&mut out, "[attempt ");
    push_decimal(&mut out, n);
    push_chars(&mut out, mid);
    push_chars(&mut out, tail);
    string_of(out.as_slice())
}

/// The healing loop of one node: attempts made, attempts allowed (never
/// fewer than those made), and the log of what happened.
pub struct HealLoop {
    attempt: u32,
    max: u32,
    log: Vec<String>,
}

/// What to do after a run of the node.
pub enum HealStep {
    /// Keep the last result.
    Stop,
    /// Ask for fixed code for this failed assertion.
    Heal(String),
}

pub open spec fn log_view(l: Seq<String>) -> Seq<Seq<char>> {
    l.map_values(|s: String| s@)
}

impl HealLoop {
    #[verifier::type_invariant]
    spec fn bounded(self) -> bool {
        self.attempt <= self.max
    }

    /// The number of healing attempts made.
    pub closed spec fn attempts_made(self) -> nat {
        self.attempt as nat
    }

    /// The number of healing attempts allowed.
    pub closed spec fn attempts_allowed(self) -> nat {
        self.max as nat
    }

    /// The lines logged so far.
    pub closed spec fn log_lines(self) -> Seq<Seq<char>> {
        log_view(self.log@)
    }

    fn log_push(&mut self, line: String)
        ensures
            final(self).log@ == old(self).log@.push(line),
            final(self).attempt == old(self).attempt,
            final(self).max == old(self).max,
    {
        proof {
            use_type_invariant(&*self);
        }
        let mut log: Vec<String> = Vec::new();
        std::mem::swap(&mut log, &mut self.log);
        log.push(line);
        self.log = log;
    }

    /// The loop of a node before any healing.
    pub fn new(node: &ActionNode) -> (r: HealLoop)
        ensures
            r.attempts_made() == 0,
            r.attempts_allowed() == retry_limit(node_validation(*node)),
            r.log_lines().len() == 0,
    {
        HealLoop { attempt: 0, max: max_retries(node), log: Vec::new() }
    }

    /// The number of healing attempts made, never more than those allowed.
    pub fn attempt(&self) -> (r: u32)
        ensures
            r == self.attempts_made(),
            r <= self.attempts_allowed(),
    {
        proof {
            use_type_invariant(self);
        }
        self.attempt
    }

    /// The number of healing attempts allowed.
    pub fn max(&self) -> (r: u32)
        ensures
            r == self.attempts_allowed(),
    {
        self.max
    }

    /// The lines logged so far.
    pub fn log(&self) -> (r: &Vec<String>)
        ensures
            log_view(r@) == self.log_lines(),
    {
        &self.log
    }

    /// The log, taken out of the finished loop.
    pub fn into_log(self) -> (r: Vec<String>)
        ensures
            log_view(r@) == self.log_lines(),
    {
        self.log
    }

    /// After a run: while attempts remain and the run failed a RETRY
    /// assertion, log the failure and ask for healing; otherwise stop.
    pub fn next(&mut self, last: &NodeTrace) -> (r: HealStep)
        ensures
            r is Heal <==> old(self).attempts_made() < old(self).attempts_allowed() && retry_target_spec(*last) is Some,
            r matches HealStep::Heal(a) ==> {
                &&& retry_target_spec(*last) == Some(a@)
                &&& final(self).log_lines() == old(self).log_lines().push(
                    failed_line(old(self).attempts_made() + 1, a@),
                )
            },
            r is Stop ==> final(self).log_lines() == old(self).log_lines(),
            final(self).attempts_made() == old(self).attempts_made(),
            final(self).attempts_allowed() == old(self).attempts_allowed(),
            r is Heal ==> final(self).attempts_made() < final(self).attempts_allowed(),
    {
        if self.attempt >= self.max {
            return HealStep::Stop;
        }
        match retry_target(last) {
            None => HealStep::Stop,
            Some(a) => {
                let line = log_line2(self.attempt as u64 + 1, "] validation failed on: ", a.as_str());
                let ghost before = self.log@;
                self.log_push(line);
                proof {
                    assert(log_view(self.log@) =~= log_view(before).push(
                        failed_line((self.attempt + 1) as nat, a@),
                    ));
                }
                HealStep::Heal(a)
            },
        }
    }

    /// Fixed code was received: log it and count the attempt.
    pub fn healed(&mut self)
        requires
            old(self).attempts_made() < old(self).attempts_allowed(),
        ensures
            final(self).attempts_made() == old(self).attempts_made() + 1,
            final(self).attempts_allowed() == old(self).attempts_allowed(),
            final(self).log_lines() == old(self).log_lines().push(applied_line(old(self).attempts_made() + 1)),
    {
        let line = log_line(self.attempt as u64 + 1, "] LLM healing applied");
        let ghost before = self.log@;
        self.log_push(line);
        proof {
            assert(log_view(self.log@) =~= log_view(before).push(applied_line((self.attempt + 1) as nat)));
        }
        self.attempt = self.attempt + 1;
    }

    /// Healing was not available: log the reason and stop the loop.
    pub fn heal_failed(&mut self, reason: &str)
        ensures
            final(self).attempts_made() == old(self).attempts_allowed(),
            final(self).attempts_allowed() == old(self).attempts_allowed(),
            final(self).log_lines() == old(self).log_lines().push(
                unavailable_line(old(self).attempts_made() + 1, reason@),
            ),
    {
        let line = log_line2(self.attempt as u64 + 1, "] healing unavailable: ", reason);
        let ghost before = self.log@;
        self.log_push(line);
        proof {
            assert(log_view(self.log@) =~= log_view(before).push(
                unavailable_line((self.attempt + 1) as nat, reason@),
            ));
        }
        self.attempt = self.max;
    }
}

/// The intent that a healing request names ("unknown intent" without one).
pub open spec fn heal_intent(n: ActionNode) -> Seq<char> {
    match n.meta {
        Some(m) => match m.intent {
            Some(s) => s@,
            None => "unknown intent"@,
        },
        None => "unknown intent"@,
    }
}

/// The language name that a healing request names.
pub open spec fn heal_lang_name(l: GuestLang) -> Seq<char> {
    match l {
        GuestLang::JS => "JavaScript"@,
        GuestLang::Shell => "Shell"@,
        _ => "Python"@,
    }
}

/// Pretty-printed JSON text (two-space indentation) of the JSON value that a
/// text parses to; only applied to texts that parse (`json_parses`).
pub uninterp spec fn json_pretty(text: Seq<char>) -> Seq<char>;

/// The pretty form of a text, empty when the text does not parse as JSON.
pub open spec fn pretty_or_empty(text: Seq<char>) -> Seq<char> {
    if json_parses(text) {
        json_pretty(text)
    } else {
        Seq::empty()
    }
}

/// `serde_json::from_str::<serde_json::Value>` and, on success,
/// `serde_json::to_string_pretty` of the value: the two calls together make
/// one function of the text, named `json_pretty` (printing a `Value` does not
/// fail: its map keys are strings and the output is a `String`). When the text
/// does not parse, the result is empty.
#[verifier::external_body]
fn pretty_json_text(text: &str) -> (r: String)
    ensures
        json_parses(text@) ==> r@ == json_pretty(text@),
        !json_parses(text@) ==> r@ == Seq::<char>::empty(),
{
    match serde_json::from_str::<serde_json::Value>(text) {
        Ok(v) => serde_json::to_string_pretty(&v).unwrap_or_default(),
        Err(_) => String::new(),
    }
}

/// The request text asking for fixed code.
pub open spec fn heal_prompt_spec(intent: Seq<char>, lang: Seq<char>, code: Seq<char>, assertion: Seq<char>, actual: Seq<char>) -> Seq<char> {
    "You are fixing a failing Aether action node.\n\nNode intent: "@ + intent + "\nLanguage: "@ + lang
        + "\n\nCode that failed:\n"@ + code + "\n\nFailed validation assertion: "@ + assertion
        + "\nActual output was: "@ + actual + "\n\nReturn ONLY the corrected "@ + lang
        + " code. No explanation, no markdown fences, no comments about what changed. The code must end with a return statement that produces the correct output."@
}

/// The healing request for a node whose code `code` failed `assertion` with
/// output `actual` (shown pretty-printed; its compact JSON text always parses,
/// but that rests on serde_json, so the contract keeps the other case).
pub fn heal_prompt(node: &ActionNode, code: &str, assertion: &str, actual: &JsonValue) -> (r: String)
    ensures
        r@ == heal_prompt_spec(
            heal_intent(*node),
            heal_lang_name(node.language),
            code@,
            assertion@,
            pretty_or_empty(json_text(actual@)),
        ),
{
    let intent: &str = match &node.meta {
        Some(m) => match &m.intent {
            Some(s) => s.as_str(),
            None => "unknown intent",
        },
        None => "unknown intent",
    };
    let lang: &str = match node.language {
        GuestLang::JS => "JavaScript",
        GuestLang::Shell => "Shell",
        _ => "Python",
    };
    let pretty = pretty_json_text(to_json_text(actual).as_str());
    let mut out: Vec<char> = Vec::new();
    push_chars(&mut out, "You are fixing a failing Aether action node.\n\nNode intent: ");
    push_chars(&mut out, intent);
    push_chars(&mut out, "\nLanguage: ");
    push_chars(&mut out, lang);
    push_chars(&mut out, "\n\nCode that failed:\n");
    push_chars(&mut out, code);
    push_chars(&mut out, "\n\nFailed validation assertion: ");
    push_chars(&mut out, assertion);
    push_chars(&mut out, "\nActual output was: ");
    push_chars(&mut out, pretty.as_str());
    push_chars(&mut out, "\n\nReturn ONLY the corrected ");
    push_chars(&mut out, lang);
    push_chars(
        &mut out,
        " code. No explanation, no markdown fences, no comments about what changed. The code must end with a return statement that produces the correct output.",
    );
    string_of(out.as_slice())
}

} // verus!
