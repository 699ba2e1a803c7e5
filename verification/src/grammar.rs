//! The Aether grammar and its recognizer.
//!
//! The grammar is a parsing expression grammar written out as data
//! ([`grammar_spec`] / [`aether_grammar`]). Its meaning is the interpreter
//! [`interp`]: literals, character ranges, any character, sequences, ordered
//! choice, repetition, option, negative look-ahead and rule calls. Outside
//! atomic rules, whitespace and `//` comments are skipped between the items of
//! a sequence and between repetitions. A call of a rule that is not silent
//! yields a syntax-tree node holding the rule, the text it matched and (for a
//! rule that is not atomic) the nodes matched inside it. Every step below a
//! rule call spends one unit of a depth budget; a program that needs more is
//! refused as too deeply nested.

use vstd::prelude::*;
use crate::syntax::{SyntaxNode, SyntaxRule};
use crate::text::{chars_of, owned, slice_vec, string_of};

verus! {

// ---------------------------------------------------------------------------
// Grammar expressions
// ---------------------------------------------------------------------------

/// How a rule builds nodes.
#[derive(Clone, Copy, PartialEq, Eq, Structural)]
pub enum RuleKind {
    /// A node with the nodes matched inside it.
    Normal,
    /// A node without inner nodes; no whitespace is skipped inside.
    Atomic,
}

/// A grammar expression.
pub enum GExpr {
    Lit(Vec<char>),
    Range(char, char),
    Any,
    Sequence(Vec<GExpr>),
    Choice(Vec<GExpr>),
    Star(Box<GExpr>),
    Opt(Box<GExpr>),
    Not(Box<GExpr>),
    Call(usize),
}

pub struct GRule {
    pub kind: RuleKind,
    pub tag: SyntaxRule,
    pub body: GExpr,
}

/// Mathematical view of a grammar expression.
pub enum GE {
    Lit(Seq<char>),
    Range(char, char),
    Any,
    Sequence(Seq<GE>),
    Choice(Seq<GE>),
    Star(Box<GE>),
    Opt(Box<GE>),
    Not(Box<GE>),
    Call(nat),
}

pub struct GRuleV {
    pub kind: RuleKind,
    pub tag: SyntaxRule,
    pub body: GE,
}

pub open spec fn ge_v(e: GExpr) -> GE
    decreases e, 1nat,
{
    match e {
        GExpr::Lit(t) => GE::Lit(t@),
        GExpr::Range(a, b) => GE::Range(a, b),
        GExpr::Any => GE::Any,
        GExpr::Sequence(es) => GE::Sequence(ges_v(es@)),
        GExpr::Choice(es) => GE::Choice(ges_v(es@)),
        GExpr::Star(x) => GE::Star(Box::new(ge_v(*x))),
        GExpr::Opt(x) => GE::Opt(Box::new(ge_v(*x))),
        GExpr::Not(x) => GE::Not(Box::new(ge_v(*x))),
        GExpr::Call(r) => GE::Call(r as nat),
    }
}

pub open spec fn ges_v(s: Seq<GExpr>) -> Seq<GE>
    decreases s, 0nat,
{
    if s.len() == 0 {
        Seq::empty()
    } else {
        ges_v(s.subrange(0, s.len() - 1)).push(ge_v(s[s.len() - 1]))
    }
}

pub proof fn lemma_ges_v(s: Seq<GExpr>)
    ensures
        ges_v(s).len() == s.len(),
        forall|i: int| 0 <= i < s.len() ==> #[trigger] ges_v(s)[i] == ge_v(s[i]),
    decreases s.len(),
{
    if s.len() > 0 {
        lemma_ges_v(s.subrange(0, s.len() - 1));
    }
}

pub open spec fn rule_v(r: GRule) -> GRuleV {
    GRuleV { kind: r.kind, tag: r.tag, body: ge_v(r.body) }
}

pub open spec fn rules_v(g: Seq<GRule>) -> Seq<GRuleV> {
    g.map_values(|r: GRule| rule_v(r))
}

// ---------------------------------------------------------------------------
// Syntax trees
// ---------------------------------------------------------------------------

/// Mathematical view of a syntax-tree node.
pub struct TreeV {
    pub rule: SyntaxRule,
    pub text: Seq<char>,
    pub children: Seq<TreeV>,
}

pub open spec fn tree_v(n: SyntaxNode) -> TreeV
    decreases n, 1nat,
{
    TreeV { rule: n.rule, text: n.text@, children: trees_v(n.children@) }
}

pub open spec fn trees_v(s: Seq<SyntaxNode>) -> Seq<TreeV>
    decreases s, 0nat,
{
    if s.len() == 0 {
        Seq::empty()
    } else {
        trees_v(s.subrange(0, s.len() - 1)).push(tree_v(s[s.len() - 1]))
    }
}

pub proof fn lemma_trees_v(s: Seq<SyntaxNode>)
    ensures
        trees_v(s).len() == s.len(),
        forall|i: int| 0 <= i < s.len() ==> #[trigger] trees_v(s)[i] == tree_v(s[i]),
    decreases s.len(),
{
    if s.len() > 0 {
        lemma_trees_v(s.subrange(0, s.len() - 1));
    }
}

proof fn lemma_trees_v_concat(a: Seq<SyntaxNode>, b: Seq<SyntaxNode>)
    ensures
        trees_v(a + b) == trees_v(a) + trees_v(b),
{
    lemma_trees_v(a);
    lemma_trees_v(b);
    lemma_trees_v(a + b);
    assert(trees_v(a + b) =~= trees_v(a) + trees_v(b)) by {
        assert forall|i: int| 0 <= i < (a + b).len() implies trees_v(a + b)[i] == (trees_v(a) + trees_v(b))[i] by {
            if i < a.len() {
                assert((a + b)[i] == a[i]);
            } else {
                assert((a + b)[i] == b[i - a.len()]);
            }
        }
    }
}

/// No node of the trees holds a float.
pub open spec fn no_floats(s: Seq<SyntaxNode>) -> bool
    decreases s, 0nat,
{
    if s.len() == 0 {
        true
    } else {
        no_floats(s.subrange(0, s.len() - 1)) && s[s.len() - 1].float is None
            && no_floats(s[s.len() - 1].children@)
    }
}

proof fn lemma_no_floats_concat(a: Seq<SyntaxNode>, b: Seq<SyntaxNode>)
    requires
        no_floats(a),
        no_floats(b),
    ensures
        no_floats(a + b),
    decreases b.len(),
{
    if b.len() > 0 {
        let b2 = b.subrange(0, b.len() - 1);
        lemma_no_floats_concat(a, b2);
        assert((a + b).subrange(0, (a + b).len() - 1) =~= a + b2);
        assert((a + b)[(a + b).len() - 1] == b[b.len() - 1]);
    } else {
        assert(a + b =~= a);
    }
}

// ---------------------------------------------------------------------------
// The interpreter
// ---------------------------------------------------------------------------

/// Result of matching: the end position and the nodes built, no match, or
/// the depth budget spent.
pub enum PR {
    Matched(int, Seq<TreeV>),
    Failed,
    Deep,
}

pub open spec fn is_ws(c: char) -> bool {
    c == ' ' || c == '\t' || c == '\r' || c == '\n'
}

/// The end of a comment line: the first line break from `i` on.
pub open spec fn line_end(s: Seq<char>, i: int) -> int
    decreases s.len() - i,
{
    if i < 0 || i >= s.len() || s[i] == '\n' || s[i] == '\r' {
        i
    } else {
        line_end(s, i + 1)
    }
}

/// The position after the whitespace and `//` comments from `i` on.
pub open spec fn skip(s: Seq<char>, i: int) -> int
    decreases s.len() - i,
{
    if i < 0 || i >= s.len() {
        i
    } else if is_ws(s[i]) {
        skip(s, i + 1)
    } else if i + 1 < s.len() && s[i] == '/' && s[i + 1] == '/' {
        let j = line_end(s, i + 2);
        if i < j <= s.len() {
            skip(s, j)
        } else {
            i
        }
    } else {
        i
    }
}

/// Matching expression `e` at position `i`.
pub open spec fn interp(g: Seq<GRuleV>, e: GE, s: Seq<char>, i: int, atomic: bool, fuel: nat) -> PR
    decreases fuel, 1int, 0int,
{
    match e {
        GE::Lit(t) => if 0 <= i && i + t.len() <= s.len() && s.subrange(i, i + t.len()) == t {
            PR::Matched(i + t.len(), Seq::empty())
        } else {
            PR::Failed
        },
        GE::Range(a, b) => if 0 <= i < s.len() && a <= s[i] && s[i] <= b {
            PR::Matched(i + 1, Seq::empty())
        } else {
            PR::Failed
        },
        GE::Any => if 0 <= i < s.len() {
            PR::Matched(i + 1, Seq::empty())
        } else {
            PR::Failed
        },
        GE::Sequence(es) => seq_interp(g, es, 0, s, i, atomic, fuel, Seq::empty()),
        GE::Choice(es) => choice_interp(g, es, 0, s, i, atomic, fuel),
        GE::Star(x) => star_interp(g, *x, s, i, atomic, fuel, Seq::empty(), true),
        GE::Opt(x) => if fuel == 0 {
            PR::Deep
        } else {
            match interp(g, *x, s, i, atomic, (fuel - 1) as nat) {
                PR::Matched(j, cs) => PR::Matched(j, cs),
                PR::Failed => PR::Matched(i, Seq::empty()),
                PR::Deep => PR::Deep,
            }
        },
        GE::Not(x) => if fuel == 0 {
            PR::Deep
        } else {
            match interp(g, *x, s, i, atomic, (fuel - 1) as nat) {
                PR::Matched(_, _) => PR::Failed,
                PR::Failed => PR::Matched(i, Seq::empty()),
                PR::Deep => PR::Deep,
            }
        },
        GE::Call(r) => if fuel == 0 {
            PR::Deep
        } else if r >= g.len() {
            PR::Failed
        } else {
            let rule = g[r as int];
            match interp(g, rule.body, s, i, atomic || rule.kind == RuleKind::Atomic, (fuel - 1) as nat) {
                PR::Matched(j, cs) => if !(0 <= i <= j <= s.len()) {
                    PR::Failed
                } else if atomic {
                    PR::Matched(j, Seq::empty())
                } else if rule.kind == RuleKind::Atomic {
                    PR::Matched(j, seq![TreeV { rule: rule.tag, text: s.subrange(i, j), children: Seq::empty() }])
                } else {
                    PR::Matched(j, seq![TreeV { rule: rule.tag, text: s.subrange(i, j), children: cs }])
                },
                other => other,
            }
        },
    }
}

/// Matching the items of a sequence from `k` on, at `i`, after the nodes `acc`.
pub open spec fn seq_interp(g: Seq<GRuleV>, es: Seq<GE>, k: int, s: Seq<char>, i: int, atomic: bool, fuel: nat, acc: Seq<TreeV>) -> PR
    decreases fuel, 0int, es.len() - k,
{
    if k < 0 || k >= es.len() {
        PR::Matched(i, acc)
    } else if fuel == 0 {
        PR::Deep
    } else {
        let p = if k > 0 && !atomic { skip(s, i) } else { i };
        match interp(g, es[k], s, p, atomic, (fuel - 1) as nat) {
            PR::Matched(j, cs) => seq_interp(g, es, k + 1, s, j, atomic, fuel, acc + cs),
            other => other,
        }
    }
}

/// Ordered choice among the alternatives from `k` on.
pub open spec fn choice_interp(g: Seq<GRuleV>, es: Seq<GE>, k: int, s: Seq<char>, i: int, atomic: bool, fuel: nat) -> PR
    decreases fuel, 0int, es.len() - k,
{
    if k < 0 || k >= es.len() {
        PR::Failed
    } else if fuel == 0 {
        PR::Deep
    } else {
        match interp(g, es[k], s, i, atomic, (fuel - 1) as nat) {
            PR::Failed => choice_interp(g, es, k + 1, s, i, atomic, fuel),
            other => other,
        }
    }
}

/// Repetition of `x` at `i`, after the nodes `acc`; it stops at the first
/// failure or at a match that does not advance.
pub open spec fn star_interp(g: Seq<GRuleV>, x: GE, s: Seq<char>, i: int, atomic: bool, fuel: nat, acc: Seq<TreeV>, first: bool) -> PR
    decreases fuel, 0int, s.len() - i,
{
    if fuel == 0 {
        PR::Deep
    } else {
        let p = if !first && !atomic { skip(s, i) } else { i };
        match interp(g, x, s, p, atomic, (fuel - 1) as nat) {
            PR::Matched(j, cs) => if i < j <= s.len() {
                star_interp(g, x, s, j, atomic, fuel, acc + cs, false)
            } else {
                PR::Matched(i, acc)
            },
            PR::Failed => PR::Matched(i, acc),
            PR::Deep => PR::Deep,
        }
    }
}

// ---------------------------------------------------------------------------
// The interpreter, executable
// ---------------------------------------------------------------------------

/// Executable matching result: nodes in `Matched`.
pub enum Pr {
    Matched(usize, Vec<SyntaxNode>),
    Failed,
    Deep,
}

pub open spec fn pr_view(r: Pr) -> PR {
    match r {
        Pr::Matched(j, cs) => PR::Matched(j as int, trees_v(cs@)),
        Pr::Failed => PR::Failed,
        Pr::Deep => PR::Deep,
    }
}

pub open spec fn pr_ok(r: Pr) -> bool {
    match r {
        Pr::Matched(_, cs) => no_floats(cs@),
        _ => true,
    }
}

fn line_end_exec(s: &Vec<char>, i: usize) -> (r: usize)
    requires
        i <= s@.len(),
    ensures
        r as int == line_end(s@, i as int),
        i <= r <= s@.len(),
{
    let mut k: usize = i;
    while k < s.len() && s[k] != '\n' && s[k] != '\r'
        invariant
            i <= k <= s@.len(),
            line_end(s@, i as int) == line_end(s@, k as int),
        decreases s@.len() - k,
    {
        k = k + 1;
    }
    k
}

fn skip_exec(s: &Vec<char>, i: usize) -> (r: usize)
    requires
        i <= s@.len(),
    ensures
        r as int == skip(s@, i as int),
        i <= r <= s@.len(),
{
    let mut k: usize = i;
    loop
        invariant
            i <= k <= s@.len(),
            skip(s@, i as int) == skip(s@, k as int),
        decreases s@.len() - k,
    {
        if k >= s.len() {
            return k;
        } else if s[k] == ' ' || s[k] == '\t' || s[k] == '\r' || s[k] == '\n' {
            k = k + 1;
        } else if k + 1 < s.len() && s[k] == '/' && s[k + 1] == '/' {
            k = line_end_exec(s, k + 2);
        } else {
            return k;
        }
    }
}

fn lit_at(s: &Vec<char>, i: usize, t: &Vec<char>) -> (r: bool)
    requires
        i <= s@.len(),
    ensures
        r == (i + t@.len() <= s@.len() && s@.subrange(i as int, i + t@.len()) == t@),
        r ==> i + t@.len() <= s.len(),
{
    if t.len() > s.len() - i {
        return false;
    }
    let mut k: usize = 0;
    while k < t.len()
        invariant
            i + t@.len() <= s.len(),
            0 <= k <= t@.len(),
            forall|m: int| 0 <= m < k ==> s@[i + m] == t@[m],
        decreases t@.len() - k,
    {
        if s[i + k] != t[k] {
            assert(s@.subrange(i as int, i + t@.len())[k as int] != t@[k as int]);
            return false;
        }
        k = k + 1;
    }
    assert(s@.subrange(i as int, i + t@.len()) =~= t@);
    true
}

fn slice_text(s: &Vec<char>, i: usize, j: usize) -> (r: String)
    requires
        i <= j <= s@.len(),
    ensures
        r@ == s@.subrange(i as int, j as int),
{
    let v = slice_vec(s, i, j);
    string_of(v.as_slice())
}

/// Matches expression `e` of grammar `g` at position `i`.
pub fn interp_exec(g: &Vec<GRule>, e: &GExpr, s: &Vec<char>, i: usize, atomic: bool, fuel: usize) -> (r: Pr)
    requires
        i <= s@.len(),
    ensures
        pr_view(r) == interp(rules_v(g@), ge_v(*e), s@, i as int, atomic, fuel as nat),
        pr_ok(r),
        r matches Pr::Matched(j, _) ==> j <= s@.len(),
    decreases fuel, 1int, 0int,
{
    proof {
        lemma_trees_v(Seq::<SyntaxNode>::empty());
    }
    match e {
        GExpr::Lit(t) => {
            if lit_at(s, i, t) {
                Pr::Matched(i + t.len(), Vec::new())
            } else {
                Pr::Failed
            }
        },
        GExpr::Range(a, b) => {
            if i < s.len() && *a <= s[i] && s[i] <= *b {
                Pr::Matched(i + 1, Vec::new())
            } else {
                Pr::Failed
            }
        },
        GExpr::Any => {
            if i < s.len() {
                Pr::Matched(i + 1, Vec::new())
            } else {
                Pr::Failed
            }
        },
        GExpr::Sequence(es) => {
            proof {
                lemma_ges_v(es@);
            }
            seq_exec(g, es, 0, s, i, atomic, fuel, Vec::new())
        },
        GExpr::Choice(es) => {
            proof {
                lemma_ges_v(es@);
            }
            choice_exec(g, es, 0, s, i, atomic, fuel)
        },
        GExpr::Star(x) => star_exec(g, x, s, i, atomic, fuel, Vec::new(), true),
        GExpr::Opt(x) => {
            if fuel == 0 {
                Pr::Deep
            } else {
                match interp_exec(g, x, s, i, atomic, fuel - 1) {
                    Pr::Matched(j, cs) => Pr::Matched(j, cs),
                    Pr::Failed => Pr::Matched(i, Vec::new()),
                    Pr::Deep => Pr::Deep,
                }
            }
        },
        GExpr::Not(x) => {
            if fuel == 0 {
                Pr::Deep
            } else {
                match interp_exec(g, x, s, i, atomic, fuel - 1) {
                    Pr::Matched(_, _) => Pr::Failed,
                    Pr::Failed => Pr::Matched(i, Vec::new()),
                    Pr::Deep => Pr::Deep,
                }
            }
        },
        GExpr::Call(r) => {
            if fuel == 0 {
                Pr::Deep
            } else if *r >= g.len() {
                Pr::Failed
            } else {
                let rule = &g[*r];
                assert(rules_v(g@)[*r as int] == rule_v(*rule));
                let inner_atomic = atomic || rule.kind == RuleKind::Atomic;
                match interp_exec(g, &rule.body, s, i, inner_atomic, fuel - 1) {
                    Pr::Matched(j, cs) => {
                        if !(i <= j) {
                            Pr::Failed
                        } else if atomic {
                            Pr::Matched(j, Vec::new())
                        } else if rule.kind == RuleKind::Atomic {
                            let n = SyntaxNode { rule: rule.tag, text: slice_text(s, i, j), children: Vec::new(), float: None };
                            let mut v: Vec<SyntaxNode> = Vec::new();
                            v.push(n);
                            proof {
                                lemma_trees_v(v@);
                                assert(trees_v(v@) =~= seq![tree_v(n)]);
                                assert(tree_v(n) == TreeV { rule: rule.tag, text: s@.subrange(i as int, j as int), children: Seq::empty() });
                                assert(v@.subrange(0, 0) =~= Seq::<SyntaxNode>::empty());
                                assert(n.children@ =~= Seq::<SyntaxNode>::empty());
                                assert(no_floats(Seq::<SyntaxNode>::empty()));
                                assert(v@[0] == n);
                                assert(no_floats(v@));
                            }
                            Pr::Matched(j, v)
                        } else {
                            let ghost csv = cs@;
                            let n = SyntaxNode { rule: rule.tag, text: slice_text(s, i, j), children: cs, float: None };
                            let mut v: Vec<SyntaxNode> = Vec::new();
                            v.push(n);
                            proof {
                                lemma_trees_v(v@);
                                assert(trees_v(v@) =~= seq![tree_v(n)]);
                                assert(v@.subrange(0, 0) =~= Seq::<SyntaxNode>::empty());
                                assert(no_floats(Seq::<SyntaxNode>::empty()));
                                assert(v@[0] == n);
                                assert(n.children@ == csv);
                                assert(no_floats(v@));
                            }
                            Pr::Matched(j, v)
                        }
                    },
                    Pr::Failed => Pr::Failed,
                    Pr::Deep => Pr::Deep,
                }
            }
        },
    }
}

fn seq_exec(g: &Vec<GRule>, es: &Vec<GExpr>, k: usize, s: &Vec<char>, i: usize, atomic: bool, fuel: usize, acc: Vec<SyntaxNode>) -> (r: Pr)
    requires
        i <= s@.len(),
        k <= es@.len(),
        no_floats(acc@),
    ensures
        pr_view(r) == seq_interp(rules_v(g@), ges_v(es@), k as int, s@, i as int, atomic, fuel as nat, trees_v(acc@)),
        pr_ok(r),
        r matches Pr::Matched(j, _) ==> j <= s@.len(),
    decreases fuel, 0int, es@.len() - k,
{
    proof {
        lemma_ges_v(es@);
    }
    let ghost goal = seq_interp(rules_v(g@), ges_v(es@), k as int, s@, i as int, atomic, fuel as nat, trees_v(acc@));
    let mut kk = k;
    let mut pos = i;
    let mut nodes = acc;
    while kk < es.len()
        invariant
            pos <= s@.len(),
            kk <= es@.len(),
            no_floats(nodes@),
            ges_v(es@).len() == es@.len(),
            forall|m: int| 0 <= m < es@.len() ==> #[trigger] ges_v(es@)[m] == ge_v(es@[m]),
            goal == seq_interp(rules_v(g@), ges_v(es@), kk as int, s@, pos as int, atomic, fuel as nat, trees_v(nodes@)),
            goal == seq_interp(rules_v(g@), ges_v(es@), k as int, s@, i as int, atomic, fuel as nat, trees_v(acc@)),
        decreases es@.len() - kk,
    {
        if fuel == 0 {
            return Pr::Deep;
        }
        let p = if kk > 0 && !atomic { skip_exec(s, pos) } else { pos };
        match interp_exec(g, &es[kk], s, p, atomic, fuel - 1) {
            Pr::Matched(j, cs) => {
                let mut cs2 = cs;
                let ghost a0 = nodes@;
                let ghost c0 = cs2@;
                nodes.append(&mut cs2);
                proof {
                    lemma_trees_v_concat(a0, c0);
                    lemma_no_floats_concat(a0, c0);
                }
                kk = kk + 1;
                pos = j;
            },
            Pr::Failed => {
                return Pr::Failed;
            },
            Pr::Deep => {
                return Pr::Deep;
            },
        }
    }
    Pr::Matched(pos, nodes)
}

fn choice_exec(g: &Vec<GRule>, es: &Vec<GExpr>, k: usize, s: &Vec<char>, i: usize, atomic: bool, fuel: usize) -> (r: Pr)
    requires
        i <= s@.len(),
        k <= es@.len(),
    ensures
        pr_view(r) == choice_interp(rules_v(g@), ges_v(es@), k as int, s@, i as int, atomic, fuel as nat),
        pr_ok(r),
        r matches Pr::Matched(j, _) ==> j <= s@.len(),
    decreases fuel, 0int, es@.len() - k,
{
    proof {
        lemma_ges_v(es@);
    }
    let ghost goal = choice_interp(rules_v(g@), ges_v(es@), k as int, s@, i as int, atomic, fuel as nat);
    let mut kk = k;
    let pos = i;
    while kk < es.len()
        invariant
            pos <= s@.len(),
            kk <= es@.len(),
            ges_v(es@).len() == es@.len(),
            forall|m: int| 0 <= m < es@.len() ==> #[trigger] ges_v(es@)[m] == ge_v(es@[m]),
            goal == choice_interp(rules_v(g@), ges_v(es@), kk as int, s@, pos as int, atomic, fuel as nat),
            goal == choice_interp(rules_v(g@), ges_v(es@), k as int, s@, i as int, atomic, fuel as nat),
        decreases es@.len() - kk,
    {
        if fuel == 0 {
            return Pr::Deep;
        }
        match interp_exec(g, &es[kk], s, pos, atomic, fuel - 1) {
            Pr::Failed => {
                kk = kk + 1;
            },
            other => {
                return other;
            },
        }
    }
    Pr::Failed
}

fn star_exec(g: &Vec<GRule>, x: &GExpr, s: &Vec<char>, i: usize, atomic: bool, fuel: usize, acc: Vec<SyntaxNode>, first: bool) -> (r: Pr)
    requires
        i <= s@.len(),
        no_floats(acc@),
    ensures
        pr_view(r) == star_interp(rules_v(g@), ge_v(*x), s@, i as int, atomic, fuel as nat, trees_v(acc@), first),
        pr_ok(r),
        r matches Pr::Matched(j, _) ==> j <= s@.len(),
    decreases fuel, 0int, s@.len() - i,
{
    if fuel == 0 {
        return Pr::Deep;
    }
    let ghost goal = star_interp(rules_v(g@), ge_v(*x), s@, i as int, atomic, fuel as nat, trees_v(acc@), first);
    let mut pos = i;
    let mut nodes = acc;
    let mut at_first = first;
    loop
        invariant
            fuel > 0,
            pos <= s@.len(),
            no_floats(nodes@),
            goal == star_interp(rules_v(g@), ge_v(*x), s@, pos as int, atomic, fuel as nat, trees_v(nodes@), at_first),
            goal == star_interp(rules_v(g@), ge_v(*x), s@, i as int, atomic, fuel as nat, trees_v(acc@), first),
        decreases s@.len() - pos,
    {
        let p = if !at_first && !atomic { skip_exec(s, pos) } else { pos };
        match interp_exec(g, x, s, p, atomic, fuel - 1) {
            Pr::Matched(j, cs) => {
                if pos < j {
                    let mut cs2 = cs;
                    let ghost a0 = nodes@;
                    let ghost c0 = cs2@;
                    nodes.append(&mut cs2);
                    proof {
                        lemma_trees_v_concat(a0, c0);
                        lemma_no_floats_concat(a0, c0);
                    }
                    pos = j;
                    at_first = false;
                } else {
                    return Pr::Matched(pos, nodes);
                }
            },
            Pr::Failed => {
                return Pr::Matched(pos, nodes);
            },
            Pr::Deep => {
                return Pr::Deep;
            },
        }
    }
}

// ---------------------------------------------------------------------------
// Building grammar expressions
// ---------------------------------------------------------------------------

fn lit(t: &str) -> (r: GExpr)
    ensures
        ge_v(r) == GE::Lit(t@),
{
    GExpr::Lit(chars_of(t))
}

fn rng(a: char, b: char) -> (r: GExpr)
    ensures
        ge_v(r) == GE::Range(a, b),
{
    GExpr::Range(a, b)
}

fn star(x: GExpr) -> (r: GExpr)
    ensures
        ge_v(r) == GE::Star(Box::new(ge_v(x))),
{
    GExpr::Star(Box::new(x))
}

fn opt(x: GExpr) -> (r: GExpr)
    ensures
        ge_v(r) == GE::Opt(Box::new(ge_v(x))),
{
    GExpr::Opt(Box::new(x))
}

fn not_ahead(x: GExpr) -> (r: GExpr)
    ensures
        ge_v(r) == GE::Not(Box::new(ge_v(x))),
{
    GExpr::Not(Box::new(x))
}

// ---------------------------------------------------------------------------
// The Aether grammar
// ---------------------------------------------------------------------------

/// `program`
pub open spec fn rule_program() -> GRuleV {
    GRuleV { kind: RuleKind::Normal, tag: SyntaxRule::Program, body: GE::Sequence(seq![GE::Lit(""@), GE::Choice(seq![GE::Call(1), GE::Call(24)]), GE::Star(Box::new(GE::Choice(seq![GE::Call(1), GE::Call(24)]))), GE::Not(Box::new(GE::Any))]) }
}

/// `root_block`
pub open spec fn rule_root_block() -> GRuleV {
    GRuleV { kind: RuleKind::Normal, tag: SyntaxRule::RootBlock, body: GE::Sequence(seq![GE::Lit("§ROOT"@), GE::Call(34), GE::Lit("{"@), GE::Star(Box::new(GE::Call(2))), GE::Lit("}"@)]) }
}

/// `block`
pub open spec fn rule_block() -> GRuleV {
    GRuleV { kind: RuleKind::Normal, tag: SyntaxRule::Block, body: GE::Choice(seq![GE::Call(3), GE::Call(5), GE::Call(24), GE::Call(30), GE::Call(31)]) }
}

/// `context_block`
pub open spec fn rule_context_block() -> GRuleV {
    GRuleV { kind: RuleKind::Normal, tag: SyntaxRule::ContextBlock, body: GE::Sequence(seq![GE::Lit("::CTX"@), GE::Opt(Box::new(GE::Call(34))), GE::Lit("{"@), GE::Star(Box::new(GE::Sequence(seq![GE::Call(4), GE::Opt(Box::new(GE::Lit(","@)))]))), GE::Lit("}"@)]) }
}

/// `ctx_pair`
pub open spec fn rule_ctx_pair() -> GRuleV {
    GRuleV { kind: RuleKind::Normal, tag: SyntaxRule::CtxPair, body: GE::Sequence(seq![GE::Choice(seq![GE::Call(35), GE::Call(36), GE::Call(37)]), GE::Lit(":"@), GE::Call(33)]) }
}

/// `action_node`
pub open spec fn rule_action_node() -> GRuleV {
    GRuleV { kind: RuleKind::Normal, tag: SyntaxRule::ActionNode, body: GE::Sequence(seq![GE::Lit("§ACT"@), GE::Call(34), GE::Lit("{"@), GE::Call(6), GE::Lit("}"@)]) }
}

/// `action_content`
pub open spec fn rule_action_content() -> GRuleV {
    GRuleV { kind: RuleKind::Normal, tag: SyntaxRule::ActionContent, body: GE::Star(Box::new(GE::Choice(seq![GE::Call(7), GE::Call(8), GE::Call(12), GE::Call(13), GE::Call(17), GE::Call(20)]))) }
}

/// `meta_block`
pub open spec fn rule_meta_block() -> GRuleV {
    GRuleV { kind: RuleKind::Normal, tag: SyntaxRule::MetaBlock, body: GE::Sequence(seq![GE::Lit("::META"@), GE::Lit("{"@), GE::Star(Box::new(GE::Sequence(seq![GE::Call(32), GE::Opt(Box::new(GE::Lit(","@)))]))), GE::Lit("}"@)]) }
}

/// `in_block`
pub open spec fn rule_in_block() -> GRuleV {
    GRuleV { kind: RuleKind::Normal, tag: SyntaxRule::InBlock, body: GE::Sequence(seq![GE::Lit("::IN"@), GE::Lit("{"@), GE::Star(Box::new(GE::Sequence(seq![GE::Choice(seq![GE::Call(9), GE::Call(11)]), GE::Opt(Box::new(GE::Lit(","@)))]))), GE::Lit("}"@)]) }
}

/// `ref_pair`
pub open spec fn rule_ref_pair() -> GRuleV {
    GRuleV { kind: RuleKind::Normal, tag: SyntaxRule::RefPair, body: GE::Sequence(seq![GE::Call(35), GE::Opt(Box::new(GE::Call(10))), GE::Lit(":"@), GE::Lit("Ref"@), GE::Lit("("@), GE::Call(35), GE::Lit(")"@)]) }
}

/// `alias`
pub open spec fn rule_alias() -> GRuleV {
    GRuleV { kind: RuleKind::Normal, tag: SyntaxRule::Alias, body: GE::Sequence(seq![GE::Lit("as"@), GE::Call(36)]) }
}

/// `value_pair`
pub open spec fn rule_value_pair() -> GRuleV {
    GRuleV { kind: RuleKind::Normal, tag: SyntaxRule::ValuePair, body: GE::Sequence(seq![GE::Call(35), GE::Lit(":"@), GE::Call(33)]) }
}

/// `condition_block`
pub open spec fn rule_condition_block() -> GRuleV {
    GRuleV { kind: RuleKind::Normal, tag: SyntaxRule::ConditionBlock, body: GE::Sequence(seq![GE::Lit("::CONDITION"@), GE::Lit("{"@), GE::Call(40), GE::Lit("}"@)]) }
}

/// `exec_block`
pub open spec fn rule_exec_block() -> GRuleV {
    GRuleV { kind: RuleKind::Normal, tag: SyntaxRule::ExecBlock, body: GE::Sequence(seq![GE::Lit("::EXEC"@), GE::Lit("<"@), GE::Call(14), GE::Lit(">"@), GE::Lit("{"@), GE::Call(15), GE::Lit("}"@)]) }
}

/// `lang`
pub open spec fn rule_lang() -> GRuleV {
    GRuleV { kind: RuleKind::Atomic, tag: SyntaxRule::Other, body: GE::Sequence(seq![GE::Range('A', 'Z'), GE::Star(Box::new(GE::Choice(seq![GE::Range('A', 'Z'), GE::Range('0', '9'), GE::Lit("_"@)])))]) }
}

/// `code`
pub open spec fn rule_code() -> GRuleV {
    GRuleV { kind: RuleKind::Atomic, tag: SyntaxRule::Other, body: GE::Star(Box::new(GE::Choice(seq![GE::Call(16), GE::Sequence(seq![GE::Not(Box::new(GE::Choice(seq![GE::Lit("{"@), GE::Lit("}"@)]))), GE::Any])]))) }
}

/// `code_group`
pub open spec fn rule_code_group() -> GRuleV {
    GRuleV { kind: RuleKind::Atomic, tag: SyntaxRule::Other, body: GE::Sequence(seq![GE::Lit("{"@), GE::Star(Box::new(GE::Choice(seq![GE::Call(16), GE::Sequence(seq![GE::Not(Box::new(GE::Choice(seq![GE::Lit("{"@), GE::Lit("}"@)]))), GE::Any])]))), GE::Lit("}"@)]) }
}

/// `out_block`
pub open spec fn rule_out_block() -> GRuleV {
    GRuleV { kind: RuleKind::Normal, tag: SyntaxRule::OutBlock, body: GE::Sequence(seq![GE::Lit("::OUT"@), GE::Lit("{"@), GE::Star(Box::new(GE::Sequence(seq![GE::Call(18), GE::Opt(Box::new(GE::Lit(","@)))]))), GE::Lit("}"@)]) }
}

/// `type_pair`
pub open spec fn rule_type_pair() -> GRuleV {
    GRuleV { kind: RuleKind::Normal, tag: SyntaxRule::TypePair, body: GE::Sequence(seq![GE::Call(35), GE::Lit(":"@), GE::Lit("Type"@), GE::Lit("<"@), GE::Call(19), GE::Lit(">"@)]) }
}

/// `type_name`
pub open spec fn rule_type_name() -> GRuleV {
    GRuleV { kind: RuleKind::Atomic, tag: SyntaxRule::Other, body: GE::Sequence(seq![GE::Choice(seq![GE::Range('a', 'z'), GE::Range('A', 'Z')]), GE::Star(Box::new(GE::Choice(seq![GE::Choice(seq![GE::Choice(seq![GE::Range('a', 'z'), GE::Range('A', 'Z')]), GE::Range('0', '9')]), GE::Lit("_"@)])))]) }
}

/// `val_block`
pub open spec fn rule_val_block() -> GRuleV {
    GRuleV { kind: RuleKind::Normal, tag: SyntaxRule::ValBlock, body: GE::Sequence(seq![GE::Lit("::VALIDATE"@), GE::Lit("{"@), GE::Star(Box::new(GE::Call(21))), GE::Lit("}"@)]) }
}

/// `assertion`
pub open spec fn rule_assertion() -> GRuleV {
    GRuleV { kind: RuleKind::Normal, tag: SyntaxRule::Assertion, body: GE::Sequence(seq![GE::Lit("ASSERT"@), GE::Call(40), GE::Lit("OR"@), GE::Call(22)]) }
}

/// `halt_action`
pub open spec fn rule_halt_action() -> GRuleV {
    GRuleV { kind: RuleKind::Normal, tag: SyntaxRule::HaltAction, body: GE::Choice(seq![GE::Lit("HALT"@), GE::Sequence(seq![GE::Lit("RETRY"@), GE::Opt(Box::new(GE::Sequence(seq![GE::Lit("("@), GE::Call(23), GE::Lit(")"@)])))]), GE::Lit("WARN"@)]) }
}

/// `retry_count`
pub open spec fn rule_retry_count() -> GRuleV {
    GRuleV { kind: RuleKind::Atomic, tag: SyntaxRule::Other, body: GE::Sequence(seq![GE::Range('0', '9'), GE::Star(Box::new(GE::Range('0', '9')))]) }
}

/// `request_block`
pub open spec fn rule_request_block() -> GRuleV {
    GRuleV { kind: RuleKind::Normal, tag: SyntaxRule::RequestBlock, body: GE::Sequence(seq![GE::Lit("§REQ"@), GE::Call(34), GE::Lit("{"@), GE::Call(25), GE::Lit("}"@)]) }
}

/// `request_content`
pub open spec fn rule_request_content() -> GRuleV {
    GRuleV { kind: RuleKind::Normal, tag: SyntaxRule::RequestContent, body: GE::Star(Box::new(GE::Choice(seq![GE::Call(26), GE::Call(27), GE::Call(28), GE::Call(29), GE::Sequence(seq![GE::Call(32), GE::Opt(Box::new(GE::Lit(","@)))])]))) }
}

/// `sender_field`
pub open spec fn rule_sender_field() -> GRuleV {
    GRuleV { kind: RuleKind::Normal, tag: SyntaxRule::SenderField, body: GE::Sequence(seq![GE::Lit("::SENDER"@), GE::Lit(":"@), GE::Call(37)]) }
}

/// `target_field`
pub open spec fn rule_target_field() -> GRuleV {
    GRuleV { kind: RuleKind::Normal, tag: SyntaxRule::TargetField, body: GE::Sequence(seq![GE::Lit("::TARGET"@), GE::Lit(":"@), GE::Call(37)]) }
}

/// `context_field`
pub open spec fn rule_context_field() -> GRuleV {
    GRuleV { kind: RuleKind::Normal, tag: SyntaxRule::ContextField, body: GE::Sequence(seq![GE::Lit("::CONTEXT"@), GE::Lit("{"@), GE::Star(Box::new(GE::Sequence(seq![GE::Call(32), GE::Opt(Box::new(GE::Lit(","@)))]))), GE::Lit("}"@)]) }
}

/// `instructions_field`
pub open spec fn rule_instructions_field() -> GRuleV {
    GRuleV { kind: RuleKind::Normal, tag: SyntaxRule::InstructionsField, body: GE::Sequence(seq![GE::Lit("::INSTRUCTIONS"@), GE::Lit("{"@), GE::Call(37), GE::Lit("}"@)]) }
}

/// `failure_block`
pub open spec fn rule_failure_block() -> GRuleV {
    GRuleV { kind: RuleKind::Normal, tag: SyntaxRule::FailureBlock, body: GE::Sequence(seq![GE::Lit("§FAIL"@), GE::Call(34), GE::Lit("{"@), GE::Star(Box::new(GE::Sequence(seq![GE::Call(32), GE::Opt(Box::new(GE::Lit(","@)))]))), GE::Lit("}"@)]) }
}

/// `parallel_block`
pub open spec fn rule_parallel_block() -> GRuleV {
    GRuleV { kind: RuleKind::Normal, tag: SyntaxRule::ParallelBlock, body: GE::Sequence(seq![GE::Lit("§PAR"@), GE::Opt(Box::new(GE::Call(34))), GE::Lit("{"@), GE::Star(Box::new(GE::Call(5))), GE::Lit("}"@)]) }
}

/// `pair`
pub open spec fn rule_pair() -> GRuleV {
    GRuleV { kind: RuleKind::Normal, tag: SyntaxRule::Pair, body: GE::Sequence(seq![GE::Choice(seq![GE::Call(36), GE::Call(35), GE::Call(37)]), GE::Lit(":"@), GE::Call(33)]) }
}

/// `value`
pub open spec fn rule_value() -> GRuleV {
    GRuleV { kind: RuleKind::Normal, tag: SyntaxRule::Value, body: GE::Choice(seq![GE::Call(37), GE::Call(34), GE::Call(38), GE::Call(39), GE::Call(35), GE::Call(36)]) }
}

/// `hash`
pub open spec fn rule_hash() -> GRuleV {
    GRuleV { kind: RuleKind::Atomic, tag: SyntaxRule::Hash, body: GE::Sequence(seq![GE::Lit("0x"@), GE::Choice(seq![GE::Choice(seq![GE::Choice(seq![GE::Range('a', 'z'), GE::Range('A', 'Z')]), GE::Range('0', '9')]), GE::Lit("_"@)]), GE::Star(Box::new(GE::Choice(seq![GE::Choice(seq![GE::Choice(seq![GE::Range('a', 'z'), GE::Range('A', 'Z')]), GE::Range('0', '9')]), GE::Lit("_"@)])))]) }
}

/// `address`
pub open spec fn rule_address() -> GRuleV {
    GRuleV { kind: RuleKind::Atomic, tag: SyntaxRule::Address, body: GE::Sequence(seq![GE::Lit("$"@), GE::Choice(seq![GE::Choice(seq![GE::Choice(seq![GE::Range('a', 'z'), GE::Range('A', 'Z')]), GE::Range('0', '9')]), GE::Lit("_"@)]), GE::Star(Box::new(GE::Choice(seq![GE::Choice(seq![GE::Choice(seq![GE::Range('a', 'z'), GE::Range('A', 'Z')]), GE::Range('0', '9')]), GE::Lit("_"@)])))]) }
}

/// `identifier`
pub open spec fn rule_identifier() -> GRuleV {
    GRuleV { kind: RuleKind::Atomic, tag: SyntaxRule::Identifier, body: GE::Sequence(seq![GE::Choice(seq![GE::Choice(seq![GE::Range('a', 'z'), GE::Range('A', 'Z')]), GE::Lit("_"@)]), GE::Star(Box::new(GE::Choice(seq![GE::Choice(seq![GE::Choice(seq![GE::Range('a', 'z'), GE::Range('A', 'Z')]), GE::Range('0', '9')]), GE::Lit("_"@)])))]) }
}

/// `string_literal`
pub open spec fn rule_string_literal() -> GRuleV {
    GRuleV { kind: RuleKind::Atomic, tag: SyntaxRule::StringLiteral, body: GE::Sequence(seq![GE::Lit("\""@), GE::Star(Box::new(GE::Sequence(seq![GE::Not(Box::new(GE::Lit("\""@))), GE::Any]))), GE::Lit("\""@)]) }
}

/// `number`
pub open spec fn rule_number() -> GRuleV {
    GRuleV { kind: RuleKind::Atomic, tag: SyntaxRule::Number, body: GE::Sequence(seq![GE::Opt(Box::new(GE::Lit("-"@))), GE::Range('0', '9'), GE::Star(Box::new(GE::Range('0', '9'))), GE::Opt(Box::new(GE::Sequence(seq![GE::Lit("."@), GE::Range('0', '9'), GE::Star(Box::new(GE::Range('0', '9')))])))]) }
}

/// `boolean`
pub open spec fn rule_boolean() -> GRuleV {
    GRuleV { kind: RuleKind::Atomic, tag: SyntaxRule::Boolean, body: GE::Sequence(seq![GE::Choice(seq![GE::Lit("true"@), GE::Lit("false"@)]), GE::Not(Box::new(GE::Choice(seq![GE::Choice(seq![GE::Choice(seq![GE::Range('a', 'z'), GE::Range('A', 'Z')]), GE::Range('0', '9')]), GE::Lit("_"@)])))]) }
}

/// `expression`
pub open spec fn rule_expression() -> GRuleV {
    GRuleV { kind: RuleKind::Normal, tag: SyntaxRule::Expression, body: GE::Call(41) }
}

/// `or_expr`
pub open spec fn rule_or_expr() -> GRuleV {
    GRuleV { kind: RuleKind::Normal, tag: SyntaxRule::OrExpr, body: GE::Sequence(seq![GE::Call(42), GE::Star(Box::new(GE::Sequence(seq![GE::Lit("||"@), GE::Call(42)])))]) }
}

/// `and_expr`
pub open spec fn rule_and_expr() -> GRuleV {
    GRuleV { kind: RuleKind::Normal, tag: SyntaxRule::AndExpr, body: GE::Sequence(seq![GE::Call(43), GE::Star(Box::new(GE::Sequence(seq![GE::Lit("&&"@), GE::Call(43)])))]) }
}

/// `not_expr`
pub open spec fn rule_not_expr() -> GRuleV {
    GRuleV { kind: RuleKind::Normal, tag: SyntaxRule::NotExpr, body: GE::Choice(seq![GE::Sequence(seq![GE::Call(44), GE::Call(43)]), GE::Call(45)]) }
}

/// `not_op`
pub open spec fn rule_not_op() -> GRuleV {
    GRuleV { kind: RuleKind::Normal, tag: SyntaxRule::Other, body: GE::Lit("!"@) }
}

/// `comparison`
pub open spec fn rule_comparison() -> GRuleV {
    GRuleV { kind: RuleKind::Normal, tag: SyntaxRule::Comparison, body: GE::Sequence(seq![GE::Call(47), GE::Opt(Box::new(GE::Sequence(seq![GE::Call(46), GE::Call(47)])))]) }
}

/// `comp_op`
pub open spec fn rule_comp_op() -> GRuleV {
    GRuleV { kind: RuleKind::Normal, tag: SyntaxRule::Other, body: GE::Choice(seq![GE::Lit("=="@), GE::Lit("!="@), GE::Lit(">="@), GE::Lit("<="@), GE::Lit(">"@), GE::Lit("<"@)]) }
}

/// `additive`
pub open spec fn rule_additive() -> GRuleV {
    GRuleV { kind: RuleKind::Normal, tag: SyntaxRule::Additive, body: GE::Sequence(seq![GE::Call(49), GE::Star(Box::new(GE::Sequence(seq![GE::Call(48), GE::Call(49)])))]) }
}

/// `add_op`
pub open spec fn rule_add_op() -> GRuleV {
    GRuleV { kind: RuleKind::Normal, tag: SyntaxRule::Other, body: GE::Choice(seq![GE::Lit("+"@), GE::Lit("-"@)]) }
}

/// `multiplicative`
pub open spec fn rule_multiplicative() -> GRuleV {
    GRuleV { kind: RuleKind::Normal, tag: SyntaxRule::Multiplicative, body: GE::Sequence(seq![GE::Call(51), GE::Star(Box::new(GE::Sequence(seq![GE::Call(50), GE::Call(51)])))]) }
}

/// `mul_op`
pub open spec fn rule_mul_op() -> GRuleV {
    GRuleV { kind: RuleKind::Normal, tag: SyntaxRule::Other, body: GE::Choice(seq![GE::Lit("*"@), GE::Lit("/"@), GE::Lit("%"@)]) }
}

/// `unary`
pub open spec fn rule_unary() -> GRuleV {
    GRuleV { kind: RuleKind::Normal, tag: SyntaxRule::Unary, body: GE::Choice(seq![GE::Sequence(seq![GE::Call(52), GE::Call(51)]), GE::Call(53)]) }
}

/// `neg_op`
pub open spec fn rule_neg_op() -> GRuleV {
    GRuleV { kind: RuleKind::Normal, tag: SyntaxRule::Other, body: GE::Lit("-"@) }
}

/// `accessor`
pub open spec fn rule_accessor() -> GRuleV {
    GRuleV { kind: RuleKind::Normal, tag: SyntaxRule::Accessor, body: GE::Sequence(seq![GE::Call(56), GE::Star(Box::new(GE::Choice(seq![GE::Call(54), GE::Call(55)])))]) }
}

/// `index_access`
pub open spec fn rule_index_access() -> GRuleV {
    GRuleV { kind: RuleKind::Normal, tag: SyntaxRule::IndexAccess, body: GE::Sequence(seq![GE::Lit("["@), GE::Call(40), GE::Lit("]"@)]) }
}

/// `dot_access`
pub open spec fn rule_dot_access() -> GRuleV {
    GRuleV { kind: RuleKind::Normal, tag: SyntaxRule::DotAccess, body: GE::Sequence(seq![GE::Lit("."@), GE::Call(36)]) }
}

/// `atom`
pub open spec fn rule_atom() -> GRuleV {
    GRuleV { kind: RuleKind::Normal, tag: SyntaxRule::Atom, body: GE::Choice(seq![GE::Sequence(seq![GE::Lit("("@), GE::Call(40), GE::Lit(")"@)]), GE::Call(57), GE::Call(37), GE::Call(38), GE::Call(39), GE::Call(35), GE::Call(36)]) }
}

/// `func_call`
pub open spec fn rule_func_call() -> GRuleV {
    GRuleV { kind: RuleKind::Normal, tag: SyntaxRule::FuncCall, body: GE::Sequence(seq![GE::Call(36), GE::Lit("("@), GE::Opt(Box::new(GE::Sequence(seq![GE::Call(40), GE::Star(Box::new(GE::Sequence(seq![GE::Lit(","@), GE::Call(40)])))]))), GE::Lit(")"@)]) }
}

/// The rules of the Aether grammar, by index; rule 0 is `program`.
pub open spec fn grammar_spec() -> Seq<GRuleV> {
    seq![
        rule_program(),
        rule_root_block(),
        rule_block(),
        rule_context_block(),
        rule_ctx_pair(),
        rule_action_node(),
        rule_action_content(),
        rule_meta_block(),
        rule_in_block(),
        rule_ref_pair(),
        rule_alias(),
        rule_value_pair(),
        rule_condition_block(),
        rule_exec_block(),
        rule_lang(),
        rule_code(),
        rule_code_group(),
        rule_out_block(),
        rule_type_pair(),
        rule_type_name(),
        rule_val_block(),
        rule_assertion(),
        rule_halt_action(),
        rule_retry_count(),
        rule_request_block(),
        rule_request_content(),
        rule_sender_field(),
        rule_target_field(),
        rule_context_field(),
        rule_instructions_field(),
        rule_failure_block(),
        rule_parallel_block(),
        rule_pair(),
        rule_value(),
        rule_hash(),
        rule_address(),
        rule_identifier(),
        rule_string_literal(),
        rule_number(),
        rule_boolean(),
        rule_expression(),
        rule_or_expr(),
        rule_and_expr(),
        rule_not_expr(),
        rule_not_op(),
        rule_comparison(),
        rule_comp_op(),
        rule_additive(),
        rule_add_op(),
        rule_multiplicative(),
        rule_mul_op(),
        rule_unary(),
        rule_neg_op(),
        rule_accessor(),
        rule_index_access(),
        rule_dot_access(),
        rule_atom(),
        rule_func_call()
    ]
}

fn ch2(a0: GExpr, a1: GExpr) -> (r: GExpr)
    ensures
        ge_v(r) == GE::Choice(seq![ge_v(a0), ge_v(a1)]),
{
    let ghost w = seq![ge_v(a0), ge_v(a1)];
    let mut v: Vec<GExpr> = Vec::new();
    v.push(a0);
    v.push(a1);
    proof {
        lemma_ges_v(v@);
        assert(ges_v(v@) =~= w);
    }
    GExpr::Choice(v)
}

fn ch3(a0: GExpr, a1: GExpr, a2: GExpr) -> (r: GExpr)
    ensures
        ge_v(r) == GE::Choice(seq![ge_v(a0), ge_v(a1), ge_v(a2)]),
{
    let ghost w = seq![ge_v(a0), ge_v(a1), ge_v(a2)];
    let mut v: Vec<GExpr> = Vec::new();
    v.push(a0);
    v.push(a1);
    v.push(a2);
    proof {
        lemma_ges_v(v@);
        assert(ges_v(v@) =~= w);
    }
    GExpr::Choice(v)
}

fn ch5(a0: GExpr, a1: GExpr, a2: GExpr, a3: GExpr, a4: GExpr) -> (r: GExpr)
    ensures
        ge_v(r) == GE::Choice(seq![ge_v(a0), ge_v(a1), ge_v(a2), ge_v(a3), ge_v(a4)]),
{
    let ghost w = seq![ge_v(a0), ge_v(a1), ge_v(a2), ge_v(a3), ge_v(a4)];
    let mut v: Vec<GExpr> = Vec::new();
    v.push(a0);
    v.push(a1);
    v.push(a2);
    v.push(a3);
    v.push(a4);
    proof {
        lemma_ges_v(v@);
        assert(ges_v(v@) =~= w);
    }
    GExpr::Choice(v)
}

fn ch6(a0: GExpr, a1: GExpr, a2: GExpr, a3: GExpr, a4: GExpr, a5: GExpr) -> (r: GExpr)
    ensures
        ge_v(r) == GE::Choice(seq![ge_v(a0), ge_v(a1), ge_v(a2), ge_v(a3), ge_v(a4), ge_v(a5)]),
{
    let ghost w = seq![ge_v(a0), ge_v(a1), ge_v(a2), ge_v(a3), ge_v(a4), ge_v(a5)];
    let mut v: Vec<GExpr> = Vec::new();
    v.push(a0);
    v.push(a1);
    v.push(a2);
    v.push(a3);
    v.push(a4);
    v.push(a5);
    proof {
        lemma_ges_v(v@);
        assert(ges_v(v@) =~= w);
    }
    GExpr::Choice(v)
}

fn ch7(a0: GExpr, a1: GExpr, a2: GExpr, a3: GExpr, a4: GExpr, a5: GExpr, a6: GExpr) -> (r: GExpr)
    ensures
        ge_v(r) == GE::Choice(seq![ge_v(a0), ge_v(a1), ge_v(a2), ge_v(a3), ge_v(a4), ge_v(a5), ge_v(a6)]),
{
    let ghost w = seq![ge_v(a0), ge_v(a1), ge_v(a2), ge_v(a3), ge_v(a4), ge_v(a5), ge_v(a6)];
    let mut v: Vec<GExpr> = Vec::new();
    v.push(a0);
    v.push(a1);
    v.push(a2);
    v.push(a3);
    v.push(a4);
    v.push(a5);
    v.push(a6);
    proof {
        lemma_ges_v(v@);
        assert(ges_v(v@) =~= w);
    }
    GExpr::Choice(v)
}

fn sq2(a0: GExpr, a1: GExpr) -> (r: GExpr)
    ensures
        ge_v(r) == GE::Sequence(seq![ge_v(a0), ge_v(a1)]),
{
    let ghost w = seq![ge_v(a0), ge_v(a1)];
    let mut v: Vec<GExpr> = Vec::new();
    v.push(a0);
    v.push(a1);
    proof {
        lemma_ges_v(v@);
        assert(ges_v(v@) =~= w);
    }
    GExpr::Sequence(v)
}

fn sq3(a0: GExpr, a1: GExpr, a2: GExpr) -> (r: GExpr)
    ensures
        ge_v(r) == GE::Sequence(seq![ge_v(a0), ge_v(a1), ge_v(a2)]),
{
    let ghost w = seq![ge_v(a0), ge_v(a1), ge_v(a2)];
    let mut v: Vec<GExpr> = Vec::new();
    v.push(a0);
    v.push(a1);
    v.push(a2);
    proof {
        lemma_ges_v(v@);
        assert(ges_v(v@) =~= w);
    }
    GExpr::Sequence(v)
}

fn sq4(a0: GExpr, a1: GExpr, a2: GExpr, a3: GExpr) -> (r: GExpr)
    ensures
        ge_v(r) == GE::Sequence(seq![ge_v(a0), ge_v(a1), ge_v(a2), ge_v(a3)]),
{
    let ghost w = seq![ge_v(a0), ge_v(a1), ge_v(a2), ge_v(a3)];
    let mut v: Vec<GExpr> = Vec::new();
    v.push(a0);
    v.push(a1);
    v.push(a2);
    v.push(a3);
    proof {
        lemma_ges_v(v@);
        assert(ges_v(v@) =~= w);
    }
    GExpr::Sequence(v)
}

fn sq5(a0: GExpr, a1: GExpr, a2: GExpr, a3: GExpr, a4: GExpr) -> (r: GExpr)
    ensures
        ge_v(r) == GE::Sequence(seq![ge_v(a0), ge_v(a1), ge_v(a2), ge_v(a3), ge_v(a4)]),
{
    let ghost w = seq![ge_v(a0), ge_v(a1), ge_v(a2), ge_v(a3), ge_v(a4)];
    let mut v: Vec<GExpr> = Vec::new();
    v.push(a0);
    v.push(a1);
    v.push(a2);
    v.push(a3);
    v.push(a4);
    proof {
        lemma_ges_v(v@);
        assert(ges_v(v@) =~= w);
    }
    GExpr::Sequence(v)
}

fn sq6(a0: GExpr, a1: GExpr, a2: GExpr, a3: GExpr, a4: GExpr, a5: GExpr) -> (r: GExpr)
    ensures
        ge_v(r) == GE::Sequence(seq![ge_v(a0), ge_v(a1), ge_v(a2), ge_v(a3), ge_v(a4), ge_v(a5)]),
{
    let ghost w = seq![ge_v(a0), ge_v(a1), ge_v(a2), ge_v(a3), ge_v(a4), ge_v(a5)];
    let mut v: Vec<GExpr> = Vec::new();
    v.push(a0);
    v.push(a1);
    v.push(a2);
    v.push(a3);
    v.push(a4);
    v.push(a5);
    proof {
        lemma_ges_v(v@);
        assert(ges_v(v@) =~= w);
    }
    GExpr::Sequence(v)
}

fn sq7(a0: GExpr, a1: GExpr, a2: GExpr, a3: GExpr, a4: GExpr, a5: GExpr, a6: GExpr) -> (r: GExpr)
    ensures
        ge_v(r) == GE::Sequence(seq![ge_v(a0), ge_v(a1), ge_v(a2), ge_v(a3), ge_v(a4), ge_v(a5), ge_v(a6)]),
{
    let ghost w = seq![ge_v(a0), ge_v(a1), ge_v(a2), ge_v(a3), ge_v(a4), ge_v(a5), ge_v(a6)];
    let mut v: Vec<GExpr> = Vec::new();
    v.push(a0);
    v.push(a1);
    v.push(a2);
    v.push(a3);
    v.push(a4);
    v.push(a5);
    v.push(a6);
    proof {
        lemma_ges_v(v@);
        assert(ges_v(v@) =~= w);
    }
    GExpr::Sequence(v)
}

fn build_program() -> (r: GRule)
    ensures
        rule_v(r) == rule_program(),
{
    GRule { kind: RuleKind::Normal, tag: SyntaxRule::Program, body: sq4(lit(""), ch2(GExpr::Call(1), GExpr::Call(24)), star(ch2(GExpr::Call(1), GExpr::Call(24))), not_ahead(GExpr::Any)) }
}

fn build_root_block() -> (r: GRule)
    ensures
        rule_v(r) == rule_root_block(),
{
    GRule { kind: RuleKind::Normal, tag: SyntaxRule::RootBlock, body: sq5(lit("§ROOT"), GExpr::Call(34), lit("{"), star(GExpr::Call(2)), lit("}")) }
}

fn build_block() -> (r: GRule)
    ensures
        rule_v(r) == rule_block(),
{
    GRule { kind: RuleKind::Normal, tag: SyntaxRule::Block, body: ch5(GExpr::Call(3), GExpr::Call(5), GExpr::Call(24), GExpr::Call(30), GExpr::Call(31)) }
}

fn build_context_block() -> (r: GRule)
    ensures
        rule_v(r) == rule_context_block(),
{
    GRule { kind: RuleKind::Normal, tag: SyntaxRule::ContextBlock, body: sq5(lit("::CTX"), opt(GExpr::Call(34)), lit("{"), star(sq2(GExpr::Call(4), opt(lit(",")))), lit("}")) }
}

fn build_ctx_pair() -> (r: GRule)
    ensures
        rule_v(r) == rule_ctx_pair(),
{
    GRule { kind: RuleKind::Normal, tag: SyntaxRule::CtxPair, body: sq3(ch3(GExpr::Call(35), GExpr::Call(36), GExpr::Call(37)), lit(":"), GExpr::Call(33)) }
}

fn build_action_node() -> (r: GRule)
    ensures
        rule_v(r) == rule_action_node(),
{
    GRule { kind: RuleKind::Normal, tag: SyntaxRule::ActionNode, body: sq5(lit("§ACT"), GExpr::Call(34), lit("{"), GExpr::Call(6), lit("}")) }
}

fn build_action_content() -> (r: GRule)
    ensures
        rule_v(r) == rule_action_content(),
{
    GRule { kind: RuleKind::Normal, tag: SyntaxRule::ActionContent, body: star(ch6(GExpr::Call(7), GExpr::Call(8), GExpr::Call(12), GExpr::Call(13), GExpr::Call(17), GExpr::Call(20))) }
}

fn build_meta_block() -> (r: GRule)
    ensures
        rule_v(r) == rule_meta_block(),
{
    GRule { kind: RuleKind::Normal, tag: SyntaxRule::MetaBlock, body: sq4(lit("::META"), lit("{"), star(sq2(GExpr::Call(32), opt(lit(",")))), lit("}")) }
}

fn build_in_block() -> (r: GRule)
    ensures
        rule_v(r) == rule_in_block(),
{
    GRule { kind: RuleKind::Normal, tag: SyntaxRule::InBlock, body: sq4(lit("::IN"), lit("{"), star(sq2(ch2(GExpr::Call(9), GExpr::Call(11)), opt(lit(",")))), lit("}")) }
}

fn build_ref_pair() -> (r: GRule)
    ensures
        rule_v(r) == rule_ref_pair(),
{
    GRule { kind: RuleKind::Normal, tag: SyntaxRule::RefPair, body: sq7(GExpr::Call(35), opt(GExpr::Call(10)), lit(":"), lit("Ref"), lit("("), GExpr::Call(35), lit(")")) }
}

fn build_alias() -> (r: GRule)
    ensures
        rule_v(r) == rule_alias(),
{
    GRule { kind: RuleKind::Normal, tag: SyntaxRule::Alias, body: sq2(lit("as"), GExpr::Call(36)) }
}

fn build_value_pair() -> (r: GRule)
    ensures
        rule_v(r) == rule_value_pair(),
{
    GRule { kind: RuleKind::Normal, tag: SyntaxRule::ValuePair, body: sq3(GExpr::Call(35), lit(":"), GExpr::Call(33)) }
}

fn build_condition_block() -> (r: GRule)
    ensures
        rule_v(r) == rule_condition_block(),
{
    GRule { kind: RuleKind::Normal, tag: SyntaxRule::ConditionBlock, body: sq4(lit("::CONDITION"), lit("{"), GExpr::Call(40), lit("}")) }
}

fn build_exec_block() -> (r: GRule)
    ensures
        rule_v(r) == rule_exec_block(),
{
    GRule { kind: RuleKind::Normal, tag: SyntaxRule::ExecBlock, body: sq7(lit("::EXEC"), lit("<"), GExpr::Call(14), lit(">"), lit("{"), GExpr::Call(15), lit("}")) }
}

fn build_lang() -> (r: GRule)
    ensures
        rule_v(r) == rule_lang(),
{
    GRule { kind: RuleKind::Atomic, tag: SyntaxRule::Other, body: sq2(rng('A', 'Z'), star(ch3(rng('A', 'Z'), rng('0', '9'), lit("_")))) }
}

fn build_code() -> (r: GRule)
    ensures
        rule_v(r) == rule_code(),
{
    GRule { kind: RuleKind::Atomic, tag: SyntaxRule::Other, body: star(ch2(GExpr::Call(16), sq2(not_ahead(ch2(lit("{"), lit("}"))), GExpr::Any))) }
}

fn build_code_group() -> (r: GRule)
    ensures
        rule_v(r) == rule_code_group(),
{
    GRule { kind: RuleKind::Atomic, tag: SyntaxRule::Other, body: sq3(lit("{"), star(ch2(GExpr::Call(16), sq2(not_ahead(ch2(lit("{"), lit("}"))), GExpr::Any))), lit("}")) }
}

fn build_out_block() -> (r: GRule)
    ensures
        rule_v(r) == rule_out_block(),
{
    GRule { kind: RuleKind::Normal, tag: SyntaxRule::OutBlock, body: sq4(lit("::OUT"), lit("{"), star(sq2(GExpr::Call(18), opt(lit(",")))), lit("}")) }
}

fn build_type_pair() -> (r: GRule)
    ensures
        rule_v(r) == rule_type_pair(),
{
    GRule { kind: RuleKind::Normal, tag: SyntaxRule::TypePair, body: sq6(GExpr::Call(35), lit(":"), lit("Type"), lit("<"), GExpr::Call(19), lit(">")) }
}

fn build_type_name() -> (r: GRule)
    ensures
        rule_v(r) == rule_type_name(),
{
    GRule { kind: RuleKind::Atomic, tag: SyntaxRule::Other, body: sq2(ch2(rng('a', 'z'), rng('A', 'Z')), star(ch2(ch2(ch2(rng('a', 'z'), rng('A', 'Z')), rng('0', '9')), lit("_")))) }
}

fn build_val_block() -> (r: GRule)
    ensures
        rule_v(r) == rule_val_block(),
{
    GRule { kind: RuleKind::Normal, tag: SyntaxRule::ValBlock, body: sq4(lit("::VALIDATE"), lit("{"), star(GExpr::Call(21)), lit("}")) }
}

fn build_assertion() -> (r: GRule)
    ensures
        rule_v(r) == rule_assertion(),
{
    GRule { kind: RuleKind::Normal, tag: SyntaxRule::Assertion, body: sq4(lit("ASSERT"), GExpr::Call(40), lit("OR"), GExpr::Call(22)) }
}

fn build_halt_action() -> (r: GRule)
    ensures
        rule_v(r) == rule_halt_action(),
{
    GRule { kind: RuleKind::Normal, tag: SyntaxRule::HaltAction, body: ch3(lit("HALT"), sq2(lit("RETRY"), opt(sq3(lit("("), GExpr::Call(23), lit(")")))), lit("WARN")) }
}

fn build_retry_count() -> (r: GRule)
    ensures
        rule_v(r) == rule_retry_count(),
{
    GRule { kind: RuleKind::Atomic, tag: SyntaxRule::Other, body: sq2(rng('0', '9'), star(rng('0', '9'))) }
}

fn build_request_block() -> (r: GRule)
    ensures
        rule_v(r) == rule_request_block(),
{
    GRule { kind: RuleKind::Normal, tag: SyntaxRule::RequestBlock, body: sq5(lit("§REQ"), GExpr::Call(34), lit("{"), GExpr::Call(25), lit("}")) }
}

fn build_request_content() -> (r: GRule)
    ensures
        rule_v(r) == rule_request_content(),
{
    GRule { kind: RuleKind::Normal, tag: SyntaxRule::RequestContent, body: star(ch5(GExpr::Call(26), GExpr::Call(27), GExpr::Call(28), GExpr::Call(29), sq2(GExpr::Call(32), opt(lit(","))))) }
}

fn build_sender_field() -> (r: GRule)
    ensures
        rule_v(r) == rule_sender_field(),
{
    GRule { kind: RuleKind::Normal, tag: SyntaxRule::SenderField, body: sq3(lit("::SENDER"), lit(":"), GExpr::Call(37)) }
}

fn build_target_field() -> (r: GRule)
    ensures
        rule_v(r) == rule_target_field(),
{
    GRule { kind: RuleKind::Normal, tag: SyntaxRule::TargetField, body: sq3(lit("::TARGET"), lit(":"), GExpr::Call(37)) }
}

fn build_context_field() -> (r: GRule)
    ensures
        rule_v(r) == rule_context_field(),
{
    GRule { kind: RuleKind::Normal, tag: SyntaxRule::ContextField, body: sq4(lit("::CONTEXT"), lit("{"), star(sq2(GExpr::Call(32), opt(lit(",")))), lit("}")) }
}

fn build_instructions_field() -> (r: GRule)
    ensures
        rule_v(r) == rule_instructions_field(),
{
    GRule { kind: RuleKind::Normal, tag: SyntaxRule::InstructionsField, body: sq4(lit("::INSTRUCTIONS"), lit("{"), GExpr::Call(37), lit("}")) }
}

fn build_failure_block() -> (r: GRule)
    ensures
        rule_v(r) == rule_failure_block(),
{
    GRule { kind: RuleKind::Normal, tag: SyntaxRule::FailureBlock, body: sq5(lit("§FAIL"), GExpr::Call(34), lit("{"), star(sq2(GExpr::Call(32), opt(lit(",")))), lit("}")) }
}

fn build_parallel_block() -> (r: GRule)
    ensures
        rule_v(r) == rule_parallel_block(),
{
    GRule { kind: RuleKind::Normal, tag: SyntaxRule::ParallelBlock, body: sq5(lit("§PAR"), opt(GExpr::Call(34)), lit("{"), star(GExpr::Call(5)), lit("}")) }
}

fn build_pair() -> (r: GRule)
    ensures
        rule_v(r) == rule_pair(),
{
    GRule { kind: RuleKind::Normal, tag: SyntaxRule::Pair, body: sq3(ch3(GExpr::Call(36), GExpr::Call(35), GExpr::Call(37)), lit(":"), GExpr::Call(33)) }
}

fn build_value() -> (r: GRule)
    ensures
        rule_v(r) == rule_value(),
{
    GRule { kind: RuleKind::Normal, tag: SyntaxRule::Value, body: ch6(GExpr::Call(37), GExpr::Call(34), GExpr::Call(38), GExpr::Call(39), GExpr::Call(35), GExpr::Call(36)) }
}

fn build_hash() -> (r: GRule)
    ensures
        rule_v(r) == rule_hash(),
{
    GRule { kind: RuleKind::Atomic, tag: SyntaxRule::Hash, body: sq3(lit("0x"), ch2(ch2(ch2(rng('a', 'z'), rng('A', 'Z')), rng('0', '9')), lit("_")), star(ch2(ch2(ch2(rng('a', 'z'), rng('A', 'Z')), rng('0', '9')), lit("_")))) }
}

fn build_address() -> (r: GRule)
    ensures
        rule_v(r) == rule_address(),
{
    GRule { kind: RuleKind::Atomic, tag: SyntaxRule::Address, body: sq3(lit("$"), ch2(ch2(ch2(rng('a', 'z'), rng('A', 'Z')), rng('0', '9')), lit("_")), star(ch2(ch2(ch2(rng('a', 'z'), rng('A', 'Z')), rng('0', '9')), lit("_")))) }
}

fn build_identifier() -> (r: GRule)
    ensures
        rule_v(r) == rule_identifier(),
{
    GRule { kind: RuleKind::Atomic, tag: SyntaxRule::Identifier, body: sq2(ch2(ch2(rng('a', 'z'), rng('A', 'Z')), lit("_")), star(ch2(ch2(ch2(rng('a', 'z'), rng('A', 'Z')), rng('0', '9')), lit("_")))) }
}

fn build_string_literal() -> (r: GRule)
    ensures
        rule_v(r) == rule_string_literal(),
{
    GRule { kind: RuleKind::Atomic, tag: SyntaxRule::StringLiteral, body: sq3(lit("\""), star(sq2(not_ahead(lit("\"")), GExpr::Any)), lit("\"")) }
}

fn build_number() -> (r: GRule)
    ensures
        rule_v(r) == rule_number(),
{
    GRule { kind: RuleKind::Atomic, tag: SyntaxRule::Number, body: sq4(opt(lit("-")), rng('0', '9'), star(rng('0', '9')), opt(sq3(lit("."), rng('0', '9'), star(rng('0', '9'))))) }
}

fn build_boolean() -> (r: GRule)
    ensures
        rule_v(r) == rule_boolean(),
{
    GRule { kind: RuleKind::Atomic, tag: SyntaxRule::Boolean, body: sq2(ch2(lit("true"), lit("false")), not_ahead(ch2(ch2(ch2(rng('a', 'z'), rng('A', 'Z')), rng('0', '9')), lit("_")))) }
}

fn build_expression() -> (r: GRule)
    ensures
        rule_v(r) == rule_expression(),
{
    GRule { kind: RuleKind::Normal, tag: SyntaxRule::Expression, body: GExpr::Call(41) }
}

fn build_or_expr() -> (r: GRule)
    ensures
        rule_v(r) == rule_or_expr(),
{
    GRule { kind: RuleKind::Normal, tag: SyntaxRule::OrExpr, body: sq2(GExpr::Call(42), star(sq2(lit("||"), GExpr::Call(42)))) }
}

fn build_and_expr() -> (r: GRule)
    ensures
        rule_v(r) == rule_and_expr(),
{
    GRule { kind: RuleKind::Normal, tag: SyntaxRule::AndExpr, body: sq2(GExpr::Call(43), star(sq2(lit("&&"), GExpr::Call(43)))) }
}

fn build_not_expr() -> (r: GRule)
    ensures
        rule_v(r) == rule_not_expr(),
{
    GRule { kind: RuleKind::Normal, tag: SyntaxRule::NotExpr, body: ch2(sq2(GExpr::Call(44), GExpr::Call(43)), GExpr::Call(45)) }
}

fn build_not_op() -> (r: GRule)
    ensures
        rule_v(r) == rule_not_op(),
{
    GRule { kind: RuleKind::Normal, tag: SyntaxRule::Other, body: lit("!") }
}

fn build_comparison() -> (r: GRule)
    ensures
        rule_v(r) == rule_comparison(),
{
    GRule { kind: RuleKind::Normal, tag: SyntaxRule::Comparison, body: sq2(GExpr::Call(47), opt(sq2(GExpr::Call(46), GExpr::Call(47)))) }
}

fn build_comp_op() -> (r: GRule)
    ensures
        rule_v(r) == rule_comp_op(),
{
    GRule { kind: RuleKind::Normal, tag: SyntaxRule::Other, body: ch6(lit("=="), lit("!="), lit(">="), lit("<="), lit(">"), lit("<")) }
}

fn build_additive() -> (r: GRule)
    ensures
        rule_v(r) == rule_additive(),
{
    GRule { kind: RuleKind::Normal, tag: SyntaxRule::Additive, body: sq2(GExpr::Call(49), star(sq2(GExpr::Call(48), GExpr::Call(49)))) }
}

fn build_add_op() -> (r: GRule)
    ensures
        rule_v(r) == rule_add_op(),
{
    GRule { kind: RuleKind::Normal, tag: SyntaxRule::Other, body: ch2(lit("+"), lit("-")) }
}

fn build_multiplicative() -> (r: GRule)
    ensures
        rule_v(r) == rule_multiplicative(),
{
    GRule { kind: RuleKind::Normal, tag: SyntaxRule::Multiplicative, body: sq2(GExpr::Call(51), star(sq2(GExpr::Call(50), GExpr::Call(51)))) }
}

fn build_mul_op() -> (r: GRule)
    ensures
        rule_v(r) == rule_mul_op(),
{
    GRule { kind: RuleKind::Normal, tag: SyntaxRule::Other, body: ch3(lit("*"), lit("/"), lit("%")) }
}

fn build_unary() -> (r: GRule)
    ensures
        rule_v(r) == rule_unary(),
{
    GRule { kind: RuleKind::Normal, tag: SyntaxRule::Unary, body: ch2(sq2(GExpr::Call(52), GExpr::Call(51)), GExpr::Call(53)) }
}

fn build_neg_op() -> (r: GRule)
    ensures
        rule_v(r) == rule_neg_op(),
{
    GRule { kind: RuleKind::Normal, tag: SyntaxRule::Other, body: lit("-") }
}

fn build_accessor() -> (r: GRule)
    ensures
        rule_v(r) == rule_accessor(),
{
    GRule { kind: RuleKind::Normal, tag: SyntaxRule::Accessor, body: sq2(GExpr::Call(56), star(ch2(GExpr::Call(54), GExpr::Call(55)))) }
}

fn build_index_access() -> (r: GRule)
    ensures
        rule_v(r) == rule_index_access(),
{
    GRule { kind: RuleKind::Normal, tag: SyntaxRule::IndexAccess, body: sq3(lit("["), GExpr::Call(40), lit("]")) }
}

fn build_dot_access() -> (r: GRule)
    ensures
        rule_v(r) == rule_dot_access(),
{
    GRule { kind: RuleKind::Normal, tag: SyntaxRule::DotAccess, body: sq2(lit("."), GExpr::Call(36)) }
}

fn build_atom() -> (r: GRule)
    ensures
        rule_v(r) == rule_atom(),
{
    GRule { kind: RuleKind::Normal, tag: SyntaxRule::Atom, body: ch7(sq3(lit("("), GExpr::Call(40), lit(")")), GExpr::Call(57), GExpr::Call(37), GExpr::Call(38), GExpr::Call(39), GExpr::Call(35), GExpr::Call(36)) }
}

fn build_func_call() -> (r: GRule)
    ensures
        rule_v(r) == rule_func_call(),
{
    GRule { kind: RuleKind::Normal, tag: SyntaxRule::FuncCall, body: sq4(GExpr::Call(36), lit("("), opt(sq2(GExpr::Call(40), star(sq2(lit(","), GExpr::Call(40))))), lit(")")) }
}

/// The depth budget of a parse: how deeply grammar expressions may nest.
pub const PARSE_DEPTH: usize = 3000;

pub open spec fn no_program() -> Seq<char> {
    "Parse error: the text is not an Aether program"@
}

pub open spec fn too_deep() -> Seq<char> {
    "Parse error: the program is nested too deeply"@
}

/// The syntax tree of an Aether source text: the node of rule `program`
/// matched at its start; refused when the text does not match the grammar,
/// or needs more than the depth budget.
pub open spec fn parse_spec(s: Seq<char>) -> Result<TreeV, Seq<char>> {
    match interp(grammar_spec(), GE::Call(0), s, 0, false, PARSE_DEPTH as nat) {
        PR::Matched(_, cs) => if cs.len() == 1 {
            Ok(cs[0])
        } else {
            Err(no_program())
        },
        PR::Failed => Err(no_program()),
        PR::Deep => Err(too_deep()),
    }
}

/// Parses Aether source text into its syntax tree (no node holds a float;
/// those of decimal numbers are read by the caller).
pub fn parse_tree(src: &str) -> (r: Result<SyntaxNode, String>)
    ensures
        match parse_spec(src@) {
            Ok(t) => r matches Ok(n) && tree_v(n) == t && no_floats(seq![n]),
            Err(e) => r matches Err(m) && m@ == e,
        },
{
    let g = aether_grammar();
    let s = chars_of(src);
    let call = GExpr::Call(0);
    assert(ge_v(call) == GE::Call(0));
    match interp_exec(&g, &call, &s, 0, false, PARSE_DEPTH) {
        Pr::Matched(_, cs) => {
            proof {
                lemma_trees_v(cs@);
            }
            if cs.len() == 1 {
                let ghost before = cs@;
                let mut cs = cs;
                let n = cs.pop().unwrap();
                proof {
                    assert(n == before[0]);
                    assert(before =~= seq![n]);
                    assert(trees_v(before)[0] == tree_v(n));
                }
                Ok(n)
            } else {
                Err(owned("Parse error: the text is not an Aether program"))
            }
        },
        Pr::Failed => Err(owned("Parse error: the text is not an Aether program")),
        Pr::Deep => Err(owned("Parse error: the program is nested too deeply")),
    }
}

/// The rules of the Aether grammar.
pub fn aether_grammar() -> (g: Vec<GRule>)
    ensures
        rules_v(g@) == grammar_spec(),
{
    let mut g: Vec<GRule> = Vec::new();
    g.push(build_program());
    g.push(build_root_block());
    g.push(build_block());
    g.push(build_context_block());
    g.push(build_ctx_pair());
    g.push(build_action_node());
    g.push(build_action_content());
    g.push(build_meta_block());
    g.push(build_in_block());
    g.push(build_ref_pair());
    g.push(build_alias());
    g.push(build_value_pair());
    g.push(build_condition_block());
    g.push(build_exec_block());
    g.push(build_lang());
    g.push(build_code());
    g.push(build_code_group());
    g.push(build_out_block());
    g.push(build_type_pair());
    g.push(build_type_name());
    g.push(build_val_block());
    g.push(build_assertion());
    g.push(build_halt_action());
    g.push(build_retry_count());
    g.push(build_request_block());
    g.push(build_request_content());
    g.push(build_sender_field());
    g.push(build_target_field());
    g.push(build_context_field());
    g.push(build_instructions_field());
    g.push(build_failure_block());
    g.push(build_parallel_block());
    g.push(build_pair());
    g.push(build_value());
    g.push(build_hash());
    g.push(build_address());
    g.push(build_identifier());
    g.push(build_string_literal());
    g.push(build_number());
    g.push(build_boolean());
    g.push(build_expression());
    g.push(build_or_expr());
    g.push(build_and_expr());
    g.push(build_not_expr());
    g.push(build_not_op());
    g.push(build_comparison());
    g.push(build_comp_op());
    g.push(build_additive());
    g.push(build_add_op());
    g.push(build_multiplicative());
    g.push(build_mul_op());
    g.push(build_unary());
    g.push(build_neg_op());
    g.push(build_accessor());
    g.push(build_index_access());
    g.push(build_dot_access());
    g.push(build_atom());
    g.push(build_func_call());
    assert(rules_v(g@) =~= grammar_spec());
    g
}

} // verus!
