//! Aether-Short: expansion of the compact `.as` pipeline notation into full
//! Aether source.
//!
//! A pipeline is written between `@pipeline ID` and `@end`; inside it,
//! `::CTX { .. }` blocks pass through unchanged and each node line
//! `$0xOUT: TYPE = @intent(args) [lang] { code } | ASSERT ..` becomes an
//! action node whose safety level and default language come from the ASL
//! registry.

use vstd::prelude::*;
use crate::registry::{AslEntry, AslRegistry, first_with_id, lemma_first_with_id, opt_view};
use crate::text::{strs, 
    chars_of, join, join_vecs, lead_ws, lemma_lead_ws, lemma_trail_ws, lines, owned,
    seq_starts_with, slice_vec, split_lines, string_of, trail_ws, trim, trim_start,
    trim_start_vec, trim_vec, vec_starts_with,
};
use crate::json::{push_all, push_chars};

verus! {

// ---------------------------------------------------------------------------
// Text measures
// ---------------------------------------------------------------------------

/// The total number of characters of a list of lines.
pub open spec fn total_len(ls: Seq<Seq<char>>) -> nat
    decreases ls.len(),
{
    if ls.len() == 0 {
        0
    } else {
        total_len(ls.drop_last()) + ls.last().len()
    }
}

pub proof fn lemma_total_prefix(ls: Seq<Seq<char>>, k: int)
    requires
        0 <= k <= ls.len(),
    ensures
        total_len(ls.subrange(0, k)) <= total_len(ls),
    decreases ls.len() - k,
{
    if k < ls.len() {
        lemma_total_prefix(ls, k + 1);
        assert(ls.subrange(0, k + 1).drop_last() == ls.subrange(0, k));
    } else {
        assert(ls.subrange(0, k) == ls);
    }
}

proof fn lemma_total_suffix(ls: Seq<Seq<char>>, k: int)
    requires
        0 <= k <= ls.len(),
    ensures
        total_len(ls.subrange(k, ls.len() as int)) <= total_len(ls),
    decreases ls.len(),
{
    if ls.len() > 0 && k < ls.len() {
        lemma_total_suffix(ls.drop_last(), k);
        assert(ls.subrange(k, ls.len() as int).drop_last() == ls.drop_last().subrange(k, ls.len() - 1));
    } else if k == ls.len() {
        assert(ls.subrange(k, ls.len() as int).len() == 0);
    }
}

proof fn lemma_trim_len(s: Seq<char>)
    ensures
        trim(s).len() <= s.len(),
        trim_start(s).len() <= s.len(),
{
    lemma_lead_ws(s);
    lemma_trail_ws(trim_start(s));
}

/// The lines of a text hold no more characters than the text.
pub proof fn lemma_lines_total(s: Seq<char>)
    ensures
        total_len(lines(s)) <= s.len(),
    decreases s.len(),
{
    if s.len() > 0 {
        crate::text::lemma_find_char(s, '\n');
        match crate::text::find_char(s, '\n') {
            Some(i) => {
                let rest = s.subrange(i + 1, s.len() as int);
                lemma_lines_total(rest);
                let head = crate::text::strip_cr(s.subrange(0, i));
                lemma_total_cons(head, lines(rest));
                assert(lines(s) == seq![head] + lines(rest));
            },
            None => {
                lemma_total_cons(s, Seq::empty());
                assert(seq![s] + Seq::<Seq<char>>::empty() =~= seq![s]);
            },
        }
    }
}

proof fn lemma_total_cons(h: Seq<char>, t: Seq<Seq<char>>)
    ensures
        total_len(seq![h] + t) == h.len() + total_len(t),
    decreases t.len(),
{
    let u = seq![h] + t;
    if t.len() > 0 {
        lemma_total_cons(h, t.drop_last());
        assert(u.drop_last() =~= seq![h] + t.drop_last());
        assert(u.last() == t.last());
        assert(total_len(u) == total_len(u.drop_last()) + u.last().len());
        assert(total_len(t) == total_len(t.drop_last()) + t.last().len());
    } else {
        assert(seq![h] + t =~= seq![h]);
        assert(seq![h].drop_last() =~= Seq::<Seq<char>>::empty());
        assert(seq![h].last() == h);
        assert(total_len(seq![h].drop_last()) == 0);
        assert(total_len(seq![h]) == total_len(seq![h].drop_last()) + seq![h].last().len());
        assert(total_len(t) == 0);
    }
}

/// How many times a character occurs.
pub open spec fn count_char(s: Seq<char>, c: char) -> nat
    decreases s.len(),
{
    if s.len() == 0 {
        0
    } else {
        count_char(s.drop_last(), c) + if s.last() == c {
            1nat
        } else {
            0nat
        }
    }
}

/// Opening braces minus closing braces.
pub open spec fn brace_delta(s: Seq<char>) -> int {
    count_char(s, '{') - count_char(s, '}')
}

proof fn lemma_count_le(s: Seq<char>, c: char)
    ensures
        count_char(s, c) <= s.len(),
    decreases s.len(),
{
    if s.len() > 0 {
        lemma_count_le(s.drop_last(), c);
    }
}

fn count_braces(s: &Vec<char>) -> (r: i128)
    ensures
        r == brace_delta(s@),
{
    let mut opens: usize = 0;
    let mut closes: usize = 0;
    let mut i: usize = 0;
    while i < s.len()
        invariant
            0 <= i <= s@.len(),
            opens == count_char(s@.subrange(0, i as int), '{'),
            closes == count_char(s@.subrange(0, i as int), '}'),
        decreases s@.len() - i,
    {
        let ghost p = s@.subrange(0, i + 1);
        assert(p.drop_last() == s@.subrange(0, i as int));
        proof {
            lemma_count_le(p, '{');
            lemma_count_le(p, '}');
        }
        if s[i] == '{' {
            opens = opens + 1;
        } else if s[i] == '}' {
            closes = closes + 1;
        }
        i = i + 1;
    }
    assert(s@.subrange(0, s@.len() as int) == s@);
    opens as i128 - closes as i128
}

// ---------------------------------------------------------------------------
// Language hints
// ---------------------------------------------------------------------------

/// An optional language hint (`python`, `js` or `shell`, tried in that order)
/// at the start of the text after leading whitespace, and what follows it
/// (without leading whitespace).
pub open spec fn hint_spec(s: Seq<char>) -> (Option<Seq<char>>, Seq<char>) {
    let t = trim_start(s);
    if seq_starts_with(t, "python"@) {
        (Some("python"@), trim_start(t.subrange(6, t.len() as int)))
    } else if seq_starts_with(t, "js"@) {
        (Some("js"@), trim_start(t.subrange(2, t.len() as int)))
    } else if seq_starts_with(t, "shell"@) {
        (Some("shell"@), trim_start(t.subrange(5, t.len() as int)))
    } else {
        (None, t)
    }
}

fn hint_vec(s: &Vec<char>) -> (r: (Option<&'static str>, Vec<char>))
    ensures
        (match r.0 {
            Some(h) => Some(h@),
            None => None,
        }, r.1@) == hint_spec(s@),
{
    proof {
        reveal_strlit("python");
        reveal_strlit("js");
        reveal_strlit("shell");
    }
    let t = trim_start_vec(s);
    let py = chars_of("python");
    if vec_starts_with(&t, &py) {
        let rest = slice_vec(&t, 6, t.len());
        return (Some("python"), trim_start_vec(&rest));
    }
    let js = chars_of("js");
    if vec_starts_with(&t, &js) {
        let rest = slice_vec(&t, 2, t.len());
        return (Some("js"), trim_start_vec(&rest));
    }
    let sh = chars_of("shell");
    if vec_starts_with(&t, &sh) {
        let rest = slice_vec(&t, 5, t.len());
        return (Some("shell"), trim_start_vec(&rest));
    }
    (None, t)
}

/// Splits a language hint off the text after a node's intent and arguments.
pub fn parse_lang_hint(s: &str) -> (r: (Option<&'static str>, String))
    ensures
        (match r.0 {
            Some(h) => Some(h@),
            None => None,
        }, r.1@) == hint_spec(s@),
{
    let v = chars_of(s);
    let (h, rest) = hint_vec(&v);
    (h, string_of(rest.as_slice()))
}

// ---------------------------------------------------------------------------
// Code blocks
// ---------------------------------------------------------------------------

/// Scans a line from position `k` with brace depth `d`: the position of the
/// brace that brings the depth to zero, or the depth at the end of the line.
pub open spec fn scan(t: Seq<char>, d: int, k: int) -> (Option<int>, int)
    decreases t.len() - k,
{
    if k < 0 || k >= t.len() {
        (None, d)
    } else if t[k] == '{' {
        scan(t, d + 1, k + 1)
    } else if t[k] == '}' {
        if d - 1 == 0 {
            (Some(k), 0)
        } else {
            scan(t, d - 1, k + 1)
        }
    } else {
        scan(t, d, k + 1)
    }
}

pub open spec fn unclosed_message() -> Seq<char> {
    "Unclosed '{' in Aether-Short code block"@
}

/// A code block read from line `k` on, inside `depth` open braces, with the
/// code lines `acc` read so far: the code (its lines joined by newlines), the
/// clause after `|` on the closing line, and the number of lines read.
pub open spec fn collect_from(ls: Seq<Seq<char>>, k: int, depth: int, acc: Seq<Seq<char>>) -> Result<(Seq<char>, Option<Seq<char>>, nat), Seq<char>>
    decreases ls.len() - k,
{
    if k < 0 || k >= ls.len() {
        Err(unclosed_message())
    } else {
        let t = trim(ls[k]);
        match scan(t, depth, 0) {
            (Some(p), _) => {
                let before = trim(t.subrange(0, p));
                let acc2 = if before.len() > 0 {
                    acc.push(before)
                } else {
                    acc
                };
                let after = trim(t.subrange(p + 1, t.len() as int));
                let clause = if seq_starts_with(after, "|"@) {
                    Some(trim(after.subrange(1, after.len() as int)))
                } else {
                    None
                };
                Ok((join(acc2, "\n"@), clause, (k + 1) as nat))
            },
            (None, d) => collect_from(ls, k + 1, d, acc.push(ls[k])),
        }
    }
}

/// The code block that follows a node header whose `{` is already read.
pub open spec fn collect_spec(ls: Seq<Seq<char>>) -> Result<(Seq<char>, Option<Seq<char>>, nat), Seq<char>> {
    collect_from(ls, 0, 1, Seq::empty())
}

pub proof fn lemma_collect_consumed(ls: Seq<Seq<char>>, k: int, depth: int, acc: Seq<Seq<char>>)
    requires
        0 <= k,
    ensures
        collect_from(ls, k, depth, acc) matches Ok((_, _, n)) ==> k + 1 <= n <= ls.len(),
    decreases ls.len() - k,
{
    if k < ls.len() {
        match scan(trim(ls[k]), depth, 0) {
            (Some(_), _) => {},
            (None, d) => lemma_collect_consumed(ls, k + 1, d, acc.push(ls[k])),
        }
    }
}

pub open spec fn views(v: Seq<Vec<char>>) -> Seq<Seq<char>> {
    v.map_values(|l: Vec<char>| l@)
}

/// Reads a brace-balanced code block from lines `from..` (the opening brace
/// already read): the code, the clause after `|` on the closing line, and the
/// number of lines read; an error when the block never closes.
fn collect_lines(ls: &Vec<Vec<char>>, from: usize) -> (r: Result<(Vec<char>, Option<Vec<char>>, usize), String>)
    requires
        from <= ls@.len(),
        total_len(views(ls@)) <= usize::MAX,
    ensures
        match collect_spec(views(ls@).subrange(from as int, ls@.len() as int)) {
            Ok((c, v, n)) => r matches Ok((c2, v2, n2)) && c2@ == c && n2 == n && match v2 {
                Some(x) => v == Some(x@),
                None => v is None,
            },
            Err(e) => r matches Err(e2) && e2@ == e,
        },
{
    let ghost all = views(ls@);
    let ghost lsv = all.subrange(from as int, ls@.len() as int);
    proof {
        lemma_total_suffix(all, from as int);
    }
    let n = ls.len();
    let mut acc: Vec<Vec<char>> = Vec::new();
    let mut depth: i128 = 1;
    let mut k: usize = from;
    assert(views(acc@) =~= Seq::<Seq<char>>::empty());
    assert(lsv.subrange(0, 0).len() == 0);
    while k < ls.len()
        invariant
            from <= k <= ls@.len(),
            n == ls@.len(),
            all == views(ls@),
            lsv == all.subrange(from as int, ls@.len() as int),
            total_len(lsv) <= usize::MAX,
            collect_spec(lsv) == collect_from(lsv, k - from, depth as int, views(acc@)),
            1 <= depth <= 1 + total_len(lsv.subrange(0, k - from)),
        decreases ls@.len() - k,
    {
        let ghost kk = k - from;
        proof {
            lemma_total_prefix(lsv, kk + 1);
            assert(lsv.subrange(0, kk + 1).drop_last() == lsv.subrange(0, kk));
            assert(lsv[kk] == ls@[k as int]@);
            lemma_trim_len(ls@[k as int]@);
        }
        let t = trim_vec(&ls[k]);
        let mut run: i128 = depth;
        let mut j: usize = 0;
        while j < t.len()
            invariant
                0 <= j <= t@.len(),
                t@ == trim(lsv[kk]),
                t@.len() <= lsv[kk].len(),
                1 <= run <= depth + j,
                depth + t@.len() <= 1 + total_len(lsv.subrange(0, kk + 1)),
                total_len(lsv.subrange(0, kk + 1)) <= usize::MAX,
                scan(t@, depth as int, 0) == scan(t@, run as int, j as int),
                collect_spec(lsv) == collect_from(lsv, kk, depth as int, views(acc@)),
                0 <= kk < lsv.len(),
                kk == k - from,
                from <= k < ls@.len(),
                n == ls@.len(),
                all == views(ls@),
                lsv == all.subrange(from as int, ls@.len() as int),
            decreases t@.len() - j,
        {
            if t[j] == '{' {
                run = run + 1;
            } else if t[j] == '}' {
                if run - 1 == 0 {
                    let ghost acc0 = views(acc@);
                    let before = trim_vec(&slice_vec(&t, 0, j));
                    if before.len() > 0 {
                        acc.push(before);
                    }
                    proof {
                        assert(views(acc@) =~= (if before@.len() > 0 {
                            acc0.push(before@)
                        } else {
                            acc0
                        }));
                    }
                    let after = trim_vec(&slice_vec(&t, j + 1, t.len()));
                    proof {
                        reveal_strlit("|");
                    }
                    let bar = chars_of("|");
                    let clause = if vec_starts_with(&after, &bar) {
                        Some(trim_vec(&slice_vec(&after, 1, after.len())))
                    } else {
                        None
                    };
                    let nl = chars_of("\n");
                    let code = join_vecs(&acc, &nl);
                    return Ok((code, clause, (k - from) + 1));
                }
                run = run - 1;
            }
            j = j + 1;
        }
        let ghost old_acc = views(acc@);
        let piece = slice_vec(&ls[k], 0, ls[k].len());
        assert(piece@ =~= ls@[k as int]@);
        acc.push(piece);
        proof {
            assert(views(acc@) =~= old_acc.push(lsv[kk]));
        }
        depth = run;
        k = k + 1;
    }
    Err(owned("Unclosed '{' in Aether-Short code block"))
}


/// Reads the code block that follows a node header whose `{` is already read:
/// the code, the clause after `|` on the closing line, and the number of
/// lines read.
pub fn collect_code_block(lines: &Vec<String>) -> (r: Result<(String, Option<String>, usize), String>)
    requires
        total_len(strs(lines@)) <= usize::MAX,
    ensures
        match collect_spec(strs(lines@)) {
            Ok((c, v, n)) => r matches Ok((c2, v2, n2)) && c2@ == c && n2 == n && opt_view(v2) == v,
            Err(e) => r matches Err(e2) && e2@ == e,
        },
{
    let ls = char_lines(lines);
    assert(views(ls@).subrange(0, ls@.len() as int) == views(ls@));
    match collect_lines(&ls, 0) {
        Ok((c, v, n)) => {
            let v2 = match v {
                Some(x) => Some(string_of(x.as_slice())),
                None => None,
            };
            Ok((string_of(c.as_slice()), v2, n))
        },
        Err(e) => Err(e),
    }
}

fn char_lines(lines: &Vec<String>) -> (r: Vec<Vec<char>>)
    ensures
        views(r@) == strs(lines@),
{
    let mut out: Vec<Vec<char>> = Vec::new();
    let mut i: usize = 0;
    while i < lines.len()
        invariant
            0 <= i <= lines@.len(),
            views(out@) == strs(lines@.subrange(0, i as int)),
        decreases lines@.len() - i,
    {
        let ghost before = views(out@);
        let cs = chars_of(lines[i].as_str());
        out.push(cs);
        assert(views(out@) =~= before.push(lines@[i as int]@));
        assert(strs(lines@.subrange(0, i + 1)) =~= strs(lines@.subrange(0, i as int)).push(lines@[i as int]@));
        i = i + 1;
    }
    assert(lines@.subrange(0, lines@.len() as int) =~= lines@);
    out
}

// ---------------------------------------------------------------------------
// Node headers
// ---------------------------------------------------------------------------

pub open spec fn hex_upper_digit(n: nat) -> char {
    if n < 10 {
        ('0' as u32 + n) as char
    } else {
        ('A' as u32 + (n - 10)) as char
    }
}

/// The uppercase hexadecimal digits of a number.
pub open spec fn hex_text(n: nat) -> Seq<char>
    decreases n,
{
    if n < 16 {
        seq![hex_upper_digit(n)]
    } else {
        hex_text(n / 16).push(hex_upper_digit(n % 16))
    }
}

/// The id of the `n`-th node: `0xA` and at least two uppercase hex digits.
pub open spec fn node_id_text(n: nat) -> Seq<char> {
    "0xA"@ + if n < 16 {
        seq!['0'] + hex_text(n)
    } else {
        hex_text(n)
    }
}

/// Index of the last occurrence of a character.
pub open spec fn rfind_char(s: Seq<char>, c: char) -> Option<int>
    decreases s.len(),
{
    if s.len() == 0 {
        None
    } else if s.last() == c {
        Some(s.len() - 1)
    } else {
        rfind_char(s.drop_last(), c)
    }
}

pub open spec fn ends_intent(c: char) -> bool {
    c == '(' || c == ' ' || c == '\t' || c == '{'
}

/// Where an intent name ends: the first `(`, space, tab or `{` from `k` on
/// (the length when there is none).
pub open spec fn intent_end(s: Seq<char>, k: int) -> int
    decreases s.len() - k,
{
    if k < 0 || k >= s.len() {
        s.len() as int
    } else if ends_intent(s[k]) {
        k
    } else {
        intent_end(s, k + 1)
    }
}

/// `str::split(',')`: the pieces between commas.
pub open spec fn split_commas(s: Seq<char>) -> Seq<Seq<char>>
    decreases s.len(),
{
    match crate::text::find_char(s, ',') {
        Some(i) => {
            proof {
                crate::text::lemma_find_char(s, ',');
            }
            seq![s.subrange(0, i)] + split_commas(s.subrange(i + 1, s.len() as int))
        },
        None => seq![s],
    }
}

/// The trimmed pieces that are not empty.
pub open spec fn args_of(pieces: Seq<Seq<char>>) -> Seq<Seq<char>>
    decreases pieces.len(),
{
    if pieces.len() == 0 {
        Seq::empty()
    } else {
        let a = trim(pieces[0]);
        (if a.len() > 0 {
            seq![a]
        } else {
            Seq::empty()
        }) + args_of(pieces.drop_first())
    }
}

/// A parsed node header.
pub struct HeadV {
    pub id: Seq<char>,
    pub intent: Seq<char>,
    pub args: Seq<Seq<char>>,
    pub hint: Option<Seq<char>>,
    pub addr: Seq<char>,
    pub typ: Seq<char>,
    /// Whether the header opens a code block.
    pub has_code: bool,
}

pub open spec fn head_of(id: Seq<char>, intent: Seq<char>, args: Seq<Seq<char>>, addr: Seq<char>, typ: Seq<char>, rest: Seq<char>) -> HeadV {
    let (hint, after) = hint_spec(rest);
    HeadV {
        id,
        intent,
        args,
        hint,
        addr,
        typ,
        has_code: crate::text::seq_ends_with(trim(after), "{"@),
    }
}

/// A node header `$0xOUT: TYPE = @intent(args) [lang] {`, parsed; the node is
/// the `counter`-th.
pub open spec fn parse_head(h: Seq<char>, counter: nat) -> Result<HeadV, Seq<char>> {
    match crate::text::find_char(h, '=') {
        None => Err("Expected '=' in AS node: "@ + h),
        Some(eq) => {
            let lhs = trim(h.subrange(0, eq));
            let rhs = trim(h.subrange(eq + 1, h.len() as int));
            match rfind_char(lhs, ':') {
                None => Err("Expected ':' in output declaration: "@ + lhs),
                Some(c) => {
                    let addr = trim(lhs.subrange(0, c));
                    let typ = trim(lhs.subrange(c + 1, lhs.len() as int));
                    if !seq_starts_with(rhs, "@"@) {
                        Err("Expected '@intent' on RHS: "@ + rhs)
                    } else {
                        let body = rhs.subrange(1, rhs.len() as int);
                        let e = intent_end(body, 0);
                        let intent = body.subrange(0, e);
                        let after = trim_start(body.subrange(e, body.len() as int));
                        let id = node_id_text(counter);
                        if seq_starts_with(after, "("@) {
                            match crate::text::find_char(after, ')') {
                                None => Err("Missing ')': "@ + after),
                                Some(cl) => Ok(
                                    head_of(
                                        id,
                                        intent,
                                        args_of(split_commas(after.subrange(1, cl))),
                                        addr,
                                        typ,
                                        trim_start(after.subrange(cl + 1, after.len() as int)),
                                    ),
                                ),
                            }
                        } else {
                            Ok(head_of(id, intent, Seq::empty(), addr, typ, after))
                        }
                    }
                },
            }
        },
    }
}


/// The arguments of a node: the comma-separated pieces, trimmed, empty ones left out.
fn args_list(s: &Vec<char>) -> (r: Vec<Vec<char>>)
    ensures
        views(r@) == args_of(split_commas(s@)),
{
    let n = s.len();
    let mut out: Vec<Vec<char>> = Vec::new();
    let mut start: usize = 0;
    assert(s@.subrange(0, s@.len() as int) == s@);
    assert(views(out@) + args_of(split_commas(s@)) =~= args_of(split_commas(s@)));
    loop
        invariant
            0 <= start <= s@.len(),
            n == s@.len(),
            args_of(split_commas(s@)) == views(out@) + args_of(split_commas(s@.subrange(start as int, s@.len() as int))),
        decreases s@.len() - start,
    {
        let ghost rest = s@.subrange(start as int, s@.len() as int);
        let ghost before = views(out@);
        proof {
            crate::text::lemma_find_char(rest, ',');
        }
        match crate::text::find_char_from(s, ',', start) {
            Some(j) => {
                proof {
                    match crate::text::find_char(rest, ',') {
                        Some(i) => {
                            assert(0 <= i < rest.len());
                            assert(j as int == start + i);
                        },
                        None => {},
                    }
                }
                let piece = trim_vec(&slice_vec(s, start, j));
                proof {
                    assert(rest.subrange(0, j - start) == s@.subrange(start as int, j as int));
                    assert(rest.subrange(j - start + 1, rest.len() as int) == s@.subrange(j + 1, s@.len() as int));
                    let ps = split_commas(rest);
                    assert(ps == seq![s@.subrange(start as int, j as int)] + split_commas(s@.subrange(j + 1, s@.len() as int)));
                    assert(ps[0] == s@.subrange(start as int, j as int));
                    assert(ps.drop_first() =~= split_commas(s@.subrange(j + 1, s@.len() as int)));
                }
                if piece.len() > 0 {
                    out.push(piece);
                    proof {
                        assert(views(out@) =~= before + seq![piece@]);
                        assert(before + (seq![piece@] + args_of(split_commas(s@.subrange(j + 1, s@.len() as int))))
                            =~= views(out@) + args_of(split_commas(s@.subrange(j + 1, s@.len() as int))));
                    }
                } else {
                    proof {
                        assert(Seq::<Seq<char>>::empty() + args_of(split_commas(s@.subrange(j + 1, s@.len() as int)))
                            =~= args_of(split_commas(s@.subrange(j + 1, s@.len() as int))));
                    }
                }
                start = j + 1;
            },
            None => {
                let piece = trim_vec(&slice_vec(s, start, s.len()));
                proof {
                    let ps = split_commas(rest);
                    assert(ps == seq![rest]);
                    assert(ps.drop_first().len() == 0);
                    assert(args_of(ps.drop_first()) == Seq::<Seq<char>>::empty());
                }
                if piece.len() > 0 {
                    out.push(piece);
                    proof {
                        assert(views(out@) =~= before + seq![piece@]);
                        assert(seq![piece@] + Seq::<Seq<char>>::empty() =~= seq![piece@]);
                    }
                } else {
                    proof {
                        assert(before + (Seq::<Seq<char>>::empty() + Seq::<Seq<char>>::empty()) =~= before);
                    }
                }
                return out;
            },
        }
    }
}

fn rfind_vec(s: &Vec<char>, c: char) -> (r: Option<usize>)
    ensures
        match rfind_char(s@, c) {
            Some(i) => r == Some(i as usize),
            None => r is None,
        },
{
    let mut i: usize = s.len();
    assert(s@.subrange(0, i as int) == s@);
    while i > 0
        invariant
            0 <= i <= s@.len(),
            rfind_char(s@, c) == rfind_char(s@.subrange(0, i as int), c),
        decreases i,
    {
        let ghost p = s@.subrange(0, i as int);
        assert(p.drop_last() == s@.subrange(0, i - 1));
        if s[i - 1] == c {
            return Some(i - 1);
        }
        i = i - 1;
    }
    None
}

fn intent_end_vec(s: &Vec<char>) -> (r: usize)
    ensures
        r == intent_end(s@, 0),
        r <= s@.len(),
{
    let mut k: usize = 0;
    while k < s.len()
        invariant
            0 <= k <= s@.len(),
            intent_end(s@, 0) == intent_end(s@, k as int),
        decreases s@.len() - k,
    {
        let c = s[k];
        if c == '(' || c == ' ' || c == '\t' || c == '{' {
            return k;
        }
        k = k + 1;
    }
    k
}

fn push_hex(out: &mut Vec<char>, n: u64)
    ensures
        final(out)@ == old(out)@ + hex_text(n as nat),
    decreases n,
{
    let d: u64 = n % 16;
    if n >= 16 {
        push_hex(out, n / 16);
    }
    let c = if d < 10 {
        crate::json::char_from_code('0' as u32 + d as u32)
    } else {
        crate::json::char_from_code('A' as u32 + (d as u32 - 10))
    };
    out.push(c);
}

/// A parsed node header.
struct NodeHead {
    id: Vec<char>,
    intent: Vec<char>,
    args: Vec<Vec<char>>,
    hint: Option<&'static str>,
    addr: Vec<char>,
    typ: Vec<char>,
    has_code: bool,
}

spec fn head_view(h: NodeHead) -> HeadV {
    HeadV {
        id: h.id@,
        intent: h.intent@,
        args: views(h.args@),
        hint: match h.hint {
            Some(x) => Some(x@),
            None => None,
        },
        addr: h.addr@,
        typ: h.typ@,
        has_code: h.has_code,
    }
}

fn text_then(prefix: &str, v: &Vec<char>) -> (r: String)
    ensures
        r@ == prefix@ + v@,
{
    let mut out: Vec<char> = Vec::new();
    push_chars(&mut out, prefix);
    push_all(&mut out, v);
    string_of(out.as_slice())
}

fn make_head(id: Vec<char>, intent: Vec<char>, args: Vec<Vec<char>>, addr: Vec<char>, typ: Vec<char>, rest: &Vec<char>) -> (r: NodeHead)
    ensures
        head_view(r) == head_of(id@, intent@, views(args@), addr@, typ@, rest@),
{
    let (hint, after) = hint_vec(rest);
    let t = trim_vec(&after);
    let has_code = t.len() > 0 && t[t.len() - 1] == '{';
    proof {
        reveal_strlit("{");
        if has_code {
            assert(t@.subrange(t@.len() - 1, t@.len() as int) =~= "{"@);
        }
        if crate::text::seq_ends_with(t@, "{"@) {
            assert(t@.subrange(t@.len() - 1, t@.len() as int)[0] == '{');
        }
    }
    NodeHead { id, intent, args, hint, addr, typ, has_code }
}

fn parse_head_exec(h: &Vec<char>, counter: u64) -> (r: Result<NodeHead, String>)
    ensures
        match parse_head(h@, counter as nat) {
            Ok(x) => r matches Ok(y) && head_view(y) == x,
            Err(e) => r matches Err(e2) && e2@ == e,
        },
{
    proof {
        crate::text::lemma_find_char(h@, '=');
        reveal_strlit("@");
        reveal_strlit("(");
    }
    assert(h@.subrange(0, h@.len() as int) == h@);
    let hn = h.len();
    let eq = match crate::text::find_char_from(h, '=', 0) {
        Some(e) => {
            proof {
                match crate::text::find_char(h@, '=') {
                    Some(i) => {
                        assert(0 <= i < h@.len());
                        assert(e as int == i);
                    },
                    None => {},
                }
            }
            e
        },
        None => {
            return Err(text_then("Expected '=' in AS node: ", h));
        },
    };
    let lhs = trim_vec(&slice_vec(h, 0, eq));
    let rhs = trim_vec(&slice_vec(h, eq + 1, h.len()));
    proof {
        lemma_rfind(lhs@, ':');
    }
    let c = match rfind_vec(&lhs, ':') {
        Some(c) => c,
        None => {
            return Err(text_then("Expected ':' in output declaration: ", &lhs));
        },
    };
    let addr = trim_vec(&slice_vec(&lhs, 0, c));
    let ln = lhs.len();
    let typ = trim_vec(&slice_vec(&lhs, c + 1, ln));
    if !(rhs.len() > 0 && rhs[0] == '@') {
        proof {
            if seq_starts_with(rhs@, "@"@) {
                assert(rhs@[0] == "@"@[0]);
            }
        }
        return Err(text_then("Expected '@intent' on RHS: ", &rhs));
    }
    assert(rhs@.subrange(0, 1) =~= "@"@);
    let body = slice_vec(&rhs, 1, rhs.len());
    let e = intent_end_vec(&body);
    let intent = slice_vec(&body, 0, e);
    let after = trim_start_vec(&slice_vec(&body, e, body.len()));
    let mut id: Vec<char> = Vec::new();
    push_chars(&mut id, "0xA");
    if counter < 16 {
        id.push('0');
    }
    push_hex(&mut id, counter);
    proof {
        reveal_strlit("0xA");
        if counter < 16 {
            assert(id@ =~= "0xA"@ + (seq!['0'] + hex_text(counter as nat)));
        }
    }
    assert(id@ == node_id_text(counter as nat));
    if after.len() > 0 && after[0] == '(' {
        assert(after@.subrange(0, 1) =~= "("@);
        proof {
            crate::text::lemma_find_char(after@, ')');
        }
        assert(after@.subrange(0, after@.len() as int) == after@);
        match crate::text::find_char_from(&after, ')', 0) {
            None => {
                return Err(text_then("Missing ')': ", &after));
            },
            Some(cl) => {
                let inner = slice_vec(&after, 1, cl);
                let args = args_list(&inner);
                let rest = trim_start_vec(&slice_vec(&after, cl + 1, after.len()));
                return Ok(make_head(id, intent, args, addr, typ, &rest));
            },
        }
    } else {
        proof {
            if seq_starts_with(after@, "("@) {
                assert(after@[0] == "("@[0]);
            }
        }
        let args: Vec<Vec<char>> = Vec::new();
        assert(views(args@) =~= Seq::<Seq<char>>::empty());
        return Ok(make_head(id, intent, args, addr, typ, &after));
    }
}

proof fn lemma_rfind(s: Seq<char>, c: char)
    ensures
        match rfind_char(s, c) {
            Some(i) => 0 <= i < s.len(),
            None => true,
        },
    decreases s.len(),
{
    if s.len() > 0 && s.last() != c {
        lemma_rfind(s.drop_last(), c);
    }
}


// ---------------------------------------------------------------------------
// Node text
// ---------------------------------------------------------------------------

/// The safety name of a registry safety tag ("pure" for an unknown tag).
pub open spec fn safety_name(tag: Seq<char>) -> Seq<char> {
    if tag == "l0"@ {
        "pure"@
    } else if tag == "l1"@ {
        "read_only"@
    } else if tag == "l2"@ {
        "state_mod"@
    } else if tag == "l3"@ {
        "net_egress"@
    } else if tag == "l4"@ {
        "system_root"@
    } else {
        "pure"@
    }
}

/// The safety of an intent: that of its registry entry, "pure" without one.
pub open spec fn reg_safety(reg: Seq<AslEntry>, intent: Seq<char>) -> Seq<char> {
    match first_with_id(reg, intent) {
        Some(i) => safety_name(reg[i].safety@),
        None => "pure"@,
    }
}

/// The default language of an intent: its entry's recommended language,
/// PYTHON without one.
pub open spec fn reg_lang(reg: Seq<AslEntry>, intent: Seq<char>) -> Seq<char> {
    match first_with_id(reg, intent) {
        Some(i) => match reg[i].recommended_lang {
            Some(l) => l@,
            None => "PYTHON"@,
        },
        None => "PYTHON"@,
    }
}

/// A language hint in upper case.
pub open spec fn hint_lang(h: Seq<char>) -> Seq<char> {
    if h == "python"@ {
        "PYTHON"@
    } else if h == "js"@ {
        "JS"@
    } else {
        "SHELL"@
    }
}

pub open spec fn exec_lang(h: HeadV, reg: Seq<AslEntry>) -> Seq<char> {
    match h.hint {
        Some(x) => hint_lang(x),
        None => reg_lang(reg, h.intent),
    }
}

pub open spec fn in_lines(args: Seq<Seq<char>>) -> Seq<char>
    decreases args.len(),
{
    if args.len() == 0 {
        Seq::empty()
    } else {
        in_lines(args.drop_last()) + "      "@ + args.last() + ": Ref("@ + args.last() + ")\n"@
    }
}

/// The `::IN` block binding each argument to a reference of itself.
pub open spec fn in_block(args: Seq<Seq<char>>) -> Seq<char> {
    if args.len() == 0 {
        Seq::empty()
    } else {
        "    ::IN {\n"@ + in_lines(args) + "    }\n"@
    }
}

pub open spec fn validate_block(v: Option<Seq<char>>) -> Seq<char> {
    match v {
        Some(x) => "    ::VALIDATE {\n      "@ + trim(x) + "\n    }\n"@,
        None => Seq::empty(),
    }
}

pub open spec fn indent_line(l: Seq<char>) -> Seq<char> {
    if trim(l).len() == 0 {
        Seq::empty()
    } else {
        "      "@ + trim(l)
    }
}

/// The code's lines, each trimmed and indented by six spaces (blank lines
/// left empty).
pub open spec fn indent_code(code: Seq<char>) -> Seq<char> {
    join(lines(code).map_values(|l: Seq<char>| indent_line(l)), "\n"@)
}

/// The action node of a parsed header with its code and validation clause.
pub open spec fn node_text(h: HeadV, code: Seq<char>, v: Option<Seq<char>>, reg: Seq<AslEntry>) -> Seq<char> {
    let ind = indent_code(code);
    "  \u{a7}ACT "@ + h.id + " {\n"@ + "    ::META {\n"@ + "      _intent: \""@ + h.intent + "\",\n"@
        + "      _safety: \""@ + reg_safety(reg, h.intent) + "\"\n"@ + "    }\n"@ + in_block(h.args)
        + "    ::EXEC<"@ + exec_lang(h, reg) + "> {\n"@ + (if ind.len() > 0 {
        ind + "\n"@
    } else {
        Seq::empty()
    }) + "    }\n"@ + "    ::OUT {\n"@ + "      "@ + h.addr + ": Type<"@ + h.typ + ">\n"@ + "    }\n"@
        + validate_block(v) + "  }\n\n"@
}

/// A node line with what follows it: the node's text and the number of
/// following lines its code block took.
pub open spec fn expand_node_spec(header: Seq<char>, rem: Seq<Seq<char>>, reg: Seq<AslEntry>, counter: nat) -> Result<(Seq<char>, nat), Seq<char>> {
    match parse_head(header, counter) {
        Err(e) => Err(e),
        Ok(h) => if h.has_code {
            match collect_spec(rem) {
                Err(e) => Err(e),
                Ok((code, v, n)) => Ok((node_text(h, code, v, reg), n)),
            }
        } else {
            Ok((node_text(h, Seq::empty(), None, reg), 0))
        },
    }
}

fn indent_vec(code: &Vec<char>) -> (r: Vec<char>)
    ensures
        r@ == indent_code(code@),
{
    let ls = split_lines(code);
    let mut out: Vec<Vec<char>> = Vec::new();
    let mut i: usize = 0;
    while i < ls.len()
        invariant
            0 <= i <= ls@.len(),
            views(ls@) == lines(code@),
            views(out@) == views(ls@).subrange(0, i as int).map_values(|l: Seq<char>| indent_line(l)),
        decreases ls@.len() - i,
    {
        let t = trim_vec(&ls[i]);
        let ghost before = views(out@);
        if t.len() == 0 {
            let e: Vec<char> = Vec::new();
            assert(e@ == indent_line(ls@[i as int]@));
            out.push(e);
        } else {
            let mut x: Vec<char> = Vec::new();
            push_chars(&mut x, "      ");
            push_all(&mut x, &t);
            assert(x@ =~= "      "@ + t@);
            assert(x@ == indent_line(ls@[i as int]@));
            out.push(x);
        }
        proof {
            assert(views(ls@)[i as int] == ls@[i as int]@);
            assert(views(out@) =~= before.push(indent_line(ls@[i as int]@)));
            assert(views(ls@).subrange(0, i + 1).map_values(|l: Seq<char>| indent_line(l))
                =~= views(ls@).subrange(0, i as int).map_values(|l: Seq<char>| indent_line(l)).push(indent_line(ls@[i as int]@)));
        }
        i = i + 1;
    }
    assert(views(ls@).subrange(0, ls@.len() as int) == views(ls@));
    let nl = chars_of("\n");
    join_vecs(&out, &nl)
}

fn safety_word(tag: &str) -> (r: &'static str)
    ensures
        r@ == safety_name(tag@),
{
    if crate::text::str_eq(tag, "l0") {
        "pure"
    } else if crate::text::str_eq(tag, "l1") {
        "read_only"
    } else if crate::text::str_eq(tag, "l2") {
        "state_mod"
    } else if crate::text::str_eq(tag, "l3") {
        "net_egress"
    } else if crate::text::str_eq(tag, "l4") {
        "system_root"
    } else {
        "pure"
    }
}

#[verifier::spinoff_prover]
#[verifier::rlimit(30)]
fn node_text_exec(h: &NodeHead, code: &Vec<char>, v: &Option<Vec<char>>, registry: &AslRegistry) -> (r: Vec<char>)
    ensures
        r@ == node_text(
            head_view(*h),
            code@,
            match v {
                Some(x) => Some(x@),
                None => None,
            },
            registry.entries@,
        ),
{
    let intent = string_of(h.intent.as_slice());
    let entry = registry.lookup(intent.as_str());
    proof {
        lemma_first_with_id(registry.entries@, h.intent@);
    }
    let safety: &str = match entry {
        Some(e) => safety_word(e.safety.as_str()),
        None => "pure",
    };
    let lang: &str = match h.hint {
        Some(x) => if crate::text::str_eq(x, "python") {
            "PYTHON"
        } else if crate::text::str_eq(x, "js") {
            "JS"
        } else {
            "SHELL"
        },
        None => match entry {
            Some(e) => match &e.recommended_lang {
                Some(l) => l.as_str(),
                None => "PYTHON",
            },
            None => "PYTHON",
        },
    };
    assert(safety@ == reg_safety(registry.entries@, h.intent@));
    assert(lang@ == exec_lang(head_view(*h), registry.entries@));
    let ind = indent_vec(code);
    let mut out: Vec<char> = Vec::new();
    push_chars(&mut out, "  \u{a7}ACT ");
    push_all(&mut out, &h.id);
    push_chars(&mut out, " {\n");
    push_chars(&mut out, "    ::META {\n");
    push_chars(&mut out, "      _intent: \"");
    push_all(&mut out, &h.intent);
    push_chars(&mut out, "\",\n");
    push_chars(&mut out, "      _safety: \"");
    push_chars(&mut out, safety);
    push_chars(&mut out, "\"\n");
    push_chars(&mut out, "    }\n");
    let ghost before_in = out@;
    if h.args.len() > 0 {
        push_chars(&mut out, "    ::IN {\n");
        let ghost mid = out@;
        let mut i: usize = 0;
        while i < h.args.len()
            invariant
                0 <= i <= h.args@.len(),
                out@ == mid + in_lines(views(h.args@).subrange(0, i as int)),
            decreases h.args@.len() - i,
        {
            let ghost p = views(h.args@).subrange(0, i + 1);
            assert(p.drop_last() == views(h.args@).subrange(0, i as int));
            assert(p.last() == h.args@[i as int]@);
            push_chars(&mut out, "      ");
            push_all(&mut out, &h.args[i]);
            push_chars(&mut out, ": Ref(");
            push_all(&mut out, &h.args[i]);
            push_chars(&mut out, ")\n");
            i = i + 1;
        }
        assert(views(h.args@).subrange(0, h.args@.len() as int) == views(h.args@));
        push_chars(&mut out, "    }\n");
    }
    assert(out@ == before_in + in_block(views(h.args@)));
    push_chars(&mut out, "    ::EXEC<");
    push_chars(&mut out, lang);
    push_chars(&mut out, "> {\n");
    let ghost before_code = out@;
    if ind.len() > 0 {
        push_all(&mut out, &ind);
        push_chars(&mut out, "\n");
    }
    push_chars(&mut out, "    }\n");
    push_chars(&mut out, "    ::OUT {\n");
    push_chars(&mut out, "      ");
    push_all(&mut out, &h.addr);
    push_chars(&mut out, ": Type<");
    push_all(&mut out, &h.typ);
    push_chars(&mut out, ">\n");
    push_chars(&mut out, "    }\n");
    match v {
        Some(x) => {
            push_chars(&mut out, "    ::VALIDATE {\n      ");
            let tx = trim_vec(x);
            push_all(&mut out, &tx);
            push_chars(&mut out, "\n    }\n");
        },
        None => {},
    }
    push_chars(&mut out, "  }\n\n");
    out
}

fn expand_node_at(header: &Vec<char>, ls: &Vec<Vec<char>>, from: usize, registry: &AslRegistry, counter: u64) -> (r: Result<(Vec<char>, usize), String>)
    requires
        from <= ls@.len(),
        total_len(views(ls@)) <= usize::MAX,
    ensures
        match expand_node_spec(header@, views(ls@).subrange(from as int, ls@.len() as int), registry.entries@, counter as nat) {
            Ok((t, n)) => r matches Ok((t2, n2)) && t2@ == t && n2 == n,
            Err(e) => r matches Err(e2) && e2@ == e,
        },
{
    let h = match parse_head_exec(header, counter) {
        Ok(h) => h,
        Err(e) => {
            return Err(e);
        },
    };
    if h.has_code {
        match collect_lines(ls, from) {
            Ok((code, v, n)) => {
                let t = node_text_exec(&h, &code, &v, registry);
                Ok((t, n))
            },
            Err(e) => Err(e),
        }
    } else {
        let code: Vec<char> = Vec::new();
        let t = node_text_exec(&h, &code, &None, registry);
        assert(code@ =~= Seq::<char>::empty());
        Ok((t, 0))
    }
}

/// Expands one node line of a pipeline into an action node, with the code
/// block from the lines that follow it: the node's text and the number of
/// following lines taken. The node is the `counter`-th of the pipeline.
pub fn expand_node(header: &str, remaining: &Vec<String>, registry: &AslRegistry, counter: u32) -> (r: Result<(String, usize), String>)
    requires
        total_len(strs(remaining@)) <= usize::MAX,
    ensures
        match expand_node_spec(header@, strs(remaining@), registry.entries@, counter as nat) {
            Ok((t, n)) => r matches Ok((t2, n2)) && t2@ == t && n2 == n,
            Err(e) => r matches Err(e2) && e2@ == e,
        },
{
    let hv = chars_of(header);
    let ls = char_lines(remaining);
    assert(views(ls@).subrange(0, ls@.len() as int) == views(ls@));
    match expand_node_at(&hv, &ls, 0, registry, counter as u64) {
        Ok((t, n)) => Ok((string_of(t.as_slice()), n)),
        Err(e) => Err(e),
    }
}


// ---------------------------------------------------------------------------
// Pipelines
// ---------------------------------------------------------------------------

pub open spec fn end_missing() -> Seq<char> {
    "Unexpected end of file \u{2014} missing @end"@
}

pub open spec fn no_pipeline() -> Seq<char> {
    "No @pipeline blocks found in Aether-Short source"@
}

/// The lines of a `::CTX` block after its first line, copied while braces
/// stay open (from line `k`, with `depth` open): the text and the next line.
pub open spec fn ctx_from(ls: Seq<Seq<char>>, k: int, depth: int) -> (Seq<char>, int)
    decreases ls.len() - k,
{
    if depth <= 0 || k < 0 || k >= ls.len() {
        (Seq::empty(), k)
    } else {
        let (rest, j) = ctx_from(ls, k + 1, depth + brace_delta(ls[k]));
        ("  "@ + ls[k] + "\n"@ + rest, j)
    }
}

pub proof fn lemma_ctx_next(ls: Seq<Seq<char>>, k: int, depth: int)
    requires
        0 <= k <= ls.len(),
    ensures
        k <= ctx_from(ls, k, depth).1 <= ls.len(),
    decreases ls.len() - k,
{
    if depth > 0 && k < ls.len() {
        lemma_ctx_next(ls, k + 1, depth + brace_delta(ls[k]));
    }
}

pub proof fn lemma_node_consumed(header: Seq<char>, rem: Seq<Seq<char>>, reg: Seq<AslEntry>, counter: nat)
    ensures
        expand_node_spec(header, rem, reg, counter) matches Ok((_, n)) ==> n <= rem.len(),
{
    lemma_collect_consumed(rem, 0, 1, Seq::empty());
}

/// A node line: it starts with `$` and holds `=` and `@`.
pub open spec fn is_node_line(t: Seq<char>) -> bool {
    seq_starts_with(t, "$"@) && crate::text::find_char(t, '=') is Some && crate::text::find_char(t, '@') is Some
}

/// The inside of a pipeline from line `i` on, with `counter` nodes so far: its
/// text, the line after its `@end`, and the node count then.
#[verifier::opaque]
pub open spec fn body_from(ls: Seq<Seq<char>>, i: int, counter: nat, reg: Seq<AslEntry>) -> Result<(Seq<char>, int, nat), Seq<char>>
    decreases ls.len() - i,
{
    if i < 0 || i >= ls.len() {
        Err(end_missing())
    } else {
        let t = trim(ls[i]);
        if t == "@end"@ {
            Ok((Seq::empty(), i + 1, counter))
        } else if t.len() == 0 || seq_starts_with(t, "//"@) {
            body_from(ls, i + 1, counter, reg)
        } else if seq_starts_with(t, "::CTX"@) {
            let (ctx, j) = ctx_from(ls, i + 1, brace_delta(t));
            proof {
                lemma_ctx_next(ls, i + 1, brace_delta(t));
            }
            match body_from(ls, j, counter, reg) {
                Ok((b, k, c)) => Ok(("  "@ + t + "\n"@ + ctx + "\n"@ + b, k, c)),
                Err(e) => Err(e),
            }
        } else if is_node_line(t) {
            match expand_node_spec(t, ls.subrange(i + 1, ls.len() as int), reg, counter + 1) {
                Err(e) => Err(e),
                Ok((node, n)) => {
                    proof {
                        lemma_node_consumed(t, ls.subrange(i + 1, ls.len() as int), reg, counter + 1);
                    }
                    match body_from(ls, i + 1 + n, counter + 1, reg) {
                        Ok((b, k, c)) => Ok((node + b, k, c)),
                        Err(e) => Err(e),
                    }
                },
            }
        } else {
            body_from(ls, i + 1, counter, reg)
        }
    }
}

pub proof fn lemma_body_next(ls: Seq<Seq<char>>, i: int, counter: nat, reg: Seq<AslEntry>)
    requires
        0 <= i,
    ensures
        body_from(ls, i, counter, reg) matches Ok((_, k, c)) ==> i < k <= ls.len() && counter <= c
            && c <= counter + (k - i),
    decreases ls.len() - i,
{
    reveal(body_from);
    if i < ls.len() {
        let t = trim(ls[i]);
        if t == "@end"@ {
        } else if t.len() == 0 || seq_starts_with(t, "//"@) {
            lemma_body_next(ls, i + 1, counter, reg);
        } else if seq_starts_with(t, "::CTX"@) {
            lemma_ctx_next(ls, i + 1, brace_delta(t));
            let j = ctx_from(ls, i + 1, brace_delta(t)).1;
            lemma_body_next(ls, j, counter, reg);
        } else if is_node_line(t) {
            lemma_node_consumed(t, ls.subrange(i + 1, ls.len() as int), reg, counter + 1);
            match expand_node_spec(t, ls.subrange(i + 1, ls.len() as int), reg, counter + 1) {
                Ok((_, n)) => lemma_body_next(ls, i + 1 + n, counter + 1, reg),
                Err(_) => {},
            }
        } else {
            lemma_body_next(ls, i + 1, counter, reg);
        }
    }
}

/// The expansion of lines `i..` outside pipelines, with `counter` nodes so
/// far: each pipeline becomes a ROOT block; other lines are ignored.
#[verifier::opaque]
pub open spec fn expand_from(ls: Seq<Seq<char>>, i: int, counter: nat, reg: Seq<AslEntry>) -> Result<Seq<char>, Seq<char>>
    decreases ls.len() - i,
{
    if i < 0 || i >= ls.len() {
        Ok(Seq::empty())
    } else {
        let t = trim(ls[i]);
        if t.len() == 0 || seq_starts_with(t, "//"@) {
            expand_from(ls, i + 1, counter, reg)
        } else if seq_starts_with(t, "@pipeline"@) {
            let idp = trim(t.subrange(9, t.len() as int));
            let pid = if idp.len() == 0 {
                "0xFF_MAIN"@
            } else {
                idp
            };
            match body_from(ls, i + 1, counter, reg) {
                Err(e) => Err(e),
                Ok((b, j, c)) => {
                    proof {
                        lemma_body_next(ls, i + 1, counter, reg);
                    }
                    match expand_from(ls, j, c, reg) {
                        Ok(rest) => Ok("\u{a7}ROOT "@ + pid + " {\n\n"@ + b + "}\n"@ + rest),
                        Err(e) => Err(e),
                    }
                },
            }
        } else {
            expand_from(ls, i + 1, counter, reg)
        }
    }
}

/// The expansion of an Aether-Short source: its pipelines as ROOT blocks, or
/// an error; a source without pipelines is an error.
pub open spec fn expand_spec(src: Seq<char>, reg: Seq<AslEntry>) -> Result<Seq<char>, Seq<char>> {
    match expand_from(lines(src), 0, 0, reg) {
        Ok(o) => if o.len() == 0 {
            Err(no_pipeline())
        } else {
            Ok(o)
        },
        Err(e) => Err(e),
    }
}


pub open spec fn is_comment_or_blank(t: Seq<char>) -> bool {
    t.len() == 0 || seq_starts_with(t, "//"@)
}

proof fn lemma_body_eof(ls: Seq<Seq<char>>, i: int, counter: nat, reg: Seq<AslEntry>)
    requires
        i >= ls.len(),
    ensures
        body_from(ls, i, counter, reg) == Err::<(Seq<char>, int, nat), Seq<char>>(end_missing()),
{
    reveal(body_from);
}

proof fn lemma_body_end(ls: Seq<Seq<char>>, i: int, counter: nat, reg: Seq<AslEntry>)
    requires
        0 <= i < ls.len(),
        trim(ls[i]) == "@end"@,
    ensures
        body_from(ls, i, counter, reg) == Ok::<(Seq<char>, int, nat), Seq<char>>((Seq::empty(), i + 1, counter)),
{
    reveal(body_from);
}

proof fn lemma_body_skip(ls: Seq<Seq<char>>, i: int, counter: nat, reg: Seq<AslEntry>)
    requires
        0 <= i < ls.len(),
        trim(ls[i]) != "@end"@,
        is_comment_or_blank(trim(ls[i])) || (!seq_starts_with(trim(ls[i]), "::CTX"@) && !is_node_line(trim(ls[i]))),
    ensures
        body_from(ls, i, counter, reg) == body_from(ls, i + 1, counter, reg),
{
    reveal(body_from);
}

proof fn lemma_body_ctx(ls: Seq<Seq<char>>, i: int, counter: nat, reg: Seq<AslEntry>)
    requires
        0 <= i < ls.len(),
        trim(ls[i]) != "@end"@,
        !is_comment_or_blank(trim(ls[i])),
        seq_starts_with(trim(ls[i]), "::CTX"@),
    ensures
        ({
            let t = trim(ls[i]);
            let (ctx, j) = ctx_from(ls, i + 1, brace_delta(t));
            body_from(ls, i, counter, reg) == prepend_body("  "@ + t + "\n"@ + ctx + "\n"@, body_from(ls, j, counter, reg))
        }),
{
    reveal(body_from);
    let t = trim(ls[i]);
    let (ctx, j) = ctx_from(ls, i + 1, brace_delta(t));
    match body_from(ls, j, counter, reg) {
        Ok((b, k, c)) => {
            assert(("  "@ + t + "\n"@ + ctx + "\n"@) + b =~= "  "@ + t + "\n"@ + ctx + "\n"@ + b);
        },
        Err(_) => {},
    }
}

proof fn lemma_body_node(ls: Seq<Seq<char>>, i: int, counter: nat, reg: Seq<AslEntry>)
    requires
        0 <= i < ls.len(),
        trim(ls[i]) != "@end"@,
        !is_comment_or_blank(trim(ls[i])),
        !seq_starts_with(trim(ls[i]), "::CTX"@),
        is_node_line(trim(ls[i])),
    ensures
        body_from(ls, i, counter, reg) == match expand_node_spec(trim(ls[i]), ls.subrange(i + 1, ls.len() as int), reg, counter + 1) {
            Err(e) => Err(e),
            Ok((node, n)) => prepend_body(node, body_from(ls, i + 1 + n, counter + 1, reg)),
        },
{
    reveal(body_from);
}

proof fn lemma_expand_eof(ls: Seq<Seq<char>>, i: int, counter: nat, reg: Seq<AslEntry>)
    requires
        i >= ls.len(),
    ensures
        expand_from(ls, i, counter, reg) == Ok::<Seq<char>, Seq<char>>(Seq::empty()),
{
    reveal(expand_from);
}

proof fn lemma_expand_skip(ls: Seq<Seq<char>>, i: int, counter: nat, reg: Seq<AslEntry>)
    requires
        0 <= i < ls.len(),
        is_comment_or_blank(trim(ls[i])) || !seq_starts_with(trim(ls[i]), "@pipeline"@),
    ensures
        expand_from(ls, i, counter, reg) == expand_from(ls, i + 1, counter, reg),
{
    reveal(expand_from);
}

/// The ROOT header of a pipeline line.
pub open spec fn root_header(t: Seq<char>) -> Seq<char> {
    let idp = trim(t.subrange(9, t.len() as int));
    "\u{a7}ROOT "@ + (if idp.len() == 0 {
        "0xFF_MAIN"@
    } else {
        idp
    }) + " {\n\n"@
}

proof fn lemma_expand_pipeline(ls: Seq<Seq<char>>, i: int, counter: nat, reg: Seq<AslEntry>)
    requires
        0 <= i < ls.len(),
        !is_comment_or_blank(trim(ls[i])),
        seq_starts_with(trim(ls[i]), "@pipeline"@),
    ensures
        expand_from(ls, i, counter, reg) == match body_from(ls, i + 1, counter, reg) {
            Err(e) => Err(e),
            Ok((b, j, c)) => prepend_text(root_header(trim(ls[i])) + b + "}\n"@, expand_from(ls, j, c, reg)),
        },
{
    reveal(expand_from);
    let t = trim(ls[i]);
    match body_from(ls, i + 1, counter, reg) {
        Ok((b, j, c)) => {
            match expand_from(ls, j, c, reg) {
                Ok(rest) => {
                    let idp = trim(t.subrange(9, t.len() as int));
                    let pid = if idp.len() == 0 { "0xFF_MAIN"@ } else { idp };
                    assert(root_header(t) + b + "}\n"@ + rest =~= "\u{a7}ROOT "@ + pid + " {\n\n"@ + b + "}\n"@ + rest);
                },
                Err(_) => {},
            }
        },
        Err(_) => {},
    }
}

fn vec_is(v: &Vec<char>, s: &str) -> (r: bool)
    ensures
        r == (v@ == s@),
{
    let w = chars_of(s);
    if v.len() != w.len() {
        return false;
    }
    let mut i: usize = 0;
    while i < v.len()
        invariant
            0 <= i <= v@.len(),
            v@.len() == w@.len(),
            w@ == s@,
            forall|j: int| 0 <= j < i ==> v@[j] == w@[j],
        decreases v@.len() - i,
    {
        if v[i] != w[i] {
            return false;
        }
        i = i + 1;
    }
    assert(v@ =~= w@);
    true
}

fn vec_has(v: &Vec<char>, c: char) -> (r: bool)
    ensures
        r == (crate::text::find_char(v@, c) is Some),
{
    assert(v@.subrange(0, v@.len() as int) == v@);
    crate::text::find_char_from(v, c, 0).is_some()
}

fn starts_lit(v: &Vec<char>, p: &str) -> (r: bool)
    ensures
        r == seq_starts_with(v@, p@),
{
    let pv = chars_of(p);
    vec_starts_with(v, &pv)
}

pub open spec fn prepend_body(p: Seq<char>, r: Result<(Seq<char>, int, nat), Seq<char>>) -> Result<(Seq<char>, int, nat), Seq<char>> {
    match r {
        Ok((b, k, c)) => Ok((p + b, k, c)),
        Err(e) => Err(e),
    }
}

proof fn lemma_delta_bound(s: Seq<char>)
    ensures
        -(s.len() as int) <= brace_delta(s) <= s.len(),
{
    lemma_count_le(s, '{');
    lemma_count_le(s, '}');
}

proof fn lemma_total_step(ls: Seq<Seq<char>>, j: int)
    requires
        0 <= j < ls.len(),
    ensures
        total_len(ls.subrange(0, j + 1)) == total_len(ls.subrange(0, j)) + ls[j].len(),
        total_len(ls.subrange(0, j + 1)) <= total_len(ls),
{
    assert(ls.subrange(0, j + 1).drop_last() == ls.subrange(0, j));
    lemma_total_prefix(ls, j + 1);
}

fn pipeline_body(ls: &Vec<Vec<char>>, start: usize, counter: u64, registry: &AslRegistry) -> (r: Result<(Vec<char>, usize, u64), String>)
    requires
        start <= ls@.len(),
        counter <= start,
        total_len(views(ls@)) <= usize::MAX,
    ensures
        match body_from(views(ls@), start as int, counter as nat, registry.entries@) {
            Ok((b, k, c)) => r matches Ok((b2, k2, c2)) && b2@ == b && k2 == k && c2 == c,
            Err(e) => r matches Err(e2) && e2@ == e,
        },
{
    let ghost lv = views(ls@);
    let ghost reg = registry.entries@;
    let n = ls.len();
    let mut out: Vec<char> = Vec::new();
    let mut i: usize = start;
    let mut cnt: u64 = counter;
    proof {
        match body_from(lv, start as int, counter as nat, reg) {
            Ok((b, k, c)) => {
                assert(Seq::<char>::empty() + b =~= b);
            },
            Err(_) => {},
        }
    }
    loop
        invariant
            start <= i <= ls@.len(),
            n == ls@.len(),
            cnt <= i,
            lv == views(ls@),
            reg == registry.entries@,
            total_len(lv) <= usize::MAX,
            body_from(lv, start as int, counter as nat, reg) == prepend_body(out@, body_from(lv, i as int, cnt as nat, reg)),
        decreases ls@.len() - i,
    {
        if i >= n {
            proof {
                lemma_body_eof(lv, i as int, cnt as nat, reg);
            }
            return Err(owned("Unexpected end of file \u{2014} missing @end"));
        }
        proof {
            lemma_trim_len(lv[i as int]);
            lemma_total_step(lv, i as int);
        }
        let t = trim_vec(&ls[i]);
        let ghost o0 = out@;
        if vec_is(&t, "@end") {
            proof {
                lemma_body_end(lv, i as int, cnt as nat, reg);
                assert(o0 + Seq::<char>::empty() =~= o0);
            }
            return Ok((out, i + 1, cnt));
        } else if t.len() == 0 || starts_lit(&t, "//") {
            proof {
                lemma_body_skip(lv, i as int, cnt as nat, reg);
            }
            i = i + 1;
        } else if starts_lit(&t, "::CTX") {
            proof {
                lemma_body_ctx(lv, i as int, cnt as nat, reg);
                lemma_ctx_next(lv, i + 1, brace_delta(t@));
            }
            let d0 = count_braces(&t);
            proof {
                lemma_delta_bound(t@);
            }
            push_chars(&mut out, "  ");
            push_all(&mut out, &t);
            push_chars(&mut out, "\n");
            let ghost o1 = out@;
            assert(o1 =~= o0 + ("  "@ + t@ + "\n"@));
            let mut depth: i128 = d0;
            let mut j: usize = i + 1;
            proof {
                assert(out@.subrange(o1.len() as int, out@.len() as int) =~= Seq::<char>::empty());
                assert(out@.subrange(0, o1.len() as int) =~= o1);
                assert(Seq::<char>::empty() + ctx_from(lv, j as int, depth as int).0 =~= ctx_from(lv, j as int, depth as int).0);
            }
            while depth > 0 && j < n
                invariant
                    i + 1 <= j <= ls@.len(),
                    n == ls@.len(),
                    lv == views(ls@),
                    total_len(lv) <= usize::MAX,
                    -(total_len(lv.subrange(0, j as int)) as int) <= depth <= total_len(lv.subrange(0, j as int)),
                    ctx_from(lv, i + 1, d0 as int) == (
                        out@.subrange(o1.len() as int, out@.len() as int) + ctx_from(lv, j as int, depth as int).0,
                        ctx_from(lv, j as int, depth as int).1,
                    ),
                    out@.subrange(0, o1.len() as int) == o1,
                    o1.len() <= out@.len(),
                decreases ls@.len() - j,
            {
                proof {
                    lemma_total_step(lv, j as int);
                    lemma_delta_bound(lv[j as int]);
                }
                let ghost before = out@;
                push_chars(&mut out, "  ");
                push_all(&mut out, &ls[j]);
                push_chars(&mut out, "\n");
                let dd = count_braces(&ls[j]);
                proof {
                    assert(out@ == before + ("  "@ + lv[j as int] + "\n"@));
                    assert(out@.subrange(0, o1.len() as int) =~= before.subrange(0, o1.len() as int));
                    assert(out@.subrange(o1.len() as int, out@.len() as int) =~= before.subrange(o1.len() as int, before.len() as int) + ("  "@ + lv[j as int] + "\n"@));
                    let nd = depth + dd;
                    assert(ctx_from(lv, j as int, depth as int) == ("  "@ + lv[j as int] + "\n"@ + ctx_from(lv, j + 1, nd as int).0, ctx_from(lv, j + 1, nd as int).1));
                    assert(before.subrange(o1.len() as int, before.len() as int) + ("  "@ + lv[j as int] + "\n"@ + ctx_from(lv, j + 1, nd as int).0)
                        =~= out@.subrange(o1.len() as int, out@.len() as int) + ctx_from(lv, j + 1, nd as int).0);
                }
                depth = depth + dd;
                j = j + 1;
            }
            let ghost ctx_text = out@.subrange(o1.len() as int, out@.len() as int);
            assert(ctx_from(lv, j as int, depth as int) == (Seq::<char>::empty(), j as int));
            assert(out@ =~= out@.subrange(0, o1.len() as int) + ctx_text);
            push_chars(&mut out, "\n");
            proof {
                assert(ctx_text + Seq::<char>::empty() =~= ctx_text);
                assert(ctx_from(lv, i + 1, brace_delta(t@)) == (ctx_text, j as int));
                assert(out@ =~= o0 + ("  "@ + t@ + "\n"@ + ctx_text + "\n"@));
                match body_from(lv, j as int, cnt as nat, reg) {
                    Ok((b, k, c)) => {
                        assert(o0 + (("  "@ + t@ + "\n"@ + ctx_text + "\n"@) + b) =~= out@ + b);
                    },
                    Err(_) => {},
                }
            }
            i = j;
        } else if starts_lit(&t, "$") && vec_has(&t, '=') && vec_has(&t, '@') {
            proof {
                lemma_body_node(lv, i as int, cnt as nat, reg);
                lemma_node_consumed(t@, lv.subrange(i + 1, lv.len() as int), reg, (cnt + 1) as nat);
            }
            match expand_node_at(&t, ls, i + 1, registry, cnt + 1) {
                Err(e) => {
                    return Err(e);
                },
                Ok((node, used)) => {
                    push_all(&mut out, &node);
                    proof {
                        match body_from(lv, i + 1 + used, (cnt + 1) as nat, reg) {
                            Ok((b, k, c)) => {
                                assert(o0 + (node@ + b) =~= out@ + b);
                            },
                            Err(_) => {},
                        }
                    }
                    i = i + 1 + used;
                    cnt = cnt + 1;
                },
            }
        } else {
            proof {
                lemma_body_skip(lv, i as int, cnt as nat, reg);
            }
            i = i + 1;
        }
    }
}

pub open spec fn prepend_text(p: Seq<char>, r: Result<Seq<char>, Seq<char>>) -> Result<Seq<char>, Seq<char>> {
    match r {
        Ok(x) => Ok(p + x),
        Err(e) => Err(e),
    }
}

/// Expands an Aether-Short source into Aether source: each `@pipeline` ..
/// `@end` block becomes a ROOT block, with node safety levels and default
/// languages from the registry.
pub fn expand(source: &str, registry: &AslRegistry) -> (r: Result<String, String>)
    ensures
        match expand_spec(source@, registry.entries@) {
            Ok(o) => r matches Ok(o2) && o2@ == o,
            Err(e) => r matches Err(e2) && e2@ == e,
        },
{
    let src = chars_of(source);
    let _ = src.len();
    let ls = split_lines(&src);
    let ghost lv = views(ls@);
    let ghost reg = registry.entries@;
    proof {
        assert(lv =~= lines(source@));
        lemma_lines_total(source@);
    }
    let n = ls.len();
    let mut out: Vec<char> = Vec::new();
    let mut i: usize = 0;
    let mut cnt: u64 = 0;
    proof {
        match expand_from(lv, 0, 0, reg) {
            Ok(x) => {
                assert(Seq::<char>::empty() + x =~= x);
            },
            Err(_) => {},
        }
    }
    while i < n
        invariant
            0 <= i <= ls@.len(),
            n == ls@.len(),
            cnt <= i,
            lv == views(ls@),
            lv == lines(source@),
            reg == registry.entries@,
            total_len(lv) <= usize::MAX,
            expand_from(lv, 0, 0, reg) == prepend_text(out@, expand_from(lv, i as int, cnt as nat, reg)),
        decreases ls@.len() - i,
    {
        proof {
            lemma_trim_len(lv[i as int]);
        }
        let t = trim_vec(&ls[i]);
        let ghost o0 = out@;
        if t.len() == 0 || starts_lit(&t, "//") {
            proof {
                lemma_expand_skip(lv, i as int, cnt as nat, reg);
            }
            i = i + 1;
        } else if starts_lit(&t, "@pipeline") {
            proof {
                reveal_strlit("@pipeline");
                lemma_expand_pipeline(lv, i as int, cnt as nat, reg);
                lemma_body_next(lv, i + 1, cnt as nat, reg);
            }
            let idp = trim_vec(&slice_vec(&t, 9, t.len()));
            push_chars(&mut out, "\u{a7}ROOT ");
            if idp.len() == 0 {
                push_chars(&mut out, "0xFF_MAIN");
            } else {
                push_all(&mut out, &idp);
            }
            push_chars(&mut out, " {\n\n");
            assert(out@ =~= o0 + root_header(t@));
            match pipeline_body(&ls, i + 1, cnt, registry) {
                Err(e) => {
                    return Err(e);
                },
                Ok((b, j, c)) => {
                    push_all(&mut out, &b);
                    push_chars(&mut out, "}\n");
                    proof {
                        match expand_from(lv, j as int, c as nat, reg) {
                            Ok(x) => {
                                assert(o0 + (root_header(t@) + b@ + "}\n"@ + x) =~= out@ + x);
                            },
                            Err(_) => {},
                        }
                    }
                    i = j;
                    cnt = c;
                },
            }
        } else {
            proof {
                lemma_expand_skip(lv, i as int, cnt as nat, reg);
            }
            i = i + 1;
        }
    }
    proof {
        lemma_expand_eof(lv, i as int, cnt as nat, reg);
        assert(out@ + Seq::<char>::empty() =~= out@);
    }
    if out.len() == 0 {
        return Err(owned("No @pipeline blocks found in Aether-Short source"));
    }
    Ok(string_of(out.as_slice()))
}

} // verus!
