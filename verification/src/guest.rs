//! Guest-language glue: dedenting code, naming injected variables, and the
//! wrapper scripts that run Python and JavaScript nodes.

use vstd::prelude::*;
use crate::ast::GuestLang;
use crate::json::{JVal, JsonValue, json_text, jview, lemma_mviews, mviews, push_all, push_chars, push_json};
use crate::text::{
    chars_of, is_whitespace, is_ws, join, join_vecs, lead_ws, lead_ws_count, lemma_lead_ws, lines,
    seq_starts_with, slice_vec, split_lines, string_of, trim, trim_start, trim_vec,
    vec_starts_with,
};

verus! {

// ---------------------------------------------------------------------------
// UTF-8 widths and indentation
// ---------------------------------------------------------------------------

/// Number of bytes of a character in UTF-8.
pub open spec fn char_width(c: char) -> nat {
    if (c as u32) < 0x80 {
        1
    } else if (c as u32) < 0x800 {
        2
    } else if (c as u32) < 0x10000 {
        3
    } else {
        4
    }
}

/// Number of bytes of a text in UTF-8.
pub open spec fn bytes_of(s: Seq<char>) -> nat
    decreases s.len(),
{
    if s.len() == 0 {
        0
    } else {
        bytes_of(s.drop_last()) + char_width(s.last())
    }
}

/// Indentation of a line in bytes (`line.len() - line.trim_start().len()`).
pub open spec fn indent(l: Seq<char>) -> nat {
    bytes_of(l.subrange(0, lead_ws(l) as int))
}

fn width(c: char) -> (r: u128)
    ensures
        r == char_width(c),
{
    let u = c as u32;
    if u < 0x80 {
        1
    } else if u < 0x800 {
        2
    } else if u < 0x10000 {
        3
    } else {
        4
    }
}

proof fn lemma_bytes_of_bound(s: Seq<char>)
    ensures
        bytes_of(s) <= 4 * s.len(),
    decreases s.len(),
{
    if s.len() > 0 {
        lemma_bytes_of_bound(s.drop_last());
    }
}

/// UTF-8 byte count of `s[0..n]`.
fn prefix_bytes(s: &Vec<char>, n: usize) -> (r: u128)
    requires
        n <= s@.len(),
    ensures
        r == bytes_of(s@.subrange(0, n as int)),
{
    let mut total: u128 = 0;
    let mut i: usize = 0;
    while i < n
        invariant
            0 <= i <= n <= s@.len(),
            total == bytes_of(s@.subrange(0, i as int)),
        decreases n - i,
    {
        proof {
            lemma_bytes_of_bound(s@.subrange(0, i as int));
            let p = s@.subrange(0, i + 1);
            assert(p.drop_last() == s@.subrange(0, i as int));
        }
        total = total + width(s[i]);
        i = i + 1;
    }
    total
}

/// The indentation of a line, in bytes.
pub fn line_indent(l: &Vec<char>) -> (r: u128)
    ensures
        r == indent(l@),
{
    proof {
        lemma_lead_ws(l@);
    }
    let k = lead_ws_count(l);
    prefix_bytes(l, k)
}

/// Number of leading characters that make up `b` bytes (the first character
/// count whose byte total reaches `b`).
pub open spec fn cut_chars(l: Seq<char>, b: int) -> nat
    decreases l.len(),
{
    if b <= 0 || l.len() == 0 {
        0
    } else {
        1 + cut_chars(l.drop_first(), b - char_width(l[0]))
    }
}

/// `line[b..]` is a valid slice: `b` falls on a character boundary.
pub open spec fn cut_ok(l: Seq<char>, b: nat) -> bool {
    cut_chars(l, b as int) <= l.len() && bytes_of(l.subrange(0, cut_chars(l, b as int) as int)) == b
}

proof fn lemma_bytes_of_first(s: Seq<char>)
    requires
        s.len() > 0,
    ensures
        bytes_of(s) == char_width(s[0]) + bytes_of(s.drop_first()),
    decreases s.len(),
{
    if s.len() > 1 {
        let a = s.drop_last();
        let b = s.drop_first();
        lemma_bytes_of_first(a);
        assert(a.drop_first() == b.drop_last());
        assert(b.last() == s.last());
        assert(a[0] == s[0]);
        assert(bytes_of(s) == bytes_of(a) + char_width(s.last()));
        assert(bytes_of(b) == bytes_of(b.drop_last()) + char_width(b.last()));
    } else {
        assert(s.last() == s[0]);
        assert(s.drop_first().len() == 0);
        assert(s.drop_last().len() == 0);
        assert(bytes_of(s.drop_last()) == 0);
        assert(bytes_of(s.drop_first()) == 0);
    }
}

proof fn lemma_cut_chars(l: Seq<char>, b: int)
    ensures
        cut_chars(l, b) <= l.len(),
        b > 0 && cut_chars(l, b) < l.len() ==> bytes_of(l.subrange(0, cut_chars(l, b) as int)) >= b,
        forall|k: int| 0 <= k < cut_chars(l, b) ==> bytes_of(#[trigger] l.subrange(0, k)) < b,
    decreases l.len(),
{
    if b > 0 && l.len() > 0 {
        let t = l.drop_first();
        let w = char_width(l[0]);
        lemma_cut_chars(t, b - w);
        let c = cut_chars(l, b);
        assert forall|k: int| 0 <= k < c implies bytes_of(#[trigger] l.subrange(0, k)) < b by {
            if k > 0 {
                lemma_bytes_of_first(l.subrange(0, k));
                assert(l.subrange(0, k).drop_first() == t.subrange(0, k - 1));
                assert(bytes_of(t.subrange(0, k - 1)) < b - w);
            }
        }
        if c < l.len() {
            lemma_bytes_of_first(l.subrange(0, c as int));
            assert(l.subrange(0, c as int).drop_first() == t.subrange(0, c - 1));
        }
    }
}

/// Number of leading characters that make up `b` bytes, when `b` falls on a
/// character boundary.
pub fn cut_count(l: &Vec<char>, b: u128) -> (r: Option<usize>)
    ensures
        r matches Some(k) ==> cut_ok(l@, b as nat) && k == cut_chars(l@, b as int),
        r is None ==> !cut_ok(l@, b as nat),
{
    proof {
        lemma_cut_chars(l@, b as int);
    }
    let mut k: usize = 0;
    let mut total: u128 = 0;
    while k < l.len() && total < b
        invariant
            0 <= k <= l@.len(),
            total == bytes_of(l@.subrange(0, k as int)),
            k <= cut_chars(l@, b as int),
            cut_chars(l@, b as int) <= l@.len(),
            forall|j: int| 0 <= j < cut_chars(l@, b as int) ==> bytes_of(#[trigger] l@.subrange(0, j)) < b,
            b > 0 && cut_chars(l@, b as int) < l@.len() ==> bytes_of(l@.subrange(0, cut_chars(l@, b as int) as int)) >= b,
        decreases l@.len() - k,
    {
        proof {
            lemma_bytes_of_bound(l@.subrange(0, k as int));
            let p = l@.subrange(0, k + 1);
            assert(p.drop_last() == l@.subrange(0, k as int));
        }
        total = total + width(l[k]);
        k = k + 1;
    }
    proof {
        lemma_cut_chars(l@, b as int);
        if k < cut_chars(l@, b as int) {
            assert(bytes_of(l@.subrange(0, k as int)) < b);
        }
    }
    if total == b {
        Some(k)
    } else {
        None
    }
}

// ---------------------------------------------------------------------------
// Dedent
// ---------------------------------------------------------------------------

pub open spec fn blank(l: Seq<char>) -> bool {
    trim(l).len() == 0
}

/// Smallest indentation among the non-blank lines, if any.
pub open spec fn min_indent(ls: Seq<Seq<char>>) -> Option<nat>
    decreases ls.len(),
{
    if ls.len() == 0 {
        None
    } else {
        let prev = min_indent(ls.drop_last());
        if blank(ls.last()) {
            prev
        } else {
            match prev {
                Some(m) => Some(if indent(ls.last()) < m { indent(ls.last()) } else { m }),
                None => Some(indent(ls.last())),
            }
        }
    }
}

pub open spec fn dedent_params(ls: Seq<Seq<char>>) -> (nat, nat) {
    let min = match min_indent(ls.drop_first()) {
        Some(m) => m,
        None => 0,
    };
    let first = if !blank(ls[0]) { indent(ls[0]) } else { 0 };
    let eff = if first == 0 && min > 0 { min } else if first < min { first } else { min };
    (first, eff)
}

/// One line after dedenting.
pub open spec fn dedent_line(l: Seq<char>, i: int, first: nat, eff: nat) -> Seq<char> {
    if blank(l) {
        Seq::empty()
    } else if i == 0 && first == 0 {
        l
    } else if indent(l) >= eff {
        l.subrange(cut_chars(l, eff as int) as int, l.len() as int)
    } else {
        trim_start(l)
    }
}

/// Dedenting does not slice a line inside a character: every line that loses
/// `eff` bytes of indentation has a character boundary there.
pub open spec fn dedent_ok(code: Seq<char>) -> bool {
    let ls = lines(code);
    ls.len() > 0 ==> {
        let (first, eff) = dedent_params(ls);
        forall|i: int|
            0 <= i < ls.len() && !blank(#[trigger] ls[i]) && !(i == 0 && first == 0) && indent(ls[i])
                >= eff ==> cut_ok(ls[i], eff)
    }
}

/// Removes the common indentation of a code block: the smallest indentation
/// of the non-blank lines after the first sets it (the first line's own
/// indentation caps it when that line is indented); blank lines become empty.
pub open spec fn dedent_spec(code: Seq<char>) -> Seq<char> {
    let ls = lines(code);
    if ls.len() == 0 {
        Seq::empty()
    } else {
        let (first, eff) = dedent_params(ls);
        join(Seq::new(ls.len(), |i: int| dedent_line(ls[i], i, first, eff)), seq!['\n'])
    }
}

fn is_blank(l: &Vec<char>) -> (r: bool)
    ensures
        r == blank(l@),
{
    let t = trim_vec(l);
    t.len() == 0
}

/// Dedents a code block; `None` where cutting the common indentation, counted
/// in bytes, off a line would split a character (a width that falls inside a
/// multi-byte space).
pub fn dedent(code: &str) -> (r: Option<String>)
    ensures
        r is Some <==> dedent_ok(code@),
        r matches Some(t) ==> t@ == dedent_spec(code@),
{
    let cv = chars_of(code);
    let ls = split_lines(&cv);
    let ghost lsv = ls@.map_values(|l: Vec<char>| l@);
    assert(lsv == lines(code@));
    if ls.len() == 0 {
        return Some(string_of(&[]));
    }
    // smallest indentation among non-blank lines after the first
    let mut min: Option<u128> = None;
    let mut i: usize = 1;
    assert(lsv.drop_first().subrange(0, 0).len() == 0);
    while i < ls.len()
        invariant
            1 <= i <= ls@.len(),
            lsv == ls@.map_values(|l: Vec<char>| l@),
            (match min {
                Some(m) => Some(m as nat),
                None => None::<nat>,
            }) == min_indent(lsv.drop_first().subrange(0, i - 1)),
        decreases ls@.len() - i,
    {
        let ghost p = lsv.drop_first().subrange(0, i as int);
        assert(p.drop_last() == lsv.drop_first().subrange(0, i - 1));
        assert(p.last() == ls@[i as int]@);
        if !is_blank(&ls[i]) {
            let d = line_indent(&ls[i]);
            min = match min {
                Some(m) => Some(if d < m { d } else { m }),
                None => Some(d),
            };
        }
        i = i + 1;
    }
    assert(lsv.drop_first().subrange(0, ls@.len() - 1) == lsv.drop_first());
    let min_v: u128 = match min {
        Some(m) => m,
        None => 0,
    };
    let first: u128 = if !is_blank(&ls[0]) { line_indent(&ls[0]) } else { 0 };
    let eff: u128 = if first == 0 && min_v > 0 {
        min_v
    } else if first < min_v {
        first
    } else {
        min_v
    };
    assert((first as nat, eff as nat) == dedent_params(lsv));
    let ghost outv = Seq::new(lsv.len(), |k: int| dedent_line(lsv[k], k, first as nat, eff as nat));
    let mut out: Vec<Vec<char>> = Vec::new();
    let mut k: usize = 0;
    while k < ls.len()
        invariant
            0 <= k <= ls@.len(),
            lsv == ls@.map_values(|l: Vec<char>| l@),
            lsv == lines(code@),
            lsv.len() > 0,
            forall|j: int|
                0 <= j < k && !blank(#[trigger] lsv[j]) && !(j == 0 && first == 0) && indent(lsv[j])
                    >= eff ==> cut_ok(lsv[j], eff as nat),
            (first as nat, eff as nat) == dedent_params(lsv),
            outv == Seq::new(lsv.len(), |j: int| dedent_line(lsv[j], j, first as nat, eff as nat)),
            out@.len() == k,
            forall|j: int| 0 <= j < k ==> (#[trigger] out@[j])@ == outv[j],
        decreases ls@.len() - k,
    {
        let l = &ls[k];
        let line: Vec<char> = if is_blank(l) {
            Vec::new()
        } else if k == 0 && first == 0 {
            slice_vec(l, 0, l.len())
        } else if line_indent(l) >= eff {
            match cut_count(l, eff) {
                Some(c) => slice_vec(l, c, l.len()),
                None => {
                    assert(l@ == lsv[k as int]);
                    assert(!cut_ok(lsv[k as int], eff as nat));
                    return None;
                },
            }
        } else {
            crate::text::trim_start_vec(l)
        };
        proof {
            assert(l@ == lsv[k as int]);
            assert(l@.subrange(0, l@.len() as int) == l@);
        }
        out.push(line);
        k = k + 1;
    }
    assert(out@.map_values(|l: Vec<char>| l@) =~= outv);
    let sep = vec!['\n'];
    assert(sep@ =~= seq!['\n']);
    let joined = join_vecs(&out, &sep);
    assert(dedent_ok(code@));
    Some(string_of(joined.as_slice()))
}

proof fn lemma_lines_len(s: Seq<char>)
    ensures
        forall|j: int| 0 <= j < lines(s).len() ==> (#[trigger] lines(s)[j]).len() <= s.len(),
    decreases s.len(),
{
    if s.len() > 0 {
        crate::text::lemma_find_char(s, '\n');
        match crate::text::find_char(s, '\n') {
            Some(i) => {
                lemma_lines_len(s.subrange(i + 1, s.len() as int));
                let rest = lines(s.subrange(i + 1, s.len() as int));
                assert forall|j: int| 0 <= j < lines(s).len() implies (#[trigger] lines(s)[j]).len() <= s.len() by {
                    if j > 0 {
                        assert(lines(s)[j] == rest[j - 1]);
                    }
                }
            },
            None => {},
        }
    }
}


// ---------------------------------------------------------------------------
// Replacing, naming
// ---------------------------------------------------------------------------

/// `str::replace` with an empty pattern: `t` before every character and at the end.
pub open spec fn replace_empty(s: Seq<char>, t: Seq<char>) -> Seq<char>
    decreases s.len(),
{
    if s.len() == 0 {
        t
    } else {
        t + seq![s[0]] + replace_empty(s.drop_first(), t)
    }
}

/// `str::replace`: every non-overlapping occurrence of `p`, left to right,
/// replaced by `t`.
pub open spec fn replace_all(s: Seq<char>, p: Seq<char>, t: Seq<char>) -> Seq<char>
    decreases s.len(),
{
    if p.len() == 0 {
        replace_empty(s, t)
    } else if s.len() < p.len() {
        s
    } else if s.subrange(0, p.len() as int) == p {
        t + replace_all(s.subrange(p.len() as int, s.len() as int), p, t)
    } else {
        seq![s[0]] + replace_all(s.drop_first(), p, t)
    }
}

fn matches_at(s: &Vec<char>, i: usize, p: &Vec<char>) -> (r: bool)
    requires
        i <= s@.len(),
    ensures
        r == (i + p@.len() <= s@.len() && s@.subrange(i as int, i + p@.len()) == p@),
{
    if p.len() > s.len() - i {
        return false;
    }
    let mut k: usize = 0;
    while k < p.len()
        invariant
            0 <= k <= p@.len(),
            i + p@.len() <= s@.len(),
            s@.len() <= usize::MAX,
            forall|j: int| 0 <= j < k ==> s@[i + j] == p@[j],
        decreases p@.len() - k,
    {
        if s[i + k] != p[k] {
            assert(s@.subrange(i as int, i + p@.len())[k as int] != p@[k as int]);
            return false;
        }
        k = k + 1;
    }
    assert(s@.subrange(i as int, i + p@.len()) =~= p@);
    true
}

/// Replaces every occurrence of `p` in `s` by `t`, as `str::replace` does.
pub fn replace_vec(s: &Vec<char>, p: &Vec<char>, t: &Vec<char>) -> (r: Vec<char>)
    ensures
        r@ == replace_all(s@, p@, t@),
{
    let mut out: Vec<char> = Vec::new();
    let mut i: usize = 0;
    assert(s@.subrange(0, s@.len() as int) == s@);
    if p.len() == 0 {
        while i < s.len()
            invariant
                0 <= i <= s@.len(),
                p@.len() == 0,
                replace_all(s@, p@, t@) == out@ + replace_empty(s@.subrange(i as int, s@.len() as int), t@),
            decreases s@.len() - i,
        {
            let ghost rest = s@.subrange(i as int, s@.len() as int);
            assert(rest.drop_first() == s@.subrange(i + 1, s@.len() as int));
            assert(rest[0] == s@[i as int]);
            let ghost before = out@;
            push_all(&mut out, t);
            out.push(s[i]);
            assert(before + (t@ + seq![s@[i as int]] + replace_empty(rest.drop_first(), t@)) =~= out@ + replace_empty(rest.drop_first(), t@));
            i = i + 1;
        }
        push_all(&mut out, t);
        return out;
    }
    while i < s.len()
        invariant
            0 <= i <= s@.len(),
            p@.len() > 0,
            replace_all(s@, p@, t@) == out@ + replace_all(s@.subrange(i as int, s@.len() as int), p@, t@),
        decreases s@.len() - i,
    {
        let ghost rest = s@.subrange(i as int, s@.len() as int);
        let ghost before = out@;
        if matches_at(s, i, p) {
            assert(rest.subrange(0, p@.len() as int) == s@.subrange(i as int, i + p@.len()));
            assert(rest.subrange(p@.len() as int, rest.len() as int) == s@.subrange(i + p@.len(), s@.len() as int));
            push_all(&mut out, t);
            assert(before + (t@ + replace_all(s@.subrange(i + p@.len(), s@.len() as int), p@, t@)) =~= out@ + replace_all(s@.subrange(i + p@.len(), s@.len() as int), p@, t@));
            i = i + p.len();
        } else {
            if s.len() - i >= p.len() {
                assert(rest.subrange(0, p@.len() as int) == s@.subrange(i as int, i + p@.len()));
                assert(rest.drop_first() == s@.subrange(i + 1, s@.len() as int));
                assert(rest[0] == s@[i as int]);
                out.push(s[i]);
                assert(before + (seq![s@[i as int]] + replace_all(s@.subrange(i + 1, s@.len() as int), p@, t@)) =~= out@ + replace_all(s@.subrange(i + 1, s@.len() as int), p@, t@));
                i = i + 1;
            } else {
                // the rest is shorter than the pattern: it stays as it is
                let tail = slice_vec(s, i, s.len());
                push_all(&mut out, &tail);
                assert(s@.subrange(s@.len() as int, s@.len() as int).len() == 0);
                assert(out@ + replace_all(s@.subrange(s@.len() as int, s@.len() as int), p@, t@) =~= out@);
                i = s.len();
            }
        }
    }
    assert(s@.subrange(i as int, s@.len() as int).len() == 0);
    assert(out@ + replace_all(s@.subrange(i as int, s@.len() as int), p@, t@) =~= out@);
    out
}

/// The characters of an address as a variable name: `$` dropped, `.` as `_`.
pub open spec fn sanitized_chars(s: Seq<char>) -> Seq<char>
    decreases s.len(),
{
    if s.len() == 0 {
        Seq::empty()
    } else {
        sanitized_chars(s.drop_last()) + if s.last() == '$' {
            Seq::empty()
        } else if s.last() == '.' {
            seq!['_']
        } else {
            seq![s.last()]
        }
    }
}

/// The guest variable name of an input address: `_ae_` and the address with
/// `$` removed and `.` turned into `_`.
pub open spec fn sanitized(addr: Seq<char>) -> Seq<char> {
    "_ae_"@ + sanitized_chars(addr)
}

pub fn sanitize_address(addr: &str) -> (r: String)
    ensures
        r@ == sanitized(addr@),
{
    let cs = chars_of(addr);
    let mut out: Vec<char> = Vec::new();
    push_chars(&mut out, "_ae_");
    let ghost start = out@;
    let mut i: usize = 0;
    while i < cs.len()
        invariant
            0 <= i <= cs@.len(),
            cs@ == addr@,
            start == "_ae_"@,
            out@ == start + sanitized_chars(cs@.subrange(0, i as int)),
        decreases cs@.len() - i,
    {
        let ghost p = cs@.subrange(0, i + 1);
        assert(p.drop_last() == cs@.subrange(0, i as int));
        let c = cs[i];
        if c == '$' {
        } else if c == '.' {
            out.push('_');
        } else {
            out.push(c);
        }
        assert(out@ =~= start + sanitized_chars(p));
        i = i + 1;
    }
    assert(cs@.subrange(0, cs@.len() as int) == cs@);
    string_of(out.as_slice())
}


// ---------------------------------------------------------------------------
// Wrapper scripts
// ---------------------------------------------------------------------------

/// The members of an inputs object (none for any other value).
pub open spec fn input_members(inputs: JVal) -> Seq<(Seq<char>, JVal)> {
    match inputs {
        JVal::Obj(m) => m,
        _ => Seq::empty(),
    }
}

/// Each input address in the code replaced by its variable name, one input
/// after the other.
pub open spec fn inject(code: Seq<char>, ms: Seq<(Seq<char>, JVal)>) -> Seq<char>
    decreases ms.len(),
{
    if ms.len() == 0 {
        code
    } else {
        replace_all(inject(code, ms.drop_last()), ms.last().0, sanitized(ms.last().0))
    }
}

pub open spec fn py_var_line(m: (Seq<char>, JVal)) -> Seq<char> {
    sanitized(m.0) + " = json.loads(r\'\'\'"@ + json_text(m.1) + "\'\'\')"@
}

pub open spec fn js_var_line(m: (Seq<char>, JVal)) -> Seq<char> {
    "const "@ + sanitized(m.0) + " = JSON.parse(`"@ + json_text(m.1) + "`);"@
}

/// The variable lines of the inputs, for Python or for JavaScript.
pub open spec fn var_lines(ms: Seq<(Seq<char>, JVal)>, python: bool) -> Seq<Seq<char>>
    decreases ms.len(),
{
    if ms.len() == 0 {
        Seq::empty()
    } else {
        var_lines(ms.drop_last(), python).push(
            if python { py_var_line(ms.last()) } else { js_var_line(ms.last()) },
        )
    }
}

/// Indentation of the first non-blank line (0 if there is none).
pub open spec fn first_nonblank_indent(ls: Seq<Seq<char>>) -> nat
    decreases ls.len(),
{
    if ls.len() == 0 {
        0
    } else if !blank(ls[0]) {
        indent(ls[0])
    } else {
        first_nonblank_indent(ls.drop_first())
    }
}

/// A top-level `return X` line becomes `_ae_result = X`, indentation kept.
pub open spec fn return_line(l: Seq<char>, base: nat) -> Seq<char> {
    let t = trim_start(l);
    if seq_starts_with(t, "return "@) && indent(l) <= base {
        l.subrange(0, lead_ws(l) as int) + "_ae_result = "@ + t.subrange(7, t.len() as int)
    } else {
        l
    }
}

pub open spec fn top_level(code: Seq<char>) -> Seq<char> {
    let ls = lines(code);
    let base = first_nonblank_indent(ls);
    join(Seq::new(ls.len(), |i: int| return_line(ls[i], base)), seq!['\n'])
}

/// The Python program that runs a node: inputs bound as JSON-decoded
/// variables, the node's dedented code with input addresses renamed and its
/// top-level `return` captured, and the result printed as JSON.
pub open spec fn python_script(code: Seq<char>, inputs: JVal) -> Seq<char> {
    let ms = input_members(inputs);
    let processed = inject(dedent_spec(code), ms);
    let vars = join(var_lines(ms, true), seq!['\n']);
    "import json, sys\n\n# Inject inputs from Aether ledger\n"@ + vars
        + "\n\n# User code\n_ae_result = None\n"@ + top_level(processed)
        + "\n\n# Output result as JSON\nif _ae_result is not None:\n    print(json.dumps(_ae_result))\nelse:\n    print(\"null\")\n"@
}

/// The JavaScript program that runs a node: inputs bound as parsed JSON
/// constants, the code with input addresses renamed inside a function, and
/// its result printed as JSON.
pub open spec fn js_script(code: Seq<char>, inputs: JVal) -> Seq<char> {
    let ms = input_members(inputs);
    let processed = inject(code, ms);
    let vars = join(var_lines(ms, false), seq!['\n']);
    "\n"@ + vars + "\n\nconst _ae_exec = () => {\n    "@ + processed
        + "\n};\n\nconst _ae_result = _ae_exec();\nif (_ae_result !== undefined && _ae_result !== null) {\n    console.log(JSON.stringify(_ae_result));\n} else {\n    console.log(\"null\");\n}\n"@
}

fn first_nonblank_indent_exec(ls: &Vec<Vec<char>>) -> (r: u128)
    ensures
        r == first_nonblank_indent(ls@.map_values(|l: Vec<char>| l@)),
{
    let ghost lv = ls@.map_values(|l: Vec<char>| l@);
    let mut i: usize = 0;
    assert(lv.subrange(0, lv.len() as int) == lv);
    while i < ls.len()
        invariant
            0 <= i <= ls@.len(),
            lv == ls@.map_values(|l: Vec<char>| l@),
            first_nonblank_indent(lv) == first_nonblank_indent(lv.subrange(i as int, lv.len() as int)),
        decreases ls@.len() - i,
    {
        let ghost rest = lv.subrange(i as int, lv.len() as int);
        assert(rest[0] == ls@[i as int]@);
        assert(rest.drop_first() == lv.subrange(i + 1, lv.len() as int));
        if !is_blank(&ls[i]) {
            return line_indent(&ls[i]);
        }
        i = i + 1;
    }
    0
}

fn return_line_exec(l: &Vec<char>, base: u128) -> (r: Vec<char>)
    ensures
        r@ == return_line(l@, base as nat),
{
    let t = crate::text::trim_start_vec(l);
    let ret: Vec<char> = vec!['r', 'e', 't', 'u', 'r', 'n', ' '];
    assert(ret@ =~= "return "@) by {
        reveal_strlit("return ");
    }
    if vec_starts_with(&t, &ret) && line_indent(l) <= base {
        proof {
            lemma_lead_ws(l@);
        }
        let k = lead_ws_count(l);
        let mut out = slice_vec(l, 0, k);
        push_chars(&mut out, "_ae_result = ");
        let rest = slice_vec(&t, 7, t.len());
        push_all(&mut out, &rest);
        out
    } else {
        slice_vec(l, 0, l.len())
    }
}

fn top_level_exec(code: &Vec<char>) -> (r: Vec<char>)
    ensures
        r@ == top_level(code@),
{
    let ls = split_lines(code);
    let ghost lv = ls@.map_values(|l: Vec<char>| l@);
    let base = first_nonblank_indent_exec(&ls);
    let mut out: Vec<Vec<char>> = Vec::new();
    let mut i: usize = 0;
    while i < ls.len()
        invariant
            0 <= i <= ls@.len(),
            lv == ls@.map_values(|l: Vec<char>| l@),
            lv == lines(code@),
            base == first_nonblank_indent(lv),
            out@.len() == i,
            forall|j: int| 0 <= j < i ==> (#[trigger] out@[j])@ == return_line(lv[j], base as nat),
        decreases ls@.len() - i,
    {
        let line = return_line_exec(&ls[i], base);
        out.push(line);
        i = i + 1;
    }
    assert(out@.map_values(|l: Vec<char>| l@) =~= Seq::new(lv.len(), |j: int| return_line(lv[j], base as nat)));
    let sep = vec!['\n'];
    assert(sep@ =~= seq!['\n']);
    join_vecs(&out, &sep)
}

/// Applies the input renaming and builds the variable lines.
fn inject_exec(code: &Vec<char>, inputs: &JsonValue, python: bool) -> (r: (Vec<char>, Vec<char>))
    ensures
        r.0@ == inject(code@, input_members(inputs@)),
        r.1@ == join(var_lines(input_members(inputs@), python), seq!['\n']),
{
    let mut processed: Vec<char> = slice_vec(code, 0, code.len());
    assert(code@.subrange(0, code@.len() as int) == code@);
    let mut vars: Vec<Vec<char>> = Vec::new();
    match inputs {
        JsonValue::Object(o) => {
            proof {
                lemma_mviews(o@);
            }
            let ghost ms = mviews(o@);
            let mut i: usize = 0;
            while i < o.len()
                invariant
                    0 <= i <= o@.len(),
                    ms == mviews(o@),
                    ms.len() == o@.len(),
                    forall|k: int| 0 <= k < o@.len() ==> #[trigger] ms[k] == (o@[k].0@, jview(o@[k].1)),
                    processed@ == inject(code@, ms.subrange(0, i as int)),
                    vars@.map_values(|l: Vec<char>| l@) == var_lines(ms.subrange(0, i as int), python),
                decreases o@.len() - i,
            {
                let ghost p = ms.subrange(0, i + 1);
                assert(p.drop_last() == ms.subrange(0, i as int));
                let name = sanitize_address(o[i].0.as_str());
                let addr = chars_of(o[i].0.as_str());
                let namev = chars_of(name.as_str());
                processed = replace_vec(&processed, &addr, &namev);
                let mut line: Vec<char> = Vec::new();
                if python {
                    push_chars(&mut line, name.as_str());
                    push_chars(&mut line, " = json.loads(r\'\'\'");
                    push_json(&mut line, &o[i].1);
                    push_chars(&mut line, "\'\'\')");
                } else {
                    push_chars(&mut line, "const ");
                    push_chars(&mut line, name.as_str());
                    push_chars(&mut line, " = JSON.parse(`");
                    push_json(&mut line, &o[i].1);
                    push_chars(&mut line, "`);");
                }
                let ghost lv = line@;
                let ghost before = vars@.map_values(|l: Vec<char>| l@);
                vars.push(line);
                assert(vars@.map_values(|l: Vec<char>| l@) =~= before.push(lv));
                i = i + 1;
            }
            assert(ms.subrange(0, ms.len() as int) == ms);

        },
        _ => {
            assert(vars@.map_values(|l: Vec<char>| l@) =~= Seq::<Seq<char>>::empty());
        },
    }
    let sep = vec!['\n'];
    assert(sep@ =~= seq!['\n']);
    let joined = join_vecs(&vars, &sep);
    (processed, joined)
}

/// Builds the Python program for a node's code and inputs.
pub fn python_script_for(code: &str, inputs: &JsonValue) -> (r: Option<String>)
    ensures
        r is Some <==> dedent_ok(code@),
        r matches Some(t) ==> t@ == python_script(code@, inputs@),
{
    let ded = match dedent(code) {
        Some(d) => d,
        None => return None,
    };
    let dv = chars_of(ded.as_str());
    let (processed, vars) = inject_exec(&dv, inputs, true);
    assert(processed@ == inject(dedent_spec(code@), input_members(inputs@)));
    let top = top_level_exec(&processed);
    let mut out: Vec<char> = Vec::new();
    push_chars(&mut out, "import json, sys\n\n# Inject inputs from Aether ledger\n");
    push_all(&mut out, &vars);
    push_chars(&mut out, "\n\n# User code\n_ae_result = None\n");
    push_all(&mut out, &top);
    push_chars(&mut out, "\n\n# Output result as JSON\nif _ae_result is not None:\n    print(json.dumps(_ae_result))\nelse:\n    print(\"null\")\n");
    Some(string_of(out.as_slice()))
}

/// Builds the JavaScript program for a node's code and inputs.
pub fn js_script_for(code: &str, inputs: &JsonValue) -> (r: String)
    ensures
        r@ == js_script(code@, inputs@),
{
    let cv = chars_of(code);
    let (processed, vars) = inject_exec(&cv, inputs, false);
    let mut out: Vec<char> = Vec::new();
    push_chars(&mut out, "\n");
    push_all(&mut out, &vars);
    push_chars(&mut out, "\n\nconst _ae_exec = () => {\n    ");
    push_all(&mut out, &processed);
    push_chars(&mut out, "\n};\n\nconst _ae_result = _ae_exec();\nif (_ae_result !== undefined && _ae_result !== null) {\n    console.log(JSON.stringify(_ae_result));\n} else {\n    console.log(\"null\");\n}\n");
    string_of(out.as_slice())
}


// ---------------------------------------------------------------------------
// Runner choice
// ---------------------------------------------------------------------------

/// How a node's code is run.
pub enum GuestPlan {
    /// `python -c <script>`; stdout is the JSON result.
    Python(String),
    /// `bun -e <script>` (or `node` when bun is absent); stdout is the JSON result.
    Js(String),
    /// `bash -c <code>`; stdout, stderr and exit code make the result.
    Shell(String),
    /// No process: the result is known.
    Done(Result<JsonValue, String>),
}

pub open spec fn lang_debug(l: GuestLang) -> Seq<char> {
    match l {
        GuestLang::Python => "Python"@,
        GuestLang::JS => "JS"@,
        GuestLang::Rust => "Rust"@,
        GuestLang::SQL => "SQL"@,
        GuestLang::Shell => "Shell"@,
        GuestLang::Text => "Text"@,
        GuestLang::TextGen => "TextGen"@,
        GuestLang::Wasm => "Wasm"@,
    }
}

/// Chooses the runner of a guest language: Python, JS and Shell run a
/// process; Text and TextGen give the code itself as a string; the others are
/// not implemented. `None` only for Python code that cannot be dedented.
pub fn plan_guest(lang: GuestLang, code: &str, inputs: &JsonValue) -> (r: Option<GuestPlan>)
    ensures
        r is None <==> (lang == GuestLang::Python && !dedent_ok(code@)),
        r matches Some(p) ==> match lang {
            GuestLang::Python => p matches GuestPlan::Python(s) && s@ == python_script(code@, inputs@),
            GuestLang::JS => p matches GuestPlan::Js(s) && s@ == js_script(code@, inputs@),
            GuestLang::Shell => p matches GuestPlan::Shell(s) && s@ == code@,
            GuestLang::Text | GuestLang::TextGen => p matches GuestPlan::Done(Ok(v)) && v@ == JVal::Str(code@),
            _ => p matches GuestPlan::Done(Err(m)) && m@ == "Runner for "@ + lang_debug(lang) + " is not yet implemented"@,
        },
{
    match lang {
        GuestLang::Python => match python_script_for(code, inputs) {
            Some(s) => Some(GuestPlan::Python(s)),
            None => None,
        },
        GuestLang::JS => Some(GuestPlan::Js(js_script_for(code, inputs))),
        GuestLang::Shell => Some(GuestPlan::Shell(crate::text::owned(code))),
        GuestLang::Text | GuestLang::TextGen => Some(GuestPlan::Done(Ok(JsonValue::String(crate::text::owned(code))))),
        _ => {
            let name = match lang {
                GuestLang::Rust => "Rust",
                GuestLang::SQL => "SQL",
                _ => "Wasm",
            };
            let mut out: Vec<char> = Vec::new();
            push_chars(&mut out, "Runner for ");
            push_chars(&mut out, name);
            push_chars(&mut out, " is not yet implemented");
            Some(GuestPlan::Done(Err(string_of(out.as_slice()))))
        },
    }
}


// ---------------------------------------------------------------------------
// Process results
// ---------------------------------------------------------------------------

/// What the standard output of a Python or JavaScript run holds.
pub enum StdoutResult {
    /// Nothing, or `null`: the result is null.
    Null,
    /// This (trimmed) text, to be read as JSON.
    Json(String),
}

/// Reads the standard output of a run: trimmed, empty or `null` gives null.
pub fn stdout_result(raw: &str) -> (r: StdoutResult)
    ensures
        match r {
            StdoutResult::Null => trim(raw@).len() == 0 || trim(raw@) == "null"@,
            StdoutResult::Json(t) => t@ == trim(raw@) && trim(raw@).len() != 0 && trim(raw@) != "null"@,
        },
{
    proof {
        reveal_strlit("null");
    }
    let cs = chars_of(raw);
    let t = trim_vec(&cs);
    let nl = chars_of("null");
    let is_null = t.len() == 4 && vec_starts_with(&t, &nl);
    proof {
        if t@ == "null"@ {
            assert(t@.subrange(0, 4) == "null"@);
        }
        if is_null {
            assert(t@ =~= t@.subrange(0, 4));
        }
    }
    if t.len() == 0 || is_null {
        StdoutResult::Null
    } else {
        StdoutResult::Json(string_of(t.as_slice()))
    }
}

/// The message of a run that exited with failure.
pub fn run_failed(runner: &str, stderr: &str) -> (r: String)
    ensures
        r@ == runner@ + " execution failed:\n"@ + stderr@,
{
    let mut out: Vec<char> = Vec::new();
    push_chars(&mut out, runner);
    push_chars(&mut out, " execution failed:\n");
    push_chars(&mut out, stderr);
    string_of(out.as_slice())
}

/// The message of a run whose output is not JSON.
pub fn output_not_json(runner: &str, error: &str, stdout: &str) -> (r: String)
    ensures
        r@ == runner@ + " output is not valid JSON: "@ + error@ + " (output was: "@ + stdout@ + ")"@,
{
    let mut out: Vec<char> = Vec::new();
    push_chars(&mut out, runner);
    push_chars(&mut out, " output is not valid JSON: ");
    push_chars(&mut out, error);
    push_chars(&mut out, " (output was: ");
    push_chars(&mut out, stdout);
    push_chars(&mut out, ")");
    string_of(out.as_slice())
}

/// The result of a shell run: its trimmed standard output and error, and its
/// exit code (-1 when it has none).
pub open spec fn exit_code_of(code: Option<i32>) -> i64 {
    match code {
        Some(c) => c as i64,
        None => (-1) as i64,
    }
}

pub open spec fn shell_result_spec(stdout: Seq<char>, stderr: Seq<char>, code: Option<i32>) -> JVal {
    JVal::Obj(
        seq![
            ("exit_code"@, crate::ast::int_json(exit_code_of(code))),
            ("stderr"@, JVal::Str(trim(stderr))),
            ("stdout"@, JVal::Str(trim(stdout))),
        ],
    )
}

pub fn shell_result(stdout: &str, stderr: &str, code: Option<i32>) -> (r: JsonValue)
    ensures
        r@ == shell_result_spec(stdout@, stderr@, code),
{
    let c: i64 = match code {
        Some(c) => c as i64,
        None => -1,
    };
    let out_t = trim_vec(&chars_of(stdout));
    let err_t = trim_vec(&chars_of(stderr));
    let mut ms: Vec<(String, JsonValue)> = Vec::new();
    ms.push((string_of(&['e', 'x', 'i', 't', '_', 'c', 'o', 'd', 'e']), crate::ast::int_to_json(c)));
    ms.push((string_of(&['s', 't', 'd', 'e', 'r', 'r']), JsonValue::String(string_of(err_t.as_slice()))));
    ms.push((string_of(&['s', 't', 'd', 'o', 'u', 't']), JsonValue::String(string_of(out_t.as_slice()))));
    proof {
        reveal_strlit("exit_code");
        reveal_strlit("stderr");
        reveal_strlit("stdout");
        lemma_mviews(ms@);
        assert(ms@[0].0@ =~= "exit_code"@);
        assert(ms@[1].0@ =~= "stderr"@);
        assert(ms@[2].0@ =~= "stdout"@);
        assert(c == exit_code_of(code));
        assert(mviews(ms@) =~= seq![
            ("exit_code"@, crate::ast::int_json(c)),
            ("stderr"@, JVal::Str(trim(stderr@))),
            ("stdout"@, JVal::Str(trim(stdout@))),
        ]);
    }
    let r = JsonValue::Object(ms);
    assert(r@ == JVal::Obj(mviews(ms@)));
    assert(shell_result_spec(stdout@, stderr@, code) == JVal::Obj(seq![
        ("exit_code"@, crate::ast::int_json(c)),
        ("stderr"@, JVal::Str(trim(stderr@))),
        ("stdout"@, JVal::Str(trim(stdout@))),
    ]));
    r
}

} // verus!
