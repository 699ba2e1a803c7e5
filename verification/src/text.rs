//! Character-level text helpers with their specifications.

use vstd::prelude::*;
use vstd::std_specs::iter::IteratorSpec;

verus! {

/// The texts of a list of strings.
pub open spec fn strs(v: Seq<String>) -> Seq<Seq<char>> {
    v.map_values(|s: String| s@)
}

/// What `str::to_lowercase` gives for a character sequence (full Unicode case mapping).
pub uninterp spec fn unicode_lower(s: Seq<char>) -> Seq<char>;

/// What `str::to_uppercase` gives for a character sequence (full Unicode case mapping).
pub uninterp spec fn unicode_upper(s: Seq<char>) -> Seq<char>;

pub open spec fn is_ascii_char(c: char) -> bool {
    (c as u32) < 128
}

pub open spec fn all_ascii(s: Seq<char>) -> bool {
    forall|i: int| 0 <= i < s.len() ==> is_ascii_char(#[trigger] s[i])
}

pub open spec fn ascii_lower_char(c: char) -> char {
    if 'A' <= c && c <= 'Z' { ((c as u32) + 32) as char } else { c }
}

pub open spec fn ascii_upper_char(c: char) -> char {
    if 'a' <= c && c <= 'z' { ((c as u32) - 32) as char } else { c }
}

pub open spec fn ascii_lower(s: Seq<char>) -> Seq<char> {
    s.map_values(|c: char| ascii_lower_char(c))
}

pub open spec fn ascii_upper(s: Seq<char>) -> Seq<char> {
    s.map_values(|c: char| ascii_upper_char(c))
}

/// `str::to_lowercase`. The result is named `unicode_lower`; on ASCII text
/// the documented mapping is the ASCII one ('A'..='Z' to 'a'..='z').
#[verifier::external_body]
pub(crate) fn to_lowercase(s: &str) -> (r: String)
    ensures
        r@ == unicode_lower(s@),
        all_ascii(s@) ==> r@ == ascii_lower(s@),
{
    s.to_lowercase()
}

/// `str::to_uppercase`. The result is named `unicode_upper`; on ASCII text
/// the documented mapping is the ASCII one ('a'..='z' to 'A'..='Z').
#[verifier::external_body]
pub(crate) fn to_uppercase(s: &str) -> (r: String)
    ensures
        r@ == unicode_upper(s@),
        all_ascii(s@) ==> r@ == ascii_upper(s@),
{
    s.to_uppercase()
}

/// `<str as PartialEq>::eq`: two string slices are equal iff they hold the same characters.
#[verifier::external_body]
pub(crate) fn str_eq(a: &str, b: &str) -> (r: bool)
    ensures
        r == (a@ == b@),
{
    a == b
}

/// The characters of a slice, in order.
pub(crate) fn chars_of(s: &str) -> (r: Vec<char>)
    ensures
        r@ == s@,
{
    broadcast use vstd::string::axiom_spec_iter, vstd::string::next_postcondition;
    let mut it = s.chars();
    let mut out: Vec<char> = Vec::new();
    loop
        invariant
            out@ + it.remaining() == s@,
            it.decrease() is Some,
        ensures
            out@ == s@,
        decreases it.decrease()->0,
    {
        match it.next() {
            Some(c) => {
                out.push(c);
            },
            None => {
                break;
            },
        }
    }
    out
}

/// `<String as FromIterator<&char>>::from_iter`: the string made of the given
/// characters, in order.
#[verifier::external_body]
pub(crate) fn string_of(v: &[char]) -> (r: String)
    ensures
        r@ == v@,
{
    String::from_iter(v)
}

/// An owned copy of a slice.
pub(crate) fn owned(s: &str) -> (r: String)
    ensures
        r@ == s@,
{
    s.to_owned()
}

pub open spec fn seq_starts_with(s: Seq<char>, p: Seq<char>) -> bool {
    p.len() <= s.len() && s.subrange(0, p.len() as int) == p
}

pub open spec fn seq_ends_with(s: Seq<char>, p: Seq<char>) -> bool {
    p.len() <= s.len() && s.subrange(s.len() - p.len(), s.len() as int) == p
}

/// Whether `p` is a prefix of `s` (on character vectors).
pub fn vec_starts_with(s: &Vec<char>, p: &Vec<char>) -> (r: bool)
    ensures
        r == seq_starts_with(s@, p@),
{
    if p.len() > s.len() {
        return false;
    }
    let mut i: usize = 0;
    while i < p.len()
        invariant
            0 <= i <= p@.len(),
            p@.len() <= s@.len(),
            forall|j: int| 0 <= j < i ==> s@[j] == p@[j],
        decreases p@.len() - i,
    {
        if s[i] != p[i] {
            assert(s@.subrange(0, p@.len() as int)[i as int] != p@[i as int]);
            return false;
        }
        i = i + 1;
    }
    assert(s@.subrange(0, p@.len() as int) =~= p@);
    true
}

/// `str::starts_with` with a string pattern.
pub fn starts_with(s: &str, p: &str) -> (r: bool)
    ensures
        r == seq_starts_with(s@, p@),
{
    let sv = chars_of(s);
    let pv = chars_of(p);
    vec_starts_with(&sv, &pv)
}

/// The string made of a character sequence followed by nothing else.
pub fn concat_strs(parts: &Vec<&str>) -> (r: String)
    ensures
        r@ == concat_views(parts@),
{
    let mut out: Vec<char> = Vec::new();
    let mut i: usize = 0;
    while i < parts.len()
        invariant
            0 <= i <= parts@.len(),
            out@ == concat_views(parts@.subrange(0, i as int)),
        decreases parts@.len() - i,
    {
        crate::json::push_chars(&mut out, parts[i]);
        let ghost p = parts@.subrange(0, i + 1);
        assert(p.drop_last() == parts@.subrange(0, i as int));
        i = i + 1;
    }
    assert(parts@.subrange(0, parts@.len() as int) == parts@);
    string_of(out.as_slice())
}

/// The concatenation of the views of a sequence of string slices.
pub open spec fn concat_views(parts: Seq<&str>) -> Seq<char>
    decreases parts.len(),
{
    if parts.len() == 0 {
        Seq::empty()
    } else {
        concat_views(parts.drop_last()) + parts.last()@
    }
}


// ---------------------------------------------------------------------------
// Whitespace, trimming, lines
// ---------------------------------------------------------------------------

/// `char::is_whitespace`: the Unicode White_Space property.
pub open spec fn is_ws(c: char) -> bool {
    let u = c as u32;
    (0x09 <= u && u <= 0x0d) || u == 0x20 || u == 0x85 || u == 0xa0 || u == 0x1680 || (0x2000 <= u
        && u <= 0x200a) || u == 0x2028 || u == 0x2029 || u == 0x202f || u == 0x205f || u == 0x3000
}

pub fn is_whitespace(c: char) -> (r: bool)
    ensures
        r == is_ws(c),
{
    let u = c as u32;
    (0x09 <= u && u <= 0x0d) || u == 0x20 || u == 0x85 || u == 0xa0 || u == 0x1680 || (0x2000 <= u
        && u <= 0x200a) || u == 0x2028 || u == 0x2029 || u == 0x202f || u == 0x205f || u == 0x3000
}

/// Number of leading whitespace characters.
pub open spec fn lead_ws(s: Seq<char>) -> nat
    decreases s.len(),
{
    if s.len() == 0 || !is_ws(s[0]) {
        0
    } else {
        1 + lead_ws(s.drop_first())
    }
}

/// Number of trailing whitespace characters.
pub open spec fn trail_ws(s: Seq<char>) -> nat
    decreases s.len(),
{
    if s.len() == 0 || !is_ws(s.last()) {
        0
    } else {
        1 + trail_ws(s.drop_last())
    }
}

pub open spec fn trim_start(s: Seq<char>) -> Seq<char> {
    s.subrange(lead_ws(s) as int, s.len() as int)
}

pub open spec fn trim_end(s: Seq<char>) -> Seq<char> {
    s.subrange(0, s.len() - trail_ws(s))
}

/// `str::trim`: both ends without whitespace.
pub open spec fn trim(s: Seq<char>) -> Seq<char> {
    trim_end(trim_start(s))
}

pub proof fn lemma_lead_ws(s: Seq<char>)
    ensures
        lead_ws(s) <= s.len(),
        forall|i: int| 0 <= i < lead_ws(s) ==> is_ws(#[trigger] s[i]),
        lead_ws(s) < s.len() ==> !is_ws(s[lead_ws(s) as int]),
    decreases s.len(),
{
    if s.len() > 0 && is_ws(s[0]) {
        lemma_lead_ws(s.drop_first());
        assert forall|i: int| 0 <= i < lead_ws(s) implies is_ws(#[trigger] s[i]) by {
            if i > 0 {
                assert(s[i] == s.drop_first()[i - 1]);
            }
        }
    }
}

pub proof fn lemma_trail_ws(s: Seq<char>)
    ensures
        trail_ws(s) <= s.len(),
        forall|i: int| s.len() - trail_ws(s) <= i < s.len() ==> is_ws(#[trigger] s[i]),
        trail_ws(s) < s.len() ==> !is_ws(s[s.len() - trail_ws(s) - 1]),
    decreases s.len(),
{
    if s.len() > 0 && is_ws(s.last()) {
        lemma_trail_ws(s.drop_last());
        assert forall|i: int| s.len() - trail_ws(s) <= i < s.len() implies is_ws(#[trigger] s[i]) by {
            if i < s.len() - 1 {
                assert(s[i] == s.drop_last()[i]);
            }
        }
    }
}

/// Index of the first non-whitespace character (or the length).
pub fn lead_ws_count(s: &Vec<char>) -> (r: usize)
    ensures
        r == lead_ws(s@),
{
    let mut i: usize = 0;
    assert(s@.subrange(0, s@.len() as int) == s@);
    while i < s.len() && is_whitespace(s[i])
        invariant
            0 <= i <= s@.len(),
            lead_ws(s@) == i + lead_ws(s@.subrange(i as int, s@.len() as int)),
        decreases s@.len() - i,
    {
        let ghost t = s@.subrange(i as int, s@.len() as int);
        assert(t.drop_first() == s@.subrange(i + 1, s@.len() as int));
        i = i + 1;
    }
    proof {
        let t = s@.subrange(i as int, s@.len() as int);
        if i < s@.len() {
            assert(t[0] == s@[i as int]);
        }
    }
    i
}

/// Number of trailing whitespace characters.
pub fn trail_ws_count(s: &Vec<char>) -> (r: usize)
    ensures
        r == trail_ws(s@),
{
    let mut i: usize = s.len();
    assert(s@.subrange(0, s@.len() as int) == s@);
    while i > 0 && is_whitespace(s[i - 1])
        invariant
            0 <= i <= s@.len(),
            trail_ws(s@) == (s@.len() - i) + trail_ws(s@.subrange(0, i as int)),
        decreases i,
    {
        let ghost t = s@.subrange(0, i as int);
        assert(t.drop_last() == s@.subrange(0, i - 1));
        i = i - 1;
    }
    proof {
        let t = s@.subrange(0, i as int);
        if i > 0 {
            assert(t.last() == s@[i - 1]);
        }
    }
    s.len() - i
}

/// A sub-vector `s[a..b]`.
pub fn slice_vec(s: &Vec<char>, a: usize, b: usize) -> (r: Vec<char>)
    requires
        a <= b <= s@.len(),
    ensures
        r@ == s@.subrange(a as int, b as int),
{
    let mut out: Vec<char> = Vec::new();
    let mut i: usize = a;
    while i < b
        invariant
            a <= i <= b <= s@.len(),
            out@ == s@.subrange(a as int, i as int),
        decreases b - i,
    {
        out.push(s[i]);
        i = i + 1;
        assert(out@ =~= s@.subrange(a as int, i as int));
    }
    out
}

pub fn trim_start_vec(s: &Vec<char>) -> (r: Vec<char>)
    ensures
        r@ == trim_start(s@),
{
    proof {
        lemma_lead_ws(s@);
    }
    let a = lead_ws_count(s);
    slice_vec(s, a, s.len())
}

pub fn trim_vec(s: &Vec<char>) -> (r: Vec<char>)
    ensures
        r@ == trim(s@),
{
    let t = trim_start_vec(s);
    proof {
        lemma_trail_ws(t@);
    }
    let b = trail_ws_count(&t);
    slice_vec(&t, 0, t.len() - b)
}

/// Index of the first occurrence of a character.
pub open spec fn find_char(s: Seq<char>, c: char) -> Option<int>
    decreases s.len(),
{
    if s.len() == 0 {
        None
    } else if s[0] == c {
        Some(0)
    } else {
        match find_char(s.drop_first(), c) {
            Some(i) => Some(i + 1),
            None => None,
        }
    }
}

pub proof fn lemma_find_char(s: Seq<char>, c: char)
    ensures
        match find_char(s, c) {
            Some(i) => 0 <= i < s.len() && s[i] == c && forall|j: int| 0 <= j < i ==> s[j] != c,
            None => forall|j: int| 0 <= j < s.len() ==> s[j] != c,
        },
    decreases s.len(),
{
    if s.len() > 0 && s[0] != c {
        lemma_find_char(s.drop_first(), c);
        assert(forall|j: int| 0 < j < s.len() ==> s[j] == s.drop_first()[j - 1]);
    }
}

/// The first occurrence of a character in `s[from..]`, as an index into `s`.
pub fn find_char_from(s: &Vec<char>, c: char, from: usize) -> (r: Option<usize>)
    requires
        from <= s@.len(),
    ensures
        match find_char(s@.subrange(from as int, s@.len() as int), c) {
            Some(i) => r == Some((from + i) as usize),
            None => r is None,
        },
{
    let mut i: usize = from;
    while i < s.len()
        invariant
            from <= i <= s@.len(),
            forall|j: int| from <= j < i ==> s@[j] != c,
        decreases s@.len() - i,
    {
        if s[i] == c {
            proof {
                let t = s@.subrange(from as int, s@.len() as int);
                lemma_find_char(t, c);
                match find_char(t, c) {
                    Some(k) => {
                        assert(t[k] == s@[from + k]);
                        if k < i - from {
                            assert(s@[from + k] != c);
                        }
                        if k > i - from {
                            assert(t[i - from] == c);
                        }
                    },
                    None => {
                        assert(t[i - from] == c);
                    },
                }
            }
            return Some(i);
        }
        i = i + 1;
    }
    proof {
        let t = s@.subrange(from as int, s@.len() as int);
        lemma_find_char(t, c);
        match find_char(t, c) {
            Some(k) => {
                assert(t[k] == s@[from + k]);
            },
            None => {},
        }
    }
    None
}

/// A line without its line ending: one trailing carriage return dropped.
pub open spec fn strip_cr(l: Seq<char>) -> Seq<char> {
    if l.len() > 0 && l.last() == '\r' {
        l.drop_last()
    } else {
        l
    }
}

/// `str::lines`: split at `\n` (a `\r` just before it is dropped too); no
/// empty line after a final line ending.
pub open spec fn lines(s: Seq<char>) -> Seq<Seq<char>>
    decreases s.len(),
{
    if s.len() == 0 {
        Seq::empty()
    } else {
        match find_char(s, '\n') {
            Some(i) => {
                proof {
                    lemma_find_char(s, '\n');
                }
                seq![strip_cr(s.subrange(0, i))] + lines(s.subrange(i + 1, s.len() as int))
            },
            None => seq![s],
        }
    }
}

/// Splits text into lines as `str::lines` does.
pub fn split_lines(s: &Vec<char>) -> (r: Vec<Vec<char>>)
    ensures
        r@.map_values(|l: Vec<char>| l@) == lines(s@),
{
    let mut out: Vec<Vec<char>> = Vec::new();
    let mut start: usize = 0;
    assert(s@.subrange(0, s@.len() as int) == s@);
    assert(out@.map_values(|l: Vec<char>| l@) + lines(s@) =~= lines(s@));
    while start < s.len()
        invariant
            0 <= start <= s@.len(),
            lines(s@) == out@.map_values(|l: Vec<char>| l@) + lines(s@.subrange(start as int, s@.len() as int)),
        decreases s@.len() - start,
    {
        let ghost rest = s@.subrange(start as int, s@.len() as int);
        let ghost before = out@.map_values(|l: Vec<char>| l@);
        proof {
            lemma_find_char(rest, '\n');
        }
        match find_char_from(s, '\n', start) {
            Some(j) => {
                let mut line = slice_vec(s, start, j);
                if line.len() > 0 && line[line.len() - 1] == '\r' {
                    line.pop();
                }
                proof {
                    assert(rest.subrange(0, j - start) == s@.subrange(start as int, j as int));
                    assert(rest.subrange(j - start + 1, rest.len() as int) == s@.subrange(j + 1, s@.len() as int));
                    assert(line@ == strip_cr(s@.subrange(start as int, j as int)));
                }
                out.push(line);
                proof {
                    assert(out@.map_values(|l: Vec<char>| l@) =~= before.push(strip_cr(s@.subrange(start as int, j as int))));
                    assert(before + (seq![strip_cr(s@.subrange(start as int, j as int))] + lines(s@.subrange(j + 1, s@.len() as int)))
                        =~= before.push(strip_cr(s@.subrange(start as int, j as int))) + lines(s@.subrange(j + 1, s@.len() as int)));
                }
                start = j + 1;
            },
            None => {
                let line = slice_vec(s, start, s.len());
                out.push(line);
                proof {
                    assert(out@.map_values(|l: Vec<char>| l@) =~= before.push(rest));
                    assert(lines(s@.subrange(s@.len() as int, s@.len() as int)) == Seq::<Seq<char>>::empty()) by {
                        assert(s@.subrange(s@.len() as int, s@.len() as int).len() == 0);
                    }
                    assert(before + seq![rest] =~= before.push(rest) + Seq::<Seq<char>>::empty());
                }
                start = s.len();
            },
        }
    }
    proof {
        assert(s@.subrange(start as int, s@.len() as int).len() == 0);
        assert(out@.map_values(|l: Vec<char>| l@) + Seq::<Seq<char>>::empty() =~= out@.map_values(|l: Vec<char>| l@));
    }
    out
}

/// Lines joined with a separator.
pub open spec fn join(ls: Seq<Seq<char>>, sep: Seq<char>) -> Seq<char>
    decreases ls.len(),
{
    if ls.len() == 0 {
        Seq::empty()
    } else if ls.len() == 1 {
        ls[0]
    } else {
        join(ls.drop_last(), sep) + sep + ls.last()
    }
}

/// `[..].join(sep)`.
pub fn join_vecs(ls: &Vec<Vec<char>>, sep: &Vec<char>) -> (r: Vec<char>)
    ensures
        r@ == join(ls@.map_values(|l: Vec<char>| l@), sep@),
{
    let ghost lv = ls@.map_values(|l: Vec<char>| l@);
    let mut out: Vec<char> = Vec::new();
    let mut i: usize = 0;
    while i < ls.len()
        invariant
            0 <= i <= ls@.len(),
            lv == ls@.map_values(|l: Vec<char>| l@),
            out@ == join(lv.subrange(0, i as int), sep@),
        decreases ls@.len() - i,
    {
        let ghost p = lv.subrange(0, i + 1);
        assert(p.drop_last() == lv.subrange(0, i as int));
        if i > 0 {
            crate::json::push_all(&mut out, sep);
        }
        crate::json::push_all(&mut out, &ls[i]);
        proof {
            if i == 0 {
                assert(out@ == p[0]);
            }
        }
        i = i + 1;
    }
    assert(lv.subrange(0, ls@.len() as int) == lv);
    out
}

} // verus!
