//! The Aether Standard Library (ASL) registry: canonical intents with their
//! safety levels and recommended guest languages.

use vstd::prelude::*;
use crate::text::{
    concat_strs, concat_views, seq_starts_with, starts_with, str_eq, to_lowercase, to_uppercase,
    unicode_lower, unicode_upper,
};

verus! {

pub struct AslEntry {
    pub id: String,
    pub description: String,
    /// Canonical safety level: "l0" .. "l4".
    pub safety: String,
    pub recommended_lang: Option<String>,
    pub namespace: String,
}

pub struct AslRegistry {
    pub version: String,
    pub entries: Vec<AslEntry>,
}

/// Result of checking an intent against the registry.
pub struct RegistryCheck {
    /// The matched entry's id, if any.
    pub matched_id: Option<String>,
    /// A safety-mismatch warning, if any.
    pub warning: Option<String>,
    /// Hard error: unknown `std.*` intent, or unregistered intent in strict mode.
    pub is_error: bool,
    pub error_message: Option<String>,
}

pub open spec fn opt_view(o: Option<String>) -> Option<Seq<char>> {
    match o {
        Some(s) => Some(s@),
        None => None,
    }
}

/// Index of the first entry whose id is `id`.
pub open spec fn first_with_id(s: Seq<AslEntry>, id: Seq<char>) -> Option<int>
    decreases s.len(),
{
    if s.len() == 0 {
        None
    } else {
        match first_with_id(s.drop_last(), id) {
            Some(i) => Some(i),
            None => if s.last().id@ == id {
                Some(s.len() - 1)
            } else {
                None
            },
        }
    }
}

pub proof fn lemma_first_with_id(s: Seq<AslEntry>, id: Seq<char>)
    ensures
        match first_with_id(s, id) {
            Some(i) => 0 <= i < s.len() && s[i].id@ == id && forall|j: int|
                0 <= j < i ==> s[j].id@ != id,
            None => forall|j: int| 0 <= j < s.len() ==> s[j].id@ != id,
        },
    decreases s.len(),
{
    if s.len() > 0 {
        lemma_first_with_id(s.drop_last(), id);
        assert(forall|j: int| 0 <= j < s.len() - 1 ==> s.drop_last()[j] == s[j]);
    }
}

/// The entries of a namespace, in registry order.
pub open spec fn entries_in(s: Seq<AslEntry>, ns: Seq<char>) -> Seq<AslEntry>
    decreases s.len(),
{
    if s.len() == 0 {
        Seq::empty()
    } else if s.last().namespace@ == ns {
        entries_in(s.drop_last(), ns).push(s.last())
    } else {
        entries_in(s.drop_last(), ns)
    }
}

pub open spec fn mismatch_warning(
    intent: Seq<char>,
    recommended: Seq<char>,
    declared: Seq<char>,
) -> Seq<char> {
    "ASL safety mismatch: intent '"@ + intent + "' recommends '"@ + unicode_upper(recommended)
        + "', declared '"@ + unicode_upper(declared) + "'"@
}

pub open spec fn unknown_std_message(intent: Seq<char>) -> Seq<char> {
    "Unknown std.* intent '"@ + intent
        + "'. Check the ASL registry or use a custom namespace."@
}

pub open spec fn strict_message(intent: Seq<char>) -> Seq<char> {
    "Unregistered intent '"@ + intent + "' rejected (--strict-registry mode)."@
}

impl AslRegistry {
    /// Looks up an intent by its full dotted id: the first entry with that id.
    pub fn lookup(&self, intent: &str) -> (r: Option<&AslEntry>)
        ensures
            match first_with_id(self.entries@, intent@) {
                Some(i) => r is Some && *r->0 == self.entries@[i],
                None => r is None,
            },
    {
        let mut i: usize = 0;
        while i < self.entries.len()
            invariant
                0 <= i <= self.entries@.len(),
                first_with_id(self.entries@.subrange(0, i as int), intent@) is None,
            decreases self.entries@.len() - i,
        {
            let ghost p = self.entries@.subrange(0, i + 1);
            assert(p.drop_last() == self.entries@.subrange(0, i as int));
            if str_eq(self.entries[i].id.as_str(), intent) {
                proof {
                    lemma_prefix_first(self.entries@, intent@, i as int + 1);
                }
                return Some(&self.entries[i]);
            }
            i = i + 1;
        }
        assert(self.entries@.subrange(0, self.entries@.len() as int) == self.entries@);
        None
    }

    /// All entries of a namespace, in registry order.
    pub fn namespace(&self, prefix: &str) -> (r: Vec<&AslEntry>)
        ensures
            r@.map_values(|e: &AslEntry| *e) == entries_in(self.entries@, prefix@),
    {
        let mut res: Vec<&AslEntry> = Vec::new();
        let mut i: usize = 0;
        while i < self.entries.len()
            invariant
                0 <= i <= self.entries@.len(),
                res@.map_values(|e: &AslEntry| *e) == entries_in(self.entries@.subrange(0, i as int), prefix@),
            decreases self.entries@.len() - i,
        {
            let ghost p = self.entries@.subrange(0, i + 1);
            assert(p.drop_last() == self.entries@.subrange(0, i as int));
            let ghost before = res@;
            if str_eq(self.entries[i].namespace.as_str(), prefix) {
                res.push(&self.entries[i]);
                assert(res@.map_values(|e: &AslEntry| *e) =~= before.map_values(|e: &AslEntry| *e).push(self.entries@[i as int]));
            }
            i = i + 1;
        }
        assert(self.entries@.subrange(0, self.entries@.len() as int) == self.entries@);
        res
    }

    /// Validates an intent against the registry. A registered intent is matched,
    /// with a warning when its safety differs (case-insensitively) from the declared
    /// one; an unknown `std.*` intent is an error; any other unknown intent is an
    /// error in strict mode and accepted silently otherwise.
    pub fn check(&self, intent: &str, declared_safety: &str, strict: bool) -> (r: RegistryCheck)
        ensures
            match first_with_id(self.entries@, intent@) {
                Some(i) => {
                    let e = self.entries@[i];
                    &&& opt_view(r.matched_id) == Some(e.id@)
                    &&& opt_view(r.warning) == (if unicode_lower(e.safety@) == unicode_lower(
                        declared_safety@,
                    ) {
                        None
                    } else {
                        Some(mismatch_warning(intent@, e.safety@, declared_safety@))
                    })
                    &&& !r.is_error
                    &&& r.error_message is None
                },
                None => {
                    &&& r.matched_id is None
                    &&& r.warning is None
                    &&& r.is_error == (seq_starts_with(intent@, "std."@) || strict)
                    &&& opt_view(r.error_message) == (if seq_starts_with(intent@, "std."@) {
                        Some(unknown_std_message(intent@))
                    } else if strict {
                        Some(strict_message(intent@))
                    } else {
                        None
                    })
                },
            },
    {
        match self.lookup(intent) {
            Some(entry) => {
                let a = to_lowercase(entry.safety.as_str());
                let b = to_lowercase(declared_safety);
                let warning = if str_eq(a.as_str(), b.as_str()) {
                    None
                } else {
                    let up_rec = to_uppercase(entry.safety.as_str());
                    let up_dec = to_uppercase(declared_safety);
                    let parts = vec![
                        "ASL safety mismatch: intent '",
                        intent,
                        "' recommends '",
                        up_rec.as_str(),
                        "', declared '",
                        up_dec.as_str(),
                        "'",
                    ];
                    let msg = concat_strs(&parts);
                    proof {
                        reveal_with_fuel(concat_views, 8);
                    }
                    Some(msg)
                };
                RegistryCheck {
                    matched_id: Some(crate::text::owned(entry.id.as_str())),
                    warning,
                    is_error: false,
                    error_message: None,
                }
            },
            None => {
                if starts_with(intent, "std.") {
                    let parts = vec![
                        "Unknown std.* intent '",
                        intent,
                        "'. Check the ASL registry or use a custom namespace.",
                    ];
                    let msg = concat_strs(&parts);
                    proof {
                        reveal_with_fuel(concat_views, 4);
                    }
                    RegistryCheck {
                        matched_id: None,
                        warning: None,
                        is_error: true,
                        error_message: Some(msg),
                    }
                } else if strict {
                    let parts = vec![
                        "Unregistered intent '",
                        intent,
                        "' rejected (--strict-registry mode).",
                    ];
                    let msg = concat_strs(&parts);
                    proof {
                        reveal_with_fuel(concat_views, 4);
                    }
                    RegistryCheck {
                        matched_id: None,
                        warning: None,
                        is_error: true,
                        error_message: Some(msg),
                    }
                } else {
                    RegistryCheck {
                        matched_id: None,
                        warning: None,
                        is_error: false,
                        error_message: None,
                    }
                }
            },
        }
    }
}

proof fn lemma_prefix_first(s: Seq<AslEntry>, id: Seq<char>, n: int)
    requires
        0 < n <= s.len(),
        first_with_id(s.subrange(0, n - 1), id) is None,
        s[n - 1].id@ == id,
    ensures
        first_with_id(s, id) == Some(n - 1),
    decreases s.len(),
{
    lemma_first_with_id(s.subrange(0, n - 1), id);
    lemma_first_with_id(s, id);
    let t = s.subrange(0, n);
    assert(t.drop_last() == s.subrange(0, n - 1));
    assert(first_with_id(t, id) == Some(n - 1));
    lemma_first_with_id(t, id);
    match first_with_id(s, id) {
        Some(i) => {
            if i < n - 1 {
                assert(s.subrange(0, n - 1)[i] == s[i]);
            }
            if i > n - 1 {
                assert(s[n - 1].id@ != id);
            }
        },
        None => {
            assert(s[n - 1].id@ != id);
        },
    }
}

} // verus!
