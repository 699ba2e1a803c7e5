//! The state ledger: a typed key-value store from addresses to JSON values.

use vstd::prelude::*;
use crate::ast::{AetherType, aether_type_debug, type_accepts};
use crate::json::{JVal, JsonValue, clone_json, jview, json_text, push_chars, push_json};
use crate::text::{owned, str_eq, string_of};

verus! {

/// Keys of a list of pairs are pairwise distinct.
pub open spec fn keys_distinct(s: Seq<(String, JsonValue)>) -> bool {
    forall|i: int, j: int| 0 <= i < s.len() && 0 <= j < s.len() && i != j ==> s[i].0@ != s[j].0@
}

/// The map that a list of pairs with distinct keys stands for.
pub open spec fn pairs_map(s: Seq<(String, JsonValue)>) -> Map<Seq<char>, JVal>
    decreases s.len(),
{
    if s.len() == 0 {
        Map::empty()
    } else {
        pairs_map(s.drop_last()).insert(s.last().0@, jview(s.last().1))
    }
}

pub proof fn lemma_pairs_map(s: Seq<(String, JsonValue)>)
    requires
        keys_distinct(s),
    ensures
        forall|k: Seq<char>|
            #![trigger pairs_map(s).contains_key(k)]
            pairs_map(s).contains_key(k) <==> exists|i: int| 0 <= i < s.len() && s[i].0@ == k,
        forall|i: int| 0 <= i < s.len() ==> #[trigger] pairs_map(s)[s[i].0@] == jview(s[i].1),
        pairs_map(s).dom().finite(),
    decreases s.len(),
{
    if s.len() > 0 {
        let t = s.drop_last();
        assert(keys_distinct(t));
        lemma_pairs_map(t);
        assert forall|k: Seq<char>| pairs_map(s).contains_key(k) implies exists|i: int|
            0 <= i < s.len() && s[i].0@ == k by {
            if k != s.last().0@ {
                let i = choose|i: int| 0 <= i < t.len() && t[i].0@ == k;
                assert(s[i] == t[i]);
            } else {
                assert(s[s.len() - 1].0@ == k);
            }
        }
        assert forall|k: Seq<char>| (exists|i: int| 0 <= i < s.len() && s[i].0@ == k) implies pairs_map(s).contains_key(k) by {
            let i = choose|i: int| 0 <= i < s.len() && s[i].0@ == k;
            if i < s.len() - 1 {
                assert(t[i] == s[i]);
            }
        }
        assert forall|i: int| 0 <= i < s.len() implies #[trigger] pairs_map(s)[s[i].0@] == jview(s[i].1) by {
            if i < s.len() - 1 {
                assert(t[i] == s[i]);
                assert(s[i].0@ != s[s.len() - 1].0@);
            }
        }
    }
}

/// The ledger: addresses mapped to JSON values.
pub struct StateLedger {
    data: Vec<(String, JsonValue)>,
}

pub open spec fn mismatch_message(address: Seq<char>, t: AetherType, v: JVal) -> Seq<char> {
    "Type mismatch for "@ + address + ": expected "@ + aether_type_debug(t) + ", got "@ + json_text(v)
}

pub open spec fn overwrite_message(address: Seq<char>) -> Seq<char> {
    "Address "@ + address + " is already written; the ledger is append-only"@
}

/// A write: refused with a type-mismatch message when a declared type does
/// not accept the value, and with an overwrite message when the address
/// already holds a value (the ledger is append-only); otherwise the address
/// is bound to the value.
pub open spec fn write_spec(led: Map<Seq<char>, JVal>, address: Seq<char>, v: JVal, t: Option<AetherType>) -> Result<Map<Seq<char>, JVal>, Seq<char>> {
    match t {
        Some(ty) if !type_accepts(ty, v) => Err(mismatch_message(address, ty, v)),
        _ => if led.contains_key(address) {
            Err(overwrite_message(address))
        } else {
            Ok(led.insert(address, v))
        },
    }
}

impl View for StateLedger {
    type V = Map<Seq<char>, JVal>;

    closed spec fn view(&self) -> Map<Seq<char>, JVal> {
        pairs_map(self.data@)
    }
}

impl StateLedger {
    #[verifier::type_invariant]
    spec fn inv(self) -> bool {
        keys_distinct(self.data@)
    }

    /// An empty ledger.
    pub fn new() -> (r: StateLedger)
        ensures
            r@ == Map::<Seq<char>, JVal>::empty(),
    {
        StateLedger { data: Vec::new() }
    }

    fn find(&self, address: &str) -> (r: Option<usize>)
        ensures
            match r {
                Some(i) => i < self.data@.len() && self.data@[i as int].0@ == address@,
                None => forall|j: int| 0 <= j < self.data@.len() ==> self.data@[j].0@ != address@,
            },
    {
        let mut i: usize = 0;
        while i < self.data.len()
            invariant
                0 <= i <= self.data@.len(),
                forall|j: int| 0 <= j < i ==> self.data@[j].0@ != address@,
            decreases self.data@.len() - i,
        {
            if str_eq(self.data[i].0.as_str(), address) {
                return Some(i);
            }
            i = i + 1;
        }
        None
    }

    /// Writes a value at an address. With a declared type, a value of another
    /// shape is refused with a type-mismatch message; a write to an address that
    /// already holds a value is refused with an overwrite message; a refused
    /// write leaves the ledger as it was. Otherwise the address is bound to the
    /// value.
    pub fn write(
        &mut self,
        address: &str,
        value: JsonValue,
        declared_type: Option<&AetherType>,
    ) -> (r: Result<(), String>)
        ensures
            match write_spec(
                old(self)@,
                address@,
                value@,
                match declared_type {
                    Some(t) => Some(*t),
                    None => None,
                },
            ) {
                Ok(m) => r is Ok && final(self)@ == m,
                Err(e) => r matches Err(x) && x@ == e && final(self)@ == old(self)@,
            },
    {
        proof {
            use_type_invariant(&*self);
        }
        if let Some(t) = declared_type {
            if !t.validate(&value) {
                let mut msg: Vec<char> = Vec::new();
                push_chars(&mut msg, "Type mismatch for ");
                push_chars(&mut msg, address);
                push_chars(&mut msg, ": expected ");
                push_chars(&mut msg, t.debug_name());
                push_chars(&mut msg, ", got ");
                push_json(&mut msg, &value);
                return Err(string_of(msg.as_slice()));
            }
        }
        let ghost old_data = self.data@;
        proof {
            lemma_pairs_map(old_data);
        }
        let found = self.find(address);
        if found.is_some() {
            let mut msg: Vec<char> = Vec::new();
            push_chars(&mut msg, "Address ");
            push_chars(&mut msg, address);
            push_chars(&mut msg, " is already written; the ledger is append-only");
            return Err(string_of(msg.as_slice()));
        }
        let mut data: Vec<(String, JsonValue)> = Vec::new();
        std::mem::swap(&mut data, &mut self.data);
        assert(data@ == old_data);
        match found {
            Some(i) => {},
            None => {
                let key = owned(address);
                data.push((key, value));
                proof {
                    let nd = data@;
                    assert(nd.drop_last() == old_data);
                    assert(keys_distinct(nd)) by {
                        assert forall|a: int, b: int|
                            0 <= a < nd.len() && 0 <= b < nd.len() && a != b implies nd[a].0@
                            != nd[b].0@ by {
                            if a < nd.len() - 1 && b < nd.len() - 1 {
                                assert(nd[a] == old_data[a] && nd[b] == old_data[b]);
                            } else if a < nd.len() - 1 {
                                assert(nd[a] == old_data[a]);
                            } else {
                                assert(nd[b] == old_data[b]);
                            }
                        }
                    }
                }
            },
        }
        self.data = data;
        Ok(())
    }

    /// The value at an address, if any.
    pub fn read(&self, address: &str) -> (r: Option<&JsonValue>)
        ensures
            r is Some <==> self@.contains_key(address@),
            r is Some ==> r->0@ == self@[address@],
    {
        proof {
            use_type_invariant(self);
            lemma_pairs_map(self.data@);
        }
        match self.find(address) {
            Some(i) => Some(&self.data[i].1),
            None => None,
        }
    }

    /// All address-value pairs (addresses distinct, in no particular order).
    pub fn export(&self) -> (r: Vec<(String, JsonValue)>)
        ensures
            keys_distinct(r@),
            pairs_map(r@) == self@,
    {
        proof {
            use_type_invariant(self);
        }
        let mut res: Vec<(String, JsonValue)> = Vec::new();
        let mut i: usize = 0;
        while i < self.data.len()
            invariant
                0 <= i <= self.data@.len(),
                keys_distinct(self.data@),
                res@.len() == i,
                forall|j: int|
                    0 <= j < i ==> (#[trigger] res@[j]).0@ == self.data@[j].0@ && jview(res@[j].1)
                        == jview(self.data@[j].1),
                pairs_map(res@) == pairs_map(self.data@.subrange(0, i as int)),
            decreases self.data@.len() - i,
        {
            let k = owned(self.data[i].0.as_str());
            let v = clone_json(&self.data[i].1);
            let ghost before = res@;
            res.push((k, v));
            proof {
                let p = self.data@.subrange(0, i + 1);
                assert(p.drop_last() == self.data@.subrange(0, i as int));
                assert(res@.drop_last() == before);
            }
            i = i + 1;
        }
        assert(self.data@.subrange(0, self.data@.len() as int) == self.data@);
        assert(keys_distinct(res@)) by {
            assert forall|a: int, b: int|
                0 <= a < res@.len() && 0 <= b < res@.len() && a != b implies res@[a].0@ != res@[b].0@ by {
                assert(res@[a].0@ == self.data@[a].0@);
                assert(res@[b].0@ == self.data@[b].0@);
            }
        }
        res
    }

    /// A copy of the ledger.
    pub fn snapshot(&self) -> (r: StateLedger)
        ensures
            r@ == self@,
    {
        proof {
            use_type_invariant(self);
        }
        let data = self.export();
        StateLedger { data }
    }
}

} // verus!
