use vstd::prelude::*;
use vstd::string::StringExecFns;
use crate::hook::Hook;
use crate::slot::Slot;
use crate::text;

verus! {

/// A project's manifest: its name, the file names generation ignores, and
/// the declared slots and hooks.
#[derive(Debug)]
pub struct Config {
    pub name: Option<String>,
    pub ignore: Vec<String>,
    pub slots: Vec<Slot>,
    pub hooks: Vec<Hook>,
}

impl Default for Config {
    /// The empty manifest.
    fn default() -> (r: Self)
        ensures
            r.name is None,
            r.ignore@ == Seq::<String>::empty(),
            r.slots@ == Seq::<Slot>::empty(),
            r.hooks@ == Seq::<Hook>::empty(),
    {
        Config { name: None, ignore: Vec::new(), slots: Vec::new(), hooks: Vec::new() }
    }
}

/// Why a manifest could not be used.
#[derive(Debug)]
pub enum Error {
    /// The manifest file could not be read.
    ReadError(String),
    /// The manifest text could not be parsed.
    ParseError(String),
    /// A single-file project's front matter could not be parsed.
    FronmaError(String),
    /// A key is used twice, or by both a slot and a hook.
    DuplicateKey(String),
}

/// The keys of the slots, in declaration order.
pub open spec fn slot_key_seq(slots: Seq<Slot>) -> Seq<Seq<char>> {
    slots.map_values(|s: Slot| s.key@)
}

/// The keys of the hooks, in declaration order.
pub open spec fn hook_key_seq(hooks: Seq<Hook>) -> Seq<Seq<char>> {
    hooks.map_values(|h: Hook| h.key@)
}

/// Whether a hook and a slot share a key.
pub open spec fn spec_has_shared_key(c: Config) -> bool {
    exists|i: int, j: int|
        0 <= i < c.hooks@.len() && 0 <= j < c.slots@.len() && (#[trigger] c.hooks@[i].key@)
            == (#[trigger] c.slots@[j].key@)
}

/// Slot keys and hook keys form one namespace: no key is shared between a
/// slot and a hook, and none is declared twice.
pub open spec fn spec_config_valid(c: Config) -> bool {
    &&& !spec_has_shared_key(c)
    &&& hook_key_seq(c.hooks@).no_duplicates()
    &&& slot_key_seq(c.slots@).no_duplicates()
}

fn slots_contain_key(slots: &Vec<Slot>, key: &str) -> (r: bool)
    ensures
        r == exists|j: int| 0 <= j < slots@.len() && (#[trigger] slots@[j].key@) == key@,
{
    let n = slots.len();
    let mut j: usize = 0;
    while j < n
        invariant
            n == slots@.len(),
            j <= n,
            forall|k: int| 0 <= k < j ==> (#[trigger] slots@[k].key@) != key@,
        decreases n - j,
    {
        if text::str_eq(slots[j].key.as_str(), key) {
            return true;
        }
        j = j + 1;
    }
    false
}

fn hook_keys_have_dup(hooks: &Vec<Hook>) -> (r: bool)
    ensures
        r == !hook_key_seq(hooks@).no_duplicates(),
{
    let n = hooks.len();
    let mut i: usize = 0;
    while i < n
        invariant
            n == hooks@.len(),
            i <= n,
            forall|a: int, b: int|
                0 <= a < b < i ==> (#[trigger] hook_key_seq(hooks@)[a]) != (#[trigger] hook_key_seq(
                    hooks@,
                )[b]),
        decreases n - i,
    {
        let mut j: usize = 0;
        while j < i
            invariant
                n == hooks@.len(),
                j <= i < n,
                forall|b: int|
                    0 <= b < j ==> (#[trigger] hook_key_seq(hooks@)[b]) != hook_key_seq(hooks@)[
                        i as int
                    ],
            decreases i - j,
        {
            if text::str_eq(hooks[j].key.as_str(), hooks[i].key.as_str()) {
                proof {
                    assert(hook_key_seq(hooks@)[j as int] == hook_key_seq(hooks@)[i as int]);
                }
                return true;
            }
            j = j + 1;
        }
        i = i + 1;
    }
    proof {
        assert forall|a: int, b: int|
            0 <= a < hook_key_seq(hooks@).len() && 0 <= b < hook_key_seq(hooks@).len() && a != b
            implies (#[trigger] hook_key_seq(hooks@)[a]) != (#[trigger] hook_key_seq(hooks@)[b]) by {
            if a < b {
            } else {
            }
        }
    }
    false
}

fn slot_keys_have_dup(slots: &Vec<Slot>) -> (r: bool)
    ensures
        r == !slot_key_seq(slots@).no_duplicates(),
{
    let n = slots.len();
    let mut i: usize = 0;
    while i < n
        invariant
            n == slots@.len(),
            i <= n,
            forall|a: int, b: int|
                0 <= a < b < i ==> (#[trigger] slot_key_seq(slots@)[a]) != (#[trigger] slot_key_seq(
                    slots@,
                )[b]),
        decreases n - i,
    {
        let mut j: usize = 0;
        while j < i
            invariant
                n == slots@.len(),
                j <= i < n,
                forall|b: int|
                    0 <= b < j ==> (#[trigger] slot_key_seq(slots@)[b]) != slot_key_seq(slots@)[
                        i as int
                    ],
            decreases i - j,
        {
            if text::str_eq(slots[j].key.as_str(), slots[i].key.as_str()) {
                proof {
                    assert(slot_key_seq(slots@)[j as int] == slot_key_seq(slots@)[i as int]);
                }
                return true;
            }
            j = j + 1;
        }
        i = i + 1;
    }
    proof {
        assert forall|a: int, b: int|
            0 <= a < slot_key_seq(slots@).len() && 0 <= b < slot_key_seq(slots@).len() && a != b
            implies (#[trigger] slot_key_seq(slots@)[a]) != (#[trigger] slot_key_seq(slots@)[b]) by {
            if a < b {
            } else {
            }
        }
    }
    false
}

impl Config {
    /// Validates the key namespace: no key shared between a slot and a hook,
    /// and no key declared twice among the hooks or among the slots, checked
    /// in that order.
    pub fn validate(&self) -> (r: Result<(), Error>)
        ensures
            r is Ok <==> spec_config_valid(*self),
            r matches Err(e) ==> e is DuplicateKey,
            (!spec_has_shared_key(*self) && !hook_key_seq(self.hooks@).no_duplicates())
                ==> (r matches Err(Error::DuplicateKey(s)) && s@ == "Duplicate keys found in hooks"@),
            (!spec_has_shared_key(*self) && hook_key_seq(self.hooks@).no_duplicates()
                && !slot_key_seq(self.slots@).no_duplicates()) ==> (r matches Err(
                Error::DuplicateKey(s),
            ) && s@ == "Duplicate keys found in slots"@),
    {
        let mut shared: Vec<String> = Vec::new();
        let n = self.hooks.len();
        let mut i: usize = 0;
        while i < n
            invariant
                n == self.hooks@.len(),
                i <= n,
                shared@.len() > 0 <==> exists|a: int, b: int|
                    0 <= a < i && 0 <= b < self.slots@.len() && (#[trigger] self.hooks@[a].key@)
                        == (#[trigger] self.slots@[b].key@),
            decreases n - i,
        {
            if slots_contain_key(&self.slots, self.hooks[i].key.as_str()) {
                shared.push(self.hooks[i].key.clone());
            }
            i = i + 1;
        }
        if shared.len() > 0 {
            let mut joined = String::new();
            let m = shared.len();
            let mut k: usize = 0;
            while k < m
                invariant
                    m == shared@.len(),
                    k <= m,
                decreases m - k,
            {
                if k > 0 {
                    joined.append(", ");
                }
                joined.append(shared[k].as_str());
                k = k + 1;
            }
            return Err(Error::DuplicateKey(joined));
        }
        if hook_keys_have_dup(&self.hooks) {
            return Err(Error::DuplicateKey("Duplicate keys found in hooks".to_owned()));
        }
        if slot_keys_have_dup(&self.slots) {
            return Err(Error::DuplicateKey("Duplicate keys found in slots".to_owned()));
        }
        Ok(())
    }
}

} // verus!
