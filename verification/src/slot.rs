use vstd::prelude::*;
use crate::data::DataMap;
use crate::text;

verus! {

/// One user-provided input declared by the manifest.
#[derive(Debug)]
pub struct Slot {
    pub key: String,
    pub slot_type: SlotType,
    pub needs: Vec<String>,
    pub name: Option<String>,
    pub description: Option<String>,
    pub default: Option<String>,
}

#[derive(Clone, Copy, Debug, PartialEq, Eq, Structural)]
pub enum SlotType {
    Number,
    String,
    Boolean,
}

impl Clone for Slot {
    /// A clone keeps every field.
    fn clone(&self) -> (r: Self)
        ensures
            r.key == self.key,
            r.slot_type == self.slot_type,
            r.needs@ == self.needs@,
            r.name == self.name,
            r.description == self.description,
            r.default == self.default,
    {
        Slot {
            key: self.key.clone(),
            slot_type: self.slot_type,
            needs: clone_strings(&self.needs),
            name: clone_opt_string(&self.name),
            description: clone_opt_string(&self.description),
            default: clone_opt_string(&self.default),
        }
    }
}

impl Default for Slot {
    /// The default slot: empty key, string-typed, nothing else set.
    fn default() -> (r: Self)
        ensures
            r.key@ == Seq::<char>::empty(),
            r.slot_type == SlotType::String,
            r.needs@ == Seq::<String>::empty(),
            r.name is None,
            r.description is None,
            r.default is None,
    {
        Slot {
            key: String::new(),
            slot_type: SlotType::String,
            needs: Vec::new(),
            name: None,
            description: None,
            default: None,
        }
    }
}

/// Copies a vector of strings, keeping each element.
pub fn clone_strings(v: &Vec<String>) -> (r: Vec<String>)
    ensures
        r@ == v@,
{
    let n = v.len();
    let mut out: Vec<String> = Vec::new();
    let mut i: usize = 0;
    while i < n
        invariant
            n == v@.len(),
            i <= n,
            out@.len() == i,
            forall|j: int| 0 <= j < i ==> out@[j] == v@[j],
        decreases n - i,
    {
        out.push(v[i].clone());
        i = i + 1;
    }
    proof {
        assert(out@ =~= v@);
    }
    out
}

/// Copies an optional string, keeping the value.
pub fn clone_opt_string(v: &Option<String>) -> (r: Option<String>)
    ensures
        r == *v,
{
    match v {
        Some(s) => Some(s.clone()),
        None => None,
    }
}

impl Slot {
    /// The display name: the `name` field, or the key where none is set.
    pub open spec fn spec_get_name(&self) -> Seq<char> {
        match self.name {
            Some(n) => n@,
            None => self.key@,
        }
    }

    /// Gets the name of the slot, falling back to its key.
    pub fn get_name(&self) -> (r: String)
        ensures
            r@ == self.spec_get_name(),
    {
        match &self.name {
            Some(n) => n.clone(),
            None => self.key.clone(),
        }
    }

    /// A slot is enabled when its value is set to something other than a
    /// default-like value.
    pub open spec fn spec_is_enabled(&self, data: Map<Seq<char>, Seq<char>>) -> bool {
        spec_slot_value_enabled(self.key@, data)
    }

    /// Whether the slot's value in the context counts as enabled.
    pub fn is_enabled(&self, data: &DataMap) -> (r: bool)
        requires
            data.wf(),
        ensures
            r == self.spec_is_enabled(data@),
    {
        let looked_up = data.get(self.key.as_str());
        match looked_up {
            Some(v) => {
                !(v.unicode_len() == 0 || text::str_eq(v.as_str(), "0")
                    || text::str_eq_ignore_ascii_case(v.as_str(), "false"))
            },
            None => {
                proof {
                    let v = Seq::<char>::empty();
                    reveal_strlit("0");
                    reveal_strlit("false");
                    assert(v.len() == 0);
                }
                false
            },
        }
    }
}

/// The value under a key counts as enabled when it is set to something other
/// than a default-like value: not absent, not empty, not `0`, and not `false`
/// in any ASCII case.
pub open spec fn spec_slot_value_enabled(key: Seq<char>, data: Map<Seq<char>, Seq<char>>) -> bool {
    let v = if data.contains_key(key) {
        data[key]
    } else {
        Seq::<char>::empty()
    };
    !(v.len() == 0 || v == "0"@ || text::ascii_case_eq(v, "false"@))
}

/// The errors slot validation can report.
#[derive(Debug)]
pub enum Error {
    UnknownSlot(String),
    TypeMismatch(String, String),
    UndefinedSlot(String),
}

impl Error {
    /// A short description of the error.
    pub fn message(&self) -> String {
        match self {
            Error::UnknownSlot(key) => text::concat_str("unknown slot: ", key.as_str()),
            Error::TypeMismatch(key, _) => text::concat_str("type mismatch for key ", key.as_str()),
            Error::UndefinedSlot(key) => text::concat_str("slot was not defined: ", key.as_str()),
        }
    }
}

/// Whether a value's text fits a slot type: anything for a string, a number
/// literal for a number, a boolean literal for a boolean.
pub open spec fn value_fits(t: SlotType, v: Seq<char>) -> bool {
    match t {
        SlotType::String => true,
        SlotType::Number => text::spec_is_number(v),
        SlotType::Boolean => text::spec_parse_bool(v) is Some,
    }
}

/// The name of a slot type, as validation reports it.
pub open spec fn spec_type_label(t: SlotType) -> Seq<char> {
    match t {
        SlotType::Number => "Number"@,
        SlotType::String => "String"@,
        SlotType::Boolean => "Boolean"@,
    }
}

/// The name of a slot type.
pub fn type_label(t: SlotType) -> (r: String)
    ensures
        r@ == spec_type_label(t),
{
    match t {
        SlotType::Number => "Number".to_owned(),
        SlotType::String => "String".to_owned(),
        SlotType::Boolean => "Boolean".to_owned(),
    }
}

/// The first slot with the key, if any.
pub open spec fn find_slot(slots: Seq<Slot>, key: Seq<char>) -> Option<Slot>
    decreases slots.len(),
{
    if slots.len() == 0 {
        None
    } else if slots.first().key@ == key {
        Some(slots.first())
    } else {
        find_slot(slots.drop_first(), key)
    }
}

fn find_slot_exec<'a>(slots: &'a Vec<Slot>, key: &str) -> (r: Option<&'a Slot>)
    ensures
        match r {
            Some(s) => find_slot(slots@, key@) == Some(*s),
            None => find_slot(slots@, key@) is None,
        },
{
    let n = slots.len();
    let mut i: usize = 0;
    proof {
        assert(slots@.skip(0) =~= slots@);
    }
    while i < n
        invariant
            n == slots@.len(),
            i <= n,
            find_slot(slots@, key@) == find_slot(slots@.skip(i as int), key@),
        decreases n - i,
    {
        proof {
            assert(slots@.skip(i as int).first() == slots@[i as int]);
            assert(slots@.skip(i as int).drop_first() =~= slots@.skip(i as int + 1));
        }
        if text::str_eq(slots[i].key.as_str(), key) {
            return Some(&slots[i]);
        }
        i = i + 1;
    }
    proof {
        assert(slots@.skip(n as int).len() == 0);
    }
    None
}

/// How validation of a data map against slot declarations comes out.
pub enum DataVerdict {
    Accept,
    BadKey(Seq<char>),
    BadType(Seq<char>, Seq<char>),
    Missing(Seq<char>),
}

/// Checks each data entry in order: its key must name a slot and its value
/// must fit that slot's type.
pub open spec fn spec_check_entries(slots: Seq<Slot>, entries: Seq<(Seq<char>, Seq<char>)>) -> DataVerdict
    decreases entries.len(),
{
    if entries.len() == 0 {
        DataVerdict::Accept
    } else {
        let e = entries.first();
        match find_slot(slots, e.0) {
            None => DataVerdict::BadKey(e.0),
            Some(s) => if !value_fits(s.slot_type, e.1) {
                DataVerdict::BadType(e.0, spec_type_label(s.slot_type))
            } else {
                spec_check_entries(slots, entries.drop_first())
            },
        }
    }
}

/// Checks each slot in order: the data must hold a value under its key.
pub open spec fn spec_check_cover(slots: Seq<Slot>, data: Map<Seq<char>, Seq<char>>) -> DataVerdict
    decreases slots.len(),
{
    if slots.len() == 0 {
        DataVerdict::Accept
    } else if !data.contains_key(slots.first().key@) {
        DataVerdict::Missing(slots.first().key@)
    } else {
        spec_check_cover(slots.drop_first(), data)
    }
}

/// The verdict on a data map: entry checks first, then coverage.
pub open spec fn spec_validate_data(
    slots: Seq<Slot>,
    entries: Seq<(Seq<char>, Seq<char>)>,
    data: Map<Seq<char>, Seq<char>>,
) -> DataVerdict {
    if spec_check_entries(slots, entries) is Accept {
        spec_check_cover(slots, data)
    } else {
        spec_check_entries(slots, entries)
    }
}

/// Whether an exec validation result reports exactly the verdict.
pub open spec fn verdict_matches(v: DataVerdict, r: Result<(), Error>) -> bool {
    match v {
        DataVerdict::Accept => r is Ok,
        DataVerdict::BadKey(k) => r matches Err(Error::UnknownSlot(s)) && s@ == k,
        DataVerdict::BadType(k, t) => r matches Err(Error::TypeMismatch(s, ty)) && s@ == k && ty@
            == t,
        DataVerdict::Missing(k) => r matches Err(Error::UndefinedSlot(s)) && s@ == k,
    }
}

/// Whether a value's text fits a slot type.
fn value_fits_exec(t: SlotType, v: &str) -> (r: bool)
    ensures
        r == value_fits(t, v@),
{
    match t {
        SlotType::String => true,
        SlotType::Number => text::is_number_str(v),
        SlotType::Boolean => text::parse_bool_str(v).is_some(),
    }
}

/// Whether each slot's default value, where one is set, fits the slot's type.
pub open spec fn spec_default_ok(s: Slot) -> bool {
    match s.default {
        None => true,
        Some(d) => match s.slot_type {
            SlotType::String => true,
            SlotType::Number => text::spec_is_number(d@),
            SlotType::Boolean => text::spec_parse_bool(d@) is Some,
        },
    }
}

/// Validates the slot declarations themselves: every default value must fit
/// its slot's type. Reports the first offending slot.
pub fn validate(slots: &Vec<Slot>) -> (r: Result<(), Error>)
    ensures
        r is Ok <==> (forall|i: int| 0 <= i < slots@.len() ==> spec_default_ok(#[trigger] slots@[i])),
        r matches Err(e) ==> exists|i: int|
            {
                &&& 0 <= i < slots@.len()
                &&& !spec_default_ok(#[trigger] slots@[i])
                &&& (forall|j: int| 0 <= j < i ==> spec_default_ok(#[trigger] slots@[j]))
                &&& (e matches Error::TypeMismatch(k, t) && k@ == slots@[i].key@ && (t@
                    == "number"@ || t@ == "boolean"@))
            },
{
    let n = slots.len();
    let mut i: usize = 0;
    while i < n
        invariant
            n == slots@.len(),
            i <= n,
            forall|j: int| 0 <= j < i ==> spec_default_ok(#[trigger] slots@[j]),
        decreases n - i,
    {
        let slot = &slots[i];
        match &slot.default {
            Some(d) => {
                match slot.slot_type {
                    SlotType::String => {},
                    SlotType::Number => {
                        if !text::is_number_str(d.as_str()) {
                            return Err(Error::TypeMismatch(slot.key.clone(), "number".to_owned()));
                        }
                    },
                    SlotType::Boolean => {
                        if text::parse_bool_str(d.as_str()).is_none() {
                            return Err(Error::TypeMismatch(slot.key.clone(), "boolean".to_owned()));
                        }
                    },
                }
            },
            None => {},
        }
        i = i + 1;
    }
    Ok(())
}

/// Validates user data against the slot declarations: every entry must name a
/// declared slot and fit its type, and every slot must be given a value.
pub fn validate_data(data: &DataMap, slots: &Vec<Slot>) -> (r: Result<(), Error>)
    requires
        data.wf(),
    ensures
        verdict_matches(spec_validate_data(slots@, data.spec_entries(), data@), r),
{
    let n = data.len();
    let mut i: usize = 0;
    proof {
        assert(data.spec_entries().skip(0) =~= data.spec_entries());
    }
    while i < n
        invariant
            data.wf(),
            n == data.spec_entries().len(),
            i <= n,
            spec_check_entries(slots@, data.spec_entries())
                == spec_check_entries(slots@, data.spec_entries().skip(i as int)),
        decreases n - i,
    {
        let ghost rest = data.spec_entries().skip(i as int);
        proof {
            assert(rest.first() == data.spec_entries()[i as int]);
            assert(rest.drop_first() =~= data.spec_entries().skip(i as int + 1));
        }
        let key = data.key_at(i);
        let val = data.val_at(i);
        match find_slot_exec(slots, key.as_str()) {
            None => {
                return Err(Error::UnknownSlot(key.clone()));
            },
            Some(slot) => {
                if !value_fits_exec(slot.slot_type, val.as_str()) {
                    return Err(Error::TypeMismatch(key.clone(), type_label(slot.slot_type)));
                }
            },
        }
        i = i + 1;
    }
    proof {
        assert(data.spec_entries().skip(n as int).len() == 0);
    }
    let m = slots.len();
    let mut k: usize = 0;
    proof {
        assert(slots@.skip(0) =~= slots@);
    }
    while k < m
        invariant
            data.wf(),
            m == slots@.len(),
            k <= m,
            spec_check_entries(slots@, data.spec_entries()) is Accept,
            spec_check_cover(slots@, data@) == spec_check_cover(slots@.skip(k as int), data@),
        decreases m - k,
    {
        proof {
            assert(slots@.skip(k as int).first() == slots@[k as int]);
            assert(slots@.skip(k as int).drop_first() =~= slots@.skip(k as int + 1));
        }
        if !data.contains_key(slots[k].key.as_str()) {
            return Err(Error::UndefinedSlot(slots[k].key.clone()));
        }
        k = k + 1;
    }
    proof {
        assert(slots@.skip(m as int).len() == 0);
    }
    Ok(())
}

} // verus!
