//! The structured configuration value: the tagged-variant representation that
//! every registered configuration block is stored as, together with its
//! mathematical model.

use vstd::prelude::*;

verus! {

/// Mathematical model of a structured configuration value.
///
/// A mapping is modeled as the sequence of its entries (key, value), in
/// insertion order; [`obj_lookup`] gives the mapping reading of that sequence.
pub enum SpecValue {
    Null,
    Bool(bool),
    Int(int),
    Float(u64),
    Str(Seq<char>),
    Arr(Seq<SpecValue>),
    Obj(Seq<(Seq<char>, SpecValue)>),
}

/// The structured configuration value: null, boolean, number, string,
/// sequence, or string-keyed mapping, recursively.
///
/// A number is either an exact integer (`Int`, wide enough for every 64-bit
/// signed or unsigned integer) or a non-integer number (`Float`), carried
/// opaquely as the bit pattern of an IEEE 754 binary64 value: the registry
/// stores and returns it unchanged and never computes with it.
#[derive(Debug, PartialEq, Eq)]
pub enum ConfigValue {
    Null,
    Bool(bool),
    Int(i128),
    Float(u64),
    Str(String),
    Arr(Vec<ConfigValue>),
    Obj(Vec<(String, ConfigValue)>),
}

/// The model of a sequence of array items: each item replaced by its model.
pub open spec fn items_view(vs: Seq<ConfigValue>) -> Seq<SpecValue>
    decreases vs,
{
    Seq::new(vs.len(), |i: int| if 0 <= i < vs.len() { vs[i]@ } else { SpecValue::Null })
}

/// The model of a sequence of mapping entries: each key replaced by its
/// character sequence and each value by its model.
pub open spec fn entries_view(es: Seq<(String, ConfigValue)>) -> Seq<(Seq<char>, SpecValue)>
    decreases es,
{
    Seq::new(es.len(), |i: int| if 0 <= i < es.len() { (es[i].0@, es[i].1@) } else { (Seq::<char>::empty(), SpecValue::Null) })
}

/// Mapping reading of an entry sequence: the value paired with the first
/// occurrence of `key`, or `None` when no entry carries `key`.
pub open spec fn obj_lookup(es: Seq<(Seq<char>, SpecValue)>, key: Seq<char>) -> Option<SpecValue>
    decreases es.len(),
{
    if es.len() == 0 {
        None
    } else if es[0].0 == key {
        Some(es[0].1)
    } else {
        obj_lookup(es.drop_first(), key)
    }
}

/// A key that no entry carries is not found.
pub proof fn lemma_obj_lookup_none(es: Seq<(Seq<char>, SpecValue)>, key: Seq<char>)
    requires
        forall|j: int| 0 <= j < es.len() ==> es[j].0 != key,
    ensures
        obj_lookup(es, key) is None,
    decreases es.len(),
{
    if es.len() > 0 {
        lemma_obj_lookup_none(es.drop_first(), key);
    }
}

/// The first occurrence of a key decides the lookup.
pub proof fn lemma_obj_lookup_first(es: Seq<(Seq<char>, SpecValue)>, key: Seq<char>, i: int)
    requires
        0 <= i < es.len(),
        es[i].0 == key,
        forall|j: int| 0 <= j < i ==> es[j].0 != key,
    ensures
        obj_lookup(es, key) == Some(es[i].1),
    decreases i,
{
    if i > 0 {
        lemma_obj_lookup_first(es.drop_first(), key, i - 1);
    }
}

impl View for ConfigValue {
    type V = SpecValue;

    open spec fn view(&self) -> SpecValue
        decreases self,
    {
        match self {
            ConfigValue::Null => SpecValue::Null,
            ConfigValue::Bool(b) => SpecValue::Bool(*b),
            ConfigValue::Int(i) => SpecValue::Int(*i as int),
            ConfigValue::Float(b) => SpecValue::Float(*b),
            ConfigValue::Str(s) => SpecValue::Str(s@),
            ConfigValue::Arr(vs) => SpecValue::Arr(items_view(vs@)),
            ConfigValue::Obj(es) => SpecValue::Obj(entries_view(es@)),
        }
    }
}

/// What a structured value yields when read as a 64-bit signed integer.
pub open spec fn spec_as_i64(v: SpecValue) -> Option<i64> {
    match v {
        SpecValue::Int(i) => if i64::MIN <= i <= i64::MAX { Some(i as i64) } else { None },
        _ => None,
    }
}

/// What a structured value yields when read as a 16-bit unsigned integer:
/// an integer in range converts, everything else is rejected.
pub open spec fn spec_as_u16(v: SpecValue) -> Option<u16> {
    match v {
        SpecValue::Int(i) => if 0 <= i <= u16::MAX { Some(i as u16) } else { None },
        _ => None,
    }
}

/// What a structured value yields when read as a boolean.
pub open spec fn spec_as_bool(v: SpecValue) -> Option<bool> {
    match v {
        SpecValue::Bool(b) => Some(b),
        _ => None,
    }
}

/// What a structured value yields when read as a string.
pub open spec fn spec_as_str(v: SpecValue) -> Option<Seq<char>> {
    match v {
        SpecValue::Str(s) => Some(s),
        _ => None,
    }
}

/// An independent copy of a mapping's entries, equal entry for entry.
#[verifier::loop_isolation(false)]
pub fn copy_entries(es: &Vec<(String, ConfigValue)>) -> (out: Vec<(String, ConfigValue)>)
    ensures
        entries_view(out@) == entries_view(es@),
    decreases es,
{
    let mut out: Vec<(String, ConfigValue)> = Vec::new();
    let mut idx: usize = 0;
    while idx < es.len()
        invariant
            idx <= es.len(),
            out@.len() == idx as int,
            forall|j: int| 0 <= j < idx ==> out@[j].0@ == es@[j].0@ && out@[j].1@ == es@[j].1@,
        decreases es.len() - idx,
    {
        let k = es[idx].0.clone();
        let v = es[idx].1.deep_copy();
        out.push((k, v));
        idx += 1;
    }
    proof {
        assert(entries_view(out@) =~= entries_view(es@));
    }
    out
}

impl ConfigValue {
    /// An independent copy: structurally equal to `self`, sharing nothing.
    #[verifier::loop_isolation(false)]
    pub fn deep_copy(&self) -> (r: ConfigValue)
        ensures
            r@ == self@,
        decreases self,
    {
        match self {
            ConfigValue::Null => ConfigValue::Null,
            ConfigValue::Bool(b) => ConfigValue::Bool(*b),
            ConfigValue::Int(i) => ConfigValue::Int(*i),
            ConfigValue::Float(b) => ConfigValue::Float(*b),
            ConfigValue::Str(s) => ConfigValue::Str(s.clone()),
            ConfigValue::Arr(vs) => {
                let mut out: Vec<ConfigValue> = Vec::new();
                let mut idx: usize = 0;
                while idx < vs.len()
                    invariant
                        idx <= vs.len(),
                        out@.len() == idx as int,
                        forall|j: int| 0 <= j < idx ==> out@[j]@ == vs@[j]@,
                    decreases vs.len() - idx,
                {
                    let c = vs[idx].deep_copy();
                    out.push(c);
                    idx += 1;
                }
                let r = ConfigValue::Arr(out);
                proof {
                    assert(items_view(out@) =~= items_view(vs@));
                }
                r
            }
            ConfigValue::Obj(es) => ConfigValue::Obj(copy_entries(es)),
        }
    }

    /// The index of the first entry of a mapping that carries `key`, if any.
    pub fn find_index(es: &Vec<(String, ConfigValue)>, key: &String) -> (r: Option<usize>)
        ensures
            match r {
                Some(i) => {
                    &&& i < es@.len()
                    &&& es@[i as int].0@ == key@
                    &&& forall|j: int| 0 <= j < i ==> es@[j].0@ != key@
                },
                None => forall|j: int| 0 <= j < es@.len() ==> es@[j].0@ != key@,
            },
    {
        let mut i: usize = 0;
        while i < es.len()
            invariant
                i <= es@.len(),
                forall|j: int| 0 <= j < i ==> es@[j].0@ != key@,
            decreases es@.len() - i,
        {
            if es[i].0 == *key {
                return Some(i);
            }
            i += 1;
        }
        None
    }

    /// Looks a key up in a mapping's entries, following the first occurrence.
    pub fn find_entry<'a>(es: &'a Vec<(String, ConfigValue)>, key: &String) -> (r: Option<&'a ConfigValue>)
        ensures
            match r {
                Some(v) => obj_lookup(entries_view(es@), key@) == Some(v@),
                None => obj_lookup(entries_view(es@), key@) is None,
            },
    {
        match Self::find_index(es, key) {
            Some(i) => {
                proof {
                    lemma_obj_lookup_first(entries_view(es@), key@, i as int);
                }
                Some(&es[i].1)
            }
            None => {
                proof {
                    lemma_obj_lookup_none(entries_view(es@), key@);
                }
                None
            }
        }
    }

    /// Reads this value as a 64-bit signed integer: succeeds exactly when
    /// the value is an integer within `i64` range.
    pub fn as_i64(&self) -> (r: Option<i64>)
        ensures
            r == spec_as_i64(self@),
    {
        match self {
            ConfigValue::Int(i) => {
                if i64::MIN as i128 <= *i && *i <= i64::MAX as i128 {
                    Some(*i as i64)
                } else {
                    None
                }
            }
            _ => None,
        }
    }

    /// Reads this value as a 16-bit unsigned integer: succeeds exactly when
    /// the value is an integer within `u16` range.
    pub fn as_u16(&self) -> (r: Option<u16>)
        ensures
            r == spec_as_u16(self@),
    {
        match self {
            ConfigValue::Int(i) => {
                if 0 <= *i && *i <= u16::MAX as i128 {
                    Some(*i as u16)
                } else {
                    None
                }
            }
            _ => None,
        }
    }

    /// Reads this value as a boolean, if it is a boolean.
    pub fn as_bool(&self) -> (r: Option<bool>)
        ensures
            r == spec_as_bool(self@),
    {
        match self {
            ConfigValue::Bool(b) => Some(*b),
            _ => None,
        }
    }

    /// Reads this value as a string (an independent copy), if it is a string.
    pub fn as_string(&self) -> (r: Option<String>)
        ensures
            match r {
                Some(s) => spec_as_str(self@) == Some(s@),
                None => spec_as_str(self@) is None,
            },
    {
        match self {
            ConfigValue::Str(s) => Some(s.clone()),
            _ => None,
        }
    }
}

} // verus!
