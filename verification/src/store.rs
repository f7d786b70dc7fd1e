//! The configuration store and the registry around it.
//!
//! [`ConfigStore`] is the mapping from namespace names to structured values;
//! its model is a mathematical map. [`Registry`] adds the lazy-initialization
//! state of the process-wide store: initialization is idempotent, and reading
//! before initialization yields the empty configuration.

use vstd::prelude::*;
use crate::value::{ConfigValue, SpecValue, copy_entries, entries_view, obj_lookup, spec_as_bool,
    spec_as_i64, spec_as_str, spec_as_u16, lemma_obj_lookup_none};
use crate::path::{split_dots, seg_views, resolve, split_key, lemma_split_dots_len};

verus! {

/// The mapping an entry sequence stands for: every key is sent to the value
/// of its first entry.
pub open spec fn assoc_map(es: Seq<(Seq<char>, SpecValue)>) -> Map<Seq<char>, SpecValue>
    decreases es.len(),
{
    if es.len() == 0 {
        Map::empty()
    } else {
        assoc_map(es.drop_first()).insert(es[0].0, es[0].1)
    }
}

/// No two entries carry the same key.
pub open spec fn keys_unique(es: Seq<(Seq<char>, SpecValue)>) -> bool {
    forall|i: int, j: int| 0 <= i < j < es.len() ==> es[i].0 != es[j].0
}

/// Reading the mapping an entry sequence stands for agrees with looking the
/// key up entry by entry.
pub proof fn lemma_assoc_map_lookup(es: Seq<(Seq<char>, SpecValue)>, key: Seq<char>)
    ensures
        match obj_lookup(es, key) {
            Some(v) => assoc_map(es).contains_key(key) && assoc_map(es)[key] == v,
            None => !assoc_map(es).contains_key(key),
        },
    decreases es.len(),
{
    if es.len() > 0 {
        lemma_assoc_map_lookup(es.drop_first(), key);
    }
}

/// Appending an entry with a fresh key adds exactly that key to the mapping.
proof fn lemma_assoc_map_push(es: Seq<(Seq<char>, SpecValue)>, p: (Seq<char>, SpecValue))
    requires
        obj_lookup(es, p.0) is None,
    ensures
        assoc_map(es.push(p)) == assoc_map(es).insert(p.0, p.1),
    decreases es.len(),
{
    if es.len() == 0 {
        reveal_with_fuel(assoc_map, 2);
        assert(es.push(p).drop_first() =~= Seq::<(Seq<char>, SpecValue)>::empty());
        assert(assoc_map(es.push(p)) =~= assoc_map(es).insert(p.0, p.1));
    } else {
        assert(es.push(p).drop_first() =~= es.drop_first().push(p));
        lemma_assoc_map_push(es.drop_first(), p);
        assert(assoc_map(es.push(p)) =~= assoc_map(es).insert(p.0, p.1));
    }
}

/// Replacing the entry that carries a key overwrites exactly that key.
proof fn lemma_assoc_map_update(es: Seq<(Seq<char>, SpecValue)>, i: int, p: (Seq<char>, SpecValue))
    requires
        0 <= i < es.len(),
        es[i].0 == p.0,
        keys_unique(es),
    ensures
        assoc_map(es.update(i, p)) == assoc_map(es).insert(p.0, p.1),
    decreases i,
{
    if i == 0 {
        assert(es.update(0, p).drop_first() =~= es.drop_first());
        assert(assoc_map(es.update(0, p)) =~= assoc_map(es).insert(p.0, p.1));
    } else {
        assert(es.update(i, p).drop_first() =~= es.drop_first().update(i - 1, p));
        assert(keys_unique(es.drop_first())) by {
            assert(forall|a: int, b: int| 0 <= a < b < es.drop_first().len()
                ==> es.drop_first()[a] == es[a + 1] && es.drop_first()[b] == es[b + 1]);
        }
        lemma_assoc_map_update(es.drop_first(), i - 1, p);
        assert(assoc_map(es.update(i, p)) =~= assoc_map(es).insert(p.0, p.1));
    }
}

/// What reading a dot-separated path yields against a store's map: the first
/// segment picks the namespace, the remaining segments resolve inside it.
pub open spec fn read_at(m: Map<Seq<char>, SpecValue>, path: Seq<char>) -> Option<SpecValue> {
    let segs = split_dots(path);
    if m.contains_key(segs[0]) {
        resolve(m[segs[0]], segs.drop_first())
    } else {
        None
    }
}

/// The mapping from namespace names to the structured values registered
/// under them. Each namespace holds the value of its latest registration.
pub struct ConfigStore {
    entries: Vec<(String, ConfigValue)>,
}

impl ConfigStore {
    /// At most one entry per namespace.
    #[verifier::type_invariant]
    spec fn inv(&self) -> bool {
        keys_unique(entries_view(self.entries@))
    }

    /// The mapping this store holds.
    pub closed spec fn view(&self) -> Map<Seq<char>, SpecValue> {
        assoc_map(entries_view(self.entries@))
    }

    /// An empty store.
    pub fn new() -> (r: ConfigStore)
        ensures
            r@ == Map::<Seq<char>, SpecValue>::empty(),
    {
        let r = ConfigStore { entries: Vec::new() };
        proof {
            assert(entries_view(r.entries@) =~= Seq::<(Seq<char>, SpecValue)>::empty());
        }
        r
    }

    /// Replaces whatever `namespace` held with `value`: last writer wins,
    /// every other namespace is untouched.
    pub fn register_config(&mut self, namespace: &str, value: ConfigValue)
        ensures
            final(self)@ == old(self)@.insert(namespace@, value@),
    {
        proof {
            use_type_invariant(&*self);
        }
        let ns: String = namespace.to_owned();
        let mut entries: Vec<(String, ConfigValue)> = Vec::new();
        core::mem::swap(&mut entries, &mut self.entries);
        let ghost old_ev = entries_view(entries@);
        match ConfigValue::find_index(&entries, &ns) {
            Some(i) => {
                entries[i] = (ns, value);
                proof {
                    assert(entries_view(entries@) =~= old_ev.update(i as int, (namespace@, value@)));
                    lemma_assoc_map_update(old_ev, i as int, (namespace@, value@));
                }
            }
            None => {
                proof {
                    lemma_obj_lookup_none(old_ev, namespace@);
                }
                entries.push((ns, value));
                proof {
                    assert(entries_view(entries@) =~= old_ev.push((namespace@, value@)));
                    lemma_assoc_map_push(old_ev, (namespace@, value@));
                }
            }
        }
        self.entries = entries;
    }

    /// A snapshot of the whole store: a mapping value, independent of the
    /// live store, holding exactly the registered namespaces.
    pub fn get_config(&self) -> (r: ConfigValue)
        ensures
            r@ is Obj,
            assoc_map(r@->Obj_0) == self@,
            keys_unique(r@->Obj_0),
    {
        proof {
            use_type_invariant(&*self);
        }
        ConfigValue::Obj(copy_entries(&self.entries))
    }

    /// The value at a dot-separated key path, as an independent copy, or
    /// `None` when any path segment fails to resolve.
    #[verifier::loop_isolation(false)]
    pub fn get_config_by_key(&self, key: &str) -> (r: Option<ConfigValue>)
        ensures
            match r {
                Some(v) => read_at(self@, key@) == Some(v@),
                None => read_at(self@, key@) is None,
            },
    {
        proof {
            use_type_invariant(&*self);
            lemma_split_dots_len(key@);
        }
        let segs = split_key(key);
        let ghost target = read_at(self@, key@);
        proof {
            assert(seg_views(segs@) =~= split_dots(key@));
            lemma_assoc_map_lookup(entries_view(self.entries@), split_dots(key@)[0]);
        }
        let first = match ConfigValue::find_entry(&self.entries, &segs[0]) {
            Some(v) => v,
            None => {
                return None;
            }
        };
        let mut cur: &ConfigValue = first;
        let mut j: usize = 1;
        proof {
            assert(seg_views(segs@).skip(1) =~= split_dots(key@).drop_first());
        }
        while j < segs.len()
            invariant
                1 <= j <= segs@.len(),
                resolve(cur@, seg_views(segs@).skip(j as int)) == target,
            decreases segs@.len() - j,
        {
            let ghost rem = seg_views(segs@).skip(j as int);
            proof {
                assert(rem[0] == segs@[j as int]@);
            }
            match cur {
                ConfigValue::Obj(es) => {
                    match ConfigValue::find_entry(es, &segs[j]) {
                        Some(next) => {
                            proof {
                                assert(rem.drop_first() =~= seg_views(segs@).skip(j as int + 1));
                            }
                            cur = next;
                        }
                        None => {
                            return None;
                        }
                    }
                }
                _ => {
                    return None;
                }
            }
            j += 1;
        }
        proof {
            assert(seg_views(segs@).skip(segs@.len() as int) =~= Seq::<Seq<char>>::empty());
        }
        Some(cur.deep_copy())
    }
}

/// The lazy-initialization state of the process-wide registry: not yet
/// created, or a store. Reading before initialization sees the empty
/// configuration; initializing is idempotent.
pub struct Registry {
    store: Option<ConfigStore>,
}

impl Registry {
    /// The mapping the registry holds: the store's mapping, or the empty
    /// mapping before the store exists.
    pub closed spec fn view(&self) -> Map<Seq<char>, SpecValue> {
        match self.store {
            Some(s) => s@,
            None => Map::empty(),
        }
    }

    /// Whether the store has been created.
    pub closed spec fn is_initialized(&self) -> bool {
        self.store is Some
    }

    /// The state before any use: no store yet, empty content.
    pub fn new() -> (r: Registry)
        ensures
            r@ == Map::<Seq<char>, SpecValue>::empty(),
            !r.is_initialized(),
    {
        Registry { store: None }
    }

    /// Ensures the store exists. The first call creates it empty; any later
    /// call leaves the content exactly as it was — in particular, namespaces
    /// registered earlier survive however often this is called again.
    pub fn init_config(&mut self)
        ensures
            final(self)@ == old(self)@,
            final(self).is_initialized(),
    {
        if self.store.is_none() {
            self.store = Some(ConfigStore::new());
        }
    }

    /// Registers `value` under `namespace`, creating the store first if it
    /// does not exist yet: the namespace now holds exactly `value`, every
    /// other namespace is untouched.
    pub fn register_config(&mut self, namespace: &str, value: ConfigValue)
        ensures
            final(self)@ == old(self)@.insert(namespace@, value@),
            final(self).is_initialized(),
    {
        let mut opt: Option<ConfigStore> = None;
        core::mem::swap(&mut opt, &mut self.store);
        let mut st = match opt {
            Some(s) => s,
            None => ConfigStore::new(),
        };
        st.register_config(namespace, value);
        self.store = Some(st);
    }

    /// A snapshot of the whole configuration: a mapping value holding exactly
    /// the registered namespaces (empty before any registration), independent
    /// of the live store.
    pub fn get_config(&self) -> (r: ConfigValue)
        ensures
            r@ is Obj,
            assoc_map(r@->Obj_0) == self@,
            keys_unique(r@->Obj_0),
    {
        match &self.store {
            Some(s) => s.get_config(),
            None => {
                let r = ConfigValue::Obj(Vec::new());
                proof {
                    assert(entries_view(Seq::<(String, ConfigValue)>::empty())
                        =~= Seq::<(Seq<char>, SpecValue)>::empty());
                }
                r
            }
        }
    }

    /// The value at a dot-separated key path, as an independent copy, or
    /// `None` when any path segment fails to resolve — also before any
    /// initialization, where every path is absent.
    pub fn get_config_by_key(&self, key: &str) -> (r: Option<ConfigValue>)
        ensures
            match r {
                Some(v) => read_at(self@, key@) == Some(v@),
                None => read_at(self@, key@) is None,
            },
    {
        match &self.store {
            Some(s) => s.get_config_by_key(key),
            None => None,
        }
    }

    /// The value at `key` read as a 16-bit unsigned integer. Absence and
    /// conversion failure collapse to the same outcome: `None`.
    pub fn get_config_by_key_u16(&self, key: &str) -> (r: Option<u16>)
        ensures
            r == (match read_at(self@, key@) {
                Some(v) => spec_as_u16(v),
                None => None::<u16>,
            }),
    {
        match self.get_config_by_key(key) {
            Some(v) => v.as_u16(),
            None => None,
        }
    }

    /// The value at `key` read as a 64-bit signed integer. Absence and
    /// conversion failure collapse to the same outcome: `None`.
    pub fn get_config_by_key_i64(&self, key: &str) -> (r: Option<i64>)
        ensures
            r == (match read_at(self@, key@) {
                Some(v) => spec_as_i64(v),
                None => None::<i64>,
            }),
    {
        match self.get_config_by_key(key) {
            Some(v) => v.as_i64(),
            None => None,
        }
    }

    /// The value at `key` read as a boolean. Absence and conversion failure
    /// collapse to the same outcome: `None`.
    pub fn get_config_by_key_bool(&self, key: &str) -> (r: Option<bool>)
        ensures
            r == (match read_at(self@, key@) {
                Some(v) => spec_as_bool(v),
                None => None::<bool>,
            }),
    {
        match self.get_config_by_key(key) {
            Some(v) => v.as_bool(),
            None => None,
        }
    }

    /// The value at `key` read as a string. Absence and conversion failure
    /// collapse to the same outcome: `None`.
    pub fn get_config_by_key_string(&self, key: &str) -> (r: Option<String>)
        ensures
            match r {
                Some(s) => read_at(self@, key@) matches Some(v) && spec_as_str(v) == Some(s@),
                None => (match read_at(self@, key@) {
                    Some(v) => spec_as_str(v) is None,
                    None => true,
                }),
            },
    {
        match self.get_config_by_key(key) {
            Some(v) => v.as_string(),
            None => None,
        }
    }
}

} // verus!
