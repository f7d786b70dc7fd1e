//! The registry's laws: properties that relate several operations, stated
//! over the mathematical model that the operations' contracts use and proved
//! once for all inputs.

use vstd::prelude::*;
use crate::value::SpecValue;
use crate::path::{split_dots, lemma_split_dots_no_dot, lemma_split_dots_first_dot, lemma_split_dots_len};
use crate::store::read_at;

verus! {

/// Registering under one namespace twice leaves exactly what a single
/// registration of the second value would: no trace of the first value
/// remains anywhere in the mapping, and reading the namespace (as a dot-free
/// path) yields the second value.
pub proof fn lemma_register_replaces(
    m: Map<Seq<char>, SpecValue>,
    ns: Seq<char>,
    a: SpecValue,
    b: SpecValue,
)
    requires
        forall|j: int| 0 <= j < ns.len() ==> ns[j] != '.',
    ensures
        m.insert(ns, a).insert(ns, b) == m.insert(ns, b),
        read_at(m.insert(ns, a).insert(ns, b), ns) == Some(b),
{
    assert(m.insert(ns, a).insert(ns, b) =~= m.insert(ns, b));
    lemma_split_dots_no_dot(ns);
    assert(split_dots(ns).drop_first() =~= Seq::<Seq<char>>::empty());
}

/// Registering under two different namespaces merges: both are present
/// afterwards, each with its own value.
pub proof fn lemma_register_merges(
    m: Map<Seq<char>, SpecValue>,
    ns_a: Seq<char>,
    x: SpecValue,
    ns_b: Seq<char>,
    y: SpecValue,
)
    requires
        ns_a != ns_b,
    ensures
        m.insert(ns_a, x).insert(ns_b, y).contains_key(ns_a),
        m.insert(ns_a, x).insert(ns_b, y).contains_key(ns_b),
        m.insert(ns_a, x).insert(ns_b, y)[ns_a] == x,
        m.insert(ns_a, x).insert(ns_b, y)[ns_b] == y,
{
}

/// A namespace that holds a scalar (anything but a mapping) yields "not
/// found" for every longer path that starts at it: traversal through a
/// non-mapping value stops cleanly.
pub proof fn lemma_non_mapping_prefix(
    m: Map<Seq<char>, SpecValue>,
    ns: Seq<char>,
    sub: Seq<char>,
)
    requires
        forall|j: int| 0 <= j < ns.len() ==> ns[j] != '.',
        m.contains_key(ns) ==> !(m[ns] is Obj),
    ensures
        read_at(m, ns + seq!['.'] + sub) is None,
{
    let path = ns + seq!['.'] + sub;
    lemma_split_dots_first_dot(path, ns.len() as int);
    assert(path.take(ns.len() as int) =~= ns);
    assert(path.skip(ns.len() as int + 1) =~= sub);
    lemma_split_dots_len(sub);
    assert(split_dots(path)[0] == ns);
    assert(split_dots(path).drop_first() =~= split_dots(sub));
}

/// The mapping after a sequence of registrations, first to last.
pub open spec fn register_all(
    m: Map<Seq<char>, SpecValue>,
    regs: Seq<(Seq<char>, SpecValue)>,
) -> Map<Seq<char>, SpecValue>
    decreases regs.len(),
{
    if regs.len() == 0 {
        m
    } else {
        register_all(m.insert(regs[0].0, regs[0].1), regs.drop_first())
    }
}

/// A namespace that none of a sequence of registrations touches keeps its
/// binding through all of them.
proof fn lemma_register_all_frame(
    m: Map<Seq<char>, SpecValue>,
    regs: Seq<(Seq<char>, SpecValue)>,
    ns: Seq<char>,
)
    requires
        forall|i: int| 0 <= i < regs.len() ==> regs[i].0 != ns,
        m.contains_key(ns),
    ensures
        register_all(m, regs).contains_key(ns),
        register_all(m, regs)[ns] == m[ns],
    decreases regs.len(),
{
    if regs.len() > 0 {
        lemma_register_all_frame(m.insert(regs[0].0, regs[0].1), regs.drop_first(), ns);
    }
}

/// No lost updates: after registrations under pairwise distinct namespaces,
/// every one of them is present with the value it registered — however the
/// registrations were ordered.
pub proof fn lemma_no_lost_registrations(
    m: Map<Seq<char>, SpecValue>,
    regs: Seq<(Seq<char>, SpecValue)>,
)
    requires
        forall|i: int, j: int| 0 <= i < j < regs.len() ==> regs[i].0 != regs[j].0,
    ensures
        forall|i: int| 0 <= i < regs.len()
            ==> register_all(m, regs).contains_key(#[trigger] regs[i].0)
                && register_all(m, regs)[regs[i].0] == regs[i].1,
    decreases regs.len(),
{
    if regs.len() > 0 {
        let rest = regs.drop_first();
        let m1 = m.insert(regs[0].0, regs[0].1);
        assert(forall|k: int| 0 <= k < rest.len() ==> #[trigger] rest[k] == regs[k + 1]);
        lemma_no_lost_registrations(m1, rest);
        lemma_register_all_frame(m1, rest, regs[0].0);
        assert forall|i: int|
            0 < i < regs.len() implies register_all(m, regs).contains_key(#[trigger] regs[i].0)
            && register_all(m, regs)[regs[i].0] == regs[i].1 by {
            assert(rest[i - 1] == regs[i]);
            assert(register_all(m1, rest).contains_key(rest[i - 1].0)
                && register_all(m1, rest)[rest[i - 1].0] == rest[i - 1].1);
        }
    }
}

} // verus!
