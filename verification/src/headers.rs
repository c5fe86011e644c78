//! Header maps: lists of name/value byte pairs with case-insensitive name
//! lookup where the last occurrence of a name wins, and overwriting insertion.
use vstd::prelude::*;
use crate::bytes::{lower, eq_ignore_case};

verus! {

/// Element-wise view of a list of header pairs.
pub open spec fn hview(hs: Seq<(Vec<u8>, Vec<u8>)>) -> Seq<(Seq<u8>, Seq<u8>)> {
    hs.map_values(|p: (Vec<u8>, Vec<u8>)| (p.0@, p.1@))
}

/// Value stored under a header name: names compare ASCII case-insensitively
/// and the last occurrence of a name wins.
pub open spec fn spec_lookup(hs: Seq<(Seq<u8>, Seq<u8>)>, name: Seq<u8>) -> Option<Seq<u8>>
    decreases hs.len(),
{
    if hs.len() == 0 {
        None
    } else if lower(hs.last().0) == lower(name) {
        Some(hs.last().1)
    } else {
        spec_lookup(hs.drop_last(), name)
    }
}

/// The map after setting a header: any pair under the same name, in any
/// letter case, is dropped and the new pair appended.
pub open spec fn spec_set(hs: Seq<(Seq<u8>, Seq<u8>)>, name: Seq<u8>, value: Seq<u8>) -> Seq<
    (Seq<u8>, Seq<u8>),
> {
    hs.filter(|p: (Seq<u8>, Seq<u8>)| lower(p.0) != lower(name)).push((name, value))
}

/// No two stored names are equal up to ASCII case.
pub open spec fn unique_names(hs: Seq<(Seq<u8>, Seq<u8>)>) -> bool {
    forall|i: int, j: int|
        0 <= i < j < hs.len() ==> lower(#[trigger] hs[i].0) != lower(#[trigger] hs[j].0)
}

/// Case-insensitive lookup of `name`; the last stored occurrence wins.
pub fn header_lookup(hs: &Vec<(Vec<u8>, Vec<u8>)>, name: &[u8]) -> (r: Option<Vec<u8>>)
    ensures
        match r {
            Some(v) => spec_lookup(hview(hs@), name@) == Some(v@),
            None => spec_lookup(hview(hs@), name@) is None,
        },
{
    let ghost m = hview(hs@);
    let mut i: usize = hs.len();
    assert(m.take(i as int) =~= m);
    while i > 0
        invariant
            i <= hs@.len(),
            m == hview(hs@),
            spec_lookup(m, name@) == spec_lookup(m.take(i as int), name@),
        decreases i,
    {
        i -= 1;
        let ghost pre = m.take(i + 1);
        assert(pre.last() == m[i as int]);
        assert(pre.drop_last() =~= m.take(i as int));
        let pair = &hs[i];
        if eq_ignore_case(pair.0.as_slice(), name) {
            assert(spec_lookup(pre, name@) == Some(m[i as int].1));
            return Some(vstd::slice::slice_to_vec(pair.1.as_slice()));
        }
        assert(lower(m[i as int].0) != lower(name@));
    }
    assert(m.take(0) =~= Seq::<(Seq<u8>, Seq<u8>)>::empty());
    None
}

/// Sets `name` to `value`, overwriting any pair whose name matches up to
/// ASCII case; afterwards the name is stored exactly once.
pub fn header_set(hs: &mut Vec<(Vec<u8>, Vec<u8>)>, name: Vec<u8>, value: Vec<u8>)
    ensures
        hview(final(hs)@) == spec_set(hview(old(hs)@), name@, value@),
{
    proof {
        reveal(Seq::filter);
    }
    let ghost m = hview(old(hs)@);
    let ghost pred = |p: (Seq<u8>, Seq<u8>)| lower(p.0) != lower(name@);
    let mut out: Vec<(Vec<u8>, Vec<u8>)> = Vec::new();
    let n = hs.len();
    let mut i: usize = 0;
    assert(m.take(0) =~= Seq::<(Seq<u8>, Seq<u8>)>::empty());
    while i < n
        invariant
            0 <= i <= n,
            n == hs@.len(),
            hs@ == old(hs)@,
            m == hview(old(hs)@),
            pred == (|p: (Seq<u8>, Seq<u8>)| lower(p.0) != lower(name@)),
            hview(out@) == m.take(i as int).filter(pred),
        decreases n - i,
    {
        proof {
            reveal(Seq::filter);
        }
        let ghost pre = m.take(i + 1);
        assert(pre.last() == m[i as int]);
        assert(pre.drop_last() =~= m.take(i as int));
        let pair = &hs[i];
        if !eq_ignore_case(pair.0.as_slice(), name.as_slice()) {
            assert(pred(m[i as int]));
            let k = vstd::slice::slice_to_vec(pair.0.as_slice());
            let v = vstd::slice::slice_to_vec(pair.1.as_slice());
            let ghost out0 = hview(out@);
            out.push((k, v));
            assert(hview(out@) =~= out0.push(m[i as int]));
        } else {
            assert(!pred(m[i as int]));
        }
        i += 1;
    }
    proof {
        reveal(Seq::filter);
    }
    assert(m.take(n as int) =~= m);
    let ghost out0 = hview(out@);
    out.push((name, value));
    assert(hview(out@) =~= out0.push((name@, value@)));
    *hs = out;
}

/// Looking a name up is insensitive to the case of the name asked for.
pub proof fn lemma_lookup_name_case(hs: Seq<(Seq<u8>, Seq<u8>)>, n1: Seq<u8>, n2: Seq<u8>)
    requires
        lower(n1) == lower(n2),
    ensures
        spec_lookup(hs, n1) == spec_lookup(hs, n2),
    decreases hs.len(),
{
    if hs.len() > 0 {
        lemma_lookup_name_case(hs.drop_last(), n1, n2);
    }
}

/// Looking a name up is insensitive to the case of the stored names: two
/// header lists whose names agree up to ASCII case and whose values agree
/// give the same lookup results.
pub proof fn lemma_lookup_stored_case(
    hs1: Seq<(Seq<u8>, Seq<u8>)>,
    hs2: Seq<(Seq<u8>, Seq<u8>)>,
    name: Seq<u8>,
)
    requires
        hs1.len() == hs2.len(),
        forall|i: int|
            0 <= i < hs1.len() ==> lower(#[trigger] hs1[i].0) == lower(#[trigger] hs2[i].0)
                && hs1[i].1 == hs2[i].1,
    ensures
        spec_lookup(hs1, name) == spec_lookup(hs2, name),
    decreases hs1.len(),
{
    if hs1.len() > 0 {
        assert(lower(hs1.last().0) == lower(hs2.last().0));
        lemma_lookup_stored_case(hs1.drop_last(), hs2.drop_last(), name);
    }
}

/// After setting a header, looking that name up yields the new value and
/// every other name is unchanged.
pub proof fn lemma_lookup_after_set(
    hs: Seq<(Seq<u8>, Seq<u8>)>,
    name: Seq<u8>,
    value: Seq<u8>,
    probe: Seq<u8>,
)
    ensures
        lower(probe) == lower(name) ==> spec_lookup(spec_set(hs, name, value), probe) == Some(
            value,
        ),
        lower(probe) != lower(name) ==> spec_lookup(spec_set(hs, name, value), probe)
            == spec_lookup(hs, probe),
    decreases hs.len(),
{
    reveal(Seq::filter);
    let pred = |p: (Seq<u8>, Seq<u8>)| lower(p.0) != lower(name);
    let out = spec_set(hs, name, value);
    assert(out.last() == (name, value));
    assert(out.drop_last() =~= hs.filter(pred));
    if lower(probe) != lower(name) {
        lemma_lookup_filter_other(hs, name, probe);
    }
}

/// Filtering pairs of one name out does not change lookups of other names.
proof fn lemma_lookup_filter_other(hs: Seq<(Seq<u8>, Seq<u8>)>, name: Seq<u8>, probe: Seq<u8>)
    requires
        lower(probe) != lower(name),
    ensures
        spec_lookup(hs.filter(|p: (Seq<u8>, Seq<u8>)| lower(p.0) != lower(name)), probe)
            == spec_lookup(hs, probe),
    decreases hs.len(),
{
    reveal(Seq::filter);
    let pred = |p: (Seq<u8>, Seq<u8>)| lower(p.0) != lower(name);
    if hs.len() > 0 {
        lemma_lookup_filter_other(hs.drop_last(), name, probe);
        if pred(hs.last()) {
            assert(hs.filter(pred) == hs.drop_last().filter(pred).push(hs.last()));
            assert(hs.filter(pred).drop_last() =~= hs.drop_last().filter(pred));
        } else {
            assert(hs.filter(pred) == hs.drop_last().filter(pred));
            assert(lower(hs.last().0) == lower(name));
            assert(lower(hs.last().0) != lower(probe));
        }
    }
}

/// Setting a header keeps the stored names unique up to case.
pub proof fn lemma_set_unique(hs: Seq<(Seq<u8>, Seq<u8>)>, name: Seq<u8>, value: Seq<u8>)
    requires
        unique_names(hs),
    ensures
        unique_names(spec_set(hs, name, value)),
{
    reveal(Seq::filter);
    let pred = |p: (Seq<u8>, Seq<u8>)| lower(p.0) != lower(name);
    lemma_filter_unique(hs, pred);
    let f = hs.filter(pred);
    let out = spec_set(hs, name, value);
    assert forall|i: int, j: int|
        0 <= i < j < out.len() implies lower(#[trigger] out[i].0) != lower(
        #[trigger] out[j].0,
    ) by {
        broadcast use vstd::seq_lib::group_filter_ensures;

        if j < f.len() {
        } else {
            assert(out[j] == (name, value));
            assert(f.contains(f[i]));
            assert(pred(f[i]));
        }
    }
}

/// Filtering keeps names unique up to case.
proof fn lemma_filter_unique(hs: Seq<(Seq<u8>, Seq<u8>)>, pred: spec_fn((Seq<u8>, Seq<u8>)) -> bool)
    requires
        unique_names(hs),
    ensures
        unique_names(hs.filter(pred)),
        forall|i: int| 0 <= i < hs.filter(pred).len() ==> hs.contains(#[trigger] hs.filter(pred)[i]),
    decreases hs.len(),
{
    reveal(Seq::filter);
    let f = hs.filter(pred);
    if hs.len() > 0 {
        let prev = hs.drop_last();
        assert(forall|i: int, j: int|
            0 <= i < j < prev.len() ==> lower(#[trigger] prev[i].0) != lower(#[trigger] prev[j].0));
        lemma_filter_unique(prev, pred);
        let f0 = prev.filter(pred);
        assert forall|i: int| 0 <= i < f0.len() implies hs.contains(f0[i]) by {
            assert(prev.contains(f0[i]));
            let k = choose|k: int| 0 <= k < prev.len() && prev[k] == f0[i];
            assert(hs[k] == f0[i]);
        }
        if pred(hs.last()) {
            assert(f == f0.push(hs.last()));
            assert forall|i: int| 0 <= i < f.len() implies hs.contains(f[i]) by {
                if i == f0.len() {
                    assert(hs[hs.len() - 1] == f[i]);
                } else {
                    assert(f[i] == f0[i]);
                }
            }
            assert forall|i: int, j: int| 0 <= i < j < f.len() implies lower(
                #[trigger] f[i].0,
            ) != lower(#[trigger] f[j].0) by {
                if j == f0.len() {
                    assert(prev.contains(f0[i]));
                    let k = choose|k: int| 0 <= k < prev.len() && prev[k] == f0[i];
                    assert(hs[k] == f0[i]);
                    assert(lower(hs[k].0) != lower(hs.last().0));
                }
            }
        } else {
            assert(f == f0);
        }
    }
}

} // verus!
