//! After the scan: positional placement, the variadic tail, and validation.
use vstd::prelude::*;
use crate::active::{actives, find_variadic, lemma_first_found, lemma_first_none, ActiveArg};
use crate::arg::ArgType;
use crate::error::ParseError;
use crate::rules::{
    check_from, lemma_order_insert, lemma_order_unique, missing_dep, orders_upto, pidx,
    place_from, positional_order,
    present_conflict, require_from, with_variadic,
};
use crate::text::{contains_text, copy_all, strs};
use crate::work::{lemma_names_push, Work};

verus! {

/// A sequence of positions, as integers.
pub open spec fn ints(s: Seq<usize>) -> Seq<int> {
    s.map_values(|x: usize| x as int)
}

fn index_of(act: &Vec<ActiveArg>, p: usize) -> (r: usize)
    requires
        p < act@.len(),
    ensures
        r as int == pidx(actives(act@), p as int),
{
    match act[p].kind {
        ArgType::Positional { index } => index,
        _ => 0,
    }
}

/// The positions of the positional arguments of the active set, ordered by
/// index; equal indices keep their order.
pub fn positional_positions(act: &Vec<ActiveArg>) -> (r: Vec<usize>)
    ensures
        ints(r@) == positional_order(actives(act@)),
        forall|k: int| 0 <= k < r@.len() ==> r@[k] < act@.len(),
{
    let ghost a = actives(act@);
    let mut r: Vec<usize> = Vec::new();
    let mut n: usize = 0;
    assert(orders_upto(a, 0, ints(r@)));
    while n < act.len()
        invariant
            n <= act@.len(),
            a == actives(act@),
            orders_upto(a, n as int, ints(r@)),
            forall|k: int| 0 <= k < r@.len() ==> r@[k] < n,
        decreases act@.len() - n,
    {
        if matches!(act[n].kind, ArgType::Positional { .. }) {
            let ghost s = ints(r@);
            let key = index_of(act, n);
            let mut q: usize = r.len();
            while q > 0 && index_of(act, r[q - 1]) > key
                invariant
                    q <= r@.len(),
                    s == ints(r@),
                    a == actives(act@),
                    key as int == pidx(a, n as int),
                    forall|k: int| 0 <= k < r@.len() ==> r@[k] < n,
                    n < act@.len(),
                    forall|x: int| q <= x < s.len() ==> pidx(a, #[trigger] s[x]) > key,
                decreases q,
            {
                q = q - 1;
            }
            proof {
                assert forall|x: int| 0 <= x < q implies pidx(a, #[trigger] s[x]) <= key by {
                    if x < q - 1 {
                        assert(crate::rules::before(a, s[x], s[q - 1]));
                    }
                }
                lemma_order_insert(a, n as int, s, q as int);
            }
            r.insert(q, n);
            assert(ints(r@) =~= s.insert(q as int, n as int));
        } else {
            assert(orders_upto(a, n + 1, ints(r@)));
        }
        n = n + 1;
    }
    proof {
        let c = positional_order(a);
        assert(orders_upto(a, a.len() as int, c));
        lemma_order_unique(a, ints(r@), c);
    }
    r
}

/// Places the positional arguments, in the order `ord`, on the plain tokens.
pub(crate) fn place_all(act: &Vec<ActiveArg>, ord: &Vec<usize>, w: &mut Work) -> (r: Result<
    (),
    ParseError,
>)
    requires
        forall|k: int| 0 <= k < ord@.len() ==> ord@[k] < act@.len(),
    ensures
        match place_from(actives(act@), ints(ord@), 0, old(w).model()) {
            Ok(m) => r is Ok && final(w).model() == m,
            Err(e) => r matches Err(x) && x@ == e,
        },
{
    let ghost a = actives(act@);
    let ghost o = ints(ord@);
    let ghost goal = place_from(a, o, 0, w.model());
    let mut k: usize = 0;
    while k < ord.len()
        invariant
            k <= ord@.len(),
            a == actives(act@),
            o == ints(ord@),
            forall|k: int| 0 <= k < ord@.len() ==> ord@[k] < act@.len(),
            goal == place_from(a, o, 0, old(w).model()),
            place_from(a, o, k as int, w.model()) == goal,
        decreases ord@.len() - k,
    {
        let p = ord[k];
        let spec = act[p].spec;
        let idx = index_of(act, p);
        assert(a[o[k as int]].0 == *spec);
        if idx < w.raw.len() {
            let v = w.raw[idx].clone();
            assert(w.model().raw[idx as int] == v@);
            if spec.possible_values.len() > 0 && !contains_text(&spec.possible_values, v.as_str()) {
                return Err(
                    ParseError::InvalidValue {
                        value: v,
                        name: spec.name.clone(),
                        allowed: copy_all(&spec.possible_values),
                    },
                );
            }
            w.place(spec.name.as_str(), v.as_str());
        } else if spec.required {
            match &spec.default_value {
                Some(d) => {
                    w.place_default(spec.name.as_str(), d.as_str());
                },
                None => {
                    return Err(ParseError::MissingRequiredPositional(spec.name.clone()));
                },
            }
        }
        k = k + 1;
    }
    Ok(())
}

/// Hands the plain tokens beyond the first `npos` to the first variadic argument.
pub(crate) fn fill_variadic(act: &Vec<ActiveArg>, npos: usize, w: &mut Work)
    ensures
        final(w).model() == with_variadic(actives(act@), npos as int, old(w).model()),
{
    match find_variadic(act) {
        None => {},
        Some(j) => {
            let ghost raw = w.model().raw;
            let mut rest: Vec<String> = Vec::new();
            if npos <= w.raw.len() {
                let mut i: usize = npos;
                while i < w.raw.len()
                    invariant
                        npos <= i <= w.raw@.len(),
                        raw == strs(w.raw@),
                        strs(rest@) == raw.subrange(npos as int, i as int),
                    decreases w.raw@.len() - i,
                {
                    let c = w.raw[i].clone();
                    proof {
                        crate::work::lemma_strs_push(rest@, c);
                    }
                    rest.push(c);
                    i = i + 1;
                    assert(strs(rest@) =~= raw.subrange(npos as int, i as int));
                }
            } else {
                assert(strs(rest@) =~= Seq::<Seq<char>>::empty());
            }
            if rest.len() > 0 {
                let name = act[j].spec.name.clone();
                proof {
                    lemma_names_push(w.seen@, name);
                }
                w.seen.push(name);
            }
            w.variadic = rest;
        },
    }
}

/// The first dependency or conflict violated by a given argument.
pub(crate) fn check_all(act: &Vec<ActiveArg>, w: &Work) -> (r: Option<ParseError>)
    ensures
        match check_from(actives(act@), 0, w.model().seen) {
            Some(e) => r matches Some(x) && x@ == e,
            None => r is None,
        },
{
    let ghost a = actives(act@);
    let ghost seen = w.model().seen;
    let mut k: usize = 0;
    while k < act.len()
        invariant
            k <= act@.len(),
            a == actives(act@),
            seen == w.model().seen,
            check_from(a, 0, seen) == check_from(a, k as int, seen),
        decreases act@.len() - k,
    {
        let spec = act[k].spec;
        assert(a[k as int].0 == *spec);
        if contains_text(&w.seen, spec.name.as_str()) {
            let ghost pd = |d: int| !seen.contains(spec.depends_on@[d]@);
            let mut d: usize = 0;
            while d < spec.depends_on.len()
                invariant
                    k < act@.len(),
                    a == actives(act@),
                    a[k as int].0 == *spec,
                    seen.contains(spec.name@),
                    check_from(a, 0, seen) == check_from(a, k as int, seen),
                    d <= spec.depends_on@.len(),
                    seen == w.model().seen,
                    pd == (|d: int| !seen.contains(spec.depends_on@[d]@)),
                    forall|j: int| 0 <= j < d ==> !#[trigger] pd(j),
                decreases spec.depends_on@.len() - d,
            {
                if !contains_text(&w.seen, spec.depends_on[d].as_str()) {
                    proof {
                        lemma_first_found(spec.depends_on@.len() as int, pd, d as int);
                        assert(missing_dep(*spec, seen) == Some(d as int));
                    }
                    return Some(
                        ParseError::UnsatisfiedDependency(
                            spec.name.clone(),
                            spec.depends_on[d].clone(),
                        ),
                    );
                }
                d = d + 1;
            }
            proof {
                lemma_first_none(spec.depends_on@.len() as int, pd);
                assert(missing_dep(*spec, seen) is None);
            }
            let ghost pc = |c: int| seen.contains(spec.conflicts_with@[c]@);
            let mut c: usize = 0;
            while c < spec.conflicts_with.len()
                invariant
                    k < act@.len(),
                    a == actives(act@),
                    a[k as int].0 == *spec,
                    seen.contains(spec.name@),
                    check_from(a, 0, seen) == check_from(a, k as int, seen),
                    missing_dep(*spec, seen) is None,
                    c <= spec.conflicts_with@.len(),
                    seen == w.model().seen,
                    pc == (|c: int| seen.contains(spec.conflicts_with@[c]@)),
                    forall|j: int| 0 <= j < c ==> !#[trigger] pc(j),
                decreases spec.conflicts_with@.len() - c,
            {
                if contains_text(&w.seen, spec.conflicts_with[c].as_str()) {
                    proof {
                        lemma_first_found(spec.conflicts_with@.len() as int, pc, c as int);
                        assert(present_conflict(*spec, seen) == Some(c as int));
                    }
                    return Some(
                        ParseError::Conflict(spec.name.clone(), spec.conflicts_with[c].clone()),
                    );
                }
                c = c + 1;
            }
            proof {
                lemma_first_none(spec.conflicts_with@.len() as int, pc);
                assert(present_conflict(*spec, seen) is None);
            }
        }
        k = k + 1;
    }
    None
}

/// Arguments that were not given take their defaults; a required one
/// without a default is missing.
pub(crate) fn require_all(act: &Vec<ActiveArg>, w: &mut Work) -> (r: Result<(), ParseError>)
    ensures
        match require_from(actives(act@), 0, old(w).model()) {
            Ok(m) => r is Ok && final(w).model() == m,
            Err(e) => r matches Err(x) && x@ == e,
        },
{
    let ghost a = actives(act@);
    let ghost goal = require_from(a, 0, w.model());
    let mut k: usize = 0;
    while k < act.len()
        invariant
            k <= act@.len(),
            a == actives(act@),
            goal == require_from(a, 0, old(w).model()),
            require_from(a, k as int, w.model()) == goal,
        decreases act@.len() - k,
    {
        let spec = act[k].spec;
        assert(a[k as int].0 == *spec);
        if !contains_text(&w.seen, spec.name.as_str()) {
            match &spec.default_value {
                Some(d) => {
                    match act[k].kind {
                        ArgType::Option => w.default_value(spec.name.as_str(), d.as_str()),
                        ArgType::Flag => {
                            if spec.required {
                                w.default_flag(spec.name.as_str());
                            }
                        },
                        _ => {},
                    }
                },
                None => {
                    if spec.required {
                        return Err(ParseError::MissingRequiredArgument(spec.name.clone()));
                    }
                },
            }
        }
        k = k + 1;
    }
    Ok(())
}

} // verus!
