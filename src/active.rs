//! The active set of an invocation: the base arguments followed by the
//! conditional sub-arguments that the plain tokens switch on.
use vstd::prelude::*;
use crate::arg::{Arg, ArgChain, ArgType};
use crate::text::{strs, text_eq};

verus! {

/// An argument of the active set: the specification and the kind it has in
/// this invocation (sub-argument positional indices are shifted past the parent).
pub struct ActiveArg<'a> {
    pub spec: &'a Arg,
    pub kind: ArgType,
}

impl<'a> View for ActiveArg<'a> {
    type V = (Arg, ArgType);

    open spec fn view(&self) -> (Arg, ArgType) {
        (*self.spec, self.kind)
    }
}

/// The model of a list of active arguments.
pub open spec fn actives(v: Seq<ActiveArg>) -> Seq<(Arg, ArgType)> {
    v.map_values(|a: ActiveArg| a@)
}

/// `i` is the first index below `n` at which `p` holds.
pub open spec fn is_first(n: int, p: spec_fn(int) -> bool, i: int) -> bool {
    &&& 0 <= i < n
    &&& p(i)
    &&& forall|j: int| 0 <= j < i ==> !#[trigger] p(j)
}

/// The first index below `n` at which `p` holds, if any.
pub open spec fn first_of(n: int, p: spec_fn(int) -> bool) -> Option<int> {
    if exists|i: int| is_first(n, p, i) {
        Some(choose|i: int| is_first(n, p, i))
    } else {
        None
    }
}

pub proof fn lemma_first_found(n: int, p: spec_fn(int) -> bool, i: int)
    requires
        is_first(n, p, i),
    ensures
        first_of(n, p) == Some(i),
{
    let k = choose|k: int| is_first(n, p, k);
    assert(is_first(n, p, k));
    if k < i {
        assert(!p(k));
    } else if i < k {
        assert(!p(i));
    }
}

pub proof fn lemma_first_none(n: int, p: spec_fn(int) -> bool)
    requires
        forall|j: int| 0 <= j < n ==> !#[trigger] p(j),
    ensures
        first_of(n, p) is None,
{
}

/// An optional index, as an integer.
pub open spec fn opt_int(r: Option<usize>) -> Option<int> {
    match r {
        Some(i) => Some(i as int),
        None => None,
    }
}

/// Whether `a` has the long alias `k`.
pub open spec fn long_is(a: Arg, k: Seq<char>) -> bool {
    a.long is Some && a.long->0@ == k
}

/// The first active argument whose long alias is `k`.
pub open spec fn first_long(act: Seq<(Arg, ArgType)>, k: Seq<char>) -> Option<int> {
    first_of(act.len() as int, |i: int| long_is(act[i].0, k))
}

/// The first active argument whose short alias is `c`.
pub open spec fn first_short(act: Seq<(Arg, ArgType)>, c: char) -> Option<int> {
    first_of(act.len() as int, |i: int| act[i].0.short == Some(c))
}

/// The first active argument that is variadic.
pub open spec fn first_variadic(act: Seq<(Arg, ArgType)>) -> Option<int> {
    first_of(act.len() as int, |i: int| act[i].1 == ArgType::Variadic)
}

/// The first active argument whose long alias is `k`.
pub fn find_long(act: &Vec<ActiveArg>, k: &str) -> (r: Option<usize>)
    ensures
        r matches Some(i) ==> i < act@.len(),
        opt_int(r) == first_long(actives(act@), k@),
{
    let ghost m = actives(act@);
    let ghost p = |i: int| long_is(m[i].0, k@);
    let mut i: usize = 0;
    while i < act.len()
        invariant
            i <= act@.len(),
            m == actives(act@),
            p == (|i: int| long_is(m[i].0, k@)),
            forall|j: int| 0 <= j < i ==> !#[trigger] p(j),
        decreases act@.len() - i,
    {
        let hit = match &act[i].spec.long {
            Some(l) => text_eq(l.as_str(), k),
            None => false,
        };
        if hit {
            proof {
                lemma_first_found(m.len() as int, p, i as int);
            }
            return Some(i);
        }
        i = i + 1;
    }
    proof {
        lemma_first_none(m.len() as int, p);
    }
    None
}

/// The first active argument whose short alias is `c`.
pub fn find_short(act: &Vec<ActiveArg>, c: char) -> (r: Option<usize>)
    ensures
        r matches Some(i) ==> i < act@.len(),
        opt_int(r) == first_short(actives(act@), c),
{
    let ghost m = actives(act@);
    let ghost p = |i: int| m[i].0.short == Some(c);
    let mut i: usize = 0;
    while i < act.len()
        invariant
            i <= act@.len(),
            m == actives(act@),
            p == (|i: int| m[i].0.short == Some(c)),
            forall|j: int| 0 <= j < i ==> !#[trigger] p(j),
        decreases act@.len() - i,
    {
        if act[i].spec.short == Some(c) {
            proof {
                lemma_first_found(m.len() as int, p, i as int);
            }
            return Some(i);
        }
        i = i + 1;
    }
    proof {
        lemma_first_none(m.len() as int, p);
    }
    None
}

/// The first active argument that is variadic.
pub fn find_variadic(act: &Vec<ActiveArg>) -> (r: Option<usize>)
    ensures
        r matches Some(i) ==> i < act@.len(),
        opt_int(r) == first_variadic(actives(act@)),
{
    let ghost m = actives(act@);
    let ghost p = |i: int| m[i].1 == ArgType::Variadic;
    let mut i: usize = 0;
    while i < act.len()
        invariant
            i <= act@.len(),
            m == actives(act@),
            p == (|i: int| m[i].1 == ArgType::Variadic),
            forall|j: int| 0 <= j < i ==> !#[trigger] p(j),
        decreases act@.len() - i,
    {
        if act[i].kind == ArgType::Variadic {
            proof {
                lemma_first_found(m.len() as int, p, i as int);
            }
            return Some(i);
        }
        i = i + 1;
    }
    proof {
        lemma_first_none(m.len() as int, p);
    }
    None
}

/// The kind of a sub-argument activated under a positional parent at
/// `index`: its positional index counts from just after the parent
/// (saturating at the largest index).
pub open spec fn shifted(k: ArgType, index: usize) -> ArgType {
    match k {
        ArgType::Positional { index: c } => ArgType::Positional {
            index: if index + 1 + c <= usize::MAX {
                (index + 1 + c) as usize
            } else {
                usize::MAX
            },
        },
        _ => k,
    }
}

/// The base arguments, each with its own kind.
pub open spec fn as_active(base: Seq<Arg>) -> Seq<(Arg, ArgType)> {
    base.map_values(|a: Arg| (a, a.arg_type))
}

/// The arguments of a chain activated under a positional parent at `index`.
pub open spec fn shifted_args(args: Seq<Arg>, index: usize) -> Seq<(Arg, ArgType)> {
    args.map_values(|a: Arg| (a, shifted(a.arg_type, index)))
}

/// The arguments added by the chains whose trigger is `tok`, in declaration order.
pub open spec fn chain_adds(chains: Seq<ArgChain>, tok: Seq<char>, index: usize) -> Seq<
    (Arg, ArgType),
>
    decreases chains.len(),
{
    if chains.len() == 0 {
        Seq::empty()
    } else {
        let pre = chain_adds(chains.drop_last(), tok, index);
        if chains.last().when_value@ == tok {
            pre + shifted_args(chains.last().args@, index)
        } else {
            pre
        }
    }
}

/// The sub-arguments that the base arguments switch on, given the plain
/// tokens `raw`: only positional parents whose token is present take part, and
/// only one level of chains is expanded.
pub open spec fn expansions(base: Seq<Arg>, raw: Seq<Seq<char>>) -> Seq<(Arg, ArgType)>
    decreases base.len(),
{
    if base.len() == 0 {
        Seq::empty()
    } else {
        let pre = expansions(base.drop_last(), raw);
        let a = base.last();
        match a.arg_type {
            ArgType::Positional { index } => if index < raw.len() {
                pre + chain_adds(a.children@, raw[index as int], index)
            } else {
                pre
            },
            _ => pre,
        }
    }
}

/// The active set: the base arguments, then the sub-arguments they switch on.
pub open spec fn resolved(base: Seq<Arg>, raw: Seq<Seq<char>>) -> Seq<(Arg, ArgType)> {
    as_active(base) + expansions(base, raw)
}

fn shift(k: ArgType, index: usize) -> (r: ArgType)
    ensures
        r == shifted(k, index),
{
    match k {
        ArgType::Positional { index: c } => {
            if c < usize::MAX - index {
                ArgType::Positional { index: index + 1 + c }
            } else {
                ArgType::Positional { index: usize::MAX }
            }
        },
        _ => k,
    }
}

/// The base arguments, each with its own kind.
pub fn base_active<'a>(base: &'a Vec<Arg>) -> (r: Vec<ActiveArg<'a>>)
    ensures
        actives(r@) == as_active(base@),
{
    let mut r: Vec<ActiveArg<'a>> = Vec::new();
    let mut i: usize = 0;
    while i < base.len()
        invariant
            i <= base@.len(),
            r@.len() == i,
            forall|k: int| 0 <= k < i ==> #[trigger] r@[k]@ == (base@[k], base@[k].arg_type),
        decreases base@.len() - i,
    {
        r.push(ActiveArg { spec: &base[i], kind: base[i].arg_type });
        i = i + 1;
    }
    assert(actives(r@) =~= as_active(base@));
    r
}

fn push_chain<'a>(r: &mut Vec<ActiveArg<'a>>, args: &'a Vec<Arg>, index: usize)
    ensures
        actives(final(r)@) == actives(old(r)@) + shifted_args(args@, index),
{
    let ghost start = actives(r@);
    let ghost n0 = r@.len();
    let mut j: usize = 0;
    while j < args.len()
        invariant
            j <= args@.len(),
            r@.len() == n0 + j,
            start.len() == n0,
            forall|k: int| 0 <= k < n0 ==> #[trigger] r@[k]@ == start[k],
            forall|k: int|
                0 <= k < j ==> #[trigger] r@[n0 + k]@ == (
                    args@[k],
                    shifted(args@[k].arg_type, index),
                ),
        decreases args@.len() - j,
    {
        r.push(ActiveArg { spec: &args[j], kind: shift(args[j].arg_type, index) });
        j = j + 1;
    }
    assert forall|k: int| n0 <= k < r@.len() implies #[trigger] actives(r@)[k] == shifted_args(
        args@,
        index,
    )[k - n0] by {
        assert(r@[n0 + (k - n0)]@ == (args@[k - n0], shifted(args@[k - n0].arg_type, index)));
    }
    assert(actives(r@) =~= start + shifted_args(args@, index));
}

/// The active set for the plain tokens `raw`.
pub fn resolve<'a>(base: &'a Vec<Arg>, raw: &[String]) -> (r: Vec<ActiveArg<'a>>)
    ensures
        actives(r@) == resolved(base@, strs(raw@)),
{
    let ghost rs = strs(raw@);
    let mut r = base_active(base);
    let mut b: usize = 0;
    while b < base.len()
        invariant
            b <= base@.len(),
            rs == strs(raw@),
            actives(r@) == as_active(base@) + expansions(base@.subrange(0, b as int), rs),
        decreases base@.len() - b,
    {
        let a = &base[b];
        let ghost before = actives(r@);
        assert(base@.subrange(0, b + 1).drop_last() =~= base@.subrange(0, b as int));
        match a.arg_type {
            ArgType::Positional { index } => {
                if index < raw.len() {
                    let tok = raw[index].as_str();
                    let mut c: usize = 0;
                    while c < a.children.len()
                        invariant
                            c <= a.children@.len(),
                            tok@ == rs[index as int],
                            actives(r@) == before + chain_adds(
                                a.children@.subrange(0, c as int),
                                tok@,
                                index,
                            ),
                        decreases a.children@.len() - c,
                    {
                        let ch = &a.children[c];
                        assert(a.children@.subrange(0, c + 1).drop_last() =~= a.children@.subrange(
                            0,
                            c as int,
                        ));
                        if text_eq(ch.when_value.as_str(), tok) {
                            push_chain(&mut r, &ch.args, index);
                            assert(actives(r@) =~= before + chain_adds(
                                a.children@.subrange(0, c + 1),
                                tok@,
                                index,
                            ));
                        }
                        c = c + 1;
                    }
                    assert(a.children@.subrange(0, c as int) =~= a.children@);
                    assert(actives(r@) =~= as_active(base@) + expansions(
                        base@.subrange(0, b + 1),
                        rs,
                    ));
                }
            },
            _ => {},
        }
        b = b + 1;
    }
    assert(base@.subrange(0, b as int) =~= base@);
    r
}

} // verus!
