//! Laws that relate the parts of a parse.
use vstd::prelude::*;
use crate::active::{
    as_active, chain_adds, expansions, first_long, first_of, lemma_first_found, resolved,
    shifted_args,
};
use crate::arg::{Arg, ArgChain, ArgType};
use crate::command::parse_agrees;
use crate::error::{ParseError, ParseFailure};
use crate::parsed::ParsedArgs;
use crate::active::{first_variadic, is_first};
use crate::rules::{is_long, is_short};
use crate::rules::{
    parse_result, scan_from, step_in,
    check_from, eq_at, finish, lemma_order_exists, missing_dep, orders_upto, place_from,
    positional_order,
    present_conflict, require_from, step, with_variadic, State,
};

verus! {

proof fn lemma_no_expansions(base: Seq<Arg>, raw: Seq<Seq<char>>)
    requires
        forall|i: int| 0 <= i < base.len() ==> (#[trigger] base[i]).children@.len() == 0,
    ensures
        expansions(base, raw) == Seq::<(Arg, ArgType)>::empty(),
    decreases base.len(),
{
    if base.len() > 0 {
        lemma_no_expansions(base.drop_last(), raw);
        assert(base.last() == base[base.len() - 1]);
        assert(chain_adds(base.last().children@, Seq::empty(), 0) == Seq::<(Arg, ArgType)>::empty());
        match base.last().arg_type {
            ArgType::Positional { index } => {
                if index < raw.len() {
                    assert(chain_adds(base.last().children@, raw[index as int], index)
                        == Seq::<(Arg, ArgType)>::empty());
                    assert(Seq::<(Arg, ArgType)>::empty() + Seq::<(Arg, ArgType)>::empty()
                        =~= Seq::<(Arg, ArgType)>::empty());
                }
            },
            _ => {},
        }
    }
}

/// Without conditional children, the active set is the base list itself,
/// each argument with its own kind, whatever the plain tokens.
pub proof fn law_resolve_identity(base: Seq<Arg>, raw: Seq<Seq<char>>)
    requires
        forall|i: int| 0 <= i < base.len() ==> (#[trigger] base[i]).children@.len() == 0,
    ensures
        resolved(base, raw) == as_active(base),
{
    lemma_no_expansions(base, raw);
    assert(as_active(base) + Seq::<(Arg, ArgType)>::empty() =~= as_active(base));
}

/// A positional argument adds to the active set exactly the chains whose
/// trigger equals the plain token at its index; when that token is absent,
/// or the argument is not positional, it adds nothing.
pub proof fn law_chain_activation(a: Arg, raw: Seq<Seq<char>>)
    ensures
        resolved(seq![a], raw) == seq![(a, a.arg_type)] + match a.arg_type {
            ArgType::Positional { index } => if index < raw.len() {
                chain_adds(a.children@, raw[index as int], index)
            } else {
                Seq::empty()
            },
            _ => Seq::empty(),
        },
{
    let base = seq![a];
    assert(base.drop_last() =~= Seq::<Arg>::empty());
    assert(base.last() == a);
    assert(as_active(base) =~= seq![(a, a.arg_type)]);
    assert(expansions(Seq::<Arg>::empty(), raw) == Seq::<(Arg, ArgType)>::empty());
    match a.arg_type {
        ArgType::Positional { index } => {
            if index < raw.len() {
                assert(Seq::<(Arg, ArgType)>::empty() + chain_adds(a.children@, raw[index as int], index)
                    =~= chain_adds(a.children@, raw[index as int], index));
            }
        },
        _ => {},
    }
}

/// A chain contributes its (shifted) arguments if and only if its trigger
/// is the token; chains whose trigger differs contribute nothing.
pub proof fn law_chain_trigger(chains: Seq<ArgChain>, c: ArgChain, tok: Seq<char>, index: usize)
    ensures
        c.when_value@ == tok ==> chain_adds(chains.push(c), tok, index) == chain_adds(chains, tok, index)
            + shifted_args(c.args@, index),
        c.when_value@ != tok ==> chain_adds(chains.push(c), tok, index) == chain_adds(
            chains,
            tok,
            index,
        ),
        (forall|i: int| 0 <= i < chains.len() ==> (#[trigger] chains[i]).when_value@ != tok)
            ==> chain_adds(chains, tok, index) == Seq::<(Arg, ArgType)>::empty(),
    decreases chains.len(),
{
    assert(chains.push(c).drop_last() =~= chains);
    if chains.len() > 0 {
        law_chain_trigger(chains.drop_last(), chains.last(), tok, index);
        assert(chains.drop_last().push(chains.last()) =~= chains);
        if forall|i: int| 0 <= i < chains.len() ==> (#[trigger] chains[i]).when_value@ != tok {
            assert(chains.last() == chains[chains.len() - 1]);
            assert forall|i: int| 0 <= i < chains.drop_last().len() implies (
            #[trigger] chains.drop_last()[i]).when_value@ != tok by {
                assert(chains.drop_last()[i] == chains[i]);
            }
        }
    }
}

/// The token `--k` and the token `--k=v` do the same when `k` is the long
/// alias of a flag: the flag is recorded as present and the value is ignored.
pub proof fn law_inline_flag(
    act: Seq<(Arg, ArgType)>,
    k: Seq<char>,
    v: Seq<char>,
    ts: Seq<Seq<char>>,
    i: int,
    st: State,
)
    requires
        0 <= i < ts.len(),
        ts[i] == seq!['-', '-'] + k,
        forall|j: int| 0 <= j < k.len() ==> k[j] != '=',
        first_long(act, k) matches Some(j) && act[j].1 == ArgType::Flag,
    ensures
        step_in(act, ts, i, st) == step_in(
            act,
            ts.update(i, seq!['-', '-'] + k + seq!['='] + v),
            i,
            st,
        ),
{
    let t1 = ts[i];
    let ts2 = ts.update(i, seq!['-', '-'] + k + seq!['='] + v);
    let t2 = ts2[i];
    let key1 = t1.subrange(2, t1.len() as int);
    let key2 = t2.subrange(2, t2.len() as int);
    assert(key1 =~= k);
    assert(key2 =~= k + seq!['='] + v);
    let p = |q: int| key2[q] == '=';
    assert(p(k.len() as int));
    assert forall|j: int| 0 <= j < k.len() implies !#[trigger] p(j) by {
        assert(key2[j] == k[j]);
    }
    lemma_first_found(key2.len() as int, p, k.len() as int);
    assert(eq_at(key2) == Some(k.len() as int));
    assert(key2.subrange(0, k.len() as int) =~= k);
    let pk = |q: int| k[q] == '=';
    assert(eq_at(k) == first_of(k.len() as int, pk));
    assert(first_of(k.len() as int, pk) is None);
}

proof fn lemma_default_kept(act: Seq<(Arg, ArgType)>, k: int, st: State, name: Seq<char>, d: Seq<char>)
    requires
        0 <= k,
        st.values.contains_key(name) && st.values[name] == d,
        forall|m: int| k <= m < act.len() ==> (#[trigger] act[m]).0.name@ != name,
    ensures
        require_from(act, k, st) matches Ok(s) ==> s.values.contains_key(name) && s.values[name] == d,
    decreases act.len() - k,
{
    if k < act.len() {
        let a = act[k].0;
        if !st.seen.contains(a.name@) {
            if let Some(dv) = a.default_value {
                lemma_default_kept(act, k + 1, crate::rules::defaulted(a, act[k].1, dv@, st), name, d);
            } else {
                lemma_default_kept(act, k + 1, st, name, d);
            }
        } else {
            lemma_default_kept(act, k + 1, st, name, d);
        }
    }
}

proof fn lemma_default_applied(act: Seq<(Arg, ArgType)>, k: int, j: int, st: State)
    requires
        0 <= k <= j < act.len(),
        act[j].1 == ArgType::Option,
        act[j].0.default_value is Some,
        !st.seen.contains(act[j].0.name@),
        forall|m: int| j < m < act.len() ==> (#[trigger] act[m]).0.name@ != act[j].0.name@,
    ensures
        require_from(act, k, st) matches Ok(s) ==> s.values.contains_key(act[j].0.name@)
            && s.values[act[j].0.name@] == act[j].0.default_value->0@,
    decreases j - k,
{
    let a = act[k].0;
    if k == j {
        let d = a.default_value->0;
        let next = State { values: st.values.insert(a.name@, d@), ..st };
        lemma_default_kept(act, k + 1, next, a.name@, d@);
    } else if !st.seen.contains(a.name@) {
        if let Some(dv) = a.default_value {
            lemma_default_applied(act, k + 1, j, crate::rules::defaulted(a, act[k].1, dv@, st));
        } else {
            lemma_default_applied(act, k + 1, j, st);
        }
    } else {
        lemma_default_applied(act, k + 1, j, st);
    }
}

/// Two parses of the same tokens against the same arguments agree: both
/// succeed with equal results or both fail with equal errors.
pub proof fn law_parse_idempotent(
    base: Seq<Arg>,
    ts: Seq<String>,
    r1: Result<ParsedArgs, ParseError>,
    r2: Result<ParsedArgs, ParseError>,
)
    requires
        parse_agrees(base, ts, r1),
        parse_agrees(base, ts, r2),
    ensures
        r1 is Ok <==> r2 is Ok,
        r1 is Ok ==> r1->Ok_0@ == r2->Ok_0@,
        r1 is Err ==> r1->Err_0@ == r2->Err_0@,
{
}

/// An argument that was given, lacks a dependency and meets a conflict is
/// reported for the dependency.
pub proof fn law_dependency_first(act: Seq<(Arg, ArgType)>, k: int, seen: Set<Seq<char>>)
    requires
        0 <= k < act.len(),
        seen.contains(act[k].0.name@),
        missing_dep(act[k].0, seen) is Some,
        present_conflict(act[k].0, seen) is Some,
    ensures
        check_from(act, k, seen) == Some(
            ParseFailure::UnsatisfiedDependency(
                act[k].0.name@,
                act[k].0.depends_on@[missing_dep(act[k].0, seen)->0]@,
            ),
        ),
{
}

proof fn lemma_place_keeps_unseen(
    act: Seq<(Arg, ArgType)>,
    ord: Seq<int>,
    k: int,
    st: State,
    name: Seq<char>,
)
    requires
        0 <= k,
        forall|m: int| 0 <= m < ord.len() ==> act[#[trigger] ord[m]].0.name@ != name,
        !st.seen.contains(name),
    ensures
        place_from(act, ord, k, st) matches Ok(s) ==> !s.seen.contains(name) && s.values.contains_key(name)
            == st.values.contains_key(name) && (st.values.contains_key(name)
            ==> s.values[name] == st.values[name]),
    decreases ord.len() - k,
{
    if k < ord.len() {
        let a = act[ord[k]].0;
        assert(a.name@ != name);
        let idx = crate::rules::pidx(act, ord[k]);
        if idx < st.raw.len() {
            let v = st.raw[idx];
            lemma_place_keeps_unseen(act, ord, k + 1, st.placed(a.name@, v), name);
        } else if a.required {
            if let Some(d) = a.default_value {
                lemma_place_keeps_unseen(act, ord, k + 1, st.placed_default(a.name@, d@), name);
            }
        } else {
            lemma_place_keeps_unseen(act, ord, k + 1, st, name);
        }
    }
}

/// An option with a default, required or not, ends up with its default as
/// its value when the scan did not give it, whatever else the scan produced (the
/// names of the active set being distinct).
pub proof fn law_default_after_scan(act: Seq<(Arg, ArgType)>, j: int, s1: State)
    requires
        0 <= j < act.len(),
        act[j].1 == ArgType::Option,
        act[j].0.default_value is Some,
        !s1.seen.contains(act[j].0.name@),
        forall|m: int| 0 <= m < act.len() && m != j ==> (#[trigger] act[m]).0.name@ != act[j].0.name@,
    ensures
        finish(act, s1) matches Ok(v) ==> v.values.contains_key(act[j].0.name@)
            && v.values[act[j].0.name@] == act[j].0.default_value->0@,
{
    let name = act[j].0.name@;
    let ord = positional_order(act);
    lemma_order_exists(act, act.len() as int);
    assert(orders_upto(act, act.len() as int, ord));
    assert forall|m: int| 0 <= m < ord.len() implies act[#[trigger] ord[m]].0.name@ != name by {
        assert(ord.contains(ord[m]));
        assert(act[ord[m]].1 is Positional);
    }
    lemma_place_keeps_unseen(act, ord, 0, s1, name);
    if let Ok(s2) = place_from(act, ord, 0, s1) {
        let s3 = with_variadic(act, ord.len() as int, s2);
        if let Some(v) = first_variadic(act) {
            assert(is_first(act.len() as int, |i: int| act[i].1 == ArgType::Variadic, v));
            assert(act[v].1 == ArgType::Variadic);
            assert(act[v].0.name@ != name);
        }
        assert(!s3.seen.contains(name));
        lemma_default_applied(act, 0, j, s3);
    }
}

proof fn lemma_first_long_prefix(a: Seq<(Arg, ArgType)>, b: Seq<(Arg, ArgType)>, k: Seq<char>)
    requires
        first_long(a, k) is Some,
    ensures
        first_long(a + b, k) == first_long(a, k),
{
    let p = |i: int| crate::active::long_is(a[i].0, k);
    let q = |i: int| crate::active::long_is((a + b)[i].0, k);
    let j = choose|i: int| is_first(a.len() as int, p, i);
    assert(is_first(a.len() as int, p, j));
    assert forall|i: int| 0 <= i < j implies !#[trigger] q(i) by {
        assert(!p(i));
    }
    assert(q(j));
    lemma_first_found((a + b).len() as int, q, j);
}

proof fn lemma_inline_token(t2: Seq<char>, k: Seq<char>, v: Seq<char>)
    requires
        t2 == seq!['-', '-'] + k + seq!['='] + v,
        forall|j: int| 0 <= j < k.len() ==> k[j] != '=',
    ensures
        eq_at(t2.subrange(2, t2.len() as int)) == Some(k.len() as int),
        t2.subrange(2, t2.len() as int).subrange(0, k.len() as int) == k,
{
    let key2 = t2.subrange(2, t2.len() as int);
    assert(key2 =~= k + seq!['='] + v);
    let p = |q: int| key2[q] == '=';
    assert(p(k.len() as int));
    assert forall|j: int| 0 <= j < k.len() implies !#[trigger] p(j) by {
        assert(key2[j] == k[j]);
    }
    lemma_first_found(key2.len() as int, p, k.len() as int);
    assert(key2.subrange(0, k.len() as int) =~= k);
}

/// Whether the token `t` may take the token after it as an option value: a
/// long option without an inline value, or a short option.
pub open spec fn may_take_next(t: Seq<char>) -> bool {
    (is_long(t) && eq_at(t.subrange(2, t.len() as int)) is None) || is_short(t)
}

proof fn lemma_scan_same(
    base: Seq<Arg>,
    ts: Seq<Seq<char>>,
    ts2: Seq<Seq<char>>,
    i: int,
    k: Seq<char>,
    v: Seq<char>,
    m: int,
    st: State,
)
    requires
        0 <= i < ts.len(),
        ts[i] == seq!['-', '-'] + k,
        ts2 == ts.update(i, seq!['-', '-'] + k + seq!['='] + v),
        forall|j: int| 0 <= j < k.len() ==> k[j] != '=',
        first_long(as_active(base), k) matches Some(j) && base[j].arg_type == ArgType::Flag,
        i == 0 || !may_take_next(ts[i - 1]),
    ensures
        scan_from(base, ts, m, st) == scan_from(base, ts2, m, st),
    decreases ts.len() + 1 - m,
{
    if 0 <= m < ts.len() {
        let act = resolved(base, st.raw);
        if m == i {
            lemma_first_long_prefix(as_active(base), expansions(base, st.raw), k);
            law_inline_flag(act, k, v, ts, i, st);
        } else {
            assert(ts2[m] == ts[m]);
            if m + 1 < ts.len() && m + 1 != i {
                assert(ts2[m + 1] == ts[m + 1]);
            }
            assert(step_in(act, ts, m, st) == step_in(act, ts2, m, st));
        }
        match step(base, ts, m, st) {
            Ok((s2, extra)) => {
                lemma_scan_same(base, ts, ts2, i, k, v, if extra { m + 2 } else { m + 1 }, s2);
            },
            Err(_) => {},
        }
    }
}

/// Replacing a token `--k`, where `k` is the long alias of a flag of the base
/// arguments (the first with that alias), by `--k=v` leaves the outcome of
/// the parse unchanged, where the token before it cannot take it as an
/// option value.
pub proof fn law_inline_flag_parse(
    base: Seq<Arg>,
    ts: Seq<Seq<char>>,
    i: int,
    k: Seq<char>,
    v: Seq<char>,
)
    requires
        0 <= i < ts.len(),
        ts[i] == seq!['-', '-'] + k,
        forall|j: int| 0 <= j < k.len() ==> k[j] != '=',
        first_long(as_active(base), k) matches Some(j) && base[j].arg_type == ArgType::Flag,
        i == 0 || !may_take_next(ts[i - 1]),
    ensures
        parse_result(base, ts) == parse_result(
            base,
            ts.update(i, seq!['-', '-'] + k + seq!['='] + v),
        ),
{
    let ts2 = ts.update(i, seq!['-', '-'] + k + seq!['='] + v);
    lemma_scan_same(base, ts, ts2, i, k, v, 0, State::empty());
}

proof fn lemma_check_skips(act: Seq<(Arg, ArgType)>, m: int, k: int, seen: Set<Seq<char>>)
    requires
        0 <= m <= k <= act.len(),
        forall|x: int|
            0 <= x < k ==> !seen.contains((#[trigger] act[x]).0.name@) || (missing_dep(act[x].0, seen)
                is None && present_conflict(act[x].0, seen) is None),
    ensures
        check_from(act, m, seen) == check_from(act, k, seen),
    decreases k - m,
{
    if m < k {
        assert(!seen.contains(act[m].0.name@) || (missing_dep(act[m].0, seen) is None
            && present_conflict(act[m].0, seen) is None));
        lemma_check_skips(act, m + 1, k, seen);
    }
}

/// In a whole parse, the first given argument that breaks a dependency or a
/// conflict is reported for its missing dependency, even when it also meets
/// a conflict (once the scan and the positional placement have succeeded).
pub proof fn law_dependency_first_parse(base: Seq<Arg>, ts: Seq<Seq<char>>, k: int)
    requires
        scan_from(base, ts, 0, State::empty()) matches Ok(s1) && ({
            let act = resolved(base, s1.raw);
            let ord = positional_order(act);
            place_from(act, ord, 0, s1) matches Ok(s2) && {
                let seen = with_variadic(act, ord.len() as int, s2).seen;
                &&& 0 <= k < act.len()
                &&& seen.contains(act[k].0.name@)
                &&& missing_dep(act[k].0, seen) is Some
                &&& present_conflict(act[k].0, seen) is Some
                &&& forall|x: int|
                    0 <= x < k ==> !seen.contains((#[trigger] act[x]).0.name@) || (missing_dep(
                        act[x].0,
                        seen,
                    ) is None && present_conflict(act[x].0, seen) is None)
            }
        }),
    ensures
        ({
            let s1 = scan_from(base, ts, 0, State::empty())->Ok_0;
            let act = resolved(base, s1.raw);
            let ord = positional_order(act);
            let seen = with_variadic(act, ord.len() as int, place_from(act, ord, 0, s1)->Ok_0).seen;
            parse_result(base, ts) == Err::<crate::parsed::ParsedView, ParseFailure>(
                ParseFailure::UnsatisfiedDependency(
                    act[k].0.name@,
                    act[k].0.depends_on@[missing_dep(act[k].0, seen)->0]@,
                ),
            )
        }),
{
    let s1 = scan_from(base, ts, 0, State::empty())->Ok_0;
    let act = resolved(base, s1.raw);
    let ord = positional_order(act);
    let seen = with_variadic(act, ord.len() as int, place_from(act, ord, 0, s1)->Ok_0).seen;
    lemma_check_skips(act, 0, k, seen);
    law_dependency_first(act, k, seen);
}

/// When no positional argument of the base list has its token among the
/// plain tokens equal to one of its triggers (or its token is absent), the
/// active set is the base list itself.
pub proof fn law_no_activation(base: Seq<Arg>, raw: Seq<Seq<char>>)
    requires
        forall|j: int, c: int|
            0 <= j < base.len() && 0 <= c < base[j].children@.len() ==> match (
            #[trigger] base[j]).arg_type {
                ArgType::Positional { index } => index >= raw.len() || (
                #[trigger] base[j].children@[c]).when_value@ != raw[index as int],
                _ => true,
            },
    ensures
        resolved(base, raw) == as_active(base),
{
    lemma_no_activation(base, raw);
    assert(as_active(base) + Seq::<(Arg, ArgType)>::empty() =~= as_active(base));
}

proof fn lemma_no_activation(base: Seq<Arg>, raw: Seq<Seq<char>>)
    requires
        forall|j: int, c: int|
            0 <= j < base.len() && 0 <= c < base[j].children@.len() ==> match (
            #[trigger] base[j]).arg_type {
                ArgType::Positional { index } => index >= raw.len() || (
                #[trigger] base[j].children@[c]).when_value@ != raw[index as int],
                _ => true,
            },
    ensures
        expansions(base, raw) == Seq::<(Arg, ArgType)>::empty(),
    decreases base.len(),
{
    if base.len() > 0 {
        let b0 = base.drop_last();
        assert forall|j: int, c: int|
            0 <= j < b0.len() && 0 <= c < b0[j].children@.len() implies match (
            #[trigger] b0[j]).arg_type {
                ArgType::Positional { index } => index >= raw.len() || (
                #[trigger] b0[j].children@[c]).when_value@ != raw[index as int],
                _ => true,
            } by {
            assert(b0[j] == base[j]);
        }
        lemma_no_activation(b0, raw);
        let a = base.last();
        assert(a == base[base.len() - 1]);
        match a.arg_type {
            ArgType::Positional { index } => {
                if index < raw.len() {
                    let chains = a.children@;
                    assert forall|c: int| 0 <= c < chains.len() implies (
                    #[trigger] chains[c]).when_value@ != raw[index as int] by {
                        assert(base[base.len() - 1].children@[c] == chains[c]);
                    }
                    law_chain_trigger(chains, chains[0], raw[index as int], index);
                    assert(Seq::<(Arg, ArgType)>::empty() + Seq::<(Arg, ArgType)>::empty()
                        =~= Seq::<(Arg, ArgType)>::empty());
                }
            },
            _ => {},
        }
    }
}

/// What the positional argument `a` adds to the active set: the chains
/// whose trigger is the plain token at its index, nothing when that token is
/// absent or `a` is not positional.
pub open spec fn parent_adds(a: Arg, raw: Seq<Seq<char>>) -> Seq<(Arg, ArgType)> {
    match a.arg_type {
        ArgType::Positional { index } => if index < raw.len() {
            chain_adds(a.children@, raw[index as int], index)
        } else {
            Seq::empty()
        },
        _ => Seq::empty(),
    }
}

proof fn lemma_expansions_concat(s: Seq<Arg>, t: Seq<Arg>, raw: Seq<Seq<char>>)
    ensures
        expansions(s + t, raw) == expansions(s, raw) + expansions(t, raw),
    decreases t.len(),
{
    if t.len() == 0 {
        assert(s + t =~= s);
        assert(expansions(s, raw) + Seq::<(Arg, ArgType)>::empty() =~= expansions(s, raw));
    } else {
        lemma_expansions_concat(s, t.drop_last(), raw);
        assert((s + t).drop_last() =~= s + t.drop_last());
        assert((s + t).last() == t.last());
        let e = expansions(s, raw);
        let f = expansions(t.drop_last(), raw);
        match t.last().arg_type {
            ArgType::Positional { index } => {
                if index < raw.len() {
                    let g = chain_adds(t.last().children@, raw[index as int], index);
                    assert(e + f + g =~= e + (f + g));
                }
            },
            _ => {},
        }
    }
}

/// For a base argument at any place `j` of the list, the active set holds,
/// between the additions of the arguments before it and those after it,
/// exactly what it adds itself: the shifted arguments of each of its chains
/// whose trigger equals the plain token at its index, in declaration order
/// (see `law_chain_trigger`), and nothing when that token is absent.
pub proof fn law_chain_in_list(base: Seq<Arg>, raw: Seq<Seq<char>>, j: int)
    requires
        0 <= j < base.len(),
    ensures
        resolved(base, raw) == as_active(base) + expansions(base.take(j), raw) + parent_adds(
            base[j],
            raw,
        ) + expansions(base.skip(j + 1), raw),
{
    assert(base =~= base.take(j) + (seq![base[j]] + base.skip(j + 1)));
    lemma_expansions_concat(base.take(j), seq![base[j]] + base.skip(j + 1), raw);
    lemma_expansions_concat(seq![base[j]], base.skip(j + 1), raw);
    law_chain_activation(base[j], raw);
    assert(expansions(seq![base[j]], raw) =~= parent_adds(base[j], raw)) by {
        assert(resolved(seq![base[j]], raw) == as_active(seq![base[j]]) + expansions(
            seq![base[j]],
            raw,
        ));
        assert(as_active(seq![base[j]]) =~= seq![(base[j], base[j].arg_type)]);
        let x = expansions(seq![base[j]], raw);
        let y = parent_adds(base[j], raw);
        assert(seq![(base[j], base[j].arg_type)] + x == seq![(base[j], base[j].arg_type)] + y);
        assert forall|q: int| 0 <= q < x.len() implies x[q] == y[q] by {
            assert((seq![(base[j], base[j].arg_type)] + x)[q + 1] == x[q]);
            assert((seq![(base[j], base[j].arg_type)] + y)[q + 1] == y[q]);
        }
    }
    let a = as_active(base);
    let e1 = expansions(base.take(j), raw);
    let e2 = parent_adds(base[j], raw);
    let e3 = expansions(base.skip(j + 1), raw);
    assert(a + (e1 + (e2 + e3)) =~= a + e1 + e2 + e3);
}

proof fn lemma_plain_scan(base: Seq<Arg>, ts: Seq<Seq<char>>, m: int, st: State)
    requires
        0 <= m,
        forall|i: int| 0 <= i < ts.len() ==> !is_long(#[trigger] ts[i]) && !is_short(ts[i]),
    ensures
        scan_from(base, ts, m, st) is Ok,
        scan_from(base, ts, m, st)->Ok_0.seen == st.seen,
    decreases ts.len() + 1 - m,
{
    if m < ts.len() {
        assert(!is_long(ts[m]) && !is_short(ts[m]));
        lemma_plain_scan(base, ts, m + 1, st.plain(ts[m]));
    }
}

/// When the tokens hold no option (every token is plain), every option of
/// the resulting active set that has a default ends up with it as its value,
/// required or not (the names of the active set being distinct).
pub proof fn law_default_without_options(base: Seq<Arg>, ts: Seq<Seq<char>>, j: int)
    requires
        forall|i: int| 0 <= i < ts.len() ==> !is_long(#[trigger] ts[i]) && !is_short(ts[i]),
        ({
            let act = resolved(base, scan_from(base, ts, 0, State::empty())->Ok_0.raw);
            &&& 0 <= j < act.len()
            &&& act[j].1 == ArgType::Option
            &&& act[j].0.default_value is Some
            &&& forall|m: int|
                0 <= m < act.len() && m != j ==> (#[trigger] act[m]).0.name@ != act[j].0.name@
        }),
    ensures
        ({
            let act = resolved(base, scan_from(base, ts, 0, State::empty())->Ok_0.raw);
            parse_result(base, ts) matches Ok(v) ==> v.values.contains_key(act[j].0.name@)
                && v.values[act[j].0.name@] == act[j].0.default_value->0@
        }),
{
    lemma_plain_scan(base, ts, 0, State::empty());
    let s1 = scan_from(base, ts, 0, State::empty())->Ok_0;
    law_default_after_scan(resolved(base, s1.raw), j, s1);
}

} // verus!
