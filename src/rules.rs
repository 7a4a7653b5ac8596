//! What a parse computes, stated over character sequences.
use vstd::prelude::*;
use crate::active::{first_long, first_of, first_short, first_variadic, resolved};
use crate::arg::{Arg, ArgType};
use crate::error::ParseFailure;
use crate::parsed::ParsedView;
use crate::text::{holds, strs};

verus! {

/// Everything a parse has gathered so far.
pub struct State {
    pub values: Map<Seq<char>, Seq<char>>,
    pub flags: Set<Seq<char>>,
    /// Plain tokens, in order.
    pub raw: Seq<Seq<char>>,
    /// Names given explicitly (or filled from the plain tokens).
    pub seen: Set<Seq<char>>,
    pub positional: Seq<Seq<char>>,
    pub variadic: Seq<Seq<char>>,
}

impl State {
    pub open spec fn empty() -> State {
        State {
            values: Map::empty(),
            flags: Set::empty(),
            raw: Seq::empty(),
            seen: Set::empty(),
            positional: Seq::empty(),
            variadic: Seq::empty(),
        }
    }

    /// `name` was given the value `v`.
    pub open spec fn given_value(self, name: Seq<char>, v: Seq<char>) -> State {
        State { values: self.values.insert(name, v), seen: self.seen.insert(name), ..self }
    }

    /// The flag `name` was given.
    pub open spec fn given_flag(self, name: Seq<char>) -> State {
        State { flags: self.flags.insert(name), seen: self.seen.insert(name), ..self }
    }

    /// `t` is a plain token.
    pub open spec fn plain(self, t: Seq<char>) -> State {
        State { raw: self.raw.push(t), ..self }
    }

    /// The positional argument `name` took the token `v`.
    pub open spec fn placed(self, name: Seq<char>, v: Seq<char>) -> State {
        State {
            positional: self.positional.push(v),
            values: self.values.insert(name, v),
            seen: self.seen.insert(name),
            ..self
        }
    }

    /// The positional argument `name` took its default `d`.
    pub open spec fn placed_default(self, name: Seq<char>, d: Seq<char>) -> State {
        State { positional: self.positional.push(d), values: self.values.insert(name, d), ..self }
    }

    pub open spec fn result(self) -> ParsedView {
        ParsedView {
            values: self.values,
            flags: self.flags,
            positional: self.positional,
            variadic: self.variadic,
        }
    }
}

/// A long-option token: it starts with `--`.
pub open spec fn is_long(t: Seq<char>) -> bool {
    t.len() >= 2 && t[0] == '-' && t[1] == '-'
}

/// A short-option token: `-` and at least one more character, not `--`.
pub open spec fn is_short(t: Seq<char>) -> bool {
    !is_long(t) && t.len() >= 2 && t[0] == '-'
}

/// The position of the first `=` in `k`.
pub open spec fn eq_at(k: Seq<char>) -> Option<int> {
    first_of(k.len() as int, |p: int| k[p] == '=')
}

/// What the token at `i` does when it names the argument at `j` of the
/// active set, written as `spelled`, with an inline value or none: the
/// new state, and whether the next token was taken as its value.
pub open spec fn take_named(
    act: Seq<(Arg, ArgType)>,
    j: Option<int>,
    spelled: Seq<char>,
    inline: Option<Seq<char>>,
    ts: Seq<Seq<char>>,
    i: int,
    st: State,
) -> Result<(State, bool), ParseFailure> {
    match j {
        None => Err(ParseFailure::UnknownOption(spelled)),
        Some(j) => {
            let name = act[j].0.name@;
            match act[j].1 {
                ArgType::Option => match inline {
                    Some(v) => Ok((st.given_value(name, v), false)),
                    None => if i + 1 < ts.len() {
                        Ok((st.given_value(name, ts[i + 1]), true))
                    } else {
                        Err(ParseFailure::MissingOptionValue(spelled))
                    },
                },
                ArgType::Flag => Ok((st.given_flag(name), false)),
                _ => Err(ParseFailure::InvalidArgumentType(spelled)),
            }
        },
    }
}

/// What the token at `i` does against the active set `act`.
pub open spec fn step_in(act: Seq<(Arg, ArgType)>, ts: Seq<Seq<char>>, i: int, st: State) -> Result<
    (State, bool),
    ParseFailure,
> {
    let t = ts[i];
    if is_long(t) {
        let key = t.subrange(2, t.len() as int);
        match eq_at(key) {
            Some(p) => take_named(
                act,
                first_long(act, key.subrange(0, p)),
                t.subrange(0, p + 2),
                Some(key.subrange(p + 1, key.len() as int)),
                ts,
                i,
                st,
            ),
            None => take_named(act, first_long(act, key), t, None, ts, i, st),
        }
    } else if is_short(t) {
        take_named(act, first_short(act, t[1]), t.subrange(0, 2), None, ts, i, st)
    } else {
        Ok((st.plain(t), false))
    }
}

/// What the token at `i` does: it is read against the active set that the
/// plain tokens before it switch on.
pub open spec fn step(base: Seq<Arg>, ts: Seq<Seq<char>>, i: int, st: State) -> Result<
    (State, bool),
    ParseFailure,
> {
    step_in(resolved(base, st.raw), ts, i, st)
}

/// The scan of the tokens from `i` on. Each plain token may switch on
/// conditional sub-arguments, which later tokens can then use.
pub open spec fn scan_from(base: Seq<Arg>, ts: Seq<Seq<char>>, i: int, st: State) -> Result<
    State,
    ParseFailure,
>
    decreases ts.len() + 1 - i,
{
    if i < 0 || i >= ts.len() {
        Ok(st)
    } else {
        match step(base, ts, i, st) {
            Ok((s2, extra)) => scan_from(base, ts, if extra { i + 2 } else { i + 1 }, s2),
            Err(e) => Err(e),
        }
    }
}

/// The positional index of the active argument at `p` (0 for other kinds).
pub open spec fn pidx(act: Seq<(Arg, ArgType)>, p: int) -> int {
    match act[p].1 {
        ArgType::Positional { index } => index as int,
        _ => 0,
    }
}

/// Whether the active argument at `p` is positional.
pub open spec fn is_positional(act: Seq<(Arg, ArgType)>, p: int) -> bool {
    0 <= p < act.len() && act[p].1 is Positional
}

/// `p` comes before `q` in positional order: a smaller index, or the same
/// index and an earlier place in the active set.
pub open spec fn before(act: Seq<(Arg, ArgType)>, p: int, q: int) -> bool {
    pidx(act, p) < pidx(act, q) || (pidx(act, p) == pidx(act, q) && p < q)
}

/// `s` lists the positional arguments among the first `n` active ones, each
/// once, in positional order.
pub open spec fn orders_upto(act: Seq<(Arg, ArgType)>, n: int, s: Seq<int>) -> bool {
    &&& forall|p: int| s.contains(p) <==> is_positional(act, p) && p < n
    &&& forall|i: int, j: int| 0 <= i < j < s.len() ==> before(act, #[trigger] s[i], #[trigger] s[j])
}

/// The positions of the positional arguments of the active set, ordered by
/// index; equal indices keep their order in the active set.
pub open spec fn positional_order(act: Seq<(Arg, ArgType)>) -> Seq<int> {
    choose|s: Seq<int>| #[trigger] orders_upto(act, act.len() as int, s)
}

/// Two sequences, each strictly in positional order, with the same elements
/// are equal.
pub proof fn lemma_order_unique(act: Seq<(Arg, ArgType)>, s: Seq<int>, t: Seq<int>)
    requires
        forall|p: int| s.contains(p) <==> t.contains(p),
        forall|i: int, j: int| 0 <= i < j < s.len() ==> before(act, #[trigger] s[i], #[trigger] s[j]),
        forall|i: int, j: int| 0 <= i < j < t.len() ==> before(act, #[trigger] t[i], #[trigger] t[j]),
    ensures
        s == t,
    decreases s.len(),
{
    if s.len() == 0 {
        if t.len() > 0 {
            assert(t.contains(t[0]));
        }
        assert(s =~= t);
    } else {
        assert(s.contains(s[0]));
        assert(t.len() > 0);
        assert(t.contains(t[0]));
        let i = choose|i: int| 0 <= i < s.len() && s[i] == t[0];
        let j = choose|j: int| 0 <= j < t.len() && t[j] == s[0];
        if i > 0 && j > 0 {
            assert(before(act, s[0], s[i]));
            assert(before(act, t[0], t[j]));
        } else if i > 0 {
            assert(before(act, s[0], s[i]));
        } else if j > 0 {
            assert(before(act, t[0], t[j]));
        }
        assert(s[0] == t[0]);
        let s1 = s.drop_first();
        let t1 = t.drop_first();
        assert forall|p: int| s1.contains(p) <==> t1.contains(p) by {
            if s1.contains(p) {
                let k = choose|k: int| 0 <= k < s1.len() && s1[k] == p;
                assert(s[k + 1] == p);
                assert(before(act, s[0], s[k + 1]));
                assert(s.contains(p));
                let l = choose|l: int| 0 <= l < t.len() && t[l] == p;
                assert(l != 0);
                assert(t1[l - 1] == p);
            }
            if t1.contains(p) {
                let k = choose|k: int| 0 <= k < t1.len() && t1[k] == p;
                assert(t[k + 1] == p);
                assert(before(act, t[0], t[k + 1]));
                assert(t.contains(p));
                let l = choose|l: int| 0 <= l < s.len() && s[l] == p;
                assert(l != 0);
                assert(s1[l - 1] == p);
            }
        }
        assert forall|a: int, b: int| 0 <= a < b < s1.len() implies before(act, #[trigger] s1[a], #[trigger] s1[b]) by {
            assert(s1[a] == s[a + 1] && s1[b] == s[b + 1]);
        }
        assert forall|a: int, b: int| 0 <= a < b < t1.len() implies before(act, #[trigger] t1[a], #[trigger] t1[b]) by {
            assert(t1[a] == t[a + 1] && t1[b] == t[b + 1]);
        }
        lemma_order_unique(act, s1, t1);
        assert(s.len() == t.len());
        assert forall|k: int| 0 <= k < s.len() implies s[k] == t[k] by {
            if k > 0 {
                assert(s[k] == s1[k - 1] && t[k] == t1[k - 1]);
            }
        }
        assert(s =~= t);
    }
}

/// Inserting the positional argument at `n` where the smaller-or-equal
/// indices end keeps a sequence in positional order.
pub proof fn lemma_order_insert(act: Seq<(Arg, ArgType)>, n: int, s: Seq<int>, q: int)
    requires
        orders_upto(act, n, s),
        is_positional(act, n),
        0 <= q <= s.len(),
        forall|x: int| 0 <= x < q ==> pidx(act, #[trigger] s[x]) <= pidx(act, n),
        forall|x: int| q <= x < s.len() ==> pidx(act, #[trigger] s[x]) > pidx(act, n),
    ensures
        orders_upto(act, n + 1, s.insert(q, n)),
{
    let t = s.insert(q, n);
    assert forall|x: int| 0 <= x < s.len() implies #[trigger] s[x] < n by {
        assert(s.contains(s[x]));
    }
    assert forall|p: int| t.contains(p) <==> is_positional(act, p) && p < n + 1 by {
        if t.contains(p) {
            let k = choose|k: int| 0 <= k < t.len() && t[k] == p;
            if k < q {
                assert(t[k] == s[k]);
                assert(s.contains(p));
            } else if k > q {
                assert(t[k] == s[k - 1]);
                assert(s.contains(p));
            }
        }
        if is_positional(act, p) && p < n + 1 {
            if p == n {
                assert(t[q] == n);
            } else {
                assert(s.contains(p));
                let k = choose|k: int| 0 <= k < s.len() && s[k] == p;
                if k < q {
                    assert(t[k] == p);
                } else {
                    assert(t[k + 1] == p);
                }
            }
        }
    }
    assert forall|i: int, j: int| 0 <= i < j < t.len() implies before(act, #[trigger] t[i], #[trigger] t[j]) by {
        if j < q {
            assert(t[i] == s[i] && t[j] == s[j]);
        } else if j == q {
            assert(t[i] == s[i]);
        } else if i < q {
            assert(t[i] == s[i] && t[j] == s[j - 1]);
            assert(pidx(act, s[i]) <= pidx(act, n));
        } else if i == q {
            assert(t[j] == s[j - 1]);
        } else {
            assert(t[i] == s[i - 1] && t[j] == s[j - 1]);
        }
    }
}

/// A sequence in positional order of the first `n` active arguments exists.
pub proof fn lemma_order_exists(act: Seq<(Arg, ArgType)>, n: int)
    requires
        0 <= n <= act.len(),
    ensures
        exists|s: Seq<int>| #[trigger] orders_upto(act, n, s),
    decreases n,
{
    if n == 0 {
        assert(orders_upto(act, 0, Seq::<int>::empty()));
    } else {
        lemma_order_exists(act, n - 1);
        let s = choose|s: Seq<int>| #[trigger] orders_upto(act, n - 1, s);
        if is_positional(act, n - 1) {
            let key = pidx(act, n - 1);
            let pr = |x: int| pidx(act, s[x]) > key;
            let q = match crate::active::first_of(s.len() as int, pr) {
                Some(q) => q,
                None => s.len() as int,
            };
            if crate::active::first_of(s.len() as int, pr) is Some {
                let f = choose|i: int| crate::active::is_first(s.len() as int, pr, i);
                assert(crate::active::is_first(s.len() as int, pr, f));
                assert forall|x: int| q <= x < s.len() implies pidx(act, #[trigger] s[x]) > key by {
                    if x > q {
                        assert(before(act, s[q], s[x]));
                    }
                }
                assert forall|x: int| 0 <= x < q implies pidx(act, #[trigger] s[x]) <= key by {
                    assert(!pr(x));
                }
            } else {
                assert forall|x: int| 0 <= x < q implies pidx(act, #[trigger] s[x]) <= key by {
                    if pr(x) {
                        assert(exists|i: int| crate::active::is_first(s.len() as int, pr, i)) by {
                            lemma_some_first(s.len() as int, pr, x);
                        }
                    }
                }
            }
            lemma_order_insert(act, n - 1, s, q);
        } else {
            assert(orders_upto(act, n, s));
        }
    }
}

proof fn lemma_some_first(n: int, p: spec_fn(int) -> bool, x: int)
    requires
        0 <= x < n,
        p(x),
    ensures
        exists|i: int| crate::active::is_first(n, p, i),
    decreases x,
{
    if exists|y: int| 0 <= y < x && #[trigger] p(y) {
        let y = choose|y: int| 0 <= y < x && #[trigger] p(y);
        lemma_some_first(n, p, y);
    } else {
        assert(crate::active::is_first(n, p, x));
    }
}

/// The positional arguments `ord[k..]` take their plain tokens.
pub open spec fn place_from(act: Seq<(Arg, ArgType)>, ord: Seq<int>, k: int, st: State) -> Result<
    State,
    ParseFailure,
>
    decreases ord.len() - k,
{
    if k < 0 || k >= ord.len() {
        Ok(st)
    } else {
        let a = act[ord[k]].0;
        let idx = pidx(act, ord[k]);
        if idx < st.raw.len() {
            let v = st.raw[idx];
            if a.possible_values@.len() > 0 && !holds(a.possible_values@, v) {
                Err(
                    ParseFailure::InvalidValue {
                        value: v,
                        name: a.name@,
                        allowed: strs(a.possible_values@),
                    },
                )
            } else {
                place_from(act, ord, k + 1, st.placed(a.name@, v))
            }
        } else if a.required {
            match a.default_value {
                Some(d) => place_from(act, ord, k + 1, st.placed_default(a.name@, d@)),
                None => Err(ParseFailure::MissingRequiredPositional(a.name@)),
            }
        } else {
            place_from(act, ord, k + 1, st)
        }
    }
}

/// The plain tokens beyond the first `npos` go to the first variadic argument.
pub open spec fn with_variadic(act: Seq<(Arg, ArgType)>, npos: int, st: State) -> State {
    match first_variadic(act) {
        None => st,
        Some(j) => {
            let rest = if npos <= st.raw.len() {
                st.raw.subrange(npos, st.raw.len() as int)
            } else {
                Seq::empty()
            };
            State {
                variadic: rest,
                seen: if rest.len() > 0 {
                    st.seen.insert(act[j].0.name@)
                } else {
                    st.seen
                },
                ..st
            }
        },
    }
}

/// The first dependency of `a` that was not given.
pub open spec fn missing_dep(a: Arg, seen: Set<Seq<char>>) -> Option<int> {
    first_of(a.depends_on@.len() as int, |d: int| !seen.contains(a.depends_on@[d]@))
}

/// The first conflicting name of `a` that was given.
pub open spec fn present_conflict(a: Arg, seen: Set<Seq<char>>) -> Option<int> {
    first_of(a.conflicts_with@.len() as int, |c: int| seen.contains(a.conflicts_with@[c]@))
}

/// The first dependency or conflict violated by a given argument from `k` on.
pub open spec fn check_from(act: Seq<(Arg, ArgType)>, k: int, seen: Set<Seq<char>>) -> Option<
    ParseFailure,
>
    decreases act.len() - k,
{
    if k < 0 || k >= act.len() {
        None
    } else {
        let a = act[k].0;
        if seen.contains(a.name@) {
            match missing_dep(a, seen) {
                Some(d) => Some(ParseFailure::UnsatisfiedDependency(a.name@, a.depends_on@[d]@)),
                None => match present_conflict(a, seen) {
                    Some(c) => Some(ParseFailure::Conflict(a.name@, a.conflicts_with@[c]@)),
                    None => check_from(act, k + 1, seen),
                },
            }
        } else {
            check_from(act, k + 1, seen)
        }
    }
}

/// What an argument that was not given leaves in the state through its
/// default `d`: an option takes it as its value, a required flag is set;
/// other arguments leave the state as it is.
pub open spec fn defaulted(a: Arg, kind: ArgType, d: Seq<char>, st: State) -> State {
    match kind {
        ArgType::Option => State { values: st.values.insert(a.name@, d), ..st },
        ArgType::Flag => if a.required {
            State { flags: st.flags.insert(a.name@), ..st }
        } else {
            st
        },
        _ => st,
    }
}

/// Arguments from `k` on that were not given take their defaults; a required
/// one without a default is missing.
pub open spec fn require_from(act: Seq<(Arg, ArgType)>, k: int, st: State) -> Result<
    State,
    ParseFailure,
>
    decreases act.len() - k,
{
    if k < 0 || k >= act.len() {
        Ok(st)
    } else {
        let a = act[k].0;
        if !st.seen.contains(a.name@) {
            match a.default_value {
                Some(d) => require_from(act, k + 1, defaulted(a, act[k].1, d@, st)),
                None => if a.required {
                    Err(ParseFailure::MissingRequiredArgument(a.name@))
                } else {
                    require_from(act, k + 1, st)
                },
            }
        } else {
            require_from(act, k + 1, st)
        }
    }
}

/// What happens once the scan produced `s1`.
pub open spec fn finish(act: Seq<(Arg, ArgType)>, s1: State) -> Result<ParsedView, ParseFailure> {
    let ord = positional_order(act);
    match place_from(act, ord, 0, s1) {
        Err(e) => Err(e),
        Ok(s2) => {
            let s3 = with_variadic(act, ord.len() as int, s2);
            match check_from(act, 0, s3.seen) {
                Some(e) => Err(e),
                None => match require_from(act, 0, s3) {
                    Err(e) => Err(e),
                    Ok(s4) => Ok(s4.result()),
                },
            }
        },
    }
}

/// The outcome of parsing the tokens `ts` against the arguments `base`.
/// Positional placement and validation work on the active set that the
/// scan's own plain tokens switch on.
pub open spec fn parse_result(base: Seq<Arg>, ts: Seq<Seq<char>>) -> Result<ParsedView, ParseFailure> {
    match scan_from(base, ts, 0, State::empty()) {
        Err(e) => Err(e),
        Ok(s1) => finish(resolved(base, s1.raw), s1),
    }
}

} // verus!
