//! The left-to-right pass over the tokens.
use vstd::prelude::*;
use vstd::string::*;
use crate::active::{
    actives, find_long, find_short, lemma_first_found, lemma_first_none, opt_int, ActiveArg,
};
use crate::arg::ArgType;
use crate::error::ParseError;
use crate::active::{resolve, resolved};
use crate::arg::Arg;
use crate::rules::{eq_at, scan_from, step, step_in, take_named};
use crate::text::{owned, strs};
use crate::work::Work;

verus! {

/// An optional string, as characters.
pub open spec fn opt_chars(o: Option<&str>) -> Option<Seq<char>> {
    match o {
        Some(s) => Some(s@),
        None => None,
    }
}

/// The position of the first `=` in `k`.
pub fn find_eq(k: &str) -> (r: Option<usize>)
    ensures
        r matches Some(p) ==> p < k@.len(),
        opt_int(r) == eq_at(k@),
{
    let n = k.unicode_len();
    let ghost p = |i: int| k@[i] == '=';
    let mut i: usize = 0;
    while i < n
        invariant
            n == k@.len(),
            i <= n,
            p == (|i: int| k@[i] == '='),
            forall|j: int| 0 <= j < i ==> !#[trigger] p(j),
        decreases n - i,
    {
        if k.get_char(i) == '=' {
            proof {
                lemma_first_found(n as int, p, i as int);
            }
            return Some(i);
        }
        i = i + 1;
    }
    proof {
        lemma_first_none(n as int, p);
    }
    None
}

/// Applies the token at `i`, which names the active argument at `j` (if
/// any), spelled `spelled`, with an inline value or none.
fn take(
    act: &Vec<ActiveArg>,
    j: Option<usize>,
    spelled: &str,
    inline: Option<&str>,
    ts: &[String],
    i: usize,
    w: &mut Work,
) -> (r: Result<bool, ParseError>)
    requires
        j matches Some(x) ==> x < act@.len(),
        i < ts@.len(),
    ensures
        match take_named(
            actives(act@),
            opt_int(j),
            spelled@,
            opt_chars(inline),
            strs(ts@),
            i as int,
            old(w).model(),
        ) {
            Ok((m, extra)) => r == Ok::<bool, ParseError>(extra) && final(w).model() == m,
            Err(e) => r matches Err(x) && x@ == e,
        },
{
    match j {
        None => Err(ParseError::UnknownOption(owned(spelled))),
        Some(j) => {
            let a = &act[j];
            match a.kind {
                ArgType::Option => match inline {
                    Some(v) => {
                        w.give_value(a.spec.name.as_str(), v);
                        Ok(false)
                    },
                    None => {
                        if i < ts.len() - 1 {
                            w.give_value(a.spec.name.as_str(), ts[i + 1].as_str());
                            Ok(true)
                        } else {
                            Err(ParseError::MissingOptionValue(owned(spelled)))
                        }
                    },
                },
                ArgType::Flag => {
                    w.give_flag(a.spec.name.as_str());
                    Ok(false)
                },
                _ => Err(ParseError::InvalidArgumentType(owned(spelled))),
            }
        },
    }
}

/// Applies the token at `i`.
fn step_at(act: &Vec<ActiveArg>, ts: &[String], i: usize, w: &mut Work) -> (r: Result<
    bool,
    ParseError,
>)
    requires
        i < ts@.len(),
    ensures
        match step_in(actives(act@), strs(ts@), i as int, old(w).model()) {
            Ok((m, extra)) => r == Ok::<bool, ParseError>(extra) && final(w).model() == m,
            Err(e) => r matches Err(x) && x@ == e,
        },
{
    let t = ts[i].as_str();
    let n = t.unicode_len();
    assert(strs(ts@)[i as int] == t@);
    if n >= 2 && t.get_char(0) == '-' && t.get_char(1) == '-' {
        let key = t.substring_char(2, n);
        match find_eq(key) {
            Some(p) => {
                let k = key.substring_char(0, p);
                let v = key.substring_char(p + 1, n - 2);
                let sp = t.substring_char(0, p + 2);
                assert(sp@ == t@.subrange(0, p + 2));
                let j = find_long(act, k);
                take(act, j, sp, Some(v), ts, i, w)
            },
            None => {
                let j = find_long(act, key);
                take(act, j, t, None, ts, i, w)
            },
        }
    } else if n >= 2 && t.get_char(0) == '-' {
        let sp = t.substring_char(0, 2);
        let j = find_short(act, t.get_char(1));
        take(act, j, sp, None, ts, i, w)
    } else {
        w.add_plain(t);
        Ok(false)
    }
}

/// Scans all tokens into `w`, switching on conditional sub-arguments as
/// their triggers arrive among the plain tokens; returns the final active set.
pub(crate) fn scan<'a>(base: &'a Vec<Arg>, ts: &[String], w: &mut Work) -> (r: Result<
    Vec<ActiveArg<'a>>,
    ParseError,
>)
    ensures
        match scan_from(base@, strs(ts@), 0, old(w).model()) {
            Ok(m) => r matches Ok(act) && final(w).model() == m && actives(act@) == resolved(
                base@,
                m.raw,
            ),
            Err(e) => r matches Err(x) && x@ == e,
        },
{
    let ghost goal = scan_from(base@, strs(ts@), 0, w.model());
    let mut act = resolve(base, w.raw.as_slice());
    let mut i: usize = 0;
    while i < ts.len()
        invariant
            i <= ts@.len(),
            actives(act@) == resolved(base@, w.model().raw),
            scan_from(base@, strs(ts@), i as int, w.model()) == goal,
            goal == scan_from(base@, strs(ts@), 0, old(w).model()),
        decreases ts@.len() - i,
    {
        let ghost before = w.model();
        let res = step_at(&act, ts, i, w);
        proof {
            assert(scan_from(base@, strs(ts@), i as int, before) == match step(
                base@,
                strs(ts@),
                i as int,
                before,
            ) {
                Ok((s2, extra)) => scan_from(
                    base@,
                    strs(ts@),
                    if extra { i + 2 } else { i + 1 },
                    s2,
                ),
                Err(e) => Err(e),
            });
        }
        match res {
            Ok(extra) => {
                if extra {
                    i = i + 2;
                } else {
                    i = i + 1;
                }
            },
            Err(e) => {
                return Err(e);
            },
        }
        act = resolve(base, w.raw.as_slice());
    }
    Ok(act)
}

} // verus!
