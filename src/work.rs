//! The working state of a parse.
use vstd::prelude::*;
use crate::parsed::{assoc, names, ParsedArgs};
use crate::rules::State;
use crate::text::{owned, strs};

verus! {

pub proof fn lemma_names_push(v: Seq<String>, s: String)
    ensures
        names(v.push(s)) == names(v).insert(s@),
{
    assert forall|x: Seq<char>| names(v).insert(s@).contains(x) implies #[trigger] names(
        v.push(s),
    ).contains(x) by {
        if x == s@ {
            assert(v.push(s)[v.len() as int] == s);
        } else {
            let i = choose|i: int| 0 <= i < v.len() && v[i]@ == x;
            assert(v.push(s)[i] == v[i]);
        }
    }
    assert forall|x: Seq<char>| #[trigger] names(v.push(s)).contains(x) implies names(v).insert(
        s@,
    ).contains(x) by {
        let i = choose|i: int| 0 <= i < v.push(s).len() && v.push(s)[i]@ == x;
        if i < v.len() {
            assert(v.push(s)[i] == v[i]);
        }
    }
    assert(names(v.push(s)) =~= names(v).insert(s@));
}

pub proof fn lemma_strs_push(v: Seq<String>, s: String)
    ensures
        strs(v.push(s)) == strs(v).push(s@),
{
    assert(strs(v.push(s)) =~= strs(v).push(s@));
}

pub proof fn lemma_assoc_push(v: Seq<(String, String)>, k: String, x: String)
    ensures
        assoc(v.push((k, x))) == assoc(v).insert(k@, x@),
{
    assert(v.push((k, x)).drop_last() =~= v);
}

pub(crate) struct Work {
    pub(crate) values: Vec<(String, String)>,
    pub(crate) flags: Vec<String>,
    pub(crate) raw: Vec<String>,
    pub(crate) seen: Vec<String>,
    pub(crate) positional: Vec<String>,
    pub(crate) variadic: Vec<String>,
}

impl Work {
    pub(crate) open spec fn model(&self) -> State {
        State {
            values: assoc(self.values@),
            flags: names(self.flags@),
            raw: strs(self.raw@),
            seen: names(self.seen@),
            positional: strs(self.positional@),
            variadic: strs(self.variadic@),
        }
    }

    pub(crate) fn new() -> (r: Work)
        ensures
            r.model() == State::empty(),
    {
        let r = Work {
            values: Vec::new(),
            flags: Vec::new(),
            raw: Vec::new(),
            seen: Vec::new(),
            positional: Vec::new(),
            variadic: Vec::new(),
        };
        assert(r.model().values =~= Map::empty());
        assert(r.model().flags =~= Set::empty());
        assert(r.model().seen =~= Set::empty());
        assert(r.model().raw =~= Seq::empty());
        assert(r.model().positional =~= Seq::empty());
        assert(r.model().variadic =~= Seq::empty());
        r
    }

    fn set_value(&mut self, name: &str, v: &str)
        ensures
            final(self).model() == (State {
                values: old(self).model().values.insert(name@, v@),
                ..old(self).model()
            }),
    {
        let k = owned(name);
        let x = owned(v);
        proof {
            lemma_assoc_push(self.values@, k, x);
        }
        self.values.push((k, x));
    }

    fn set_flag(&mut self, name: &str)
        ensures
            final(self).model() == (State {
                flags: old(self).model().flags.insert(name@),
                ..old(self).model()
            }),
    {
        let k = owned(name);
        proof {
            lemma_names_push(self.flags@, k);
        }
        self.flags.push(k);
    }

    fn see(&mut self, name: &str)
        ensures
            final(self).model() == (State {
                seen: old(self).model().seen.insert(name@),
                ..old(self).model()
            }),
    {
        let k = owned(name);
        proof {
            lemma_names_push(self.seen@, k);
        }
        self.seen.push(k);
    }

    fn push_positional(&mut self, v: &str)
        ensures
            final(self).model() == (State {
                positional: old(self).model().positional.push(v@),
                ..old(self).model()
            }),
    {
        let x = owned(v);
        proof {
            lemma_strs_push(self.positional@, x);
        }
        self.positional.push(x);
    }

    pub(crate) fn give_value(&mut self, name: &str, v: &str)
        ensures
            final(self).model() == old(self).model().given_value(name@, v@),
    {
        self.set_value(name, v);
        self.see(name);
    }

    pub(crate) fn give_flag(&mut self, name: &str)
        ensures
            final(self).model() == old(self).model().given_flag(name@),
    {
        self.set_flag(name);
        self.see(name);
    }

    pub(crate) fn default_value(&mut self, name: &str, v: &str)
        ensures
            final(self).model() == (State {
                values: old(self).model().values.insert(name@, v@),
                ..old(self).model()
            }),
    {
        self.set_value(name, v);
    }

    pub(crate) fn default_flag(&mut self, name: &str)
        ensures
            final(self).model() == (State {
                flags: old(self).model().flags.insert(name@),
                ..old(self).model()
            }),
    {
        self.set_flag(name);
    }

    pub(crate) fn add_plain(&mut self, t: &str)
        ensures
            final(self).model() == old(self).model().plain(t@),
    {
        let x = owned(t);
        proof {
            lemma_strs_push(self.raw@, x);
        }
        self.raw.push(x);
    }

    pub(crate) fn place(&mut self, name: &str, v: &str)
        ensures
            final(self).model() == old(self).model().placed(name@, v@),
    {
        self.push_positional(v);
        self.set_value(name, v);
        self.see(name);
    }

    pub(crate) fn place_default(&mut self, name: &str, d: &str)
        ensures
            final(self).model() == old(self).model().placed_default(name@, d@),
    {
        self.push_positional(d);
        self.set_value(name, d);
    }

    pub(crate) fn into_parsed(self) -> (r: ParsedArgs)
        ensures
            r@ == self.model().result(),
    {
        ParsedArgs::from_parts(self.values, self.flags, self.positional, self.variadic)
    }
}

} // verus!
