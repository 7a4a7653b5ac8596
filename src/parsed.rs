//! The result of a successful parse.
use vstd::prelude::*;
use crate::text::{strs, holds, text_eq};

verus! {

/// The map that a list of (name, value) assignments leaves behind: a later
/// assignment to a name replaces an earlier one.
pub open spec fn assoc(s: Seq<(String, String)>) -> Map<Seq<char>, Seq<char>>
    decreases s.len(),
{
    if s.len() == 0 {
        Map::empty()
    } else {
        assoc(s.drop_last()).insert(s.last().0@, s.last().1@)
    }
}

/// The set of character sequences held by the strings of `v`.
pub open spec fn names(v: Seq<String>) -> Set<Seq<char>> {
    Set::new(|x: Seq<char>| holds(v, x))
}

/// Assignments after index `i` that do not name `k` leave its entry as the
/// first `i` assignments made it.
pub proof fn lemma_assoc_prefix(s: Seq<(String, String)>, i: int, k: Seq<char>)
    requires
        0 <= i <= s.len(),
        forall|j: int| i <= j < s.len() ==> s[j].0@ != k,
    ensures
        assoc(s).contains_key(k) == assoc(s.subrange(0, i)).contains_key(k),
        assoc(s).contains_key(k) ==> assoc(s)[k] == assoc(s.subrange(0, i))[k],
    decreases s.len() - i,
{
    if i < s.len() {
        lemma_assoc_prefix(s.drop_last(), i, k);
        assert(s.drop_last().subrange(0, i) =~= s.subrange(0, i));
    } else {
        assert(s.subrange(0, i) =~= s);
    }
}

/// Values, flags and positional arguments read from one invocation.
#[derive(Debug, Clone)]
pub struct ParsedArgs {
    pub(crate) values: Vec<(String, String)>,
    pub(crate) flags: Vec<String>,
    pub(crate) positional: Vec<String>,
    pub(crate) variadic: Vec<String>,
}

/// The model of [`ParsedArgs`].
pub struct ParsedView {
    /// Value of each option or positional argument that got one.
    pub values: Map<Seq<char>, Seq<char>>,
    /// Names of the flags that are set.
    pub flags: Set<Seq<char>>,
    /// Positional values, in the order of their indices.
    pub positional: Seq<Seq<char>>,
    /// Plain tokens beyond the positional ones.
    pub variadic: Seq<Seq<char>>,
}

impl View for ParsedArgs {
    type V = ParsedView;

    closed spec fn view(&self) -> ParsedView {
        ParsedView {
            values: assoc(self.values@),
            flags: names(self.flags@),
            positional: strs(self.positional@),
            variadic: strs(self.variadic@),
        }
    }
}

impl ParsedArgs {
    pub(crate) fn from_parts(
        values: Vec<(String, String)>,
        flags: Vec<String>,
        positional: Vec<String>,
        variadic: Vec<String>,
    ) -> (r: Self)
        ensures
            r@ == (ParsedView {
                values: assoc(values@),
                flags: names(flags@),
                positional: strs(positional@),
                variadic: strs(variadic@),
            }),
    {
        ParsedArgs { values, flags, positional, variadic }
    }

    /// The value of the option or positional argument `name`.
    pub fn get(&self, name: &str) -> (r: Option<&String>)
        ensures
            r is Some == self@.values.contains_key(name@),
            r is Some ==> r->0@ == self@.values[name@],
    {
        let mut i: usize = self.values.len();
        while i > 0
            invariant
                i <= self.values@.len(),
                forall|j: int| i <= j < self.values@.len() ==> self.values@[j].0@ != name@,
            decreases i,
        {
            let e = &self.values[i - 1];
            if text_eq(e.0.as_str(), name) {
                proof {
                    let s = self.values@;
                    lemma_assoc_prefix(s, i as int, name@);
                    assert(s.subrange(0, i as int).drop_last() =~= s.subrange(0, i - 1));
                }
                return Some(&e.1);
            }
            i = i - 1;
        }
        proof {
            lemma_assoc_prefix(self.values@, 0, name@);
            assert(self.values@.subrange(0, 0) =~= Seq::<(String, String)>::empty());
        }
        None
    }

    /// Whether the flag `name` is set.
    pub fn flag(&self, name: &str) -> (r: bool)
        ensures
            r == self@.flags.contains(name@),
    {
        let mut i: usize = 0;
        while i < self.flags.len()
            invariant
                i <= self.flags@.len(),
                forall|j: int| 0 <= j < i ==> self.flags@[j]@ != name@,
            decreases self.flags@.len() - i,
        {
            if text_eq(self.flags[i].as_str(), name) {
                return true;
            }
            i = i + 1;
        }
        false
    }

    /// All positional values, in the order of their indices.
    pub fn positional(&self) -> (r: &[String])
        ensures
            strs(r@) == self@.positional,
    {
        self.positional.as_slice()
    }

    /// The plain tokens beyond the positional ones.
    pub fn variadic(&self) -> (r: &[String])
        ensures
            strs(r@) == self@.variadic,
    {
        self.variadic.as_slice()
    }

    /// The positional value at `index`.
    pub fn pos(&self, index: usize) -> (r: Option<&String>)
        ensures
            r is Some == (index < self@.positional.len()),
            r is Some ==> r->0@ == self@.positional[index as int],
    {
        if index < self.positional.len() {
            Some(&self.positional[index])
        } else {
            None
        }
    }
}

} // verus!
