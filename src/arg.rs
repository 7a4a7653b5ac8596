//! The declarative description of one argument, built with chained setters.
use vstd::prelude::*;
use crate::text::{copy_all, owned, owned_all, strs};

verus! {

/// What an argument is: a flag, an option taking a value, a positional
/// argument at an index among the plain tokens, or the variadic tail.
#[derive(Debug, Clone, Copy, PartialEq, Eq, Structural)]
pub enum ArgType {
    /// Present or absent (`-h`, `--help`).
    Flag,
    /// Takes a value (`--out file`, `--out=file`, `-o file`).
    Option,
    /// Takes the plain token at `index`.
    Positional { index: usize },
    /// Takes the plain tokens beyond the positional ones.
    Variadic,
}

/// One command-line argument.
#[derive(Debug)]
pub struct Arg {
    /// Identifier of the argument; also its default long alias.
    pub name: String,
    /// Flag, option, positional or variadic.
    pub arg_type: ArgType,
    /// Single-character alias (`-v`).
    pub short: Option<char>,
    /// Long alias (`--verbose`).
    pub long: Option<String>,
    /// Description shown in help output.
    pub help: String,
    /// Whether the argument must be given.
    pub required: bool,
    /// Names that must also be given when this one is.
    pub depends_on: Vec<String>,
    /// Names that must be absent when this one is given.
    pub conflicts_with: Vec<String>,
    /// Value used when the argument is not given: an option takes it as its
    /// value, a required flag is set, a required positional takes it.
    pub default_value: Option<String>,
    /// Allowed values; empty means unrestricted.
    pub possible_values: Vec<String>,
    /// Sub-arguments that become active for particular values of this one.
    pub children: Vec<ArgChain>,
}

/// Sub-arguments that are active only when the parent positional argument
/// takes the value `when_value`.
#[derive(Debug)]
pub struct ArgChain {
    /// The value of the parent that activates this chain.
    pub when_value: String,
    /// The arguments this chain adds.
    pub args: Vec<Arg>,
}

impl Arg {
    /// `self` is a fresh argument named `name` of the given kind, with no short
    /// alias, help, constraints, default or children.
    pub open spec fn is_plain(self, name: Seq<char>, kind: ArgType, required: bool) -> bool {
        &&& self.name@ == name
        &&& self.arg_type == kind
        &&& self.short.is_none()
        &&& self.help@ == Seq::<char>::empty()
        &&& self.required == required
        &&& self.depends_on@.len() == 0
        &&& self.conflicts_with@.len() == 0
        &&& self.default_value.is_none()
        &&& self.possible_values@.len() == 0
        &&& self.children@.len() == 0
    }

    /// `self` and `other` agree on dependencies, conflicts, default, allowed
    /// values and children.
    pub open spec fn same_constraints(self, other: Arg) -> bool {
        &&& self.depends_on@ == other.depends_on@
        &&& self.conflicts_with@ == other.conflicts_with@
        &&& self.default_value == other.default_value
        &&& self.possible_values@ == other.possible_values@
        &&& self.children@ == other.children@
    }

    fn plain(name: &str, kind: ArgType, required: bool) -> (r: Self)
        ensures
            r.is_plain(name@, kind, required),
            r.long.is_none(),
    {
        Arg {
            name: owned(name),
            arg_type: kind,
            short: None,
            long: None,
            help: String::new(),
            required,
            depends_on: Vec::new(),
            conflicts_with: Vec::new(),
            default_value: None,
            possible_values: Vec::new(),
            children: Vec::new(),
        }
    }

    /// A flag named `name`, optional, whose long alias is its name.
    pub fn new(name: &str) -> (r: Self)
        ensures
            r.is_plain(name@, ArgType::Flag, false),
            r.long is Some && r.long->0@ == name@,
    {
        let mut r = Self::plain(name, ArgType::Flag, false);
        r.long = Some(owned(name));
        r
    }

    /// A required positional argument at `index`, without aliases.
    pub fn positional(name: &str, index: usize) -> (r: Self)
        ensures
            r.is_plain(name@, ArgType::Positional { index }, true),
            r.long.is_none(),
    {
        Self::plain(name, ArgType::Positional { index }, true)
    }

    /// An optional variadic argument, without aliases.
    pub fn variadic(name: &str) -> (r: Self)
        ensures
            r.is_plain(name@, ArgType::Variadic, false),
            r.long.is_none(),
    {
        Self::plain(name, ArgType::Variadic, false)
    }

    /// Sets the short alias.
    pub fn short(self, c: char) -> (r: Self)
        ensures
            r.short == Some(c),
            r.name == self.name && r.arg_type == self.arg_type && r.long == self.long,
            r.help == self.help && r.required == self.required,
            r.same_constraints(self),
    {
        let mut r = self;
        r.short = Some(c);
        r
    }

    /// Sets the long alias.
    pub fn long(self, s: &str) -> (r: Self)
        ensures
            r.long is Some && r.long->0@ == s@,
            r.name == self.name && r.arg_type == self.arg_type && r.short == self.short,
            r.help == self.help && r.required == self.required,
            r.same_constraints(self),
    {
        let mut r = self;
        r.long = Some(owned(s));
        r
    }

    /// Sets the help text.
    pub fn help(self, h: &str) -> (r: Self)
        ensures
            r.help@ == h@,
            r.name == self.name && r.arg_type == self.arg_type && r.short == self.short,
            r.long == self.long && r.required == self.required,
            r.same_constraints(self),
    {
        let mut r = self;
        r.help = owned(h);
        r
    }

    /// Sets whether the argument is required.
    pub fn required(self, req: bool) -> (r: Self)
        ensures
            r.required == req,
            r.name == self.name && r.arg_type == self.arg_type && r.short == self.short,
            r.long == self.long && r.help == self.help,
            r.same_constraints(self),
    {
        let mut r = self;
        r.required = req;
        r
    }

    /// Makes the argument an option that takes a value.
    pub fn takes_value(self) -> (r: Self)
        ensures
            r.arg_type == ArgType::Option,
            r.name == self.name && r.short == self.short && r.long == self.long,
            r.help == self.help && r.required == self.required,
            r.same_constraints(self),
    {
        let mut r = self;
        r.arg_type = ArgType::Option;
        r
    }

    /// Adds a name that must also be given when this argument is.
    pub fn depends_on(self, other: &str) -> (r: Self)
        ensures
            strs(r.depends_on@) == strs(self.depends_on@).push(other@),
            r.name == self.name && r.arg_type == self.arg_type && r.short == self.short,
            r.long == self.long && r.help == self.help && r.required == self.required,
            r.conflicts_with@ == self.conflicts_with@,
            r.default_value == self.default_value,
            r.possible_values@ == self.possible_values@,
            r.children@ == self.children@,
    {
        let mut r = self;
        r.depends_on.push(owned(other));
        proof {
            assert(strs(r.depends_on@) =~= strs(self.depends_on@).push(other@));
        }
        r
    }

    /// Adds a name that must be absent when this argument is given.
    pub fn conflicts_with(self, other: &str) -> (r: Self)
        ensures
            strs(r.conflicts_with@) == strs(self.conflicts_with@).push(other@),
            r.name == self.name && r.arg_type == self.arg_type && r.short == self.short,
            r.long == self.long && r.help == self.help && r.required == self.required,
            r.depends_on@ == self.depends_on@,
            r.default_value == self.default_value,
            r.possible_values@ == self.possible_values@,
            r.children@ == self.children@,
    {
        let mut r = self;
        r.conflicts_with.push(owned(other));
        proof {
            assert(strs(r.conflicts_with@) =~= strs(self.conflicts_with@).push(other@));
        }
        r
    }

    /// Sets the default value.
    pub fn default_value(self, v: &str) -> (r: Self)
        ensures
            r.default_value is Some && r.default_value->0@ == v@,
            r.name == self.name && r.arg_type == self.arg_type && r.short == self.short,
            r.long == self.long && r.help == self.help && r.required == self.required,
            r.depends_on@ == self.depends_on@,
            r.conflicts_with@ == self.conflicts_with@,
            r.possible_values@ == self.possible_values@,
            r.children@ == self.children@,
    {
        let mut r = self;
        r.default_value = Some(owned(v));
        r
    }

    /// Restricts the argument to the given values.
    pub fn possible_values(self, values: &[&str]) -> (r: Self)
        ensures
            r.possible_values@.len() == values@.len(),
            forall|j: int| 0 <= j < values@.len() ==> #[trigger] r.possible_values@[j]@ == values@[j]@,
            r.name == self.name && r.arg_type == self.arg_type && r.short == self.short,
            r.long == self.long && r.help == self.help && r.required == self.required,
            r.depends_on@ == self.depends_on@,
            r.conflicts_with@ == self.conflicts_with@,
            r.default_value == self.default_value,
            r.children@ == self.children@,
    {
        let mut r = self;
        r.possible_values = owned_all(values);
        r
    }

    /// Adds sub-arguments that become active when this positional argument
    /// takes the value `value`.
    pub fn when(self, value: &str, args: Vec<Arg>) -> (r: Self)
        ensures
            r.children@.len() == self.children@.len() + 1,
            r.children@.subrange(0, self.children@.len() as int) == self.children@,
            r.children@.last().when_value@ == value@,
            r.children@.last().args@ == args@,
            r.name == self.name && r.arg_type == self.arg_type && r.short == self.short,
            r.long == self.long && r.help == self.help && r.required == self.required,
            r.depends_on@ == self.depends_on@,
            r.conflicts_with@ == self.conflicts_with@,
            r.default_value == self.default_value,
            r.possible_values@ == self.possible_values@,
    {
        let mut r = self;
        r.children.push(ArgChain { when_value: owned(value), args });
        proof {
            assert(r.children@.subrange(0, self.children@.len() as int) =~= self.children@);
        }
        r
    }
}

/// A copy of `a` and of all its conditional sub-arguments.
fn copy_arg(a: &Arg) -> (r: Arg)
    ensures
        r.name == a.name && r.arg_type == a.arg_type && r.short == a.short && r.long == a.long,
        r.help == a.help && r.required == a.required && r.default_value == a.default_value,
        r.depends_on@ == a.depends_on@ && r.conflicts_with@ == a.conflicts_with@,
        r.possible_values@ == a.possible_values@,
        r.children@.len() == a.children@.len(),
        forall|i: int|
            0 <= i < a.children@.len() ==> (#[trigger] r.children@[i]).when_value
                == a.children@[i].when_value && r.children@[i].args@.len()
                == a.children@[i].args@.len(),
    decreases a,
{
    let mut children: Vec<ArgChain> = Vec::new();
    let mut i: usize = 0;
    while i < a.children.len()
        invariant
            i <= a.children@.len(),
            children@.len() == i,
            forall|k: int|
                0 <= k < i ==> (#[trigger] children@[k]).when_value == a.children@[k].when_value
                    && children@[k].args@.len() == a.children@[k].args@.len(),
        decreases a.children@.len() - i,
    {
        let chain = &a.children[i];
        let mut args: Vec<Arg> = Vec::new();
        let mut j: usize = 0;
        while j < chain.args.len()
            invariant
                j <= chain.args@.len(),
                args@.len() == j,
                chain == a.children@[i as int],
                i < a.children@.len(),
            decreases chain.args@.len() - j,
        {
            proof {
                broadcast use vstd::std_specs::vec::axiom_vec_index_decreases;

                assert(decreases_to!(a.children => a.children[i as int]));
                assert(decreases_to!(chain.args => chain.args[j as int]));
            }
            args.push(copy_arg(&chain.args[j]));
            j = j + 1;
        }
        children.push(ArgChain { when_value: chain.when_value.clone(), args });
        i = i + 1;
    }
    Arg {
        name: a.name.clone(),
        arg_type: a.arg_type,
        short: a.short,
        long: match &a.long {
            Some(l) => Some(l.clone()),
            None => None,
        },
        help: a.help.clone(),
        required: a.required,
        depends_on: copy_all(&a.depends_on),
        conflicts_with: copy_all(&a.conflicts_with),
        default_value: match &a.default_value {
            Some(d) => Some(d.clone()),
            None => None,
        },
        possible_values: copy_all(&a.possible_values),
        children,
    }
}

impl Clone for Arg {
    fn clone(&self) -> Self {
        copy_arg(self)
    }
}

impl Clone for ArgChain {
    fn clone(&self) -> Self {
        let mut args: Vec<Arg> = Vec::new();
        let mut j: usize = 0;
        while j < self.args.len()
            invariant
                j <= self.args@.len(),
            decreases self.args@.len() - j,
        {
            args.push(copy_arg(&self.args[j]));
            j = j + 1;
        }
        ArgChain { when_value: self.when_value.clone(), args }
    }
}

} // verus!
