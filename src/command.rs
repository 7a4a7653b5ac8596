//! A command: its arguments and subcommands, and the parse of its tokens.
use vstd::prelude::*;
use crate::active::{actives, first_of, lemma_first_found, lemma_first_none, resolve, resolved, ActiveArg};
use crate::arg::Arg;
use crate::assign::{check_all, fill_variadic, place_all, positional_positions, require_all};
use crate::error::ParseError;
use crate::parsed::ParsedArgs;
use crate::rules::parse_result;
use crate::scan::scan;
use crate::text::{owned, strs, text_eq};
use crate::work::Work;

verus! {

/// A command with its arguments and subcommands.
#[derive(Debug)]
pub struct Command {
    pub name: String,
    pub about: String,
    pub usage: String,
    pub args: Vec<Arg>,
    pub subcommands: Vec<Command>,
}

/// What an invocation asks of a command with subcommands.
#[derive(Debug, Clone, Copy, PartialEq, Eq)]
pub enum Route {
    /// Show the help of the command itself.
    Help,
    /// Show the help of the subcommand at this position.
    SubcommandHelp(usize),
    /// Run the subcommand at this position on the tokens after its name.
    Subcommand(usize),
    /// Run the command itself on all tokens.
    Root,
}

/// `r` is the outcome that [`Command::parse`] owes on the arguments `base`
/// and the tokens `ts`.
pub open spec fn parse_agrees(
    base: Seq<Arg>,
    ts: Seq<String>,
    r: Result<ParsedArgs, ParseError>,
) -> bool {
    match parse_result(base, strs(ts)) {
        Ok(v) => r matches Ok(p) && p@ == v,
        Err(e) => r matches Err(x) && x@ == e,
    }
}

/// Whether a token asks for help.
pub open spec fn is_help_word(t: Seq<char>) -> bool {
    t == "help"@ || t == "--help"@ || t == "-help"@
}

/// Whether the token `thing` asks for help.
pub fn is_help(thing: &str) -> (r: bool)
    ensures
        r == is_help_word(thing@),
{
    text_eq(thing, "help") || text_eq(thing, "--help") || text_eq(thing, "-help")
}

/// The first subcommand of `subs` named `n`.
pub open spec fn first_named(subs: Seq<Command>, n: Seq<char>) -> Option<int> {
    first_of(subs.len() as int, |i: int| subs[i].name@ == n)
}

/// What the tokens `ts` ask of a command whose subcommands are `subs`.
pub open spec fn route_of(subs: Seq<Command>, ts: Seq<Seq<char>>) -> Route {
    if ts.len() == 0 || is_help_word(ts[0]) {
        Route::Help
    } else {
        match first_named(subs, ts[0]) {
            Some(j) => if ts.len() == 1 || is_help_word(ts[1]) {
                Route::SubcommandHelp(j as usize)
            } else {
                Route::Subcommand(j as usize)
            },
            None => Route::Root,
        }
    }
}

impl Command {
    /// A command named `name`, with no description, usage, arguments or subcommands.
    pub fn new(name: &str) -> (r: Self)
        ensures
            r.name@ == name@,
            r.about@.len() == 0,
            r.usage@.len() == 0,
            r.args@.len() == 0,
            r.subcommands@.len() == 0,
    {
        Command {
            name: owned(name),
            about: String::new(),
            usage: String::new(),
            args: Vec::new(),
            subcommands: Vec::new(),
        }
    }

    /// Sets the description.
    pub fn about(self, about: &str) -> (r: Self)
        ensures
            r.about@ == about@,
            r.name == self.name && r.usage == self.usage,
            r.args@ == self.args@ && r.subcommands@ == self.subcommands@,
    {
        let mut r = self;
        r.about = owned(about);
        r
    }

    /// Sets the usage text.
    pub fn usage(self, usage: &str) -> (r: Self)
        ensures
            r.usage@ == usage@,
            r.name == self.name && r.about == self.about,
            r.args@ == self.args@ && r.subcommands@ == self.subcommands@,
    {
        let mut r = self;
        r.usage = owned(usage);
        r
    }

    /// Adds an argument.
    pub fn arg(self, arg: Arg) -> (r: Self)
        ensures
            r.args@ == self.args@.push(arg),
            r.name == self.name && r.about == self.about && r.usage == self.usage,
            r.subcommands@ == self.subcommands@,
    {
        let mut r = self;
        r.args.push(arg);
        r
    }

    /// Adds a subcommand.
    pub fn subcommand(self, cmd: Command) -> (r: Self)
        ensures
            r.subcommands@ == self.subcommands@.push(cmd),
            r.name == self.name && r.about == self.about && r.usage == self.usage,
            r.args@ == self.args@,
    {
        let mut r = self;
        r.subcommands.push(cmd);
        r
    }

    /// The active set of this command for the plain tokens `raw`.
    pub fn get_active_args(&self, raw: &[String]) -> (r: Vec<ActiveArg>)
        ensures
            actives(r@) == resolved(self.args@, strs(raw@)),
    {
        resolve(&self.args, raw)
    }

    /// Parses the tokens `args` against this command's arguments.
    ///
    /// Plain tokens beyond the positional arguments go to the first variadic
    /// argument, and are dropped when there is none. The inline form
    /// `--flag=value` on a flag records the flag as present and ignores the
    /// value. An option that was not given takes its default, required or
    /// not; a required flag or positional argument takes its default when not
    /// given, and a required argument without one is an error.
    ///
    /// Conditional chains are switched on during the scan itself: once a
    /// plain token arrives at a positional argument's index, the chains whose
    /// trigger it equals join the active set, and the tokens after it are
    /// read against that set (so a chain's option must come after its
    /// trigger). An option's value is never a plain token, so the plain
    /// tokens that switch chains on are exactly those placed afterwards.
    pub fn parse(&self, args: &[String]) -> (r: Result<ParsedArgs, ParseError>)
        ensures
            parse_agrees(self.args@, args@, r),
    {
        let mut w = Work::new();
        let act = match scan(&self.args, args, &mut w) {
            Err(e) => {
                return Err(e);
            },
            Ok(act) => act,
        };
        let ord = positional_positions(&act);
        match place_all(&act, &ord, &mut w) {
            Err(e) => {
                return Err(e);
            },
            Ok(()) => {},
        }
        fill_variadic(&act, ord.len(), &mut w);
        match check_all(&act, &w) {
            Some(e) => {
                return Err(e);
            },
            None => {},
        }
        match require_all(&act, &mut w) {
            Err(e) => Err(e),
            Ok(()) => Ok(w.into_parsed()),
        }
    }

    /// What the tokens `args` ask of this command.
    pub fn route(&self, args: &[String]) -> (r: Route)
        ensures
            r == route_of(self.subcommands@, strs(args@)),
    {
        let ghost ts = strs(args@);
        if args.len() == 0 || is_help(args[0].as_str()) {
            return Route::Help;
        }
        let ghost p = |i: int| self.subcommands@[i].name@ == ts[0];
        let mut j: usize = 0;
        while j < self.subcommands.len()
            invariant
                j <= self.subcommands@.len(),
                ts == strs(args@),
                args@.len() > 0,
                !is_help_word(ts[0]),
                p == (|i: int| self.subcommands@[i].name@ == ts[0]),
                forall|k: int| 0 <= k < j ==> !#[trigger] p(k),
            decreases self.subcommands@.len() - j,
        {
            if text_eq(self.subcommands[j].name.as_str(), args[0].as_str()) {
                proof {
                    lemma_first_found(self.subcommands@.len() as int, p, j as int);
                }
                if args.len() == 1 || is_help(args[1].as_str()) {
                    return Route::SubcommandHelp(j);
                }
                return Route::Subcommand(j);
            }
            j = j + 1;
        }
        proof {
            lemma_first_none(self.subcommands@.len() as int, p);
        }
        Route::Root
    }
}

} // verus!
