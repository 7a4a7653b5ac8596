use luhcli::{Arg, ArgType, Command, ParseError, Route};

fn toks(v: &[&str]) -> Vec<String> {
    v.iter().map(|s| s.to_string()).collect()
}

fn config_command() -> Command {
    Command::new("config").arg(
        Arg::positional("action", 0)
            .possible_values(&["get", "set"])
            .when("get", vec![Arg::positional("key", 0)]),
    )
}

#[test]
fn conditional_chain_adds_shifted_positional() {
    let cmd = config_command();
    let p = cmd.parse(&toks(&["get", "name"])).unwrap();
    assert_eq!(p.positional().to_vec(), toks(&["get", "name"]));
    assert_eq!(p.get("action").map(|s| s.as_str()), Some("get"));
    assert_eq!(p.get("key").map(|s| s.as_str()), Some("name"));
    assert_eq!(p.pos(1).map(|s| s.as_str()), Some("name"));
    assert_eq!(p.pos(2), None);
}

#[test]
fn chain_inactive_for_other_value() {
    let cmd = config_command();
    let p = cmd.parse(&toks(&["set", "name"])).unwrap();
    assert_eq!(p.positional().to_vec(), toks(&["set"]));
    assert_eq!(p.get("key"), None);
}

#[test]
fn chain_activation_in_active_set() {
    let cmd = config_command();
    assert_eq!(cmd.get_active_args(&toks(&["get"])).len(), 2);
    assert_eq!(cmd.get_active_args(&toks(&["GET"])).len(), 1);
    assert_eq!(cmd.get_active_args(&toks(&["set"])).len(), 1);
    assert_eq!(cmd.get_active_args(&toks(&[])).len(), 1);
    let act = cmd.get_active_args(&toks(&["get"]));
    assert_eq!(act[1].spec.name, "key");
    assert_eq!(act[1].kind, ArgType::Positional { index: 1 });
}

#[test]
fn resolve_without_children_is_identity() {
    let cmd = Command::new("c")
        .arg(Arg::positional("a", 0))
        .arg(Arg::new("v").short('v'))
        .arg(Arg::variadic("rest"));
    let act = cmd.get_active_args(&toks(&["x", "y"]));
    assert_eq!(act.len(), 3);
    for (i, a) in act.iter().enumerate() {
        assert_eq!(a.spec.name, cmd.args[i].name);
        assert_eq!(a.kind, cmd.args[i].arg_type);
    }
}

#[test]
fn required_option_takes_default() {
    let cmd = Command::new("c").arg(
        Arg::new("output").takes_value().long("output").default_value("out.txt").required(true),
    );
    let p = cmd.parse(&toks(&[])).unwrap();
    assert_eq!(p.get("output").map(|s| s.as_str()), Some("out.txt"));
}

#[test]
fn optional_option_takes_default() {
    let cmd = Command::new("x")
        .arg(Arg::new("output").takes_value().long("output").default_value("out.txt"));
    let p = cmd.parse(&toks(&[])).unwrap();
    assert_eq!(p.get("output").map(|s| s.as_str()), Some("out.txt"));
}

#[test]
fn optional_flag_default_leaves_flag_unset() {
    let cmd = Command::new("c").arg(Arg::new("color").default_value("yes"));
    let p = cmd.parse(&toks(&[])).unwrap();
    assert!(!p.flag("color"));
}

#[test]
fn optional_without_default_is_absent() {
    let cmd = Command::new("c").arg(Arg::new("output").takes_value());
    let p = cmd.parse(&toks(&[])).unwrap();
    assert_eq!(p.get("output"), None);
}

#[test]
fn supplied_value_beats_default() {
    let cmd = Command::new("c").arg(
        Arg::new("output").takes_value().default_value("out.txt").required(true),
    );
    let p = cmd.parse(&toks(&["--output", "x.txt"])).unwrap();
    assert_eq!(p.get("output").map(|s| s.as_str()), Some("x.txt"));
}

#[test]
fn last_assignment_wins() {
    let cmd = Command::new("c").arg(Arg::new("output").takes_value().long("output"));
    let p = cmd.parse(&toks(&["--output=a.txt", "--output", "b.txt"])).unwrap();
    assert_eq!(p.get("output").map(|s| s.as_str()), Some("b.txt"));
    assert!(p.positional().is_empty());
}

#[test]
fn inline_value_splits_at_first_equals() {
    let cmd = Command::new("c").arg(Arg::new("define").takes_value());
    let p = cmd.parse(&toks(&["--define=a=b"])).unwrap();
    assert_eq!(p.get("define").map(|s| s.as_str()), Some("a=b"));
}

#[test]
fn unsatisfied_dependency_names_both() {
    let cmd = Command::new("c")
        .arg(Arg::new("opt").takes_value().depends_on("other"))
        .arg(Arg::new("other").takes_value());
    match cmd.parse(&toks(&["--opt", "x"])) {
        Err(ParseError::UnsatisfiedDependency(a, b)) => {
            assert_eq!(a, "opt");
            assert_eq!(b, "other");
        }
        other => panic!("unexpected: {:?}", other),
    }
    assert!(cmd.parse(&toks(&["--opt", "x", "--other", "y"])).is_ok());
}

#[test]
fn dependency_reported_before_conflict() {
    let cmd = Command::new("c")
        .arg(Arg::new("a").depends_on("b").conflicts_with("c"))
        .arg(Arg::new("b"))
        .arg(Arg::new("c"));
    match cmd.parse(&toks(&["--a", "--c"])) {
        Err(ParseError::UnsatisfiedDependency(a, b)) => {
            assert_eq!(a, "a");
            assert_eq!(b, "b");
        }
        other => panic!("unexpected: {:?}", other),
    }
}

#[test]
fn conflict_is_rejected() {
    let cmd = Command::new("c")
        .arg(Arg::new("a").conflicts_with("c"))
        .arg(Arg::new("c"));
    match cmd.parse(&toks(&["--c", "--a"])) {
        Err(ParseError::Conflict(a, b)) => {
            assert_eq!(a, "a");
            assert_eq!(b, "c");
        }
        other => panic!("unexpected: {:?}", other),
    }
}

#[test]
fn extra_positionals_dropped_without_variadic() {
    let cmd = Command::new("c").arg(Arg::positional("a", 0));
    let p = cmd.parse(&toks(&["x", "y", "z"])).unwrap();
    assert_eq!(p.positional().to_vec(), toks(&["x"]));
    assert!(p.variadic().is_empty());
}

#[test]
fn extra_positionals_go_to_variadic() {
    let cmd = Command::new("c").arg(Arg::positional("a", 0)).arg(Arg::variadic("rest"));
    let p = cmd.parse(&toks(&["x", "y", "z"])).unwrap();
    assert_eq!(p.positional().to_vec(), toks(&["x"]));
    assert_eq!(p.variadic().to_vec(), toks(&["y", "z"]));
}

#[test]
fn flag_inline_form_records_presence() {
    let cmd = Command::new("c").arg(Arg::new("verbose").short('v'));
    let a = cmd.parse(&toks(&["--verbose"])).unwrap();
    let b = cmd.parse(&toks(&["--verbose=yes"])).unwrap();
    let c = cmd.parse(&toks(&["-v"])).unwrap();
    assert!(a.flag("verbose"));
    assert!(b.flag("verbose"));
    assert!(c.flag("verbose"));
    assert_eq!(b.get("verbose"), None);
    assert!(!cmd.parse(&toks(&[])).unwrap().flag("verbose"));
}

#[test]
fn parsing_twice_gives_equal_results() {
    let cmd = Command::new("c")
        .arg(Arg::positional("a", 0))
        .arg(Arg::new("o").takes_value().short('o'))
        .arg(Arg::new("f"))
        .arg(Arg::variadic("rest"));
    let t = toks(&["x", "-o", "val", "--f", "y"]);
    let first = cmd.parse(&t).unwrap();
    let second = cmd.parse(&t).unwrap();
    assert_eq!(first.positional(), second.positional());
    assert_eq!(first.variadic(), second.variadic());
    assert_eq!(first.get("o"), second.get("o"));
    assert_eq!(first.get("a"), second.get("a"));
    assert_eq!(first.flag("f"), second.flag("f"));
    assert_eq!(first.get("o").map(|s| s.as_str()), Some("val"));
    assert_eq!(first.variadic().to_vec(), toks(&["y"]));
}

#[test]
fn short_option_takes_next_token() {
    let cmd = Command::new("c").arg(Arg::new("out").takes_value().short('o'));
    let p = cmd.parse(&toks(&["-o", "-weird"])).unwrap();
    assert_eq!(p.get("out").map(|s| s.as_str()), Some("-weird"));
}

#[test]
fn option_value_is_not_a_positional_for_chains() {
    let cmd = Command::new("c")
        .arg(Arg::new("mode").takes_value())
        .arg(Arg::positional("action", 0).when("run", vec![Arg::new("fast")]));
    let p = cmd.parse(&toks(&["--mode", "x", "run", "--fast"])).unwrap();
    assert!(p.flag("fast"));
    assert_eq!(p.get("action").map(|s| s.as_str()), Some("run"));
}

#[test]
fn unknown_long_option() {
    let cmd = Command::new("c");
    match cmd.parse(&toks(&["--nope=1"])) {
        Err(ParseError::UnknownOption(s)) => assert_eq!(s, "--nope"),
        other => panic!("unexpected: {:?}", other),
    }
    match cmd.parse(&toks(&["--nope"])) {
        Err(ParseError::UnknownOption(s)) => assert_eq!(s, "--nope"),
        other => panic!("unexpected: {:?}", other),
    }
}

#[test]
fn unknown_short_option() {
    let cmd = Command::new("c");
    match cmd.parse(&toks(&["-zq"])) {
        Err(ParseError::UnknownOption(s)) => assert_eq!(s, "-z"),
        other => panic!("unexpected: {:?}", other),
    }
}

#[test]
fn lone_dash_is_positional() {
    let cmd = Command::new("c").arg(Arg::positional("input", 0));
    let p = cmd.parse(&toks(&["-"])).unwrap();
    assert_eq!(p.get("input").map(|s| s.as_str()), Some("-"));
}

#[test]
fn missing_option_value() {
    let cmd = Command::new("c").arg(Arg::new("out").takes_value().short('o'));
    match cmd.parse(&toks(&["--out"])) {
        Err(ParseError::MissingOptionValue(s)) => assert_eq!(s, "--out"),
        other => panic!("unexpected: {:?}", other),
    }
    match cmd.parse(&toks(&["-o"])) {
        Err(ParseError::MissingOptionValue(s)) => assert_eq!(s, "-o"),
        other => panic!("unexpected: {:?}", other),
    }
}

#[test]
fn invalid_argument_type() {
    let cmd = Command::new("c").arg(Arg::positional("file", 0).long("file").short('f'));
    match cmd.parse(&toks(&["--file", "x"])) {
        Err(ParseError::InvalidArgumentType(s)) => assert_eq!(s, "--file"),
        other => panic!("unexpected: {:?}", other),
    }
    match cmd.parse(&toks(&["-f"])) {
        Err(ParseError::InvalidArgumentType(s)) => assert_eq!(s, "-f"),
        other => panic!("unexpected: {:?}", other),
    }
    match cmd.parse(&toks(&["--file=x"])) {
        Err(ParseError::InvalidArgumentType(s)) => assert_eq!(s, "--file"),
        other => panic!("unexpected: {:?}", other),
    }
}

#[test]
fn invalid_value_lists_allowed() {
    let cmd = config_command();
    match cmd.parse(&toks(&["list"])) {
        Err(ParseError::InvalidValue { value, name, allowed }) => {
            assert_eq!(value, "list");
            assert_eq!(name, "action");
            assert_eq!(allowed, toks(&["get", "set"]));
        }
        other => panic!("unexpected: {:?}", other),
    }
}

#[test]
fn missing_required_positional() {
    let cmd = Command::new("c").arg(Arg::positional("file", 0));
    match cmd.parse(&toks(&[])) {
        Err(ParseError::MissingRequiredPositional(s)) => assert_eq!(s, "file"),
        other => panic!("unexpected: {:?}", other),
    }
}

#[test]
fn required_positional_takes_default() {
    let cmd = Command::new("c").arg(Arg::positional("file", 0).default_value("a.txt"));
    let p = cmd.parse(&toks(&[])).unwrap();
    assert_eq!(p.positional().to_vec(), toks(&["a.txt"]));
    assert_eq!(p.get("file").map(|s| s.as_str()), Some("a.txt"));
}

#[test]
fn positionals_ordered_by_index() {
    let cmd = Command::new("c")
        .arg(Arg::positional("second", 1))
        .arg(Arg::positional("first", 0));
    let p = cmd.parse(&toks(&["a", "b"])).unwrap();
    assert_eq!(p.positional().to_vec(), toks(&["a", "b"]));
    assert_eq!(p.get("first").map(|s| s.as_str()), Some("a"));
    assert_eq!(p.get("second").map(|s| s.as_str()), Some("b"));
}

#[test]
fn missing_required_argument() {
    let cmd = Command::new("c").arg(Arg::new("token").takes_value().required(true));
    match cmd.parse(&toks(&[])) {
        Err(ParseError::MissingRequiredArgument(s)) => assert_eq!(s, "token"),
        other => panic!("unexpected: {:?}", other),
    }
}

#[test]
fn required_flag_default_sets_flag() {
    let cmd = Command::new("c").arg(Arg::new("color").required(true).default_value("yes"));
    let p = cmd.parse(&toks(&[])).unwrap();
    assert!(p.flag("color"));
}

#[test]
fn builders_set_fields() {
    let a = Arg::new("out")
        .short('o')
        .long("output")
        .help("where")
        .takes_value()
        .required(true)
        .depends_on("x")
        .conflicts_with("y")
        .default_value("d")
        .possible_values(&["d", "e"]);
    assert_eq!(a.name, "out");
    assert_eq!(a.short, Some('o'));
    assert_eq!(a.long.as_deref(), Some("output"));
    assert_eq!(a.help, "where");
    assert_eq!(a.arg_type, ArgType::Option);
    assert!(a.required);
    assert_eq!(a.depends_on, toks(&["x"]));
    assert_eq!(a.conflicts_with, toks(&["y"]));
    assert_eq!(a.default_value.as_deref(), Some("d"));
    assert_eq!(a.possible_values, toks(&["d", "e"]));
    let p = Arg::positional("p", 3);
    assert!(p.required);
    assert_eq!(p.long, None);
    assert_eq!(p.arg_type, ArgType::Positional { index: 3 });
    let v = Arg::variadic("v");
    assert!(!v.required);
    assert_eq!(v.arg_type, ArgType::Variadic);
    let f = Arg::new("f");
    assert_eq!(f.long.as_deref(), Some("f"));
    assert_eq!(f.arg_type, ArgType::Flag);
}

#[test]
fn route_decisions() {
    let app = Command::new("app").subcommand(Command::new("config")).subcommand(Command::new("run"));
    assert_eq!(app.route(&toks(&[])), Route::Help);
    assert_eq!(app.route(&toks(&["--help"])), Route::Help);
    assert_eq!(app.route(&toks(&["config"])), Route::SubcommandHelp(0));
    assert_eq!(app.route(&toks(&["run", "-help"])), Route::SubcommandHelp(1));
    assert_eq!(app.route(&toks(&["run", "x"])), Route::Subcommand(1));
    assert_eq!(app.route(&toks(&["other"])), Route::Root);
    assert_eq!(app.name, "app");
}

#[test]
fn empty_inline_value_on_flag_records_presence() {
    let cmd = Command::new("x").arg(Arg::new("v"));
    let a = cmd.parse(&toks(&["--v"])).unwrap();
    let b = cmd.parse(&toks(&["--v="])).unwrap();
    assert!(a.flag("v"));
    assert!(b.flag("v"));
    assert_eq!(a.get("v"), None);
    assert_eq!(b.get("v"), None);
}

#[test]
fn every_matching_chain_fires_in_order() {
    let cmd = Command::new("c").arg(
        Arg::positional("action", 0)
            .when("get", vec![Arg::new("one")])
            .when("set", vec![Arg::new("skipped")])
            .when("get", vec![Arg::new("two"), Arg::positional("key", 0)]),
    );
    let act = cmd.get_active_args(&toks(&["get"]));
    let names: Vec<&str> = act.iter().map(|a| a.spec.name.as_str()).collect();
    assert_eq!(names, vec!["action", "one", "two", "key"]);
    assert_eq!(act[3].kind, ArgType::Positional { index: 1 });
}

#[test]
fn absent_token_activates_no_chain() {
    let cmd = Command::new("c")
        .arg(Arg::positional("action", 0).required(false).when("", vec![Arg::new("extra")]));
    assert_eq!(cmd.get_active_args(&toks(&[])).len(), 1);
    assert_eq!(cmd.get_active_args(&toks(&[""])).len(), 2);
}

fn chained_option_command() -> Command {
    Command::new("c")
        .arg(Arg::positional("a", 0).when("x", vec![Arg::new("o").takes_value()]))
        .arg(
            Arg::positional("b", 1)
                .required(false)
                .when("v", vec![Arg::positional("c", 0).default_value("d")]),
        )
}

#[test]
fn chain_option_value_does_not_switch_chains() {
    let cmd = chained_option_command();
    let p = cmd.parse(&toks(&["x", "--o", "v"])).unwrap();
    assert_eq!(p.positional().to_vec(), toks(&["x"]));
    assert_eq!(p.get("o").map(|s| s.as_str()), Some("v"));
    assert_eq!(p.get("b"), None);
    assert_eq!(p.get("c"), None);
}

#[test]
fn chain_plain_token_switches_nested_positional() {
    let cmd = chained_option_command();
    let p = cmd.parse(&toks(&["x", "v"])).unwrap();
    assert_eq!(p.positional().to_vec(), toks(&["x", "v", "d"]));
    assert_eq!(p.get("c").map(|s| s.as_str()), Some("d"));
}

#[test]
fn chain_option_before_its_trigger_is_unknown() {
    let cmd = chained_option_command();
    match cmd.parse(&toks(&["--o", "v", "x"])) {
        Err(ParseError::UnknownOption(s)) => assert_eq!(s, "--o"),
        other => panic!("unexpected: {:?}", other),
    }
}

#[test]
fn cloned_arg_keeps_fields_and_chains() {
    let a = Arg::positional("action", 0)
        .help("what to do")
        .possible_values(&["get"])
        .when("get", vec![Arg::positional("key", 0).default_value("k")]);
    let b = a.clone();
    assert_eq!(b.name, "action");
    assert_eq!(b.help, "what to do");
    assert_eq!(b.possible_values, toks(&["get"]));
    assert_eq!(b.children.len(), 1);
    assert_eq!(b.children[0].when_value, "get");
    assert_eq!(b.children[0].args[0].name, "key");
    assert_eq!(b.children[0].args[0].default_value.as_deref(), Some("k"));
    let c = b.children[0].clone();
    assert_eq!(c.args.len(), 1);
    let cmd = Command::new("c").arg(b);
    let p = cmd.parse(&toks(&["get"])).unwrap();
    assert_eq!(p.get("key").map(|s| s.as_str()), Some("k"));
}
