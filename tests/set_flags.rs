use deno_flags::catalog::FlagName;
use deno_flags::engine::{engine_requests, split_at_commas};
use deno_flags::parser::{parse_args, ArgError, Selection};
use deno_flags::{set_flags, DenoFlags};

fn svec(items: &[&str]) -> Vec<String> {
    items.iter().map(|s| s.to_string()).collect()
}

#[test]
fn test_set_flags_1() {
    let (flags, rest) = set_flags(svec(&["deno", "--version"])).unwrap();
    assert_eq!(rest, svec(&["deno"]));
    assert_eq!(
        flags,
        DenoFlags {
            version: true,
            ..DenoFlags::default()
        }
    );
}

#[test]
fn test_set_flags_2() {
    let (flags, rest) = set_flags(svec(&["deno", "-r", "-D", "script.ts"])).unwrap();
    assert_eq!(rest, svec(&["deno", "script.ts"]));
    assert_eq!(
        flags,
        DenoFlags {
            log_debug: true,
            reload: true,
            ..DenoFlags::default()
        }
    );
}

#[test]
fn test_set_flags_3() {
    let (flags, rest) = set_flags(svec(&["deno", "-r", "--allow-write", "script.ts"])).unwrap();
    assert_eq!(rest, svec(&["deno", "script.ts"]));
    assert_eq!(
        flags,
        DenoFlags {
            reload: true,
            allow_write: true,
            ..DenoFlags::default()
        }
    );
}

#[test]
fn test_set_flags_4() {
    let (flags, rest) = set_flags(svec(&["deno", "-Dr", "--allow-write", "script.ts"])).unwrap();
    assert_eq!(rest, svec(&["deno", "script.ts"]));
    assert_eq!(
        flags,
        DenoFlags {
            log_debug: true,
            reload: true,
            allow_write: true,
            ..DenoFlags::default()
        }
    );
}

#[test]
fn test_set_flags_5() {
    let (flags, rest) = set_flags(svec(&["deno", "--types"])).unwrap();
    assert_eq!(rest, svec(&["deno"]));
    assert_eq!(
        flags,
        DenoFlags {
            types: true,
            ..DenoFlags::default()
        }
    )
}

#[test]
fn test_set_flags_6() {
    let (flags, rest) =
        set_flags(svec(&["deno", "--allow-net", "gist.ts", "--title", "X"])).unwrap();
    assert_eq!(rest, svec(&["deno", "gist.ts", "--title", "X"]));
    assert_eq!(
        flags,
        DenoFlags {
            allow_net: true,
            ..DenoFlags::default()
        }
    )
}

#[test]
fn test_set_flags_7() {
    let (flags, rest) = set_flags(svec(&["deno", "--allow-all", "gist.ts"])).unwrap();
    assert_eq!(rest, svec(&["deno", "gist.ts"]));
    assert_eq!(
        flags,
        DenoFlags {
            allow_net: true,
            allow_env: true,
            allow_run: true,
            allow_read: true,
            allow_write: true,
            allow_high_precision: true,
            ..DenoFlags::default()
        }
    )
}

#[test]
fn test_set_flags_8() {
    let (flags, rest) = set_flags(svec(&["deno", "--allow-read", "gist.ts"])).unwrap();
    assert_eq!(rest, svec(&["deno", "gist.ts"]));
    assert_eq!(
        flags,
        DenoFlags {
            allow_read: true,
            ..DenoFlags::default()
        }
    )
}

#[test]
fn test_set_flags_9() {
    let (flags, rest) =
        set_flags(svec(&["deno", "--allow-high-precision", "script.ts"])).unwrap();
    assert_eq!(rest, svec(&["deno", "script.ts"]));
    assert_eq!(
        flags,
        DenoFlags {
            allow_high_precision: true,
            ..DenoFlags::default()
        }
    )
}

#[test]
fn each_long_flag_alone_sets_only_its_switch() {
    let cases: Vec<(&str, DenoFlags)> = vec![
        ("--version", DenoFlags { version: true, ..DenoFlags::default() }),
        ("--allow-read", DenoFlags { allow_read: true, ..DenoFlags::default() }),
        ("--allow-write", DenoFlags { allow_write: true, ..DenoFlags::default() }),
        ("--allow-net", DenoFlags { allow_net: true, ..DenoFlags::default() }),
        ("--allow-env", DenoFlags { allow_env: true, ..DenoFlags::default() }),
        ("--allow-run", DenoFlags { allow_run: true, ..DenoFlags::default() }),
        (
            "--allow-high-precision",
            DenoFlags { allow_high_precision: true, ..DenoFlags::default() },
        ),
        ("--no-prompt", DenoFlags { no_prompts: true, ..DenoFlags::default() }),
        ("--log-debug", DenoFlags { log_debug: true, ..DenoFlags::default() }),
        ("--reload", DenoFlags { reload: true, ..DenoFlags::default() }),
        ("--types", DenoFlags { types: true, ..DenoFlags::default() }),
        ("--prefetch", DenoFlags { prefetch: true, ..DenoFlags::default() }),
    ];
    for (token, expected) in cases {
        let (flags, rest) = set_flags(svec(&["deno", token])).unwrap();
        assert_eq!(flags, expected, "{}", token);
        assert_eq!(rest, svec(&["deno"]));
    }
}

#[test]
fn allow_all_equals_the_six_permissions_in_any_order() {
    let (all, _) = set_flags(svec(&["deno", "-A", "x.ts"])).unwrap();
    let (six, _) = set_flags(svec(&[
        "deno",
        "--allow-run",
        "--allow-env",
        "--allow-high-precision",
        "--allow-net",
        "--allow-write",
        "--allow-read",
        "x.ts",
    ]))
    .unwrap();
    assert_eq!(all, six);
    let (both, _) = set_flags(svec(&["deno", "--allow-read", "--allow-all", "x.ts"])).unwrap();
    assert_eq!(both, all);
}

#[test]
fn combined_short_flags_match_long_flags() {
    let (short, short_rest) = set_flags(svec(&["deno", "-Dr", "a.ts", "b"])).unwrap();
    let (long, long_rest) =
        set_flags(svec(&["deno", "--reload", "--log-debug", "a.ts", "b"])).unwrap();
    assert_eq!(short, long);
    assert_eq!(short_rest, long_rest);
    let (many, _) = set_flags(svec(&["deno", "-vADr"])).unwrap();
    assert_eq!(
        many,
        DenoFlags {
            version: true,
            log_debug: true,
            reload: true,
            allow_read: true,
            allow_write: true,
            allow_net: true,
            allow_env: true,
            allow_run: true,
            allow_high_precision: true,
            ..DenoFlags::default()
        }
    );
}

#[test]
fn script_arguments_pass_through_unread() {
    let (flags, rest) =
        set_flags(svec(&["deno", "s.ts", "--allow-all", "-A", "info", "--v8-flags"])).unwrap();
    assert_eq!(flags, DenoFlags::default());
    assert_eq!(rest, svec(&["deno", "s.ts", "--allow-all", "-A", "info", "--v8-flags"]));
}

#[test]
fn reparsing_the_residual_is_not_a_fixed_point() {
    let (flags, rest) = set_flags(svec(&["deno", "--allow-net", "gist.ts", "--title", "X"])).unwrap();
    assert_eq!(rest, svec(&["deno", "gist.ts", "--title", "X"]));
    let (again, again_rest) = set_flags(rest.clone()).unwrap();
    assert_eq!(again_rest, rest);
    assert_ne!(again, flags);
    assert_eq!(again, DenoFlags::default());
}

#[test]
fn subcommands_take_their_positionals() {
    let (flags, rest) = set_flags(svec(&["deno", "info", "a.ts"])).unwrap();
    assert_eq!(flags, DenoFlags { info: true, ..DenoFlags::default() });
    assert_eq!(rest, svec(&["deno", "a.ts"]));
    let (flags, rest) = set_flags(svec(&["deno", "-r", "eval", "1+1"])).unwrap();
    assert_eq!(flags, DenoFlags { eval: true, reload: true, ..DenoFlags::default() });
    assert_eq!(rest, svec(&["deno", "1+1"]));
    let (flags, rest) = set_flags(svec(&["deno", "fmt", "a.ts", "--b", "c.ts"])).unwrap();
    assert_eq!(flags, DenoFlags { fmt: true, ..DenoFlags::default() });
    assert_eq!(rest, svec(&["deno", "a.ts", "--b", "c.ts"]));
}

#[test]
fn subcommand_arity_is_enforced() {
    assert!(set_flags(svec(&["deno", "fmt"])).is_err());
    assert!(set_flags(svec(&["deno", "info"])).is_err());
    assert!(set_flags(svec(&["deno", "eval"])).is_err());
    assert!(set_flags(svec(&["deno", "info", "a", "b"])).is_err());
    assert!(set_flags(svec(&["deno", "eval", "a", "b"])).is_err());
    match parse_args(&svec(&["fmt"])) {
        Err(ArgError::MalformedArguments { token }) => assert_eq!(token, "fmt"),
        _ => panic!("expected a malformed-arguments error"),
    }
}

#[test]
fn no_arguments_select_nothing() {
    let (flags, rest) = set_flags(svec(&["deno"])).unwrap();
    assert_eq!(flags, DenoFlags::default());
    assert_eq!(rest, svec(&["deno"]));
    let (flags, rest) = set_flags(Vec::new()).unwrap();
    assert_eq!(flags, DenoFlags::default());
    assert_eq!(rest, svec(&["deno"]));
}

#[test]
fn unknown_flags_are_refused() {
    let err = set_flags(svec(&["deno", "--bogus", "a.ts"])).unwrap_err();
    assert_eq!(
        err,
        "error: found argument '--bogus' which wasn't expected\n\nUSAGE:\n    deno [OPTIONS] [SUBCOMMAND]"
    );
    match parse_args(&svec(&["-rx"])) {
        Err(ArgError::UnrecognizedLeadingToken { token }) => assert_eq!(token, "-rx"),
        _ => panic!("expected an unrecognized-token error"),
    }
    assert!(set_flags(svec(&["deno", "--"])).is_err());
}

#[test]
fn v8_flags_need_a_value() {
    let err = set_flags(svec(&["deno", "--v8-flags"])).unwrap_err();
    assert_eq!(
        err,
        "error: missing or unexpected value for '--v8-flags'\n\nUSAGE:\n    deno [OPTIONS] [SUBCOMMAND]"
    );
    match parse_args(&svec(&["--v8-flags="])) {
        Err(ArgError::MalformedArguments { token }) => assert_eq!(token, "--v8-flags="),
        _ => panic!("expected a malformed-arguments error"),
    }
}

#[test]
fn engine_options_are_forwarded() {
    let p = parse_args(&svec(&["--v8-flags=--expose-gc,--trace", "--v8-options", "x.ts"])).unwrap();
    assert_eq!(p.present, vec![FlagName::V8Flags, FlagName::V8Options]);
    assert_eq!(
        engine_requests(&p),
        vec![
            svec(&["deno", "--v8-options"]),
            svec(&["deno", "--expose-gc", "--trace"]),
        ]
    );
    let p = parse_args(&svec(&["--v8-flags", "--a", "y.ts"])).unwrap();
    assert_eq!(p.v8_flags, Some("--a".to_string()));
    assert_eq!(engine_requests(&p), vec![svec(&["deno", "--a"])]);
    match p.selection {
        Selection::RunScript { path, args } => {
            assert_eq!(path, "y.ts");
            assert!(args.is_empty());
        }
        _ => panic!("expected a script selection"),
    }
    let p = parse_args(&svec(&["x.ts"])).unwrap();
    assert!(engine_requests(&p).is_empty());
}

#[test]
fn commas_split_values() {
    assert_eq!(split_at_commas("a,,b"), svec(&["a", "", "b"]));
    assert_eq!(split_at_commas(""), svec(&[""]));
    assert_eq!(split_at_commas("abc,"), svec(&["abc", ""]));
}
