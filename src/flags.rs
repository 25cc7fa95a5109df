use vstd::prelude::*;
use crate::catalog::FlagName;
use crate::parser::{
    parse_args, parse_tokens, tail_of, ArgError, ArgErrorModel, ParseResult, Selection,
    SelectionModel,
};

verus! {

/// The runtime permission and behaviour switches of one invocation.
#[derive(Clone, Copy, Debug, PartialEq, Eq, Structural)]
pub struct DenoFlags {
    pub log_debug: bool,
    pub version: bool,
    pub reload: bool,
    pub allow_read: bool,
    pub allow_write: bool,
    pub allow_net: bool,
    pub allow_env: bool,
    pub allow_run: bool,
    pub allow_high_precision: bool,
    pub no_prompts: bool,
    pub types: bool,
    pub prefetch: bool,
    pub info: bool,
    pub fmt: bool,
    pub eval: bool,
}

/// Every switch off.
pub open spec fn no_flags() -> DenoFlags {
    DenoFlags {
        log_debug: false,
        version: false,
        reload: false,
        allow_read: false,
        allow_write: false,
        allow_net: false,
        allow_env: false,
        allow_run: false,
        allow_high_precision: false,
        no_prompts: false,
        types: false,
        prefetch: false,
        info: false,
        fmt: false,
        eval: false,
    }
}

impl Default for DenoFlags {
    fn default() -> (r: DenoFlags)
        ensures
            r == no_flags(),
    {
        DenoFlags {
            log_debug: false,
            version: false,
            reload: false,
            allow_read: false,
            allow_write: false,
            allow_net: false,
            allow_env: false,
            allow_run: false,
            allow_high_precision: false,
            no_prompts: false,
            types: false,
            prefetch: false,
            info: false,
            fmt: false,
            eval: false,
        }
    }
}

/// A permission switch is on when its own flag or `--allow-all` was given.
pub open spec fn permitted(present: Seq<FlagName>, f: FlagName) -> bool {
    present.contains(f) || present.contains(FlagName::AllowAll)
}

/// The switches that the flags met and the selection turn on.
#[verifier::opaque]
pub open spec fn flags_model(present: Seq<FlagName>, sel: SelectionModel) -> DenoFlags {
    DenoFlags {
        log_debug: present.contains(FlagName::LogDebug),
        version: present.contains(FlagName::Version),
        reload: present.contains(FlagName::Reload),
        allow_read: permitted(present, FlagName::AllowRead),
        allow_write: permitted(present, FlagName::AllowWrite),
        allow_net: permitted(present, FlagName::AllowNet),
        allow_env: permitted(present, FlagName::AllowEnv),
        allow_run: permitted(present, FlagName::AllowRun),
        allow_high_precision: permitted(present, FlagName::AllowHighPrecision),
        no_prompts: present.contains(FlagName::NoPrompt),
        types: present.contains(FlagName::Types),
        prefetch: present.contains(FlagName::Prefetch),
        info: sel is Info,
        fmt: sel is Fmt,
        eval: sel is Eval,
    }
}

pub proof fn lemma_contains_push(s: Seq<FlagName>, x: FlagName, y: FlagName)
    ensures
        s.push(x).contains(y) == (s.contains(y) || x == y),
{
    if s.contains(y) {
        let j = choose|j: int| 0 <= j < s.len() && s[j] == y;
        assert(s.push(x)[j] == y);
    }
    if x == y {
        assert(s.push(x)[s.len() as int] == y);
    }
    if s.push(x).contains(y) {
        let j = choose|j: int| 0 <= j < s.push(x).len() && s.push(x)[j] == y;
        if j < s.len() {
            assert(s[j] == y);
        }
    }
}

/// The switches after one more flag.
pub open spec fn apply_flag(d: DenoFlags, f: FlagName) -> DenoFlags {
    match f {
        FlagName::LogDebug => DenoFlags { log_debug: true, ..d },
        FlagName::Version => DenoFlags { version: true, ..d },
        FlagName::Reload => DenoFlags { reload: true, ..d },
        FlagName::AllowRead => DenoFlags { allow_read: true, ..d },
        FlagName::AllowWrite => DenoFlags { allow_write: true, ..d },
        FlagName::AllowNet => DenoFlags { allow_net: true, ..d },
        FlagName::AllowEnv => DenoFlags { allow_env: true, ..d },
        FlagName::AllowRun => DenoFlags { allow_run: true, ..d },
        FlagName::AllowHighPrecision => DenoFlags { allow_high_precision: true, ..d },
        FlagName::AllowAll => DenoFlags {
            allow_read: true,
            allow_write: true,
            allow_net: true,
            allow_env: true,
            allow_run: true,
            allow_high_precision: true,
            ..d
        },
        FlagName::NoPrompt => DenoFlags { no_prompts: true, ..d },
        FlagName::Types => DenoFlags { types: true, ..d },
        FlagName::Prefetch => DenoFlags { prefetch: true, ..d },
        FlagName::V8Options => d,
        FlagName::V8Flags => d,
    }
}

#[verifier::rlimit(50)]
pub proof fn lemma_flags_model_push(s: Seq<FlagName>, x: FlagName, sel: SelectionModel)
    ensures
        flags_model(s.push(x), sel) == apply_flag(flags_model(s, sel), x),
{
    reveal(flags_model);
    lemma_contains_push(s, x, FlagName::LogDebug);
    lemma_contains_push(s, x, FlagName::Version);
    lemma_contains_push(s, x, FlagName::Reload);
    lemma_contains_push(s, x, FlagName::AllowRead);
    lemma_contains_push(s, x, FlagName::AllowWrite);
    lemma_contains_push(s, x, FlagName::AllowNet);
    lemma_contains_push(s, x, FlagName::AllowEnv);
    lemma_contains_push(s, x, FlagName::AllowRun);
    lemma_contains_push(s, x, FlagName::AllowHighPrecision);
    lemma_contains_push(s, x, FlagName::AllowAll);
    lemma_contains_push(s, x, FlagName::NoPrompt);
    lemma_contains_push(s, x, FlagName::Types);
    lemma_contains_push(s, x, FlagName::Prefetch);
}

/// Turns on the switches of one flag.
pub fn with_flag(d: DenoFlags, f: FlagName) -> (r: DenoFlags)
    ensures
        r == apply_flag(d, f),
{
    match f {
        FlagName::LogDebug => DenoFlags { log_debug: true, ..d },
        FlagName::Version => DenoFlags { version: true, ..d },
        FlagName::Reload => DenoFlags { reload: true, ..d },
        FlagName::AllowRead => DenoFlags { allow_read: true, ..d },
        FlagName::AllowWrite => DenoFlags { allow_write: true, ..d },
        FlagName::AllowNet => DenoFlags { allow_net: true, ..d },
        FlagName::AllowEnv => DenoFlags { allow_env: true, ..d },
        FlagName::AllowRun => DenoFlags { allow_run: true, ..d },
        FlagName::AllowHighPrecision => DenoFlags { allow_high_precision: true, ..d },
        FlagName::AllowAll => DenoFlags {
            allow_read: true,
            allow_write: true,
            allow_net: true,
            allow_env: true,
            allow_run: true,
            allow_high_precision: true,
            ..d
        },
        FlagName::NoPrompt => DenoFlags { no_prompts: true, ..d },
        FlagName::Types => DenoFlags { types: true, ..d },
        FlagName::Prefetch => DenoFlags { prefetch: true, ..d },
        FlagName::V8Options => d,
        FlagName::V8Flags => d,
    }
}

/// Sets the switches of the flags met and of the selected mode; `--allow-all`
/// turns on each of the six permissions.
pub fn build_flags(present: &Vec<FlagName>, sel: &Selection) -> (r: DenoFlags)
    ensures
        r == flags_model(present@, sel@),
{
    let mut flags = DenoFlags::default();
    match sel {
        Selection::Info { .. } => flags.info = true,
        Selection::Eval { .. } => flags.eval = true,
        Selection::Fmt { .. } => flags.fmt = true,
        _ => {},
    }
    let mut i: usize = 0;
    assert(present@.take(0) =~= Seq::<FlagName>::empty());
    proof {
        reveal(flags_model);
    }
    while i < present.len()
        invariant
            i <= present.len(),
            flags == flags_model(present@.take(i as int), sel@),
        decreases present.len() - i,
    {
        let f = present[i];
        proof {
            assert(present@.take(i + 1) =~= present@.take(i as int).push(f));
            lemma_flags_model_push(present@.take(i as int), f, sel@);
        }
        flags = with_flag(flags, f);
        i = i + 1;
    }
    assert(present@.take(present@.len() as int) =~= present@);
    flags
}

/// The program name that heads every argument list handed on.
pub open spec fn program_name() -> Seq<char> {
    "deno"@
}

/// The argument list handed on to the script engine.
pub open spec fn residual_model(sel: SelectionModel) -> Seq<Seq<char>> {
    seq![program_name()] + match sel {
        SelectionModel::NoSelection => Seq::empty(),
        SelectionModel::Info(file) => seq![file],
        SelectionModel::Eval(code) => seq![code],
        SelectionModel::Fmt(files) => files,
        SelectionModel::RunScript(path, args) => seq![path] + args,
    }
}

/// Appends copies of `items` to `out`, in order.
pub fn extend_with(out: &mut Vec<String>, items: &Vec<String>)
    ensures
        final(out).deep_view() == old(out).deep_view() + items.deep_view(),
{
    let mut k: usize = 0;
    while k < items.len()
        invariant
            k <= items.len(),
            out.deep_view() =~= old(out).deep_view() + items.deep_view().take(k as int),
        decreases items.len() - k,
    {
        let s = items[k].clone();
        assert(s@ == items.deep_view()[k as int]);
        let ghost before = out.deep_view();
        out.push(s);
        assert(out.deep_view() =~= before.push(s@));
        assert(items.deep_view().take(k + 1) =~= items.deep_view().take(k as int).push(s@));
        k = k + 1;
    }
    assert(items.deep_view().take(items.len() as int) =~= items.deep_view());
}

/// Rebuilds the argument list for the script engine: the program name, then
/// the subcommand's values, or the script path and every argument after it.
pub fn residual_argv(sel: &Selection) -> (r: Vec<String>)
    ensures
        r.deep_view() == residual_model(sel@),
{
    let mut out: Vec<String> = Vec::new();
    out.push("deno".to_owned());
    assert(out.deep_view() =~= seq![program_name()]);
    match sel {
        Selection::NoSelection => {},
        Selection::Info { file } => {
            out.push(file.clone());
        },
        Selection::Eval { code } => {
            out.push(code.clone());
        },
        Selection::Fmt { files } => {
            extend_with(&mut out, files);
        },
        Selection::RunScript { path, args } => {
            out.push(path.clone());
            extend_with(&mut out, args);
        },
    }
    assert(out.deep_view() =~= residual_model(sel@));
    out
}

pub open spec fn usage_text() -> Seq<char> {
    "\n\nUSAGE:\n    deno [OPTIONS] [SUBCOMMAND]"@
}

/// The message that reports an argument error.
pub open spec fn error_message(e: ArgErrorModel) -> Seq<char> {
    match e {
        ArgErrorModel::Malformed(t) => "error: missing or unexpected value for '"@ + t + "'"@
            + usage_text(),
        ArgErrorModel::Unrecognized(t) => "error: found argument '"@ + t + "' which wasn't expected"@
            + usage_text(),
    }
}

impl ArgError {
    /// A human-readable description of the error, with a usage line.
    pub fn message(&self) -> (r: String)
        ensures
            r@ == error_message(self@),
    {
        let mut m: String;
        match self {
            ArgError::MalformedArguments { token } => {
                m = String::from_str("error: missing or unexpected value for '");
                m.append(token.as_str());
                m.append("'");
            },
            ArgError::UnrecognizedLeadingToken { token } => {
                m = String::from_str("error: found argument '");
                m.append(token.as_str());
                m.append("' which wasn't expected");
            },
        }
        m.append("\n\nUSAGE:\n    deno [OPTIONS] [SUBCOMMAND]");
        m
    }
}

/// The arguments after the program name.
pub open spec fn invocation_tokens(args: Seq<Seq<char>>) -> Seq<Seq<char>> {
    if args.len() == 0 {
        args
    } else {
        args.drop_first()
    }
}

/// The arguments after the program name.
pub fn tokens_after_program(args: &Vec<String>) -> (r: Vec<String>)
    ensures
        r.deep_view() == invocation_tokens(args.deep_view()),
{
    if args.len() == 0 {
        let r: Vec<String> = Vec::new();
        assert(r.deep_view() =~= invocation_tokens(args.deep_view()));
        r
    } else {
        let r = tail_of(args, 1);
        assert(r.deep_view() =~= invocation_tokens(args.deep_view()));
        r
    }
}

/// Parses a full argument vector, program name first, into the runtime flags
/// and the argument list to hand on to the script engine; an error comes back
/// as its usage message.
pub fn set_flags(args: Vec<String>) -> (r: Result<(DenoFlags, Vec<String>), String>)
    ensures
        match parse_tokens(invocation_tokens(args.deep_view())) {
            Ok(p) => r matches Ok((f, rest)) && f == flags_model(p.present, p.selection)
                && rest.deep_view() == residual_model(p.selection),
            Err(e) => r matches Err(m) && m@ == error_message(e),
        },
{
    let toks = tokens_after_program(&args);
    match parse_args(&toks) {
        Ok(p) => {
            let flags = build_flags(&p.present, &p.selection);
            let rest = residual_argv(&p.selection);
            Ok((flags, rest))
        },
        Err(e) => Err(e.message()),
    }
}

} // verus!
