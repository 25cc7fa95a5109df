use vstd::prelude::*;
use crate::text::same_text;

verus! {

/// Every global flag that the command line declares.
#[derive(Clone, Copy, Debug, PartialEq, Eq, Structural)]
pub enum FlagName {
    Version,
    AllowRead,
    AllowWrite,
    AllowNet,
    AllowEnv,
    AllowRun,
    AllowHighPrecision,
    AllowAll,
    NoPrompt,
    LogDebug,
    Reload,
    V8Options,
    V8Flags,
    Types,
    Prefetch,
}

/// The long spelling of each flag.
pub open spec fn long_spelling(f: FlagName) -> Seq<char> {
    match f {
        FlagName::Version => "--version"@,
        FlagName::AllowRead => "--allow-read"@,
        FlagName::AllowWrite => "--allow-write"@,
        FlagName::AllowNet => "--allow-net"@,
        FlagName::AllowEnv => "--allow-env"@,
        FlagName::AllowRun => "--allow-run"@,
        FlagName::AllowHighPrecision => "--allow-high-precision"@,
        FlagName::AllowAll => "--allow-all"@,
        FlagName::NoPrompt => "--no-prompt"@,
        FlagName::LogDebug => "--log-debug"@,
        FlagName::Reload => "--reload"@,
        FlagName::V8Options => "--v8-options"@,
        FlagName::V8Flags => "--v8-flags"@,
        FlagName::Types => "--types"@,
        FlagName::Prefetch => "--prefetch"@,
    }
}

/// The flag whose long spelling is `t`, if any.
pub open spec fn long_flag(t: Seq<char>) -> Option<FlagName> {
    if t == "--version"@ {
        Some(FlagName::Version)
    } else if t == "--allow-read"@ {
        Some(FlagName::AllowRead)
    } else if t == "--allow-write"@ {
        Some(FlagName::AllowWrite)
    } else if t == "--allow-net"@ {
        Some(FlagName::AllowNet)
    } else if t == "--allow-env"@ {
        Some(FlagName::AllowEnv)
    } else if t == "--allow-run"@ {
        Some(FlagName::AllowRun)
    } else if t == "--allow-high-precision"@ {
        Some(FlagName::AllowHighPrecision)
    } else if t == "--allow-all"@ {
        Some(FlagName::AllowAll)
    } else if t == "--no-prompt"@ {
        Some(FlagName::NoPrompt)
    } else if t == "--log-debug"@ {
        Some(FlagName::LogDebug)
    } else if t == "--reload"@ {
        Some(FlagName::Reload)
    } else if t == "--v8-options"@ {
        Some(FlagName::V8Options)
    } else if t == "--v8-flags"@ {
        Some(FlagName::V8Flags)
    } else if t == "--types"@ {
        Some(FlagName::Types)
    } else if t == "--prefetch"@ {
        Some(FlagName::Prefetch)
    } else {
        None
    }
}

/// The flag whose one-letter spelling is `c`, if any.
pub open spec fn short_flag(c: char) -> Option<FlagName> {
    if c == 'v' {
        Some(FlagName::Version)
    } else if c == 'A' {
        Some(FlagName::AllowAll)
    } else if c == 'D' {
        Some(FlagName::LogDebug)
    } else if c == 'r' {
        Some(FlagName::Reload)
    } else {
        None
    }
}

/// The one flag that carries a value.
pub open spec fn takes_value(f: FlagName) -> bool {
    f == FlagName::V8Flags
}

/// The built-in subcommands.
#[derive(Clone, Copy, Debug, PartialEq, Eq, Structural)]
pub enum Subcommand {
    Info,
    Eval,
    Fmt,
}

/// The name of each subcommand.
pub open spec fn subcommand_spelling(s: Subcommand) -> Seq<char> {
    match s {
        Subcommand::Info => "info"@,
        Subcommand::Eval => "eval"@,
        Subcommand::Fmt => "fmt"@,
    }
}

/// Each subcommand's name names it, and does not begin with a dash.
pub proof fn lemma_subcommand_spelling(s: Subcommand)
    ensures
        subcommand_of(subcommand_spelling(s)) == Some(s),
        subcommand_spelling(s).len() >= 3,
        subcommand_spelling(s)[0] != '-',
{
    reveal_strlit("info");
    reveal_strlit("eval");
    reveal_strlit("fmt");
    assert("info"@.len() == 4 && "eval"@.len() == 4 && "fmt"@.len() == 3);
    assert("info"@[0] == 'i' && "eval"@[0] == 'e' && "fmt"@[0] == 'f');
}

/// The subcommand named by `t`, if any.
pub open spec fn subcommand_of(t: Seq<char>) -> Option<Subcommand> {
    if t == "info"@ {
        Some(Subcommand::Info)
    } else if t == "eval"@ {
        Some(Subcommand::Eval)
    } else if t == "fmt"@ {
        Some(Subcommand::Fmt)
    } else {
        None
    }
}

/// No two flags share a long spelling, and each begins with two dashes.
pub proof fn lemma_long_spelling_names_flag(f: FlagName)
    ensures
        long_flag(long_spelling(f)) == Some(f),
        long_spelling(f).len() >= 2,
        long_spelling(f)[0] == '-',
        long_spelling(f)[1] == '-',
{
    reveal_strlit("--version");
    reveal_strlit("--allow-read");
    reveal_strlit("--allow-write");
    reveal_strlit("--allow-net");
    reveal_strlit("--allow-env");
    reveal_strlit("--allow-run");
    reveal_strlit("--allow-high-precision");
    reveal_strlit("--allow-all");
    reveal_strlit("--no-prompt");
    reveal_strlit("--log-debug");
    reveal_strlit("--reload");
    reveal_strlit("--v8-options");
    reveal_strlit("--v8-flags");
    reveal_strlit("--types");
    reveal_strlit("--prefetch");
    assert("--version"@.len() == 9);
    assert("--allow-read"@.len() == 12);
    assert("--allow-write"@.len() == 13);
    assert("--allow-net"@.len() == 11);
    assert("--allow-env"@.len() == 11);
    assert("--allow-run"@.len() == 11);
    assert("--allow-high-precision"@.len() == 22);
    assert("--allow-all"@.len() == 11);
    assert("--no-prompt"@.len() == 11);
    assert("--log-debug"@.len() == 11);
    assert("--reload"@.len() == 8);
    assert("--v8-options"@.len() == 12);
    assert("--v8-flags"@.len() == 10);
    assert("--types"@.len() == 7);
    assert("--prefetch"@.len() == 10);
    assert("--allow-read"@[2] == 'a' && "--v8-options"@[2] == 'v');
    assert("--v8-flags"@[2] == 'v' && "--prefetch"@[2] == 'p');
    assert("--allow-net"@[2] == 'a' && "--allow-net"@[8] == 'n');
    assert("--allow-env"@[2] == 'a' && "--allow-env"@[8] == 'e');
    assert("--allow-run"@[2] == 'a' && "--allow-run"@[8] == 'r');
    assert("--allow-all"@[2] == 'a' && "--allow-all"@[8] == 'a');
    assert("--no-prompt"@[2] == 'n' && "--log-debug"@[2] == 'l');
}

/// The flag spelled out in full by `t`.
pub fn lookup_long(t: &str) -> (r: Option<FlagName>)
    ensures
        r == long_flag(t@),
{
    if same_text(t, "--version") {
        Some(FlagName::Version)
    } else if same_text(t, "--allow-read") {
        Some(FlagName::AllowRead)
    } else if same_text(t, "--allow-write") {
        Some(FlagName::AllowWrite)
    } else if same_text(t, "--allow-net") {
        Some(FlagName::AllowNet)
    } else if same_text(t, "--allow-env") {
        Some(FlagName::AllowEnv)
    } else if same_text(t, "--allow-run") {
        Some(FlagName::AllowRun)
    } else if same_text(t, "--allow-high-precision") {
        Some(FlagName::AllowHighPrecision)
    } else if same_text(t, "--allow-all") {
        Some(FlagName::AllowAll)
    } else if same_text(t, "--no-prompt") {
        Some(FlagName::NoPrompt)
    } else if same_text(t, "--log-debug") {
        Some(FlagName::LogDebug)
    } else if same_text(t, "--reload") {
        Some(FlagName::Reload)
    } else if same_text(t, "--v8-options") {
        Some(FlagName::V8Options)
    } else if same_text(t, "--v8-flags") {
        Some(FlagName::V8Flags)
    } else if same_text(t, "--types") {
        Some(FlagName::Types)
    } else if same_text(t, "--prefetch") {
        Some(FlagName::Prefetch)
    } else {
        None
    }
}

/// The flag spelled by the single letter `c`.
pub fn lookup_short(c: char) -> (r: Option<FlagName>)
    ensures
        r == short_flag(c),
{
    if c == 'v' {
        Some(FlagName::Version)
    } else if c == 'A' {
        Some(FlagName::AllowAll)
    } else if c == 'D' {
        Some(FlagName::LogDebug)
    } else if c == 'r' {
        Some(FlagName::Reload)
    } else {
        None
    }
}

/// The subcommand named by `t`.
pub fn lookup_subcommand(t: &str) -> (r: Option<Subcommand>)
    ensures
        r == subcommand_of(t@),
{
    if same_text(t, "info") {
        Some(Subcommand::Info)
    } else if same_text(t, "eval") {
        Some(Subcommand::Eval)
    } else if same_text(t, "fmt") {
        Some(Subcommand::Fmt)
    } else {
        None
    }
}

} // verus!
