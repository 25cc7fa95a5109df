use vstd::prelude::*;
use crate::catalog::{
    lemma_long_spelling_names_flag, lemma_subcommand_spelling, long_flag, long_spelling,
    subcommand_of, subcommand_spelling, takes_value, FlagName, Subcommand,
};
use crate::flags::{
    apply_flag, flags_model, lemma_flags_model_push, no_flags, program_name, residual_model,
    DenoFlags,
};
use crate::parser::{
    is_long_form, is_option_like, is_v8_assignment, parse_tokens, scan, select, short_cluster,
    v8_assigned_value, ArgErrorModel, ParsedModel, SelectionModel,
};

verus! {

/// Classification that reaches the end of `lead` with nothing selected,
/// followed by a script token, selects that script with the tokens after it.
proof fn lemma_scan_then_script(
    lead: Seq<Seq<char>>,
    script: Seq<char>,
    post: Seq<Seq<char>>,
    i: int,
    present: Seq<FlagName>,
    v8: Option<Seq<char>>,
)
    requires
        0 <= i <= lead.len(),
        scan(lead, i, present, v8) is Ok,
        scan(lead, i, present, v8)->Ok_0.selection is NoSelection,
        !is_option_like(script),
        subcommand_of(script) is None,
    ensures
        ({
            let p = scan(lead, i, present, v8)->Ok_0;
            scan(lead + seq![script] + post, i, present, v8) == Ok::<ParsedModel, ArgErrorModel>(
                ParsedModel {
                    present: p.present,
                    v8_flags: p.v8_flags,
                    selection: SelectionModel::RunScript(script, post),
                },
            )
        }),
    decreases lead.len() - i,
{
    let toks = lead + seq![script] + post;
    if i == lead.len() {
        assert(toks[i] == script);
        assert(toks.subrange(i + 1, toks.len() as int) =~= post);
        assert(select(toks, i) == Ok::<SelectionModel, ArgErrorModel>(
            SelectionModel::RunScript(script, post),
        ));
    } else {
        let t = lead[i];
        assert(toks[i] == t);
        if is_long_form(t) {
            match long_flag(t) {
                Some(f) => {
                    if takes_value(f) {
                        assert(toks[i + 1] == lead[i + 1]);
                        lemma_scan_then_script(lead, script, post, i + 2, present.push(f), Some(lead[i + 1]));
                    } else {
                        lemma_scan_then_script(lead, script, post, i + 1, present.push(f), v8);
                    }
                },
                None => {
                    if is_v8_assignment(t) {
                        lemma_scan_then_script(
                            lead,
                            script,
                            post,
                            i + 1,
                            present.push(FlagName::V8Flags),
                            Some(v8_assigned_value(t)),
                        );
                    }
                },
            }
        } else if is_option_like(t) {
            match short_cluster(t.drop_first()) {
                Some(fs) => lemma_scan_then_script(lead, script, post, i + 1, present + fs, v8),
                None => {},
            }
        } else {
            assert(select(lead, i) is Err || select(lead, i)->Ok_0 !is NoSelection);
        }
    }
}

/// Once a script path is reached, every later token is handed on to the
/// script as it stands, in order, and none is read as a flag: the flags and
/// the `--v8-flags` value are those of the tokens before the script.
pub proof fn lemma_script_arguments_pass_through(
    lead: Seq<Seq<char>>,
    script: Seq<char>,
    post: Seq<Seq<char>>,
)
    requires
        parse_tokens(lead) is Ok,
        parse_tokens(lead)->Ok_0.selection is NoSelection,
        !is_option_like(script),
        subcommand_of(script) is None,
    ensures
        ({
            let p = parse_tokens(lead)->Ok_0;
            &&& parse_tokens(lead + seq![script] + post) == Ok::<ParsedModel, ArgErrorModel>(
                ParsedModel {
                    present: p.present,
                    v8_flags: p.v8_flags,
                    selection: SelectionModel::RunScript(script, post),
                },
            )
            &&& residual_model(SelectionModel::RunScript(script, post)) == seq![program_name(), script] + post
        }),
{
    lemma_scan_then_script(lead, script, post, 0, Seq::empty(), None);
    assert(residual_model(SelectionModel::RunScript(script, post)) =~= seq![program_name(), script] + post);
}

proof fn lemma_no_flags_met(sel: SelectionModel)
    ensures
        flags_model(Seq::empty(), sel) == (DenoFlags {
            info: sel is Info,
            fmt: sel is Fmt,
            eval: sel is Eval,
            ..no_flags()
        }),
{
    reveal(flags_model);
}

/// A flag that takes no value, given alone in its long spelling, is the one
/// flag met and selects nothing; it turns on its own switches and no other
/// (`--allow-all` its six permissions, `--v8-options` none), and the argument
/// list handed on is the program name alone.
pub proof fn lemma_single_long_flag(f: FlagName)
    requires
        !takes_value(f),
    ensures
        parse_tokens(seq![long_spelling(f)]) == Ok::<ParsedModel, ArgErrorModel>(
            ParsedModel { present: seq![f], v8_flags: None, selection: SelectionModel::NoSelection },
        ),
        flags_model(seq![f], SelectionModel::NoSelection) == apply_flag(no_flags(), f),
        residual_model(SelectionModel::NoSelection) == seq![program_name()],
{
    lemma_long_spelling_names_flag(f);
    let toks = seq![long_spelling(f)];
    assert(toks[0] == long_spelling(f));
    assert(is_long_form(toks[0]));
    assert(Seq::<FlagName>::empty().push(f) =~= seq![f]);
    assert(scan(toks, 1, seq![f], None) == Ok::<ParsedModel, ArgErrorModel>(
        ParsedModel { present: seq![f], v8_flags: None, selection: SelectionModel::NoSelection },
    ));
    lemma_flags_model_push(Seq::empty(), f, SelectionModel::NoSelection);
    lemma_no_flags_met(SelectionModel::NoSelection);
    assert(residual_model(SelectionModel::NoSelection) =~= seq![program_name()]);
}

/// The six permission flags given one after another turn on exactly what
/// `--allow-all` turns on, whatever was met before.
pub proof fn lemma_allow_all_is_the_six_permissions(present: Seq<FlagName>, sel: SelectionModel)
    ensures
        flags_model(present.push(FlagName::AllowAll), sel) == flags_model(
            present.push(FlagName::AllowRead).push(FlagName::AllowWrite).push(
                FlagName::AllowNet,
            ).push(FlagName::AllowEnv).push(FlagName::AllowRun).push(
                FlagName::AllowHighPrecision,
            ),
            sel,
        ),
{
    let with_read = present.push(FlagName::AllowRead);
    let with_write = with_read.push(FlagName::AllowWrite);
    let with_net = with_write.push(FlagName::AllowNet);
    let with_env = with_net.push(FlagName::AllowEnv);
    let with_run = with_env.push(FlagName::AllowRun);
    lemma_flags_model_push(present, FlagName::AllowAll, sel);
    lemma_flags_model_push(present, FlagName::AllowRead, sel);
    lemma_flags_model_push(with_read, FlagName::AllowWrite, sel);
    lemma_flags_model_push(with_write, FlagName::AllowNet, sel);
    lemma_flags_model_push(with_net, FlagName::AllowEnv, sel);
    lemma_flags_model_push(with_env, FlagName::AllowRun, sel);
    lemma_flags_model_push(with_run, FlagName::AllowHighPrecision, sel);
}

/// The switches depend only on which flags were met: not on their order,
/// nor on how often each was given.
pub proof fn lemma_flags_ignore_order(p: Seq<FlagName>, q: Seq<FlagName>, sel: SelectionModel)
    requires
        p.to_set() == q.to_set(),
    ensures
        flags_model(p, sel) == flags_model(q, sel),
{
    reveal(flags_model);
    assert forall|f: FlagName| p.contains(f) == q.contains(f) by {
        assert(p.to_set().contains(f) == p.contains(f));
        assert(q.to_set().contains(f) == q.contains(f));
    }
}

/// How many positional values a subcommand accepts: one for `info` and
/// `eval`, one or more for `fmt`.
pub open spec fn arity_accepts(s: Subcommand, n: nat) -> bool {
    match s {
        Subcommand::Info => n == 1,
        Subcommand::Eval => n == 1,
        Subcommand::Fmt => n >= 1,
    }
}

/// What a subcommand selects from its accepted positional values.
pub open spec fn subcommand_selection(s: Subcommand, vals: Seq<Seq<char>>) -> SelectionModel {
    match s {
        Subcommand::Info => SelectionModel::Info(vals[0]),
        Subcommand::Eval => SelectionModel::Eval(vals[0]),
        Subcommand::Fmt => SelectionModel::Fmt(vals),
    }
}

/// A subcommand's positional count is enforced exactly: with the count it
/// accepts, it selects its values; with any other count (`fmt` with no file,
/// `info` or `eval` with none or two) the invocation is malformed, and the
/// error names the subcommand.
pub proof fn lemma_subcommand_arity(s: Subcommand, vals: Seq<Seq<char>>)
    ensures
        arity_accepts(s, vals.len()) ==> parse_tokens(seq![subcommand_spelling(s)] + vals)
            == Ok::<ParsedModel, ArgErrorModel>(
            ParsedModel {
                present: Seq::empty(),
                v8_flags: None,
                selection: subcommand_selection(s, vals),
            },
        ),
        !arity_accepts(s, vals.len()) ==> parse_tokens(seq![subcommand_spelling(s)] + vals)
            == Err::<ParsedModel, ArgErrorModel>(ArgErrorModel::Malformed(subcommand_spelling(s))),
{
    lemma_subcommand_spelling(s);
    let toks = seq![subcommand_spelling(s)] + vals;
    assert(toks[0] == subcommand_spelling(s));
    assert(toks.subrange(1, toks.len() as int) =~= vals);
    assert(!is_long_form(toks[0]) && !is_option_like(toks[0]));
}

/// Classification from a position past a prefix does not depend on the prefix.
proof fn lemma_scan_shift(
    a: Seq<Seq<char>>,
    b: Seq<Seq<char>>,
    j: int,
    pr: Seq<FlagName>,
    v8: Option<Seq<char>>,
)
    requires
        0 <= j <= b.len(),
    ensures
        scan(a + b, a.len() + j, pr, v8) == scan(b, j, pr, v8),
    decreases b.len() - j,
{
    let toks = a + b;
    let i = a.len() + j;
    if j < b.len() {
        let t = b[j];
        assert(toks[i] == t);
        if is_long_form(t) {
            match long_flag(t) {
                Some(f) => {
                    if takes_value(f) {
                        if j + 1 < b.len() {
                            assert(toks[i + 1] == b[j + 1]);
                            lemma_scan_shift(a, b, j + 2, pr.push(f), Some(b[j + 1]));
                        }
                    } else {
                        lemma_scan_shift(a, b, j + 1, pr.push(f), v8);
                    }
                },
                None => {
                    if is_v8_assignment(t) && v8_assigned_value(t).len() != 0 {
                        lemma_scan_shift(
                            a,
                            b,
                            j + 1,
                            pr.push(FlagName::V8Flags),
                            Some(v8_assigned_value(t)),
                        );
                    }
                },
            }
        } else if is_option_like(t) {
            match short_cluster(t.drop_first()) {
                Some(fs) => lemma_scan_shift(a, b, j + 1, pr + fs, v8),
                None => {},
            }
        } else {
            assert(toks.subrange(i + 1, toks.len() as int) =~= b.subrange(j + 1, b.len() as int));
        }
    }
}

/// A result with the flags `pr` put before the flags it met.
pub open spec fn with_earlier(pr: Seq<FlagName>, r: Result<ParsedModel, ArgErrorModel>) -> Result<
    ParsedModel,
    ArgErrorModel,
> {
    match r {
        Ok(p) => Ok(
            ParsedModel { present: pr + p.present, v8_flags: p.v8_flags, selection: p.selection },
        ),
        Err(e) => Err(e),
    }
}

proof fn lemma_with_earlier_twice(pr: Seq<FlagName>, more: Seq<FlagName>, r: Result<ParsedModel, ArgErrorModel>)
    ensures
        with_earlier(pr + more, r) == with_earlier(pr, with_earlier(more, r)),
{
    match r {
        Ok(p) => assert(pr + more + p.present =~= pr + (more + p.present)),
        Err(_) => {},
    }
}

/// Flags met before position `i` only head the list of flags met.
proof fn lemma_scan_earlier_flags(
    toks: Seq<Seq<char>>,
    i: int,
    pr: Seq<FlagName>,
    v8: Option<Seq<char>>,
)
    requires
        0 <= i <= toks.len(),
    ensures
        scan(toks, i, pr, v8) == with_earlier(pr, scan(toks, i, Seq::empty(), v8)),
    decreases toks.len() - i,
{
    let e = Seq::<FlagName>::empty();
    assert(pr + e =~= pr);
    if i < toks.len() {
        let t = toks[i];
        if is_long_form(t) {
            match long_flag(t) {
                Some(f) => {
                    assert(pr.push(f) =~= pr + e.push(f));
                    if takes_value(f) {
                        if i + 1 < toks.len() {
                            lemma_scan_earlier_flags(toks, i + 2, pr.push(f), Some(toks[i + 1]));
                            lemma_scan_earlier_flags(toks, i + 2, e.push(f), Some(toks[i + 1]));
                            lemma_with_earlier_twice(pr, e.push(f), scan(toks, i + 2, e, Some(toks[i + 1])));
                        }
                    } else {
                        lemma_scan_earlier_flags(toks, i + 1, pr.push(f), v8);
                        lemma_scan_earlier_flags(toks, i + 1, e.push(f), v8);
                        lemma_with_earlier_twice(pr, e.push(f), scan(toks, i + 1, e, v8));
                    }
                },
                None => {
                    if is_v8_assignment(t) && v8_assigned_value(t).len() != 0 {
                        let f = FlagName::V8Flags;
                        let w = Some(v8_assigned_value(t));
                        assert(pr.push(f) =~= pr + e.push(f));
                        lemma_scan_earlier_flags(toks, i + 1, pr.push(f), w);
                        lemma_scan_earlier_flags(toks, i + 1, e.push(f), w);
                        lemma_with_earlier_twice(pr, e.push(f), scan(toks, i + 1, e, w));
                    }
                },
            }
        } else if is_option_like(t) {
            match short_cluster(t.drop_first()) {
                Some(fs) => {
                    assert(e + fs =~= fs);
                    lemma_scan_earlier_flags(toks, i + 1, pr + fs, v8);
                    lemma_scan_earlier_flags(toks, i + 1, fs, v8);
                    lemma_with_earlier_twice(pr, fs, scan(toks, i + 1, e, v8));
                },
                None => {},
            }
        }
    }
}

/// The long spellings of `fs`, one token each.
pub open spec fn long_tokens(fs: Seq<FlagName>) -> Seq<Seq<char>> {
    fs.map_values(|f: FlagName| long_spelling(f))
}

/// Leading tokens that spell flags out in full are each read as their flag.
proof fn lemma_scan_long_tokens(
    longs: Seq<FlagName>,
    rest: Seq<Seq<char>>,
    i: int,
    pr: Seq<FlagName>,
    v8: Option<Seq<char>>,
)
    requires
        0 <= i <= longs.len(),
        forall|k: int| 0 <= k < longs.len() ==> !takes_value(#[trigger] longs[k]),
    ensures
        scan(long_tokens(longs) + rest, i, pr, v8) == scan(
            long_tokens(longs) + rest,
            longs.len() as int,
            pr + longs.subrange(i, longs.len() as int),
            v8,
        ),
    decreases longs.len() - i,
{
    let toks = long_tokens(longs) + rest;
    if i < longs.len() {
        let f = longs[i];
        lemma_long_spelling_names_flag(f);
        assert(toks[i] == long_spelling(f));
        lemma_scan_long_tokens(longs, rest, i + 1, pr.push(f), v8);
        assert(pr.push(f) + longs.subrange(i + 1, longs.len() as int) =~= pr + longs.subrange(
            i,
            longs.len() as int,
        ));
    } else {
        assert(pr + longs.subrange(i, longs.len() as int) =~= pr);
    }
}

proof fn lemma_short_cluster_takes_no_value(cs: Seq<char>)
    requires
        short_cluster(cs) is Some,
    ensures
        forall|k: int|
            0 <= k < short_cluster(cs)->Some_0.len() ==> !takes_value(
                #[trigger] short_cluster(cs)->Some_0[k],
            ),
    decreases cs.len(),
{
    if cs.len() > 0 {
        lemma_short_cluster_takes_no_value(cs.drop_first());
        let fs = short_cluster(cs)->Some_0;
        let rest = short_cluster(cs.drop_first())->Some_0;
        assert forall|k: int| 0 <= k < fs.len() implies !takes_value(#[trigger] fs[k]) by {
            if k > 0 {
                assert(fs[k] == rest[k - 1]);
            }
        }
    }
}

proof fn lemma_contains_concat(a: Seq<FlagName>, b: Seq<FlagName>, x: FlagName)
    ensures
        (a + b).contains(x) == (a.contains(x) || b.contains(x)),
{
    if a.contains(x) {
        let j = choose|j: int| 0 <= j < a.len() && a[j] == x;
        assert((a + b)[j] == x);
    }
    if b.contains(x) {
        let j = choose|j: int| 0 <= j < b.len() && b[j] == x;
        assert((a + b)[a.len() + j] == x);
    }
    if (a + b).contains(x) {
        let j = choose|j: int| 0 <= j < (a + b).len() && (a + b)[j] == x;
        if j < a.len() {
            assert(a[j] == x);
        } else {
            assert(b[j - a.len()] == x);
        }
    }
}

/// The switches and the argument list handed on that a classification gives.
pub open spec fn outcome(r: Result<ParsedModel, ArgErrorModel>) -> Result<
    (DenoFlags, Seq<Seq<char>>),
    ArgErrorModel,
> {
    match r {
        Ok(p) => Ok((flags_model(p.present, p.selection), residual_model(p.selection))),
        Err(e) => Err(e),
    }
}

/// A run of one-letter flags in one token, such as `-Dr`, has the effect of
/// the same flags spelled out in full as separate tokens, in any order and
/// with any repetition, whatever tokens follow.
pub proof fn lemma_short_cluster_as_long_flags(
    cs: Seq<char>,
    longs: Seq<FlagName>,
    rest: Seq<Seq<char>>,
)
    requires
        cs.len() >= 1,
        short_cluster(cs) is Some,
        longs.to_set() == short_cluster(cs)->Some_0.to_set(),
    ensures
        outcome(parse_tokens(seq![seq!['-'] + cs] + rest)) == outcome(
            parse_tokens(long_tokens(longs) + rest),
        ),
{
    let fs = short_cluster(cs)->Some_0;
    let e = Seq::<FlagName>::empty();
    let t = seq!['-'] + cs;
    let left = seq![t] + rest;
    let right = long_tokens(longs) + rest;
    // the cluster token
    assert(t.drop_first() =~= cs);
    assert(t[1] == cs[0]);
    assert(left[0] == t);
    assert(!is_long_form(t));
    assert(scan(left, 0, e, None) == scan(left, 1, e + fs, None));
    assert(e + fs =~= fs);
    lemma_scan_shift(seq![t], rest, 0, fs, None);
    lemma_scan_earlier_flags(rest, 0, fs, None);
    // the spelled-out tokens
    lemma_short_cluster_takes_no_value(cs);
    assert forall|k: int| 0 <= k < longs.len() implies !takes_value(#[trigger] longs[k]) by {
        assert(longs.to_set().contains(longs[k]));
        assert(fs.to_set().contains(longs[k]));
    }
    lemma_scan_long_tokens(longs, rest, 0, e, None);
    assert(e + longs.subrange(0, longs.len() as int) =~= longs);
    lemma_scan_shift(long_tokens(longs), rest, 0, longs, None);
    lemma_scan_earlier_flags(rest, 0, longs, None);
    // the same switches either way
    match scan(rest, 0, e, None) {
        Ok(p) => {
            assert forall|x: FlagName| (fs + p.present).to_set().contains(x) == (longs
                + p.present).to_set().contains(x) by {
                lemma_contains_concat(fs, p.present, x);
                lemma_contains_concat(longs, p.present, x);
                assert(fs.to_set().contains(x) == longs.to_set().contains(x));
            }
            assert((fs + p.present).to_set() =~= (longs + p.present).to_set());
            lemma_flags_ignore_order(fs + p.present, longs + p.present, p.selection);
        },
        Err(_) => {},
    }
}

/// The six permission flags.
pub open spec fn permission_flags() -> Set<FlagName> {
    set![
        FlagName::AllowRead,
        FlagName::AllowWrite,
        FlagName::AllowNet,
        FlagName::AllowEnv,
        FlagName::AllowRun,
        FlagName::AllowHighPrecision,
    ]
}

/// Leading flags spelled out in full head the flags met by the rest.
proof fn lemma_long_tokens_then_rest(longs: Seq<FlagName>, rest: Seq<Seq<char>>)
    requires
        forall|k: int| 0 <= k < longs.len() ==> !takes_value(#[trigger] longs[k]),
    ensures
        parse_tokens(long_tokens(longs) + rest) == with_earlier(longs, parse_tokens(rest)),
{
    let e = Seq::<FlagName>::empty();
    lemma_scan_long_tokens(longs, rest, 0, e, None);
    assert(e + longs.subrange(0, longs.len() as int) =~= longs);
    lemma_scan_shift(long_tokens(longs), rest, 0, longs, None);
    lemma_scan_earlier_flags(rest, 0, longs, None);
}

proof fn lemma_heads_contain(perms: Seq<FlagName>, x: Seq<FlagName>, f: FlagName)
    requires
        perms.to_set() == permission_flags(),
    ensures
        (seq![FlagName::AllowAll] + x).contains(f) == (f == FlagName::AllowAll || x.contains(f)),
        (perms + x).contains(f) == (permission_flags().contains(f) || x.contains(f)),
{
    let a = seq![FlagName::AllowAll];
    lemma_contains_concat(a, x, f);
    lemma_contains_concat(perms, x, f);
    assert(perms.to_set().contains(f) == perms.contains(f));
    assert(a[0] == FlagName::AllowAll);
    if a.contains(f) {
        let j = choose|j: int| 0 <= j < a.len() && a[j] == f;
        assert(j == 0);
    }
}

#[verifier::rlimit(50)]
proof fn lemma_allow_all_heads_like_permissions(perms: Seq<FlagName>, x: Seq<FlagName>, sel: SelectionModel)
    requires
        perms.to_set() == permission_flags(),
    ensures
        flags_model(seq![FlagName::AllowAll] + x, sel) == flags_model(perms + x, sel),
{
    reveal(flags_model);
    lemma_heads_contain(perms, x, FlagName::Version);
    lemma_heads_contain(perms, x, FlagName::AllowRead);
    lemma_heads_contain(perms, x, FlagName::AllowWrite);
    lemma_heads_contain(perms, x, FlagName::AllowNet);
    lemma_heads_contain(perms, x, FlagName::AllowEnv);
    lemma_heads_contain(perms, x, FlagName::AllowRun);
    lemma_heads_contain(perms, x, FlagName::AllowHighPrecision);
    lemma_heads_contain(perms, x, FlagName::AllowAll);
    lemma_heads_contain(perms, x, FlagName::NoPrompt);
    lemma_heads_contain(perms, x, FlagName::LogDebug);
    lemma_heads_contain(perms, x, FlagName::Reload);
    lemma_heads_contain(perms, x, FlagName::Types);
    lemma_heads_contain(perms, x, FlagName::Prefetch);
}

/// `--allow-all` followed by any tokens has the effect of the six permission
/// flags spelled out in full, in any order and with any repetition, followed
/// by the same tokens.
pub proof fn lemma_allow_all_token(perms: Seq<FlagName>, rest: Seq<Seq<char>>)
    requires
        perms.to_set() == permission_flags(),
    ensures
        outcome(parse_tokens(long_tokens(seq![FlagName::AllowAll]) + rest)) == outcome(
            parse_tokens(long_tokens(perms) + rest),
        ),
{
    let a = seq![FlagName::AllowAll];
    assert forall|k: int| 0 <= k < perms.len() implies !takes_value(#[trigger] perms[k]) by {
        assert(perms.to_set().contains(perms[k]));
    }
    assert forall|k: int| 0 <= k < a.len() implies !takes_value(#[trigger] a[k]) by {}
    lemma_long_tokens_then_rest(a, rest);
    lemma_long_tokens_then_rest(perms, rest);
    match parse_tokens(rest) {
        Ok(p) => lemma_allow_all_heads_like_permissions(perms, p.present, p.selection),
        Err(_) => {},
    }
}

} // verus!
