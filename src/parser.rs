use vstd::prelude::*;
use crate::text::starts_with_text;
use crate::catalog::{
    long_flag, lookup_long, lookup_short, lookup_subcommand, short_flag, subcommand_of, takes_value,
    FlagName, Subcommand,
};

verus! {

/// What an invocation selected: a built-in subcommand with its positional
/// values, a script with the arguments that follow it, or nothing.
#[derive(Clone, Debug)]
pub enum Selection {
    NoSelection,
    Info { file: String },
    Eval { code: String },
    Fmt { files: Vec<String> },
    RunScript { path: String, args: Vec<String> },
}

/// The abstract value of a [`Selection`].
pub enum SelectionModel {
    NoSelection,
    Info(Seq<char>),
    Eval(Seq<char>),
    Fmt(Seq<Seq<char>>),
    RunScript(Seq<char>, Seq<Seq<char>>),
}

impl View for Selection {
    type V = SelectionModel;

    open spec fn view(&self) -> SelectionModel {
        match self {
            Selection::NoSelection => SelectionModel::NoSelection,
            Selection::Info { file } => SelectionModel::Info(file@),
            Selection::Eval { code } => SelectionModel::Eval(code@),
            Selection::Fmt { files } => SelectionModel::Fmt(files.deep_view()),
            Selection::RunScript { path, args } => SelectionModel::RunScript(
                path@,
                args.deep_view(),
            ),
        }
    }
}

/// The outcome of classifying the arguments: the flags met, in order, the
/// value given to `--v8-flags`, and the selection.
#[derive(Clone, Debug)]
pub struct ParseResult {
    pub present: Vec<FlagName>,
    pub v8_flags: Option<String>,
    pub selection: Selection,
}

pub struct ParsedModel {
    pub present: Seq<FlagName>,
    pub v8_flags: Option<Seq<char>>,
    pub selection: SelectionModel,
}

impl View for ParseResult {
    type V = ParsedModel;

    open spec fn view(&self) -> ParsedModel {
        ParsedModel {
            present: self.present@,
            v8_flags: self.v8_flags.deep_view(),
            selection: self.selection@,
        }
    }
}

/// Why the arguments were refused; each carries the token at fault.
#[derive(Clone, Debug)]
pub enum ArgError {
    /// A value or a positional argument is missing, or one too many was given.
    MalformedArguments { token: String },
    /// A token in flag position that no declared flag matches.
    UnrecognizedLeadingToken { token: String },
}

pub enum ArgErrorModel {
    Malformed(Seq<char>),
    Unrecognized(Seq<char>),
}

impl View for ArgError {
    type V = ArgErrorModel;

    open spec fn view(&self) -> ArgErrorModel {
        match self {
            ArgError::MalformedArguments { token } => ArgErrorModel::Malformed(token@),
            ArgError::UnrecognizedLeadingToken { token } => ArgErrorModel::Unrecognized(token@),
        }
    }
}

/// A token in flag position: a dash and at least one more character.
pub open spec fn is_option_like(t: Seq<char>) -> bool {
    t.len() >= 2 && t[0] == '-'
}

/// A token that spells a flag out in full.
pub open spec fn is_long_form(t: Seq<char>) -> bool {
    t.len() >= 2 && t[0] == '-' && t[1] == '-'
}

pub open spec fn v8_assign_prefix() -> Seq<char> {
    "--v8-flags="@
}

/// A token of the form `--v8-flags=<value>`.
pub open spec fn is_v8_assignment(t: Seq<char>) -> bool {
    let p = v8_assign_prefix();
    p.len() <= t.len() && t.subrange(0, p.len() as int) == p
}

pub open spec fn v8_assigned_value(t: Seq<char>) -> Seq<char> {
    t.subrange(v8_assign_prefix().len() as int, t.len() as int)
}

/// The flags named by a run of one-letter spellings, if each letter names one.
pub open spec fn short_cluster(cs: Seq<char>) -> Option<Seq<FlagName>>
    decreases cs.len(),
{
    if cs.len() == 0 {
        Some(Seq::empty())
    } else {
        match short_flag(cs[0]) {
            None => None,
            Some(f) => match short_cluster(cs.drop_first()) {
                None => None,
                Some(rest) => Some(seq![f] + rest),
            },
        }
    }
}

/// What a subcommand or script token at position `i` selects, with the
/// tokens after it taken as its positional values.
pub open spec fn select(toks: Seq<Seq<char>>, i: int) -> Result<SelectionModel, ArgErrorModel> {
    let t = toks[i];
    let rest = toks.subrange(i + 1, toks.len() as int);
    match subcommand_of(t) {
        Some(Subcommand::Info) => if rest.len() == 1 {
            Ok(SelectionModel::Info(rest[0]))
        } else {
            Err(ArgErrorModel::Malformed(t))
        },
        Some(Subcommand::Eval) => if rest.len() == 1 {
            Ok(SelectionModel::Eval(rest[0]))
        } else {
            Err(ArgErrorModel::Malformed(t))
        },
        Some(Subcommand::Fmt) => if rest.len() >= 1 {
            Ok(SelectionModel::Fmt(rest))
        } else {
            Err(ArgErrorModel::Malformed(t))
        },
        None => Ok(SelectionModel::RunScript(t, rest)),
    }
}

/// Classification of `toks` from position `i` on, given the flags met so
/// far and the `--v8-flags` value given so far.
pub open spec fn scan(
    toks: Seq<Seq<char>>,
    i: int,
    present: Seq<FlagName>,
    v8: Option<Seq<char>>,
) -> Result<ParsedModel, ArgErrorModel>
    decreases toks.len() - i,
{
    if i < 0 || i >= toks.len() {
        Ok(ParsedModel { present, v8_flags: v8, selection: SelectionModel::NoSelection })
    } else {
        let t = toks[i];
        if is_long_form(t) {
            match long_flag(t) {
                Some(f) => if takes_value(f) {
                    if i + 1 < toks.len() {
                        scan(toks, i + 2, present.push(f), Some(toks[i + 1]))
                    } else {
                        Err(ArgErrorModel::Malformed(t))
                    }
                } else {
                    scan(toks, i + 1, present.push(f), v8)
                },
                None => if is_v8_assignment(t) {
                    if v8_assigned_value(t).len() == 0 {
                        Err(ArgErrorModel::Malformed(t))
                    } else {
                        scan(toks, i + 1, present.push(FlagName::V8Flags), Some(v8_assigned_value(t)))
                    }
                } else {
                    Err(ArgErrorModel::Unrecognized(t))
                },
            }
        } else if is_option_like(t) {
            match short_cluster(t.drop_first()) {
                Some(fs) => scan(toks, i + 1, present + fs, v8),
                None => Err(ArgErrorModel::Unrecognized(t)),
            }
        } else {
            match select(toks, i) {
                Ok(s) => Ok(ParsedModel { present, v8_flags: v8, selection: s }),
                Err(e) => Err(e),
            }
        }
    }
}

/// Classification of the invocation's arguments, program name excluded.
pub open spec fn parse_tokens(toks: Seq<Seq<char>>) -> Result<ParsedModel, ArgErrorModel> {
    scan(toks, 0, Seq::empty(), None)
}

pub open spec fn parse_result_view(r: Result<ParseResult, ArgError>) -> Result<ParsedModel, ArgErrorModel> {
    match r {
        Ok(p) => Ok(p@),
        Err(e) => Err(e@),
    }
}

/// Expands a run of one-letter flags, such as the `Dr` of `-Dr`.
pub fn expand_short(cs: &str) -> (r: Option<Vec<FlagName>>)
    ensures
        match r {
            Some(v) => short_cluster(cs@) == Some(v@),
            None => short_cluster(cs@) is None,
        },
{
    let n = cs.unicode_len();
    let mut out: Vec<FlagName> = Vec::new();
    let mut k: usize = 0;
    assert(cs@.subrange(0, n as int) =~= cs@);
    proof {
        match short_cluster(cs@) {
            Some(rest) => assert(out@ + rest =~= rest),
            None => {},
        }
    }
    while k < n
        invariant
            n == cs@.len(),
            k <= n,
            short_cluster(cs@) == match short_cluster(cs@.subrange(k as int, n as int)) {
                Some(rest) => Some(out@ + rest),
                None => None::<Seq<FlagName>>,
            },
        decreases n - k,
    {
        let ghost tail = cs@.subrange(k as int, n as int);
        assert(tail.drop_first() =~= cs@.subrange(k + 1, n as int));
        match lookup_short(cs.get_char(k)) {
            None => {
                return None;
            },
            Some(f) => {
                proof {
                    match short_cluster(tail.drop_first()) {
                        Some(rest) => {
                            assert(out@ + (seq![f] + rest) =~= out@.push(f) + rest);
                        },
                        None => {},
                    }
                }
                out.push(f);
            },
        }
        k = k + 1;
    }
    assert(short_cluster(cs@.subrange(n as int, n as int)) == Some(Seq::<FlagName>::empty()));
    assert(out@ + Seq::<FlagName>::empty() =~= out@);
    Some(out)
}

/// Copies the tokens from position `from` on.
pub fn tail_of(toks: &Vec<String>, from: usize) -> (r: Vec<String>)
    requires
        from <= toks.len(),
    ensures
        r.deep_view() == toks.deep_view().subrange(from as int, toks.len() as int),
{
    let mut out: Vec<String> = Vec::new();
    let mut k: usize = from;
    while k < toks.len()
        invariant
            from <= k <= toks.len(),
            out.deep_view() =~= toks.deep_view().subrange(from as int, k as int),
        decreases toks.len() - k,
    {
        let s = toks[k].clone();
        assert(s@ == toks.deep_view()[k as int]);
        let ghost before = out.deep_view();
        out.push(s);
        assert(out.deep_view() =~= before.push(s@));
        assert(out.deep_view() =~= toks.deep_view().subrange(from as int, k + 1));
        k = k + 1;
    }
    out
}

pub open spec fn selection_result_view(r: Result<Selection, ArgError>) -> Result<SelectionModel, ArgErrorModel> {
    match r {
        Ok(s) => Ok(s@),
        Err(e) => Err(e@),
    }
}

/// Applies the subcommand or script token at position `i`.
pub fn select_at(toks: &Vec<String>, i: usize) -> (r: Result<Selection, ArgError>)
    requires
        i < toks.len(),
    ensures
        selection_result_view(r) == select(toks.deep_view(), i as int),
{
    let ghost all = toks.deep_view();
    let ghost rest = all.subrange(i + 1, all.len() as int);
    let t = toks[i].as_str();
    assert(t@ == all[i as int]);
    let rest_len = toks.len() - i - 1;
    match lookup_subcommand(t) {
        Some(Subcommand::Info) => if rest_len == 1 {
            let file = toks[i + 1].clone();
            assert(file@ == rest[0]);
            Ok(Selection::Info { file })
        } else {
            Err(ArgError::MalformedArguments { token: toks[i].clone() })
        },
        Some(Subcommand::Eval) => if rest_len == 1 {
            let code = toks[i + 1].clone();
            assert(code@ == rest[0]);
            Ok(Selection::Eval { code })
        } else {
            Err(ArgError::MalformedArguments { token: toks[i].clone() })
        },
        Some(Subcommand::Fmt) => if rest_len >= 1 {
            Ok(Selection::Fmt { files: tail_of(toks, i + 1) })
        } else {
            Err(ArgError::MalformedArguments { token: toks[i].clone() })
        },
        None => Ok(Selection::RunScript { path: toks[i].clone(), args: tail_of(toks, i + 1) }),
    }
}

/// Classifies the invocation's arguments (program name excluded) token by
/// token. Flags are recognised until the first subcommand or script token;
/// every token after that one belongs to the selection and is never read as
/// a flag.
pub fn parse_args(toks: &Vec<String>) -> (r: Result<ParseResult, ArgError>)
    ensures
        parse_result_view(r) == parse_tokens(toks.deep_view()),
{
    let ghost all = toks.deep_view();
    let n = toks.len();
    let mut present: Vec<FlagName> = Vec::new();
    let mut v8: Option<String> = None;
    let mut i: usize = 0;
    while i < n
        invariant
            n == toks.len(),
            all == toks.deep_view(),
            i <= n,
            scan(all, i as int, present@, v8.deep_view()) == parse_tokens(all),
        decreases n - i,
    {
        let t: &str = toks[i].as_str();
        assert(t@ == all[i as int]);
        let len = t.unicode_len();
        if len >= 2 && t.get_char(0) == '-' && t.get_char(1) == '-' {
            match lookup_long(t) {
                Some(f) => {
                    if f == FlagName::V8Flags {
                        if i + 1 < n {
                            let value = toks[i + 1].clone();
                            assert(value@ == all[i + 1]);
                            present.push(f);
                            v8 = Some(value);
                            i = i + 2;
                        } else {
                            return Err(ArgError::MalformedArguments { token: toks[i].clone() });
                        }
                    } else {
                        present.push(f);
                        i = i + 1;
                    }
                },
                None => {
                    let plen = "--v8-flags=".unicode_len();
                    if starts_with_text(t, "--v8-flags=") {
                        if len == plen {
                            return Err(ArgError::MalformedArguments { token: toks[i].clone() });
                        }
                        let value = t.substring_char(plen, len).to_owned();
                        present.push(FlagName::V8Flags);
                        v8 = Some(value);
                        i = i + 1;
                    } else {
                        return Err(ArgError::UnrecognizedLeadingToken { token: toks[i].clone() });
                    }
                },
            }
        } else if len >= 2 && t.get_char(0) == '-' {
            let cs = t.substring_char(1, len);
            assert(cs@ =~= t@.drop_first());
            match expand_short(cs) {
                Some(fs) => {
                    let mut fs = fs;
                    present.append(&mut fs);
                    i = i + 1;
                },
                None => {
                    return Err(ArgError::UnrecognizedLeadingToken { token: toks[i].clone() });
                },
            }
        } else {
            let sel = select_at(toks, i);
            return match sel {
                Ok(selection) => Ok(ParseResult { present, v8_flags: v8, selection }),
                Err(e) => Err(e),
            };
        }
    }
    Ok(ParseResult { present, v8_flags: v8, selection: Selection::NoSelection })
}

} // verus!
