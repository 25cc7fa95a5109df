use vstd::prelude::*;
use crate::catalog::FlagName;
use crate::flags::program_name;
use crate::parser::{ParseResult, ParsedModel};

verus! {

/// The comma-separated pieces of `s` from position `start` on, where the
/// piece under way began at `start` and the scan stands at `i`.
pub open spec fn split_from(s: Seq<char>, start: int, i: int) -> Seq<Seq<char>>
    decreases s.len() - i,
{
    if i < 0 || i >= s.len() {
        seq![s.subrange(start, s.len() as int)]
    } else if s[i] == ',' {
        seq![s.subrange(start, i)] + split_from(s, i + 1, i + 1)
    } else {
        split_from(s, start, i + 1)
    }
}

/// The comma-separated pieces of `s`, in order; a string without a comma is
/// one piece.
pub open spec fn split_commas(s: Seq<char>) -> Seq<Seq<char>> {
    split_from(s, 0, 0)
}

/// Splits `s` at each comma.
pub fn split_at_commas(s: &str) -> (r: Vec<String>)
    ensures
        r.deep_view() == split_commas(s@),
{
    let n = s.unicode_len();
    let mut out: Vec<String> = Vec::new();
    let mut start: usize = 0;
    let mut i: usize = 0;
    while i < n
        invariant
            n == s@.len(),
            start <= i <= n,
            out.deep_view() + split_from(s@, start as int, i as int) == split_commas(s@),
        decreases n - i,
    {
        if s.get_char(i) == ',' {
            let piece = s.substring_char(start, i).to_owned();
            let ghost before = out.deep_view();
            out.push(piece);
            assert(out.deep_view() =~= before.push(piece@));
            assert(before + split_from(s@, start as int, i as int) =~= out.deep_view()
                + split_from(s@, i + 1, i + 1));
            start = i + 1;
        }
        i = i + 1;
    }
    let piece = s.substring_char(start, n).to_owned();
    let ghost before = out.deep_view();
    out.push(piece);
    assert(out.deep_view() =~= before + split_from(s@, start as int, n as int));
    out
}

/// Whether `f` is among the flags met.
pub fn has_flag(present: &Vec<FlagName>, f: FlagName) -> (r: bool)
    ensures
        r == present@.contains(f),
{
    let mut i: usize = 0;
    while i < present.len()
        invariant
            i <= present.len(),
            forall|j: int| 0 <= j < i ==> present@[j] != f,
        decreases present.len() - i,
    {
        if present[i] == f {
            assert(present@[i as int] == f);
            return true;
        }
        i = i + 1;
    }
    false
}

/// The argument lists handed to the engine's configuration, in order: a help
/// request for `--v8-options`, then the program name followed by the pieces
/// of the `--v8-flags` value.
pub open spec fn engine_model(p: ParsedModel) -> Seq<Seq<Seq<char>>> {
    (if p.present.contains(FlagName::V8Options) {
        seq![seq![program_name(), "--v8-options"@]]
    } else {
        Seq::empty()
    }) + match p.v8_flags {
        Some(v) => seq![seq![program_name()] + split_commas(v)],
        None => Seq::empty(),
    }
}

/// Builds the argument lists that the engine's configuration receives.
pub fn engine_requests(p: &ParseResult) -> (r: Vec<Vec<String>>)
    ensures
        r.deep_view() == engine_model(p@),
{
    let mut out: Vec<Vec<String>> = Vec::new();
    if has_flag(&p.present, FlagName::V8Options) {
        let mut help: Vec<String> = Vec::new();
        help.push("deno".to_owned());
        help.push("--v8-options".to_owned());
        assert(help.deep_view() =~= seq![program_name(), "--v8-options"@]);
        out.push(help);
    }
    let ghost first = out.deep_view();
    match &p.v8_flags {
        Some(v) => {
            let pieces = split_at_commas(v.as_str());
            let mut list: Vec<String> = Vec::new();
            list.push("deno".to_owned());
            let mut k: usize = 0;
            while k < pieces.len()
                invariant
                    k <= pieces.len(),
                    list.deep_view() =~= seq![program_name()] + pieces.deep_view().take(k as int),
                decreases pieces.len() - k,
            {
                let s = pieces[k].clone();
                assert(s@ == pieces.deep_view()[k as int]);
                let ghost before = list.deep_view();
                list.push(s);
                assert(list.deep_view() =~= before.push(s@));
                assert(pieces.deep_view().take(k + 1) =~= pieces.deep_view().take(k as int).push(s@));
                k = k + 1;
            }
            assert(pieces.deep_view().take(pieces.len() as int) =~= pieces.deep_view());
            out.push(list);
        },
        None => {},
    }
    assert(out.deep_view() =~= engine_model(p@));
    out
}

} // verus!
