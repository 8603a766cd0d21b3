//! The tokenizer: a single left-to-right pass over the argument list that
//! classifies each word and attaches a directly following positional word
//! to a flag as its value.

#![allow(unused_imports)]
use vstd::prelude::*;

use crate::Flag;
use crate::TokenModel;
use crate::flag_token;
use crate::long_flag_text;
use crate::positional_text;
use crate::positional_token;
use crate::short_flag_text;
use crate::token_from;
use crate::token_wf;

verus! {

/// How one word classifies under the dash-count rule.
enum Kind {
    Long,
    Short,
    Positional,
}

/// Classifies one word: `--…` is long, `-…` (single dash) short,
/// anything else positional.
fn classify(word: &str) -> (kind: Kind)
    ensures
        kind is Long <==> long_flag_text(word@),
        kind is Short <==> short_flag_text(word@),
        kind is Positional <==> positional_text(word@),
{
    let n = word.unicode_len();
    if n >= 2 && word.get_char(0) == '-' && word.get_char(1) == '-' {
        Kind::Long
    } else if n >= 1 && word.get_char(0) == '-' {
        Kind::Short
    } else {
        Kind::Positional
    }
}

/// Checks the type of a flag: returns `"long"`, `"short"` or `"argument"`
/// according to the dash-count rule.
pub fn check_flag(word: &str) -> (kind: &'static str)
    ensures
        long_flag_text(word@) <==> kind@ == "long"@,
        short_flag_text(word@) <==> kind@ == "short"@,
        positional_text(word@) <==> kind@ == "argument"@,
{
    proof {
        broadcast use vstd::string::group_string_axioms;

        reveal_strlit("long");
        reveal_strlit("short");
        reveal_strlit("argument");
        assert("long"@.len() == 4);
        assert("short"@.len() == 5);
        assert("argument"@.len() == 8);
    }
    match classify(word) {
        Kind::Long => "long",
        Kind::Short => "short",
        Kind::Positional => "argument",
    }
}

/// The token sequence that the scan assigns to the argument list `args`:
/// a positional word stands alone; a flag word takes a directly following
/// positional word as its value, consuming it; a flag followed by another
/// flag, or by nothing, gets no value.
pub open spec fn tokens_of(args: Seq<Seq<char>>) -> Seq<TokenModel>
    decreases args.len(),
{
    if args.len() == 0 {
        Seq::empty()
    } else if positional_text(args[0]) {
        seq![positional_token(args[0])] + tokens_of(args.skip(1))
    } else if args.len() >= 2 && positional_text(args[1]) {
        seq![flag_token(args[0], Some(args[1]))] + tokens_of(args.skip(2))
    } else {
        seq![flag_token(args[0], None)] + tokens_of(args.skip(1))
    }
}

/// Parses a flag along with its associated argument, if any: returns the
/// index of the next argument still to be scanned, the flag's own text,
/// and the directly following argument when that one is positional.
pub fn parse_flag(args: &Vec<String>, index: usize) -> (r: (usize, Option<String>, Option<String>))
    requires
        index < args.len(),
    ensures
        r.1 matches Some(f) && f@ == args.deep_view()[index as int],
        index + 1 < args.len() && positional_text(args.deep_view()[index as int + 1]) ==> r.0
            == index + 2 && (r.2 matches Some(v) && v@ == args.deep_view()[index as int + 1]),
        !(index + 1 < args.len() && positional_text(args.deep_view()[index as int + 1])) ==> r.0
            == index + 1 && r.2 is None,
{
    let flag = Some(args[index].clone());
    let next_index = index + 1;
    if next_index < args.len() {
        let next_arg = &args[next_index];
        match classify(next_arg) {
            Kind::Positional => (next_index + 1, flag, Some(next_arg.clone())),
            _ => (next_index, flag, None),
        }
    } else {
        (next_index, flag, None)
    }
}

/// Parses the given command line arguments (the process's argument vector,
/// program name excluded) into a vector of Flag structs, one single
/// left-to-right pass.
pub fn parse_flags(args: &Vec<String>) -> (output_flags: Vec<Flag>)
    ensures
        output_flags.deep_view() == tokens_of(args.deep_view()),
{
    let ghost all = args.deep_view();
    let mut output_flags: Vec<Flag> = Vec::new();
    let mut index: usize = 0;
    proof {
        assert(all.skip(0) =~= all);
        assert(output_flags.deep_view() + tokens_of(all) =~= tokens_of(all));
    }
    while index < args.len()
        invariant
            index <= args.len(),
            all == args.deep_view(),
            tokens_of(all) == output_flags.deep_view() + tokens_of(all.skip(index as int)),
        decreases args.len() - index,
    {
        let ghost prev = output_flags.deep_view();
        let ghost rest = all.skip(index as int);
        proof {
            assert(rest[0] == all[index as int]);
            assert(rest.skip(1) =~= all.skip(index as int + 1));
        }
        let input = &args[index];
        match classify(input) {
            Kind::Short => {
                let (new_index, flag, arg) = parse_flag(args, index);
                output_flags.push(
                    Flag { flag, is_short: true, is_long: false, arg },
                );
                proof {
                    if rest.len() >= 2 {
                        assert(rest.skip(2) =~= all.skip(index as int + 2));
                    }
                    let ghost has_val = rest.len() >= 2 && positional_text(rest[1]);
                    let ghost tok = flag_token(rest[0], if has_val { Some(rest[1]) } else { None });
                    assert(output_flags.deep_view() =~= prev.push(tok));
                    lemma_shift(prev, tok, tokens_of(all.skip(new_index as int)));
                }
                index = new_index;
            },
            Kind::Long => {
                let (new_index, flag, arg) = parse_flag(args, index);
                output_flags.push(
                    Flag { flag, is_short: false, is_long: true, arg },
                );
                proof {
                    if rest.len() >= 2 {
                        assert(rest.skip(2) =~= all.skip(index as int + 2));
                    }
                    let ghost has_val = rest.len() >= 2 && positional_text(rest[1]);
                    let ghost tok = flag_token(rest[0], if has_val { Some(rest[1]) } else { None });
                    assert(output_flags.deep_view() =~= prev.push(tok));
                    lemma_shift(prev, tok, tokens_of(all.skip(new_index as int)));
                }
                index = new_index;
            },
            Kind::Positional => {
                output_flags.push(
                    Flag { flag: None, is_short: false, is_long: false, arg: Some(input.clone()) },
                );
                proof {
                    let ghost tok = positional_token(rest[0]);
                    assert(output_flags.deep_view() =~= prev.push(tok));
                    lemma_shift(prev, tok, tokens_of(all.skip(index as int + 1)));
                }
                index = index + 1;
            },
        }
    }
    proof {
        assert(all.skip(args.len() as int) =~= Seq::<Seq<char>>::empty());
        assert(output_flags.deep_view() + tokens_of(Seq::<Seq<char>>::empty()) =~= output_flags.deep_view());
    }
    output_flags
}

/// Number of tokens that are flags carrying an attached value; each such
/// token consumed one lookahead word of the input.
pub open spec fn values_attached(toks: Seq<TokenModel>) -> nat
    decreases toks.len(),
{
    if toks.len() == 0 {
        0
    } else {
        (if (toks[0].short || toks[0].long) && toks[0].value is Some {
            1 as nat
        } else {
            0 as nat
        }) + values_attached(toks.skip(1))
    }
}

/// The scan never emits more tokens than it was given words, and emits
/// exactly one token per word less one for each positional word consumed
/// as a flag's value.
pub proof fn lemma_token_count(args: Seq<Seq<char>>)
    ensures
        tokens_of(args).len() <= args.len(),
        tokens_of(args).len() + values_attached(tokens_of(args)) == args.len(),
    decreases args.len(),
{
    if args.len() == 0 {
    } else if positional_text(args[0]) {
        lemma_token_count(args.skip(1));
        assert(tokens_of(args).skip(1) =~= tokens_of(args.skip(1)));
    } else if args.len() >= 2 && positional_text(args[1]) {
        lemma_token_count(args.skip(2));
        assert(tokens_of(args).skip(1) =~= tokens_of(args.skip(2)));
    } else {
        lemma_token_count(args.skip(1));
        assert(tokens_of(args).skip(1) =~= tokens_of(args.skip(1)));
    }
}

/// A token whose texts all occur in a suffix of `args` has them in
/// `args` itself.
proof fn lemma_from_skip(t: TokenModel, args: Seq<Seq<char>>, n: int)
    requires
        0 <= n <= args.len(),
        token_from(t, args.skip(n)),
    ensures
        token_from(t, args),
{
    if t.name is Some {
        let j = choose|j: int|
            0 <= j < args.skip(n).len() && args.skip(n)[j] == t.name->0;
        assert(args[j + n] == t.name->0);
    }
    if t.value is Some {
        let j = choose|j: int|
            0 <= j < args.skip(n).len() && args.skip(n)[j] == t.value->0;
        assert(args[j + n] == t.value->0);
    }
}

/// Every token the scan emits is well formed -- a flag token's name is
/// present and classifies back to the very kind the token was given, a
/// positional token has no name and carries its text as its value -- and
/// every piece of text it carries stands verbatim in the argument list.
pub proof fn lemma_tokens_wf(args: Seq<Seq<char>>)
    ensures
        forall|i: int|
            0 <= i < tokens_of(args).len() ==> token_wf(#[trigger] tokens_of(args)[i])
                && token_from(tokens_of(args)[i], args),
    decreases args.len(),
{
    if args.len() == 0 {
    } else {
        let consumed: int = if positional_text(args[0]) {
            1
        } else if args.len() >= 2 && positional_text(args[1]) {
            2
        } else {
            1
        };
        lemma_tokens_wf(args.skip(consumed));
        assert(args.contains(args[0]));
        if consumed == 2 {
            assert(args.contains(args[1]));
        }
        assert forall|i: int|
            0 <= i < tokens_of(args).len() implies token_wf(#[trigger] tokens_of(args)[i])
            && token_from(tokens_of(args)[i], args) by {
            if i > 0 {
                assert(tokens_of(args)[i] == tokens_of(args.skip(consumed))[i - 1]);
                lemma_from_skip(tokens_of(args)[i], args, consumed);
            }
        }
    }
}

/// Appending one token to the emitted prefix and dropping it from the
/// front of the remainder keeps the concatenation unchanged.
proof fn lemma_shift(prev: Seq<TokenModel>, tok: TokenModel, tail: Seq<TokenModel>)
    ensures
        prev + (seq![tok] + tail) == prev.push(tok) + tail,
{
    assert(prev + (seq![tok] + tail) =~= prev.push(tok) + tail);
}

} // verus!
