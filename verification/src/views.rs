//! The view extractor: derived, freshly allocated collections over a
//! token sequence.  Sequence-shaped views keep input order and duplicates;
//! mapping-shaped views collapse a repeated flag name, the later
//! occurrence winning.

#![allow(unused_imports)]
use vstd::prelude::*;
use vstd::hash_map::StringHashMap;

use crate::Flag;
use crate::TokenModel;

verus! {

/// Does the token count for a view that keeps short flags (`inc_short`)
/// or long flags (`inc_long`)?
pub open spec fn selected_flag(t: TokenModel, inc_short: bool, inc_long: bool) -> bool {
    (inc_short && t.short) || (inc_long && t.long)
}

/// The positional tokens' own texts, in input order.
pub open spec fn flagless_of(toks: Seq<TokenModel>) -> Seq<Seq<char>>
    decreases toks.len(),
{
    if toks.len() == 0 {
        Seq::empty()
    } else {
        let init = flagless_of(toks.drop_last());
        let t = toks.last();
        if !t.short && !t.long && t.value is Some {
            init.push(t.value->0)
        } else {
            init
        }
    }
}

/// The names of the selected flag tokens that carry no value, in input
/// order, duplicates kept.
pub open spec fn bool_flags_of(toks: Seq<TokenModel>, inc_short: bool, inc_long: bool) -> Seq<
    Seq<char>,
>
    decreases toks.len(),
{
    if toks.len() == 0 {
        Seq::empty()
    } else {
        let init = bool_flags_of(toks.drop_last(), inc_short, inc_long);
        let t = toks.last();
        if selected_flag(t, inc_short, inc_long) && t.name is Some && t.value is None {
            init.push(t.name->0)
        } else {
            init
        }
    }
}

/// The mapping from the selected flag tokens' names to their attached
/// values; a later occurrence of a name overwrites an earlier one.
pub open spec fn valued_flags_of(toks: Seq<TokenModel>, inc_short: bool, inc_long: bool) -> Map<
    Seq<char>,
    Seq<char>,
>
    decreases toks.len(),
{
    if toks.len() == 0 {
        Map::empty()
    } else {
        let m = valued_flags_of(toks.drop_last(), inc_short, inc_long);
        let t = toks.last();
        if selected_flag(t, inc_short, inc_long) && t.name is Some && t.value is Some {
            m.insert(t.name->0, t.value->0)
        } else {
            m
        }
    }
}

/// The mapping's contents at the specification level: each stored string
/// taken as its character sequence.
pub open spec fn string_views(m: Map<Seq<char>, String>) -> Map<Seq<char>, Seq<char>> {
    m.map_values(|v: String| v@)
}

/// Trait for extracting various types of flags and arguments from a
/// vector of Flag structs.
pub trait ExtractFromVecFlags: DeepView<V = Seq<TokenModel>> {
    /// Extracts arguments without associated flags.
    fn flagless_args(&self) -> (r: Vec<String>)
        ensures
            r.deep_view() == flagless_of(self.deep_view()),
    ;

    /// Extracts short boolean flags without arguments.
    fn short_bool_flags(&self) -> (r: Vec<String>)
        ensures
            r.deep_view() == bool_flags_of(self.deep_view(), true, false),
    ;

    /// Extracts long boolean flags without arguments.
    fn long_bool_flags(&self) -> (r: Vec<String>)
        ensures
            r.deep_view() == bool_flags_of(self.deep_view(), false, true),
    ;

    /// Extracts all boolean flags without arguments.
    fn all_bool_flags(&self) -> (r: Vec<String>)
        ensures
            r.deep_view() == bool_flags_of(self.deep_view(), true, true),
    ;

    /// Extracts short flags along with their associated arguments.
    fn short_flags_with_args(&self) -> (r: StringHashMap<String>)
        ensures
            string_views(r@) == valued_flags_of(self.deep_view(), true, false),
    ;

    /// Extracts long flags along with their associated arguments.
    fn long_flags_with_args(&self) -> (r: StringHashMap<String>)
        ensures
            string_views(r@) == valued_flags_of(self.deep_view(), false, true),
    ;

    /// Extracts all flags along with their associated arguments.
    fn all_flags_with_args(&self) -> (r: StringHashMap<String>)
        ensures
            string_views(r@) == valued_flags_of(self.deep_view(), true, true),
    ;
}

/// One pass over the tokens, keeping the names of the selected flags
/// that carry no value.
fn bool_flags_filtered(flags: &Vec<Flag>, inc_short: bool, inc_long: bool) -> (r: Vec<String>)
    ensures
        r.deep_view() == bool_flags_of(flags.deep_view(), inc_short, inc_long),
{
    let ghost toks = flags.deep_view();
    let mut out: Vec<String> = Vec::new();
    let mut i: usize = 0;
    proof {
        assert(out.deep_view() =~= bool_flags_of(toks.take(0), inc_short, inc_long));
    }
    while i < flags.len()
        invariant
            i <= flags.len(),
            toks == flags.deep_view(),
            out.deep_view() == bool_flags_of(toks.take(i as int), inc_short, inc_long),
        decreases flags.len() - i,
    {
        let flag_object = &flags[i];
        if (inc_short && flag_object.is_short) || (inc_long && flag_object.is_long) {
            if flag_object.arg.is_none() {
                match &flag_object.flag {
                    Some(name) => {
                        out.push(name.clone());
                    },
                    None => {},
                }
            }
        }
        proof {
            assert(toks.take(i as int + 1).drop_last() =~= toks.take(i as int));
            assert(toks.take(i as int + 1).last() == toks[i as int]);
            assert(out.deep_view() =~= bool_flags_of(toks.take(i as int + 1), inc_short, inc_long));
        }
        i = i + 1;
    }
    proof {
        assert(toks.take(flags.len() as int) =~= toks);
    }
    out
}

/// One pass over the tokens, mapping each selected flag's name to its
/// attached value; a later occurrence overwrites an earlier one.
fn valued_flags_filtered(flags: &Vec<Flag>, inc_short: bool, inc_long: bool) -> (r: StringHashMap<
    String,
>)
    ensures
        string_views(r@) == valued_flags_of(flags.deep_view(), inc_short, inc_long),
{
    let ghost toks = flags.deep_view();
    let mut out: StringHashMap<String> = StringHashMap::new();
    let mut i: usize = 0;
    proof {
        assert(string_views(out@) =~= valued_flags_of(toks.take(0), inc_short, inc_long));
    }
    while i < flags.len()
        invariant
            i <= flags.len(),
            toks == flags.deep_view(),
            string_views(out@) == valued_flags_of(toks.take(i as int), inc_short, inc_long),
        decreases flags.len() - i,
    {
        let flag_object = &flags[i];
        if (inc_short && flag_object.is_short) || (inc_long && flag_object.is_long) {
            match (&flag_object.flag, &flag_object.arg) {
                (Some(name), Some(value)) => {
                    out.insert(name.clone(), value.clone());
                },
                _ => {},
            }
        }
        proof {
            assert(toks.take(i as int + 1).drop_last() =~= toks.take(i as int));
            assert(toks.take(i as int + 1).last() == toks[i as int]);
            assert(string_views(out@) =~= valued_flags_of(
                toks.take(i as int + 1),
                inc_short,
                inc_long,
            ));
        }
        i = i + 1;
    }
    proof {
        assert(toks.take(flags.len() as int) =~= toks);
    }
    out
}

impl ExtractFromVecFlags for Vec<Flag> {
    fn flagless_args(&self) -> (r: Vec<String>) {
        let ghost toks = self.deep_view();
        let mut out: Vec<String> = Vec::new();
        let mut i: usize = 0;
        proof {
            assert(out.deep_view() =~= flagless_of(toks.take(0)));
        }
        while i < self.len()
            invariant
                i <= self.len(),
                toks == self.deep_view(),
                out.deep_view() == flagless_of(toks.take(i as int)),
            decreases self.len() - i,
        {
                let flag_object = &self[i];
            if !(flag_object.is_short || flag_object.is_long) {
                match &flag_object.arg {
                    Some(value) => {
                        out.push(value.clone());
                    },
                    None => {},
                }
            }
            proof {
                assert(toks.take(i as int + 1).drop_last() =~= toks.take(i as int));
                assert(toks.take(i as int + 1).last() == toks[i as int]);
                assert(out.deep_view() =~= flagless_of(toks.take(i as int + 1)));
            }
            i = i + 1;
        }
        proof {
            assert(toks.take(self.len() as int) =~= toks);
        }
        out
    }

    fn short_bool_flags(&self) -> (r: Vec<String>) {
        bool_flags_filtered(self, true, false)
    }

    fn long_bool_flags(&self) -> (r: Vec<String>) {
        bool_flags_filtered(self, false, true)
    }

    fn all_bool_flags(&self) -> (r: Vec<String>) {
        bool_flags_filtered(self, true, true)
    }

    fn short_flags_with_args(&self) -> (r: StringHashMap<String>) {
        valued_flags_filtered(self, true, false)
    }

    fn long_flags_with_args(&self) -> (r: StringHashMap<String>) {
        valued_flags_filtered(self, false, true)
    }

    fn all_flags_with_args(&self) -> (r: StringHashMap<String>) {
        valued_flags_filtered(self, true, true)
    }
}

} // verus!
