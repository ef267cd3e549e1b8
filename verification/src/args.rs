//! The run's configuration values: which preprocessor drives the run,
//! which language the input is, and how the finished body is protected
//! against multiple inclusion.
use vstd::prelude::*;

use crate::text::{path_views, strs_views};
use crate::utils::merge;

verus! {

/// Which preprocessor executable drives the run.
#[derive(Clone, Copy, Debug, PartialEq, Eq, Structural)]
pub enum Preprocessor {
    Cpp,
    Gcc,
    Clang,
}

/// The executable name of each preprocessor.
pub open spec fn preprocessor_name(p: Preprocessor) -> Seq<char> {
    match p {
        Preprocessor::Cpp => "cpp"@,
        Preprocessor::Gcc => "gcc"@,
        Preprocessor::Clang => "clang"@,
    }
}

/// The arguments each preprocessor needs before any others.
pub open spec fn preprocessor_required_args(p: Preprocessor) -> Seq<Seq<char>> {
    match p {
        Preprocessor::Cpp => Seq::empty(),
        Preprocessor::Gcc => seq!["-E"@],
        Preprocessor::Clang => seq!["-E"@],
    }
}

impl Preprocessor {
    /// The name of the executable to invoke.
    pub fn as_str(&self) -> (r: &'static str)
        ensures
            r@ == preprocessor_name(*self),
    {
        match self {
            Preprocessor::Cpp => "cpp",
            Preprocessor::Gcc => "gcc",
            Preprocessor::Clang => "clang",
        }
    }

    /// The arguments the executable needs before any others: the
    /// compiler drivers must be told to only preprocess.
    pub fn required_args(&self) -> (r: Vec<&'static str>)
        ensures
            strs_views(r@) == preprocessor_required_args(*self),
    {
        match self {
            Preprocessor::Cpp => {
                let v: Vec<&'static str> = Vec::new();
                proof {
                    assert(strs_views(v@) =~= Seq::<Seq<char>>::empty());
                }
                v
            },
            Preprocessor::Gcc | Preprocessor::Clang => {
                let mut v: Vec<&'static str> = Vec::new();
                v.push("-E");
                proof {
                    assert(strs_views(v@) =~= seq!["-E"@]);
                }
                v
            },
        }
    }
}

/// The language the input file is preprocessed as.
#[derive(Clone, Copy, Debug, PartialEq, Eq, Structural)]
pub enum Lang {
    C,
    Cpp,
}

/// The name each language carries on the preprocessor's command line.
pub open spec fn lang_name(l: Lang) -> Seq<char> {
    match l {
        Lang::C => "c"@,
        Lang::Cpp => "c++"@,
    }
}

impl Lang {
    /// The language name for the preprocessor's `-x` option.
    pub fn as_str(&self) -> (r: &'static str)
        ensures
            r@ == lang_name(*self),
    {
        match self {
            Lang::C => "c",
            Lang::Cpp => "c++",
        }
    }
}

/// The base preprocessor arguments: whatever the executable requires,
/// the language selection, and the switch that prevents macro
/// expansion.
pub open spec fn base_args_spec(required: Seq<Seq<char>>, lang: Lang) -> Seq<Seq<char>> {
    required + seq!["-x"@, lang_name(lang), "-fdirectives-only"@]
}

/// Assembles the base preprocessor arguments.
pub fn base_args(required: Vec<&'static str>, lang: Lang) -> (r: Vec<&'static str>)
    ensures
        strs_views(r@) == base_args_spec(strs_views(required@), lang),
{
    let ghost req = strs_views(required@);
    let mut base: Vec<&'static str> = Vec::new();
    base.push("-x");
    base.push(lang.as_str());
    base.push("-fdirectives-only");
    proof {
        assert(strs_views(base@) =~= seq!["-x"@, lang_name(lang), "-fdirectives-only"@]);
    }
    let r = merge(required, base);
    proof {
        assert(strs_views(r@) =~= req + strs_views(base@));
    }
    r
}

/// What `str::to_uppercase` returns for a string. The result depends
/// on the characters alone.
pub uninterp spec fn upper_of(s: Seq<char>) -> Seq<char>;

/// Relies on `str::to_uppercase`: the Unicode uppercase mapping of the
/// string.
#[verifier::external_body]
fn to_uppercase(s: &str) -> (r: String)
    ensures
        r@ == upper_of(s@),
{
    s.to_uppercase()
}

/// What `char::is_alphanumeric` returns for a character.
pub uninterp spec fn alphanumeric_char(c: char) -> bool;

/// Relies on `char::is_alphanumeric`: whether the character is Unicode
/// alphabetic or numeric.
#[verifier::external_body]
fn is_alphanumeric_char(c: char) -> (r: bool)
    ensures
        r == alphanumeric_char(c),
{
    c.is_alphanumeric()
}

/// Relies on `String::from_iter` over characters: the string holding
/// exactly the given characters, in order.
#[verifier::external_body]
fn chars_to_string(v: &Vec<char>) -> (r: String)
    ensures
        r@ == v@,
{
    v.iter().collect()
}

/// A string made fit for a macro name: every character that is neither
/// alphanumeric nor an underscore becomes an underscore.
pub open spec fn sanitize_macro(s: Seq<char>) -> Seq<char> {
    s.map(
        |i: int, c: char|
            if alphanumeric_char(c) || c == '_' {
                c
            } else {
                '_'
            },
    )
}

/// The include-guard macro name derived from a file name: its uppercase
/// form, sanitized, with a suffix that keeps it clear of user-land
/// guards.
pub open spec fn guard_macro_name(filename: Seq<char>) -> Seq<char> {
    sanitize_macro(upper_of(filename)) + "_SINGLE_HEADER"@
}

/// Builds the include-guard macro name.
fn guard_macro(filename: &str) -> (r: String)
    ensures
        r@ == guard_macro_name(filename@),
{
    let up = to_uppercase(filename);
    let n = up.as_str().unicode_len();
    let mut chars: Vec<char> = Vec::new();
    let mut i: usize = 0;
    proof {
        assert(chars@ =~= sanitize_macro(up@.subrange(0, 0)));
    }
    while i < n
        invariant
            i <= n,
            n == up@.len(),
            up@ == upper_of(filename@),
            chars@ == sanitize_macro(up@.subrange(0, i as int)),
        decreases n - i,
    {
        let c = up.as_str().get_char(i);
        let keep = is_alphanumeric_char(c) || c == '_';
        chars.push(if keep {
            c
        } else {
            '_'
        });
        proof {
            assert(chars@ =~= sanitize_macro(up@.subrange(0, i as int + 1)));
        }
        i = i + 1;
    }
    proof {
        assert(up@.subrange(0, n as int) =~= up@);
    }
    let base = chars_to_string(&chars);
    base.concat("_SINGLE_HEADER")
}

/// How the finished body is protected against multiple inclusion.
#[derive(Clone, Copy, Debug, PartialEq, Eq, Structural)]
pub enum Protection {
    Ifndef,
    Once,
}

/// The finished output: the body wrapped in the chosen include guard,
/// so that it runs exactly once per compilation unit.
pub open spec fn protect_spec(p: Protection, body: Seq<Seq<char>>, filename: Seq<char>) -> Seq<
    Seq<char>,
> {
    match p {
        Protection::Once => seq!["#pragma once"@] + body,
        Protection::Ifndef => {
            let m = guard_macro_name(filename);
            seq!["#ifndef "@ + m, "# define "@ + m] + body + seq!["#endif // "@ + m]
        },
    }
}

impl Protection {
    /// Wraps the body lines in the chosen include guard; the guard
    /// stands before the body, and for `ifndef` also after it.
    pub fn protect(&self, body: Vec<String>, filename: String) -> (r: Vec<String>)
        ensures
            path_views(r@) == protect_spec(*self, path_views(body@), filename@),
    {
        let ghost bv = path_views(body@);
        match self {
            Protection::Once => {
                let mut out: Vec<String> = Vec::new();
                out.push(String::from_str("#pragma once"));
                let mut b = body;
                out.append(&mut b);
                proof {
                    assert(path_views(out@) =~= seq!["#pragma once"@] + bv);
                }
                out
            },
            Protection::Ifndef => {
                let m = guard_macro(filename.as_str());
                let l1 = String::from_str("#ifndef ").concat(m.as_str());
                let l2 = String::from_str("# define ").concat(m.as_str());
                let l3 = String::from_str("#endif // ").concat(m.as_str());
                let mut out: Vec<String> = Vec::new();
                out.push(l1);
                out.push(l2);
                let mut b = body;
                out.append(&mut b);
                out.push(l3);
                proof {
                    let mv = guard_macro_name(filename@);
                    assert(path_views(out@) =~= seq!["#ifndef "@ + mv, "# define "@ + mv] + bv
                        + seq!["#endif // "@ + mv]);
                }
                out
            },
        }
    }
}

} // verus!
