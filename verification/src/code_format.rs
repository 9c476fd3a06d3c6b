use vstd::prelude::*;
use crate::text::{chars_of, string_of};
use crate::util::{brackets, layout_braces};

verus! {

/// What `Regex::new(pattern)` and then `replace_all(text, rep)` of the
/// `regex` crate give (`text` itself where the pattern does not compile).
pub uninterp spec fn regex_replaced(pattern: Seq<char>, text: Seq<char>, rep: Seq<char>) -> Seq<char>;

/// Replaces every match of `pattern` in `text` with `rep`
/// (`regex::Regex::replace_all`); `text` is given back where the pattern does
/// not compile.
#[verifier::external_body]
fn replace_all(pattern: &str, text: &str, rep: &str) -> (r: String)
    ensures
        r@ == regex_replaced(pattern@, text@, rep@),
{
    match regex::Regex::new(pattern) {
        Ok(re) => re.replace_all(text, rep).to_string(),
        Err(_) => text.to_string(),
    }
}

/// The spaces before punctuation that generated code can do without.
pub const SPACE_LEFT: &'static str = r"(^|\w|\)) (:|::|<|>|;|\.|\(|,|&|})";

/// The spaces after punctuation that generated code can do without.
pub const SPACE_RIGHT: &'static str = r"(::|<|;|\.|\)|&|\{|}) (\w|\(|$)";

/// The replacement that keeps both sides of a match and drops the space.
pub const JOIN_SIDES: &'static str = "${1}${2}";

/// `s` from position `i` on with each `; ` turned into `;` and a line break
/// (matches taken from the left, as `str::replace` does).
pub open spec fn breaks_from(s: Seq<char>, i: int) -> Seq<char>
    decreases s.len() - i,
{
    if i < 0 || i >= s.len() {
        seq![]
    } else if i + 1 < s.len() && s[i] == ';' && s[i + 1] == ' ' {
        seq![';', '\n'] + breaks_from(s, i + 2)
    } else {
        seq![s[i]] + breaks_from(s, i + 1)
    }
}

/// `s` with each `; ` turned into `;` and a line break.
pub open spec fn semicolon_breaks(s: Seq<char>) -> Seq<char> {
    breaks_from(s, 0)
}

fn break_semicolons(s: &Vec<char>) -> (r: Vec<char>)
    ensures
        r@ == semicolon_breaks(s@),
{
    let mut out: Vec<char> = Vec::new();
    let mut i: usize = 0;
    proof {
        assert(out@ + breaks_from(s@, 0) =~= breaks_from(s@, 0));
    }
    while i < s.len()
        invariant
            i <= s@.len(),
            out@ + breaks_from(s@, i as int) == breaks_from(s@, 0),
        decreases s.len() - i,
    {
        let ghost o0 = out@;
        if i + 1 < s.len() && s[i] == ';' && s[i + 1] == ' ' {
            out.push(';');
            out.push('\n');
            proof {
                assert(o0 + breaks_from(s@, i as int) =~= out@ + breaks_from(s@, i + 2));
            }
            i = i + 2;
        } else {
            out.push(s[i]);
            proof {
                assert(o0 + breaks_from(s@, i as int) =~= out@ + breaks_from(s@, i + 1));
            }
            i = i + 1;
        }
    }
    proof {
        assert(breaks_from(s@, i as int) =~= Seq::<char>::empty());
        assert(out@ =~= out@ + breaks_from(s@, i as int));
    }
    out
}

/// Generated code laid out for reading: a line break after each `; `, the
/// spaces around punctuation dropped (first those after, then those before),
/// then the braces laid out (see `layout_braces`).
pub open spec fn formatted(s: Seq<char>) -> Seq<char> {
    layout_braces(regex_replaced(
        SPACE_LEFT@,
        regex_replaced(SPACE_RIGHT@, semicolon_breaks(s), JOIN_SIDES@),
        JOIN_SIDES@,
    ))
}

/// Lays out generated code for reading (see `formatted`).
pub fn format_code(s: String) -> (r: String)
    ensures
        r@ == formatted(s@),
{
    let cs = chars_of(s.as_str());
    let broken = string_of(&break_semicolons(&cs));
    let right = replace_all(SPACE_RIGHT, broken.as_str(), JOIN_SIDES);
    let left = replace_all(SPACE_LEFT, right.as_str(), JOIN_SIDES);
    brackets(left)
}

} // verus!
