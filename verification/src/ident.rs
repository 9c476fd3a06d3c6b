use vstd::prelude::*;
use vstd::string::*;
use crate::text::{cat, chars_of};

verus! {

/// Whether `c`, a character beyond ASCII, has the Unicode property
/// `XID_Start`.
pub uninterp spec fn xid_start_beyond_ascii(c: char) -> bool;

/// Whether `c`, a character beyond ASCII, has the Unicode property
/// `XID_Continue`.
pub uninterp spec fn xid_continue_beyond_ascii(c: char) -> bool;

/// Whether `c` has the Unicode property `XID_Start`: among the ASCII
/// characters exactly the letters.
pub open spec fn xid_start(c: char) -> bool {
    if (c as u32) < 0x80 { ('a' <= c <= 'z') || ('A' <= c <= 'Z') } else { xid_start_beyond_ascii(c) }
}

/// Whether `c` has the Unicode property `XID_Continue`: among the ASCII
/// characters exactly the letters, the digits and `_`.
pub open spec fn xid_continue(c: char) -> bool {
    if (c as u32) < 0x80 {
        ('a' <= c <= 'z') || ('A' <= c <= 'Z') || ('0' <= c <= '9') || c == '_'
    } else {
        xid_continue_beyond_ascii(c)
    }
}

/// Tests `c` with `unicode_ident::is_xid_start`, which answers from the
/// Unicode tables of `XID_Start` (among ASCII, a bit mask of the letters).
#[verifier::external_body]
fn is_xid_start(c: char) -> (r: bool)
    ensures
        r == xid_start(c),
        (c as u32) >= 0x80 ==> r == xid_start_beyond_ascii(c),
{
    unicode_ident::is_xid_start(c)
}

/// Tests `c` with `unicode_ident::is_xid_continue`, which answers from the
/// Unicode tables of `XID_Continue` (among ASCII, a bit mask of the letters,
/// the digits and `_`).
#[verifier::external_body]
fn is_xid_continue(c: char) -> (r: bool)
    ensures
        r == xid_continue(c),
        (c as u32) >= 0x80 ==> r == xid_continue_beyond_ascii(c),
{
    unicode_ident::is_xid_continue(c)
}

/// Whether `s` can name an identifier of generated code: it is not empty, it
/// starts with `_` or an `XID_Start` character, and goes on with
/// `XID_Continue` characters (keywords included).
pub open spec fn ident_ok(s: Seq<char>) -> bool {
    &&& s.len() > 0
    &&& (s[0] == '_' || xid_start(s[0]))
    &&& forall|i: int| 1 <= i < s.len() ==> xid_continue(#[trigger] s[i])
}

/// Every character of `s` is an ASCII digit.
pub open spec fn all_ascii_digits(s: Seq<char>) -> bool {
    forall|i: int| 0 <= i < s.len() ==> '0' <= #[trigger] s[i] <= '9'
}

/// Why `s` cannot name an identifier: it is empty, it is a number, or it
/// holds a character that an identifier cannot (the string is quoted).
pub open spec fn ident_error(s: Seq<char>) -> Seq<char> {
    if s.len() == 0 {
        "Ident is not allowed to be empty; use Option<Ident>"@
    } else if all_ascii_digits(s) {
        "Ident cannot be a number; use Literal instead"@
    } else {
        "\""@ + s + "\" is not a valid Ident"@
    }
}

/// Why `s` cannot name an identifier (see `ident_error`), or nothing when it
/// can (see `ident_ok`).
pub fn ident_error_of(s: &str) -> (r: Option<String>)
    ensures
        r is None <==> ident_ok(s@),
        r matches Some(m) ==> m@ == ident_error(s@),
{
    let v = chars_of(s);
    if v.len() == 0 {
        return Some(String::from_str("Ident is not allowed to be empty; use Option<Ident>"));
    }
    let mut digits = true;
    let mut ok = v[0] == '_' || is_xid_start(v[0]);
    let mut i: usize = 0;
    while i < v.len()
        invariant
            v@ == s@,
            v@.len() > 0,
            i <= v@.len(),
            digits == (forall|j: int| 0 <= j < i ==> '0' <= #[trigger] v@[j] <= '9'),
            ok == ((v@[0] == '_' || xid_start(v@[0])) && forall|j: int| 1 <= j < i ==> xid_continue(#[trigger] v@[j])),
        decreases v.len() - i,
    {
        let c = v[i];
        if !('0' <= c && c <= '9') {
            digits = false;
        }
        if i >= 1 && !is_xid_continue(c) {
            ok = false;
        }
        proof {
            if ok {
                assert forall|j: int| 1 <= j < i + 1 implies xid_continue(#[trigger] v@[j]) by {
                    if j == i as int {
                        assert(v@[j] == c);
                    }
                }
            }
        }
        i = i + 1;
    }
    if ok {
        return None;
    }
    if digits {
        Some(String::from_str("Ident cannot be a number; use Literal instead"))
    } else {
        let q = cat("\"", s);
        proof {
            reveal_strlit("\"");
        }
        Some(cat(q.as_str(), "\" is not a valid Ident"))
    }
}

} // verus!
