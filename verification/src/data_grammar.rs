use vstd::prelude::*;
use vstd::string::*;
use crate::text::{chars_of, slice_chars, split_char, split_on, string_of};

verus! {

/// Whether the regex class `\d` holds `c`, a character beyond ASCII (a
/// Unicode decimal digit).
pub uninterp spec fn regex_digit_beyond_ascii(c: char) -> bool;

/// Whether the regex class `\w` holds `c`, a character beyond ASCII (a
/// Unicode word character).
pub uninterp spec fn regex_word_beyond_ascii(c: char) -> bool;

/// Whether the regex class `\d` (Unicode `Nd`) holds `c`: among the ASCII
/// characters exactly `0` to `9`.
pub open spec fn regex_digit(c: char) -> bool {
    if (c as u32) < 0x80 { '0' <= c <= '9' } else { regex_digit_beyond_ascii(c) }
}

/// Whether the regex class `\w` (Unicode alphabetic, marks, `Nd`, connector
/// punctuation and join controls) holds `c`: among the ASCII characters
/// exactly the letters, the digits and `_`.
pub open spec fn regex_word(c: char) -> bool {
    if (c as u32) < 0x80 {
        ('0' <= c <= '9') || ('a' <= c <= 'z') || ('A' <= c <= 'Z') || c == '_'
    } else {
        regex_word_beyond_ascii(c)
    }
}

/// Tests `c` against the class `\d` of the `regex` crate (`Regex::is_match` on
/// the one-character string); the documented class is Unicode `Nd`, which
/// holds exactly the digits `0` to `9` among the ASCII characters.
#[verifier::external_body]
fn is_regex_digit(c: char) -> (r: bool)
    ensures
        r == regex_digit(c),
        (c as u32) >= 0x80 ==> r == regex_digit_beyond_ascii(c),
{
    let mut buf = [0u8; 4];
    match regex::Regex::new(r"^\d$") {
        Ok(re) => re.is_match(c.encode_utf8(&mut buf)),
        Err(_) => false,
    }
}

/// Tests `c` against the class `\w` of the `regex` crate (`Regex::is_match` on
/// the one-character string); among the ASCII characters the documented class
/// holds exactly the letters, the digits and `_`.
#[verifier::external_body]
fn is_regex_word(c: char) -> (r: bool)
    ensures
        r == regex_word(c),
        (c as u32) >= 0x80 ==> r == regex_word_beyond_ascii(c),
{
    let mut buf = [0u8; 4];
    match regex::Regex::new(r"^\w$") {
        Ok(re) => re.is_match(c.encode_utf8(&mut buf)),
        Err(_) => false,
    }
}

/// `s[lo..hi]` is one or more digits.
pub open spec fn digits_in(s: Seq<char>, lo: int, hi: int) -> bool {
    0 <= lo < hi <= s.len() && forall|i: int| lo <= i < hi ==> #[trigger] regex_digit(s[i])
}

/// `s[a..]` is digits, `_`, digits.
pub open spec fn index_pair_from(s: Seq<char>, a: int) -> bool {
    exists|k: int| a < k < s.len() - 1 && s[k] == '_' && #[trigger] digits_in(s, a, k) && digits_in(s, k + 1, s.len() as int)
}

/// `s[a..]` is `p`, digits, `_`, digits (such as `c0_3`).
pub open spec fn var_at(s: Seq<char>, a: int, p: char) -> bool {
    0 <= a < s.len() && s[a] == p && index_pair_from(s, a + 1)
}

/// `s` is `p`, digits, `_`, digits.
pub open spec fn var_token(s: Seq<char>, p: char) -> bool {
    var_at(s, 0, p)
}

/// `s` is component tokens joined by `-`.
pub open spec fn comp_list(s: Seq<char>) -> bool {
    forall|i: int| 0 <= i < split_on(s, '-').len() ==> #[trigger] var_token(split_on(s, '-')[i], 'c')
}

/// The length of the prefix of a label token before its components: `l`, an
/// optional `!`, and `|` or `&`.
pub open spec fn label_head(s: Seq<char>) -> int {
    if s.len() >= 2 && s[1] == '!' { 3 } else { 2 }
}

/// `s` is `l`, an optional `!`, `|` or `&`, and a component list.
pub open spec fn label_token(s: Seq<char>) -> bool {
    let h = label_head(s);
    &&& s.len() > h
    &&& s[0] == 'l'
    &&& s[h - 1] == '|' || s[h - 1] == '&'
    &&& comp_list(s.skip(h))
}

/// `s` is `id`, or an optional `m` and a component token.
pub open spec fn vec_item(s: Seq<char>) -> bool {
    s == "id"@ || var_token(s, 'c') || (s.len() > 0 && s[0] == 'm' && var_at(s, 1, 'c'))
}

/// `s` is `v` and container items joined by `-`.
pub open spec fn vector_token(s: Seq<char>) -> bool {
    &&& s.len() > 0
    &&& s[0] == 'v'
    &&& forall|i: int| 0 <= i < split_on(s.skip(1), '-').len() ==> #[trigger] vec_item(split_on(s.skip(1), '-')[i])
}

/// `s` is one argument of a system's data: an entity id, a component, global or
/// event token, a label or a container.
pub open spec fn arg_token(s: Seq<char>) -> bool {
    s == "id"@ || var_token(s, 'c') || var_token(s, 'g') || var_token(s, 'e') || label_token(s) || vector_token(s)
}

/// The position of the first `c` in `s`.
pub open spec fn first_of(s: Seq<char>, c: char) -> Option<int> {
    crate::util::find_from(s, c, 0)
}

/// The first `p` characters of `s` are word characters.
pub open spec fn all_word_prefix(s: Seq<char>, p: int) -> bool {
    forall|i: int| 0 <= i < p ==> #[trigger] regex_word(s[i])
}

/// `args` is empty or argument tokens joined by `:`.
pub open spec fn args_valid(args: Seq<char>) -> bool {
    args.len() == 0 || forall|i: int| 0 <= i < split_on(args, ':').len() ==> #[trigger] arg_token(split_on(args, ':')[i])
}

/// The name, the argument list and the init mark of a system's data, when it is
/// well formed: word characters, `(`, arguments joined by `:`, `)`, and `i` for
/// an init system.
pub open spec fn system_parts(s: Seq<char>) -> Option<(Seq<char>, Seq<char>, bool)> {
    match first_of(s, '(') {
        None => None,
        Some(p) => {
            let name = s.take(p);
            let rest = s.skip(p + 1);
            let (args, init) = if rest.len() >= 1 && rest.last() == ')' {
                (rest.drop_last(), false)
            } else {
                (rest.take(rest.len() - 2), true)
            };
            let ends_well = (rest.len() >= 1 && rest.last() == ')') || (rest.len() >= 2 && rest[rest.len() - 2] == ')' && rest.last() == 'i');
            if p > 0 && all_word_prefix(s, p) && ends_well && args_valid(args) {
                Some((name, args, init))
            } else {
                None
            }
        },
    }
}

pub(crate) fn digits_exec(s: &Vec<char>, lo: usize, hi: usize) -> (r: bool)
    ensures
        r == digits_in(s@, lo as int, hi as int),
{
    if !(lo < hi && hi <= s.len()) {
        return false;
    }
    let mut i = lo;
    while i < hi
        invariant
            lo <= i <= hi <= s@.len(),
            forall|j: int| lo <= j < i ==> #[trigger] regex_digit(s@[j]),
        decreases hi - i,
    {
        if !is_regex_digit(s[i]) {
            return false;
        }
        i = i + 1;
    }
    true
}

fn index_pair_exec(s: &Vec<char>, a: usize) -> (r: bool)
    ensures
        r == index_pair_from(s@, a as int),
{
    if a >= s.len() {
        return false;
    }
    let mut k = a + 1;
    while k < s.len() - 1
        invariant
            a < k <= s@.len(),
            a < s@.len(),
            forall|j: int| a < j < k ==> !(s@[j] == '_' && #[trigger] digits_in(s@, a as int, j) && digits_in(s@, j + 1, s@.len() as int)),
        decreases s.len() - k,
    {
        if s[k] == '_' && digits_exec(s, a, k) && digits_exec(s, k + 1, s.len()) {
            return true;
        }
        k = k + 1;
    }
    false
}

pub(crate) fn var_exec(s: &Vec<char>, a: usize, p: char) -> (r: bool)
    ensures
        r == var_at(s@, a as int, p),
{
    if a >= s.len() || s[a] != p {
        return false;
    }
    index_pair_exec(s, a + 1)
}

fn comp_list_exec(s: &str) -> (r: bool)
    ensures
        r == comp_list(s@),
{
    let pieces = split_char(s, '-');
    let mut i: usize = 0;
    while i < pieces.len()
        invariant
            i <= pieces@.len(),
            pieces.deep_view() == split_on(s@, '-'),
            forall|j: int| 0 <= j < i ==> #[trigger] var_token(split_on(s@, '-')[j], 'c'),
        decreases pieces.len() - i,
    {
        let v = chars_of(pieces[i].as_str());
        proof {
            assert(pieces.deep_view()[i as int] == pieces@[i as int]@);
        }
        if !var_exec(&v, 0, 'c') {
            assert(!var_token(split_on(s@, '-')[i as int], 'c'));
            return false;
        }
        i = i + 1;
    }
    true
}


/// The characters `s[from..]` as a string.
pub fn tail_string(s: &Vec<char>, from: usize) -> (r: String)
    requires
        from <= s.len(),
    ensures
        r@ == s@.skip(from as int),
{
    let t = slice_chars(s, from, s.len());
    string_of(&t)
}

pub(crate) fn is_id(v: &Vec<char>) -> (r: bool)
    ensures
        r == (v@ == "id"@),
{
    proof {
        reveal_strlit("id");
    }
    let r = v.len() == 2 && v[0] == 'i' && v[1] == 'd';
    proof {
        if r {
            assert(v@ =~= "id"@);
        }
    }
    r
}

/// Whether `s` is a label token.
pub fn label_token_exec(s: &str) -> (r: bool)
    ensures
        r == label_token(s@),
{
    let v = chars_of(s);
    let h: usize = if v.len() >= 2 && v[1] == '!' { 3 } else { 2 };
    if v.len() <= h || v[0] != 'l' || !(v[h - 1] == '|' || v[h - 1] == '&') {
        return false;
    }
    let rest = tail_string(&v, h);
    comp_list_exec(rest.as_str())
}

fn vec_item_exec(s: &str) -> (r: bool)
    ensures
        r == vec_item(s@),
{
    let v = chars_of(s);
    if is_id(&v) {
        return true;
    }
    if var_exec(&v, 0, 'c') {
        return true;
    }
    v.len() > 0 && v[0] == 'm' && var_exec(&v, 1, 'c')
}

/// Whether `s` is a container token.
pub fn vector_token_exec(s: &str) -> (r: bool)
    ensures
        r == vector_token(s@),
{
    let v = chars_of(s);
    if v.len() == 0 || v[0] != 'v' {
        return false;
    }
    let rest = tail_string(&v, 1);
    let pieces = split_char(rest.as_str(), '-');
    let mut i: usize = 0;
    while i < pieces.len()
        invariant
            i <= pieces@.len(),
            rest@ == s@.skip(1),
            pieces.deep_view() == split_on(s@.skip(1), '-'),
            forall|j: int| 0 <= j < i ==> #[trigger] vec_item(split_on(s@.skip(1), '-')[j]),
        decreases pieces.len() - i,
    {
        proof {
            assert(pieces.deep_view()[i as int] == pieces@[i as int]@);
        }
        if !vec_item_exec(pieces[i].as_str()) {
            assert(!vec_item(split_on(s@.skip(1), '-')[i as int]));
            return false;
        }
        i = i + 1;
    }
    true
}

/// Whether `s` is an argument token.
pub fn arg_token_exec(s: &str) -> (r: bool)
    ensures
        r == arg_token(s@),
{
    let v = chars_of(s);
    is_id(&v) || var_exec(&v, 0, 'c') || var_exec(&v, 0, 'g') || var_exec(&v, 0, 'e') || label_token_exec(s)
        || vector_token_exec(s)
}

pub(crate) fn all_word(v: &Vec<char>, p: usize) -> (r: bool)
    requires
        p <= v.len(),
    ensures
        r == all_word_prefix(v@, p as int),
{
    let mut i: usize = 0;
    while i < p
        invariant
            i <= p <= v@.len(),
            forall|j: int| 0 <= j < i ==> #[trigger] regex_word(v@[j]),
        decreases p - i,
    {
        if !is_regex_word(v[i]) {
            return false;
        }
        i = i + 1;
    }
    true
}

fn args_ok_exec(args: &str) -> (r: bool)
    ensures
        r == args_valid(args@),
{
    if args.unicode_len() == 0 {
        return true;
    }
    let pieces = split_char(args, ':');
    let mut i: usize = 0;
    while i < pieces.len()
        invariant
            args@.len() > 0,
            i <= pieces@.len(),
            pieces.deep_view() == split_on(args@, ':'),
            forall|j: int| 0 <= j < i ==> #[trigger] arg_token(split_on(args@, ':')[j]),
        decreases pieces.len() - i,
    {
        proof {
            assert(pieces.deep_view()[i as int] == pieces@[i as int]@);
        }
        if !arg_token_exec(pieces[i].as_str()) {
            assert(!arg_token(split_on(args@, ':')[i as int]));
            return false;
        }
        i = i + 1;
    }
    true
}

/// The name, the argument list and the init mark of a system's data, when it is
/// well formed (see `system_parts`).
pub fn system_parts_exec(s: &str) -> (r: Option<(String, String, bool)>)
    ensures
        match r {
            Some((name, args, init)) => system_parts(s@) == Some((name@, args@, init)),
            None => system_parts(s@) is None,
        },
{
    let v = chars_of(s);
    let p = match crate::util::find_char(&v, '(', 0) {
        Some(p) => p,
        None => return None,
    };
    if p == 0 || !all_word(&v, p) {
        return None;
    }
    let n = v.len();
    let rest_len = n - (p + 1);
    let (args_end, init) = if rest_len >= 1 && v[n - 1] == ')' {
        (n - 1, false)
    } else if rest_len >= 2 && v[n - 2] == ')' && v[n - 1] == 'i' {
        (n - 2, true)
    } else {
        return None;
    };
    let args_v = slice_chars(&v, p + 1, args_end);
    let args = string_of(&args_v);
    let name_v = slice_chars(&v, 0, p);
    let name = string_of(&name_v);
    proof {
        let rest = s@.skip(p + 1);
        assert(rest.len() == rest_len);
        if !init {
            assert(rest.drop_last() =~= args@);
        } else {
            assert(rest.take(rest.len() - 2) =~= args@);
        }
        assert(s@.take(p as int) =~= name@);
        assert(first_of(s@, '(') == Some(p as int));
    }
    proof {
            let rest = s@.skip(p + 1);
            assert((rest.len() >= 1 && rest.last() == ')') || (rest.len() >= 2 && rest[rest.len() - 2] == ')' && rest.last() == 'i'));
            let (a2, i2) = if rest.len() >= 1 && rest.last() == ')' {
                (rest.drop_last(), false)
            } else {
                (rest.take(rest.len() - 2), true)
            };
            assert(a2 == args@);
            assert(i2 == init);
    }
    let ok = args_ok_exec(args.as_str());
    proof {
        let rest = s@.skip(p + 1);
        let (a2, i2) = if rest.len() >= 1 && rest.last() == ')' {
            (rest.drop_last(), false)
        } else {
            (rest.take(rest.len() - 2), true)
        };
        assert(a2 == args@);
        if ok {
            assert(system_parts(s@) == Some((s@.take(p as int), a2, i2)));
        } else {
            assert(system_parts(s@) is None);
        }
    }
    if ok {
        Some((name, args, init))
    } else {
        None
    }
}

} // verus!
