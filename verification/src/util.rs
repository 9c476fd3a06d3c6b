use vstd::prelude::*;

verus! {

/// `v.len()` less `off`, or zero when `off` is larger.
pub fn end<T>(v: &Vec<T>, off: usize) -> (r: usize)
    ensures
        r == if v.len() >= off { v.len() - off } else { 0 },
{
    if v.len() >= off { v.len() - off } else { 0 }
}


/// The value of a result that holds one either way.
pub trait Get<T> {
    fn get(self) -> T;
}

impl<T> Get<T> for Result<T, T> {
    /// The value, whether `Ok` or `Err`.
    fn get(self) -> (r: T)
        ensures
            r == (match self {
                Ok(t) => t,
                Err(t) => t,
            }),
    {
        match self {
            Ok(t) => t,
            Err(t) => t,
        }
    }
}

} // verus!

verus! {

/// The path keyword that steps up one module.
pub open spec fn super_kw() -> Seq<char> {
    seq!['s', 'u', 'p', 'e', 'r']
}

/// The prefix of `s` that leaves its last element out (empty for an empty `s`).
pub open spec fn without_last<A>(s: Seq<A>) -> Seq<A> {
    if s.len() == 0 { s } else { s.drop_last() }
}

/// The module path that `path` names when written inside the module `parent`:
/// each `super` steps up one module (from `parent` itself when nothing has been
/// named yet), every other segment is appended.
pub open spec fn vec_path(parent: Seq<Seq<char>>, path: Seq<Seq<char>>) -> Seq<Seq<char>>
    decreases path.len(),
{
    if path.len() == 0 {
        seq![]
    } else {
        let prev = vec_path(parent, path.drop_last());
        if path.last() == super_kw() {
            if prev.len() == 0 { without_last(parent) } else { prev.drop_last() }
        } else {
            prev.push(path.last())
        }
    }
}

/// The first `n` strings of `v`, copied.
pub fn take_strings(v: &Vec<String>, n: usize) -> (r: Vec<String>)
    requires
        n <= v.len(),
    ensures
        r.deep_view() == v.deep_view().take(n as int),
{
    let mut r: Vec<String> = Vec::new();
    let mut i: usize = 0;
    while i < n
        invariant
            n <= v.len(),
            i <= n,
            r@.len() == i,
            r.deep_view() == v.deep_view().take(i as int),
        decreases n - i,
    {
        let ghost old_r = r@;
        let c = v[i].clone();
        r.push(c);
        proof {
            assert(r@ == old_r.push(v@[i as int]));
            assert forall|j: int| 0 <= j < i + 1 implies r.deep_view()[j] == v.deep_view().take(i + 1)[j] by {
                if j < i {
                    assert(r@[j] == old_r[j]);
                }
            }
            assert(r.deep_view() =~= v.deep_view().take(i + 1));
        }
        i = i + 1;
    }
    r
}

/// Resolves the `super` segments of a use path written in module `parent_path`.
pub fn parse_vec_path(parent_path: &Vec<String>, path: &Vec<String>) -> (res: Vec<String>)
    ensures
        res.deep_view() == vec_path(parent_path.deep_view(), path.deep_view()),
{
    let mut res_path: Vec<String> = Vec::new();
    let mut i: usize = 0;
    while i < path.len()
        invariant
            i <= path.len(),
            res_path@.len() == res_path.deep_view().len(),
            res_path.deep_view() == vec_path(parent_path.deep_view(), path.deep_view().take(i as int)),
        decreases path.len() - i,
    {
        let p = &path[i];
        proof {
            assert(path.deep_view().take(i + 1).drop_last() =~= path.deep_view().take(i as int));
            reveal_strlit("super");
            assert("super"@ =~= super_kw());
        }
        let ghost prev = res_path@;
        assert(path.deep_view().take(i + 1).last() == p@);
        if crate::text::str_eq(p.as_str(), "super") {
            if res_path.len() == 0 {
                let k = end(parent_path, 1);
                res_path = take_strings(parent_path, k);
                proof {
                    assert(res_path.deep_view() =~= without_last(parent_path.deep_view()));
                    assert(res_path.deep_view() == vec_path(parent_path.deep_view(), path.deep_view().take(i + 1)));
                }
            } else {
                res_path.pop();
                proof {
                    assert(res_path@ == prev.drop_last());
                    assert forall|j: int| 0 <= j < res_path@.len() implies res_path.deep_view()[j] == vec_path(parent_path.deep_view(), path.deep_view().take(i as int)).drop_last()[j] by {
                        assert(res_path@[j] == prev[j]);
                    }
                    assert(res_path.deep_view() =~= vec_path(parent_path.deep_view(), path.deep_view().take(i as int)).drop_last());
                    assert(res_path.deep_view() == vec_path(parent_path.deep_view(), path.deep_view().take(i + 1)));
                }
            }
        } else {
            let c = p.clone();
            res_path.push(c);
            proof {
                assert(res_path@ == prev.push(c));
                assert forall|j: int| 0 <= j < prev.len() implies res_path.deep_view()[j] == vec_path(parent_path.deep_view(), path.deep_view().take(i as int))[j] by {
                    assert(res_path@[j] == prev[j]);
                }
                assert(res_path.deep_view() =~= vec_path(parent_path.deep_view(), path.deep_view().take(i as int)).push(p@));
                assert(res_path.deep_view() == vec_path(parent_path.deep_view(), path.deep_view().take(i + 1)));
            }
        }
        i = i + 1;
    }
    proof {
        assert(path.deep_view().take(path.len() as int) =~= path.deep_view());
    }
    res_path
}

} // verus!

verus! {

/// The position of the first `c` in `s` at or after `i`.
pub open spec fn find_from(s: Seq<char>, c: char, i: int) -> Option<int>
    decreases s.len() - i,
{
    if i < 0 || i >= s.len() {
        None
    } else if s[i] == c {
        Some(i)
    } else {
        find_from(s, c, i + 1)
    }
}

/// Scanning `s` from position `i` with `depth` braces opened, the position of the
/// `}` that closes the first `{`: each `{` opens one more level, a `}` at depth
/// one is the match, a `}` at a deeper level closes one, and a `}` before any
/// `{` is passed over.
pub open spec fn closing_brace(s: Seq<char>, i: int, depth: nat) -> Option<int>
    decreases s.len() - i,
{
    if i < 0 || i >= s.len() {
        None
    } else if s[i] == '{' {
        closing_brace(s, i + 1, depth + 1)
    } else if s[i] == '}' {
        if depth == 1 {
            Some(i)
        } else {
            closing_brace(s, i + 1, if depth > 0 { (depth - 1) as nat } else { 0 })
        }
    } else {
        closing_brace(s, i + 1, depth)
    }
}

/// `s` with a tab after every line break.
pub open spec fn indent(s: Seq<char>) -> Seq<char>
    decreases s.len(),
{
    if s.len() == 0 {
        seq![]
    } else {
        indent(s.drop_last()) + if s.last() == '\n' { seq!['\n', '\t'] } else { seq![s.last()] }
    }
}

/// The layout of a block body: nothing when it is blank, else the body on lines
/// of its own, indented by one tab.
pub open spec fn block_body(inner: Seq<char>) -> Seq<char> {
    if crate::text::all_whitespace(indent(inner)) {
        seq![]
    } else {
        seq!['\n', '\t'] + indent(inner) + seq!['\n']
    }
}

/// The line break that follows a closing brace at `r`: one when another `}`
/// follows later but not directly.
pub open spec fn break_after(s: Seq<char>, r: int) -> Seq<char> {
    match find_from(s, '}', r + 1) {
        Some(k) => if k != r + 1 { seq!['\n'] } else { seq![] },
        None => seq![],
    }
}

/// Code laid out by its braces: the body of the first balanced `{ .. }` block is
/// laid out in turn and put on indented lines of its own, and the text after the
/// block is laid out the same way. Text without a `{`, or whose first `{` is never
/// closed, is left as it is.
pub open spec fn layout_braces(s: Seq<char>) -> Seq<char>
    decreases s.len(),
{
    match find_from(s, '{', 0) {
        None => s,
        Some(l) => match closing_brace(s, 0, 0) {
            None => s,
            Some(r) => if 0 <= l < r < s.len() {
                s.subrange(0, l) + seq!['{'] + block_body(layout_braces(s.subrange(l + 1, r)))
                    + seq!['}'] + break_after(s, r) + layout_braces(s.subrange(r + 1, s.len() as int))
            } else {
                s
            },
        },
    }
}

proof fn lemma_find_from_bounds(s: Seq<char>, c: char, i: int)
    requires
        0 <= i,
    ensures
        find_from(s, c, i) matches Some(k) ==> i <= k < s.len() && s[k] == c
            && forall|j: int| i <= j < k ==> s[j] != c,
        find_from(s, c, i) is None ==> forall|j: int| i <= j < s.len() ==> s[j] != c,
    decreases s.len() - i,
{
    if 0 <= i < s.len() && s[i] != c {
        lemma_find_from_bounds(s, c, i + 1);
    }
}

proof fn lemma_closing_after_open(s: Seq<char>, i: int, depth: nat, l: int)
    requires
        0 <= i,
        depth == 0 ==> (i <= l && find_from(s, '{', i) == Some(l)),
        depth > 0 ==> l < i,
    ensures
        closing_brace(s, i, depth) matches Some(r) ==> l < r < s.len(),
    decreases s.len() - i,
{
    if i < s.len() {
        lemma_find_from_bounds(s, '{', i);
        if s[i] == '{' {
            lemma_closing_after_open(s, i + 1, depth + 1, l);
        } else if s[i] == '}' {
            if depth != 1 {
                let d: nat = if depth > 0 { (depth - 1) as nat } else { 0 };
                if d == 0 && depth == 0 {
                    assert(find_from(s, '{', i + 1) == Some(l));
                }
                lemma_closing_after_open(s, i + 1, d, l);
            }
        } else {
            if depth == 0 {
                assert(find_from(s, '{', i + 1) == Some(l));
            }
            lemma_closing_after_open(s, i + 1, depth, l);
        }
    }
}


/// The characters of `s` that are not white space, in order.
pub open spec fn visible_chars(s: Seq<char>) -> Seq<char>
    decreases s.len(),
{
    if s.len() == 0 {
        seq![]
    } else {
        visible_chars(s.drop_last()) + if crate::text::char_is_whitespace(s.last()) { seq![] } else { seq![s.last()] }
    }
}

proof fn lemma_visible_add(a: Seq<char>, b: Seq<char>)
    ensures
        visible_chars(a + b) == visible_chars(a) + visible_chars(b),
    decreases b.len(),
{
    if b.len() == 0 {
        assert(a + b =~= a);
        assert(visible_chars(a) + visible_chars(b) =~= visible_chars(a));
    } else {
        lemma_visible_add(a, b.drop_last());
        assert((a + b).drop_last() =~= a + b.drop_last());
        assert((a + b).last() == b.last());
        assert(visible_chars(a + b) =~= visible_chars(a) + visible_chars(b));
    }
}

proof fn lemma_visible_single(c: char)
    ensures
        visible_chars(seq![c]) == if crate::text::char_is_whitespace(c) { Seq::<char>::empty() } else { seq![c] },
{
    assert(seq![c].drop_last() =~= Seq::<char>::empty());
    assert(seq![c].last() == c);
    assert(visible_chars(Seq::<char>::empty()) =~= Seq::<char>::empty());
    if crate::text::char_is_whitespace(c) {
        assert(visible_chars(seq![c]) =~= Seq::<char>::empty());
    } else {
        assert(visible_chars(seq![c]) =~= seq![c]);
    }
}

/// Line breaks and tabs are white space.
proof fn lemma_visible_nl_tab()
    ensures
        visible_chars(seq!['\n']) == Seq::<char>::empty(),
        visible_chars(seq!['\n', '\t']) == Seq::<char>::empty(),
{
    lemma_visible_single('\n');
    lemma_visible_single('\t');
    assert(crate::text::char_is_whitespace('\n'));
    assert(crate::text::char_is_whitespace('\t'));
    lemma_visible_add(seq!['\n'], seq!['\t']);
    assert(seq!['\n'] + seq!['\t'] =~= seq!['\n', '\t']);
}

proof fn lemma_visible_indent(x: Seq<char>)
    ensures
        visible_chars(indent(x)) == visible_chars(x),
    decreases x.len(),
{
    if x.len() > 0 {
        lemma_visible_indent(x.drop_last());
        let tail = if x.last() == '\n' { seq!['\n', '\t'] } else { seq![x.last()] };
        lemma_visible_add(indent(x.drop_last()), tail);
        lemma_visible_nl_tab();
        lemma_visible_single(x.last());
        if x.last() == '\n' {
            assert(crate::text::char_is_whitespace('\n'));
        }
    }
}

proof fn lemma_visible_blank(s: Seq<char>)
    requires
        crate::text::all_whitespace(s),
    ensures
        visible_chars(s) == Seq::<char>::empty(),
    decreases s.len(),
{
    if s.len() > 0 {
        assert(crate::text::char_is_whitespace(s[s.len() - 1]));
        lemma_visible_blank(s.drop_last());
    }
}

proof fn lemma_closing_is_brace(s: Seq<char>, i: int, depth: nat)
    ensures
        closing_brace(s, i, depth) matches Some(r) ==> 0 <= r < s.len() && s[r] == '}',
    decreases s.len() - i,
{
    if 0 <= i < s.len() {
        if s[i] == '{' {
            lemma_closing_is_brace(s, i + 1, depth + 1);
        } else if s[i] == '}' {
            if depth != 1 {
                lemma_closing_is_brace(s, i + 1, if depth > 0 { (depth - 1) as nat } else { 0 });
            }
        } else {
            lemma_closing_is_brace(s, i + 1, depth);
        }
    }
}

/// Laying out code by its braces changes only white space: what is not white
/// space stays, in order, and nothing else comes in.
pub proof fn lemma_layout_keeps_code(s: Seq<char>)
    ensures
        visible_chars(layout_braces(s)) == visible_chars(s),
    decreases s.len(),
{
    if let Some(l) = find_from(s, '{', 0) {
        if let Some(r) = closing_brace(s, 0, 0) {
            if 0 <= l < r < s.len() {
                lemma_find_from_bounds(s, '{', 0);
                lemma_closing_is_brace(s, 0, 0);
                let a = s.subrange(0, l);
                let b = s.subrange(l + 1, r);
                let c = s.subrange(r + 1, s.len() as int);
                let lb = layout_braces(b);
                let body = block_body(lb);
                let brk = break_after(s, r);
                lemma_layout_keeps_code(b);
                lemma_layout_keeps_code(c);
                lemma_visible_indent(lb);
                assert(visible_chars(body) == visible_chars(b)) by {
                    if crate::text::all_whitespace(indent(lb)) {
                        lemma_visible_blank(indent(lb));
                    } else {
                        lemma_visible_add(seq!['\n', '\t'], indent(lb));
                        lemma_visible_add(seq!['\n', '\t'] + indent(lb), seq!['\n']);
                        lemma_visible_nl_tab();
                    }
                }
                assert(visible_chars(brk) == Seq::<char>::empty()) by {
                    lemma_visible_nl_tab();
                    if brk.len() > 0 {
                        assert(brk =~= seq!['\n']);
                    } else {
                        assert(brk =~= Seq::<char>::empty());
                    }
                }
                lemma_visible_single('{');
                lemma_visible_single('}');
                // the layout, piece by piece
                lemma_visible_add(a, seq!['{']);
                lemma_visible_add(a + seq!['{'], body);
                lemma_visible_add(a + seq!['{'] + body, seq!['}']);
                lemma_visible_add(a + seq!['{'] + body + seq!['}'], brk);
                lemma_visible_add(a + seq!['{'] + body + seq!['}'] + brk, layout_braces(c));
                // the input, piece by piece
                assert(s =~= a + seq!['{'] + b + seq!['}'] + c);
                lemma_visible_add(a + seq!['{'], b);
                lemma_visible_add(a + seq!['{'] + b, seq!['}']);
                lemma_visible_add(a + seq!['{'] + b + seq!['}'], c);
            }
        }
    }
}

} // verus!

verus! {

/// The position of the first `c` in `s` at or after `i`.
pub fn find_char(s: &Vec<char>, c: char, i: usize) -> (r: Option<usize>)
    ensures
        r is None <==> find_from(s@, c, i as int) is None,
        r matches Some(k) ==> i <= k < s.len() && find_from(s@, c, i as int) == Some(k as int),
{
    let mut j: usize = i;
    while j < s.len()
        invariant
            i <= j,
            find_from(s@, c, i as int) == find_from(s@, c, j as int),
        decreases s.len() - j,
    {
        if s[j] == c {
            return Some(j);
        }
        j = j + 1;
    }
    None
}

/// The position of the `}` that closes the first `{` of `s`.
pub fn closing_brace_of(s: &Vec<char>) -> (r: Option<usize>)
    ensures
        r is None <==> closing_brace(s@, 0, 0) is None,
        r matches Some(k) ==> k < s.len() && closing_brace(s@, 0, 0) == Some(k as int),
{
    let mut i: usize = 0;
    let mut depth: usize = 0;
    while i < s.len()
        invariant
            depth <= i <= s.len(),
            closing_brace(s@, 0, 0) == closing_brace(s@, i as int, depth as nat),
        decreases s.len() - i,
    {
        if s[i] == '{' {
            depth = depth + 1;
        } else if s[i] == '}' {
            if depth == 1 {
                return Some(i);
            } else if depth > 0 {
                depth = depth - 1;
            }
        }
        i = i + 1;
    }
    None
}

/// `s` with a tab after every line break.
pub fn indent_chars(s: &Vec<char>) -> (r: Vec<char>)
    ensures
        r@ == indent(s@),
{
    let mut r: Vec<char> = Vec::new();
    let mut i: usize = 0;
    while i < s.len()
        invariant
            i <= s.len(),
            r@ == indent(s@.subrange(0, i as int)),
        decreases s.len() - i,
    {
        proof {
            assert(s@.subrange(0, i + 1).drop_last() =~= s@.subrange(0, i as int));
        }
        r.push(s[i]);
        if s[i] == '\n' {
            r.push('\t');
        }
        proof {
            let t = s@.subrange(0, i + 1);
            if s[i as int] == '\n' {
                assert(r@ =~= indent(t.drop_last()) + seq!['\n', '\t']);
            } else {
                assert(r@ =~= indent(t.drop_last()) + seq![t.last()]);
            }
        }
        i = i + 1;
    }
    proof {
        assert(s@.subrange(0, s@.len() as int) =~= s@);
    }
    r
}

/// Lays out code by its braces (see `layout_braces`).
pub fn brackets_chars(s: &Vec<char>) -> (r: Vec<char>)
    ensures
        r@ == layout_braces(s@),
    decreases s.len(),
{
    let l = match find_char(s, '{', 0) {
        None => {
            proof {
                assert(s@.subrange(0, s@.len() as int) =~= s@);
            }
            return crate::text::slice_chars(s, 0, s.len());
        },
        Some(l) => l,
    };
    let r = match closing_brace_of(s) {
        None => {
            proof {
                assert(s@.subrange(0, s@.len() as int) =~= s@);
            }
            return crate::text::slice_chars(s, 0, s.len());
        },
        Some(r) => r,
    };
    proof {
        lemma_closing_after_open(s@, 0, 0, l as int);
    }
    let inner = crate::text::slice_chars(s, l + 1, r);
    let mid = indent_chars(&brackets_chars(&inner));
    let mut out = crate::text::slice_chars(s, 0, l);
    out.push('{');
    if !crate::text::trims_to_empty(&mid) {
        out.push('\n');
        out.push('\t');
        crate::text::extend_chars(&mut out, &mid);
        out.push('\n');
    }
    out.push('}');
    match find_char(s, '}', r + 1) {
        Some(k) => {
            if k != r + 1 {
                out.push('\n');
            }
        },
        None => {},
    }
    let tail = crate::text::slice_chars(s, r + 1, s.len());
    let rest = brackets_chars(&tail);
    crate::text::extend_chars(&mut out, &rest);
    proof {
        let sv = s@;
        assert(out@ =~= sv.subrange(0, l as int) + seq!['{'] + block_body(layout_braces(sv.subrange(l + 1, r as int)))
            + seq!['}'] + break_after(sv, r as int) + layout_braces(sv.subrange(r + 1, sv.len() as int)));
    }
    out
}

/// Lays out code by its braces: the body of each balanced `{ .. }` block goes on
/// lines of its own, indented by one more tab (see `layout_braces`).
pub fn brackets(s: String) -> (r: String)
    ensures
        r@ == layout_braces(s@),
{
    let cs = crate::text::chars_of(s.as_str());
    let out = brackets_chars(&cs);
    crate::text::string_of(&out)
}

} // verus!
