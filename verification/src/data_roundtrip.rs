use vstd::prelude::*;
use vstd::string::*;
use crate::ast_paths::Paths;
use crate::ast_system::{after_add_container, with_errs, ValidateView};
use crate::ast_fn_arg::FnArg;
use crate::ast_items::System;
use crate::codegen_system::arg_pieces;
use crate::util::find_from;
use crate::constants::{var2, EID};
use crate::data_grammar::{all_word_prefix, args_valid, first_of, regex_word, system_parts, arg_token, comp_list, digits_in, index_pair_from, label_head, label_token, regex_digit, var_at, var_token, vec_item, vector_token};
use crate::system_data::{
    arg_outcome, args_outcome, component_of, event_of, fresh_view, global_of, system_outcome, trait_of, container_err, container_errs, container_of, container_part, container_parts, is_eid,
    label_err, label_errs, label_of, label_part, label_parts, ItemsView,
};
use crate::text::{decimal, join, lemma_join_free, lemma_split_join, split_on};

verus! {

/// The decimal digits `0`..`9` are in the regex class `\d`.
pub open spec fn ascii_digits_match() -> bool {
    forall|c: char| '0' <= c <= '9' ==> #[trigger] regex_digit(c)
}

proof fn lemma_ascii_digits_match()
    ensures
        ascii_digits_match(),
{
    assert forall|c: char| '0' <= c <= '9' implies #[trigger] regex_digit(c) by {
        assert((c as u32) < 0x80);
    }
}

proof fn lemma_decimal_chars(n: nat)
    ensures
        decimal(n).len() >= 1,
        forall|i: int| 0 <= i < decimal(n).len() ==> '0' <= #[trigger] decimal(n)[i] <= '9',
    decreases n,
{
    if n >= 10 {
        lemma_decimal_chars(n / 10);
        let d = n % 10;
        assert(d < 10);
        assert('0' <= crate::text::digit_char(d) <= '9');
        assert forall|i: int| 0 <= i < decimal(n).len() implies '0' <= #[trigger] decimal(n)[i] <= '9' by {
            if i < decimal(n / 10).len() {
                assert(decimal(n)[i] == decimal(n / 10)[i]);
            }
        }
    } else {
        assert('0' <= crate::text::digit_char(n) <= '9');
    }
}

/// Reading back the decimal numeral of `n` gives `n`.
pub proof fn lemma_decimal_reads_back(n: nat)
    ensures
        crate::text::decimal_value(decimal(n)) == n,
    decreases n,
{
    if n >= 10 {
        lemma_decimal_reads_back(n / 10);
        let d = n % 10;
        assert(decimal(n).drop_last() =~= decimal(n / 10));
        assert(crate::text::digit_value(crate::text::digit_char(d)) == d);
        vstd::arithmetic::div_mod::lemma_fundamental_div_mod(n as int, 10);
        assert(decimal(n).last() == crate::text::digit_char(d));
        assert(crate::text::decimal_value(decimal(n)) == crate::text::decimal_value(decimal(n / 10)) * 10 + d);
    } else {
        assert(decimal(n).drop_last() =~= Seq::<char>::empty());
        assert(crate::text::decimal_value(Seq::<char>::empty()) == 0);
        assert(decimal(n).last() == crate::text::digit_char(n));
        assert(crate::text::digit_value(crate::text::digit_char(n)) == n);
    }
}

/// `t` is the token of item `i` of crate `cr` for the kind letter `p`: it
/// starts with `p`, then come the digits of a number, a `_`, and the digits of
/// another number, and those numbers read back as `cr` and `i`.
pub open spec fn names_item(t: Seq<char>, p: char, cr: nat, i: nat) -> bool {
    exists|k: int| 1 < k < t.len() - 1 && #[trigger] t[k] == '_' && {
        &&& t[0] == p
        &&& forall|j: int| 1 <= j < k ==> '0' <= #[trigger] t[j] <= '9'
        &&& forall|j: int| k < j < t.len() ==> '0' <= #[trigger] t[j] <= '9'
        &&& crate::text::decimal_value(t.subrange(1, k)) == cr
        &&& crate::text::decimal_value(t.subrange(k + 1, t.len() as int)) == i
    }
}

proof fn lemma_var2_names(p: char, a: nat, b: nat)
    ensures
        names_item(var2(p, a, b), p, a, b),
{
    let t = var2(p, a, b);
    let da = decimal(a);
    let db = decimal(b);
    lemma_decimal_chars(a);
    lemma_decimal_chars(b);
    lemma_decimal_reads_back(a);
    lemma_decimal_reads_back(b);
    let k: int = 1 + da.len() as int;
    assert(t =~= seq![p] + da + seq!['_'] + db);
    assert(t.subrange(1, k) =~= da);
    assert(t.subrange(k + 1, t.len() as int) =~= db);
    assert(t[k] == '_');
    assert forall|j: int| 1 <= j < k implies '0' <= #[trigger] t[j] <= '9' by {
        assert(t[j] == da[j - 1]);
    }
    assert forall|j: int| k < j < t.len() implies '0' <= #[trigger] t[j] <= '9' by {
        assert(t[j] == db[j - k - 1]);
    }
}

/// The data token of a component, global or event argument names the item
/// the argument refers to, crate first: reading the two numbers of the token
/// back gives the item's crate and its index in that crate.
pub proof fn lemma_item_tokens(a: FnArg, paths: Paths, items: ItemsView, v: ValidateView)
    ensures
        !is_eid(a, paths) && component_of(a, items) is Some ==> ({
            let (cr, c) = component_of(a, items)->0;
            names_item(arg_outcome(a, paths, items, v).0, 'c', cr as nat, c as nat)
        }),
        !is_eid(a, paths) && component_of(a, items) is None && global_of(a, items) is Some ==> ({
            let (cr, g, k) = global_of(a, items)->0;
            names_item(arg_outcome(a, paths, items, v).0, 'g', cr as nat, g as nat)
        }),
        !is_eid(a, paths) && component_of(a, items) is None && global_of(a, items) is None && event_of(a, items) is Some ==> ({
            let (cr, e) = event_of(a, items)->0;
            names_item(arg_outcome(a, paths, items, v).0, 'e', cr as nat, e as nat)
        }),
{
    if let Some((cr, c)) = component_of(a, items) {
        lemma_var2_names('c', cr as nat, c as nat);
    }
    if let Some((cr, g, k)) = global_of(a, items) {
        lemma_var2_names('g', cr as nat, g as nat);
    }
    if let Some((cr, e)) = event_of(a, items) {
        lemma_var2_names('e', cr as nat, e as nat);
    }
}

/// `<p><a>_<b>` is a variable token for `p`, free of `:` and `-` when `p` is.
proof fn lemma_var_token(p: char, a: nat, b: nat)
    requires
        ascii_digits_match(),
    ensures
        var_token(var2(p, a, b), p),
        p != ':' ==> !var2(p, a, b).contains(':'),
        p != '-' ==> !var2(p, a, b).contains('-'),
        var2(p, a, b).len() >= 1,
        var2(p, a, b)[0] == p,
{
    let s = var2(p, a, b);
    let da = decimal(a);
    let db = decimal(b);
    lemma_decimal_chars(a);
    lemma_decimal_chars(b);
    let k: int = 1 + da.len() as int;
    assert(s[k] == '_');
    assert forall|i: int| 1 <= i < k implies #[trigger] regex_digit(s[i]) by {
        assert(s[i] == da[i - 1]);
    }
    assert forall|i: int| k + 1 <= i < s.len() implies #[trigger] regex_digit(s[i]) by {
        assert(s[i] == db[i - k - 1]);
    }
    assert(digits_in(s, 1, k));
    assert(digits_in(s, k + 1, s.len() as int));
    assert(index_pair_from(s, 1));
    assert forall|i: int| 0 <= i < s.len() implies (#[trigger] s[i] == p || s[i] == '_' || ('0' <= s[i] <= '9')) by {
        if 1 <= i < k {
            assert(s[i] == da[i - 1]);
        } else if k < i {
            assert(s[i] == db[i - k - 1]);
        }
    }
}


proof fn lemma_label_parts(args: Seq<FnArg>, items: ItemsView)
    requires
        label_errs(args, items).len() == 0,
    ensures
        label_parts(args, items).len() == args.len(),
        forall|i: int| 0 <= i < args.len() ==> (#[trigger] component_of(args[i], items)) is Some
            && label_parts(args, items)[i] == label_part(args[i], items),
    decreases args.len(),
{
    if args.len() > 0 {
        let init = args.drop_last();
        assert(label_errs(args, items) == label_errs(init, items) + label_err(args.last(), items));
        lemma_label_parts(init, items);
        assert forall|i: int| 0 <= i < args.len() implies (#[trigger] component_of(args[i], items)) is Some
            && label_parts(args, items)[i] == label_part(args[i], items) by {
            if i < init.len() {
                assert(args[i] == init[i]);
                assert(component_of(init[i], items) is Some);
            } else {
                assert(args[i] == args.last());
            }
        }
    }
}

proof fn lemma_container_parts(args: Seq<FnArg>, paths: Paths, items: ItemsView)
    requires
        container_errs(args, paths, items).len() == 0,
    ensures
        container_parts(args, paths, items).len() == args.len(),
        forall|i: int| 0 <= i < args.len() ==> (is_eid(args[i], paths) || (#[trigger] component_of(args[i], items)) is Some)
            && container_parts(args, paths, items)[i] == container_part(args[i], paths, items),
    decreases args.len(),
{
    if args.len() > 0 {
        let init = args.drop_last();
        assert(container_errs(args, paths, items) == container_errs(init, paths, items) + container_err(args.last(), paths, items));
        lemma_container_parts(init, paths, items);
        assert forall|i: int| 0 <= i < args.len() implies (is_eid(args[i], paths) || (#[trigger] component_of(args[i], items)) is Some)
            && container_parts(args, paths, items)[i] == container_part(args[i], paths, items) by {
            if i < init.len() {
                assert(args[i] == init[i]);
                assert(is_eid(init[i], paths) || component_of(init[i], items) is Some);
            } else {
                assert(args[i] == args.last());
            }
        }
    }
}

proof fn lemma_m_var(a: nat, b: nat)
    requires
        ascii_digits_match(),
    ensures
        vec_item(seq!['m'] + var2('c', a, b)),
        !(seq!['m'] + var2('c', a, b)).contains('-'),
        !(seq!['m'] + var2('c', a, b)).contains(':'),
{
    let t = var2('c', a, b);
    let s = seq!['m'] + t;
    lemma_var_token('c', a, b);
    let k = choose|k: int| 1 < k < t.len() - 1 && t[k] == '_' && #[trigger] digits_in(t, 1, k) && digits_in(t, k + 1, t.len() as int);
    assert forall|i: int| 2 <= i < k + 1 implies #[trigger] regex_digit(s[i]) by {
        assert(s[i] == t[i - 1]);
        assert(digits_in(t, 1, k));
    }
    assert forall|i: int| k + 2 <= i < s.len() implies #[trigger] regex_digit(s[i]) by {
        assert(s[i] == t[i - 1]);
        assert(digits_in(t, k + 1, t.len() as int));
    }
    assert(s[k + 1] == '_');
    assert(digits_in(s, 2, k + 1));
    assert(digits_in(s, k + 2, s.len() as int));
    assert(index_pair_from(s, 2));
    assert(var_at(s, 1, 'c'));
    assert forall|i: int| 0 <= i < s.len() implies #[trigger] s[i] != '-' && s[i] != ':' by {
        if i > 0 {
            assert(s[i] == t[i - 1]);
            assert(t.contains(t[i - 1]));
        }
    }
}

/// The data written for a container part is a container item free of `-`
/// and `:`.
proof fn lemma_container_part(a: FnArg, paths: Paths, items: ItemsView)
    requires
        ascii_digits_match(),
        is_eid(a, paths) || component_of(a, items) is Some,
    ensures
        vec_item(container_part(a, paths, items)),
        !container_part(a, paths, items).contains('-'),
        !container_part(a, paths, items).contains(':'),
{
    reveal_strlit("id");
    reveal_strlit("m");
    reveal_strlit("");
    if is_eid(a, paths) {
        assert(EID@ == "id"@);
    } else {
        let (cr, c) = component_of(a, items)->0;
        lemma_var_token('c', cr as nat, c as nat);
        if a.mutable {
            assert("m"@ == seq!['m']);
            lemma_m_var(cr as nat, c as nat);
        } else {
            assert(""@ + var2('c', cr as nat, c as nat) =~= var2('c', cr as nat, c as nat));
        }
    }
}


/// An argument whose data the system reader takes back: not a NAND label
/// (whose operator is written `|&`, which the reader does not take), and no
/// label or container without arguments.
pub open spec fn readable_shape(a: FnArg, paths: Paths) -> bool {
    &&& (label_of(a, paths) matches Some(l) ==> l.0 != "|&"@ && l.1.len() > 0)
    &&& ((label_of(a, paths) is None && container_of(a, paths) is Some) ==> (container_of(a, paths)->0).len() > 0)
}

proof fn lemma_parts_joined(parts: Seq<Seq<char>>)
    requires
        parts.len() >= 1,
        parts[0].len() >= 1,
        forall|i: int| 0 <= i < parts.len() ==> !(#[trigger] parts[i]).contains('-') && !parts[i].contains(':'),
    ensures
        split_on(join(parts, seq!['-']), '-') == parts,
        join(parts, seq!['-']).len() >= 1,
        !join(parts, seq!['-']).contains(':'),
{
    lemma_split_join(parts, '-');
    lemma_join_free(parts, seq!['-'], ':');
    if join(parts, seq!['-']).len() == 0 {
        assert(split_on(Seq::<char>::empty(), '-') =~= seq![Seq::<char>::empty()]);
        assert(join(parts, seq!['-']) =~= Seq::<char>::empty());
        assert(parts[0] == Seq::<char>::empty());
    }
}

/// The data of an argument written without an error of its own is one
/// argument token, free of `:`.
proof fn lemma_arg_token(a: FnArg, paths: Paths, items: ItemsView, v: ValidateView)
    requires
        ascii_digits_match(),
        readable_shape(a, paths),
        arg_outcome(a, paths, items, v).1.errs.len() == v.errs.len(),
    ensures
        arg_token(arg_outcome(a, paths, items, v).0),
        !arg_outcome(a, paths, items, v).0.contains(':'),
{
    reveal_strlit("id");
    reveal_strlit("l");
    reveal_strlit("v");
    reveal_strlit("-");
    reveal_strlit("&");
    reveal_strlit("|");
    reveal_strlit("!|");
    reveal_strlit("|&");
    let d = arg_outcome(a, paths, items, v).0;
    assert("-"@ =~= seq!['-']);
    if is_eid(a, paths) {
        assert(EID@ == "id"@);
    } else if component_of(a, items) is Some {
        let (cr, c) = component_of(a, items)->0;
        lemma_var_token('c', cr as nat, c as nat);
    } else if global_of(a, items) is Some {
        let (cr, g, k) = global_of(a, items)->0;
        lemma_var_token('g', cr as nat, g as nat);
    } else if event_of(a, items) is Some {
        let (cr, e) = event_of(a, items)->0;
        lemma_var_token('e', cr as nat, e as nat);
    } else if trait_of(a, items) is Some {
        lemma_var_token('g', 0, trait_of(a, items)->0 as nat);
    } else if label_of(a, paths) is Some {
        let (op, args) = label_of(a, paths)->0;
        lemma_label_parts(args, items);
        let parts = label_parts(args, items);
        assert forall|i: int| 0 <= i < parts.len() implies !(#[trigger] parts[i]).contains('-') && !parts[i].contains(':')
            && var_token(parts[i], 'c') && parts[i].len() >= 1 by {
            let (cr, c) = component_of(args[i], items)->0;
            lemma_var_token('c', cr as nat, c as nat);
        }
        lemma_parts_joined(parts);
        let j = join(parts, seq!['-']);
        assert(d == "l"@ + op + j);
        let h = label_head(d);
        if op == "!|"@ {
            assert(d =~= seq!['l', '!', '|'] + j);
            assert(h == 3);
            assert(d.skip(3) =~= j);
        } else if op == "&"@ {
            assert(d =~= seq!['l', '&'] + j);
            assert(d.skip(2) =~= j);
        } else {
            assert(op == "|"@);
            assert(d =~= seq!['l', '|'] + j);
            assert(d.skip(2) =~= j);
        }
        assert(comp_list(d.skip(h)));
        assert(label_token(d));
        assert forall|i: int| 0 <= i < d.len() implies #[trigger] d[i] != ':' by {
            if i >= h {
                assert(d[i] == j[i - h]);
                assert(j.contains(j[i - h]));
            }
        }
    } else if container_of(a, paths) is Some {
        let args = container_of(a, paths)->0;
        let w = with_errs(v, crate::system_data::ref_errs(a, 0));
        let w2 = after_add_container(w, a.text@);
        assert(w2.errs.len() >= w.errs.len());
        assert(container_errs(args, paths, items).len() == 0);
        lemma_container_parts(args, paths, items);
        let parts = container_parts(args, paths, items);
        assert forall|i: int| 0 <= i < parts.len() implies !(#[trigger] parts[i]).contains('-') && !parts[i].contains(':')
            && vec_item(parts[i]) && parts[i].len() >= 1 by {
            lemma_container_part(args[i], paths, items);
            if is_eid(args[i], paths) {
                assert(EID@ == "id"@);
            } else {
                let (cr, c) = component_of(args[i], items)->0;
                lemma_var_token('c', cr as nat, c as nat);
                reveal_strlit("m");
                reveal_strlit("");
            }
        }
        lemma_parts_joined(parts);
        let j = join(parts, seq!['-']);
        assert(d =~= seq!['v'] + j);
        assert(d.skip(1) =~= j);
        assert(vector_token(d));
        assert forall|i: int| 0 <= i < d.len() implies #[trigger] d[i] != ':' by {
            if i >= 1 {
                assert(d[i] == j[i - 1]);
                assert(j.contains(j[i - 1]));
            }
        }
    } else {
        assert(false);
    }
}


proof fn lemma_outcome_grows(a: FnArg, paths: Paths, items: ItemsView, v: ValidateView)
    ensures
        arg_outcome(a, paths, items, v).1.errs.len() >= v.errs.len(),
{
    let w0 = with_errs(v, crate::system_data::ref_errs(a, 0));
    assert(after_add_container(w0, a.text@).errs.len() >= w0.errs.len());
}

proof fn lemma_args_grow(args: Seq<FnArg>, paths: Paths, items: ItemsView, v: ValidateView)
    ensures
        args_outcome(args, paths, items, v).1.errs.len() >= v.errs.len(),
        args_outcome(args, paths, items, v).0.len() == args.len(),
    decreases args.len(),
{
    if args.len() > 0 {
        lemma_args_grow(args.drop_last(), paths, items, v);
        lemma_outcome_grows(args.last(), paths, items, args_outcome(args.drop_last(), paths, items, v).1);
    }
}

proof fn lemma_args_tokens(args: Seq<FnArg>, paths: Paths, items: ItemsView, v: ValidateView)
    requires
        ascii_digits_match(),
        forall|i: int| 0 <= i < args.len() ==> readable_shape(#[trigger] args[i], paths),
        args_outcome(args, paths, items, v).1.errs.len() == v.errs.len(),
    ensures
        args_outcome(args, paths, items, v).0.len() == args.len(),
        forall|i: int| 0 <= i < args.len() ==> arg_token(#[trigger] args_outcome(args, paths, items, v).0[i])
            && !args_outcome(args, paths, items, v).0[i].contains(':'),
    decreases args.len(),
{
    lemma_args_grow(args, paths, items, v);
    if args.len() > 0 {
        let init = args.drop_last();
        let (ds, v1) = args_outcome(init, paths, items, v);
        lemma_args_grow(init, paths, items, v);
        lemma_outcome_grows(args.last(), paths, items, v1);
        assert forall|i: int| 0 <= i < init.len() implies readable_shape(#[trigger] init[i], paths) by {
            assert(init[i] == args[i]);
        }
        lemma_args_tokens(init, paths, items, v);
        assert(readable_shape(args[args.len() - 1], paths));
        lemma_arg_token(args.last(), paths, items, v1);
        let all = args_outcome(args, paths, items, v).0;
        assert(all == ds.push(arg_outcome(args.last(), paths, items, v1).0));
        assert forall|i: int| 0 <= i < args.len() implies arg_token(#[trigger] all[i]) && !all[i].contains(':') by {
            if i < init.len() {
                assert(all[i] == ds[i]);
            }
        }
    }
}

proof fn lemma_find_first(s: Seq<char>, c: char, i: int, p: int)
    requires
        0 <= i <= p < s.len(),
        s[p] == c,
        forall|k: int| i <= k < p ==> s[k] != c,
    ensures
        find_from(s, c, i) == Some(p),
    decreases p - i,
{
    if i < p {
        lemma_find_first(s, c, i + 1, p);
    }
}

/// The data line that validation writes for a system of the crate root is
/// what the system reader takes back: the reader finds the system's name, its
/// init mark, and the data of each argument as written. This holds for a
/// system without errors whose name is made of word characters, with no NAND
/// label and no empty label or container among its arguments (a system in a
/// submodule is written with `::` in its name, a NAND label with the operator
/// `|&`, and the reader takes neither).
pub proof fn lemma_system_data_reads_back(sys: System, paths: Paths, items: ItemsView)
    requires
        sys.path@.path.len() == 2,
        sys.path@.path[1].len() >= 1,
        forall|i: int| 0 <= i < sys.path@.path[1].len() ==> regex_word(#[trigger] sys.path@.path[1][i]) && sys.path@.path[1][i] != '(',
        forall|i: int| 0 <= i < sys.args@.len() ==> readable_shape(#[trigger] sys.args@[i], paths),
        system_outcome(sys, paths, items).1.errs.len() == 0,
    ensures
        system_parts(system_outcome(sys, paths, items).0) == Some((
            sys.path@.path[1],
            join(args_outcome(sys.args@, paths, items, fresh_view()).0, ":"@),
            sys.attr_args.is_init,
        )),
        arg_pieces(join(args_outcome(sys.args@, paths, items, fresh_view()).0, ":"@))
            == args_outcome(sys.args@, paths, items, fresh_view()).0,
{
    lemma_ascii_digits_match();
    reveal_strlit(":");
    reveal_strlit("::");
    reveal_strlit("(");
    reveal_strlit(")");
    reveal_strlit("i");
    reveal_strlit("");
    assert(":"@ =~= seq![':']);
    let name = sys.path@.path[1];
    let (ds, v) = args_outcome(sys.args@, paths, items, fresh_view());
    assert(fresh_view().errs.len() == 0);
    lemma_args_grow(sys.args@, paths, items, fresh_view());
    assert(v.errs.len() == 0);
    lemma_args_tokens(sys.args@, paths, items, fresh_view());
    let j = join(ds, seq![':']);
    assert(sys.path@.path.skip(1) =~= seq![name]);
    let data = system_outcome(sys, paths, items).0;
    let tail: Seq<char> = if sys.attr_args.is_init { seq!['i'] } else { seq![] };
    assert(data =~= name + seq!['('] + j + seq![')'] + tail);
    let p = name.len() as int;
    assert forall|k: int| 0 <= k < p implies data[k] != '(' by {
        assert(data[k] == name[k]);
    }
    lemma_find_first(data, '(', 0, p);
    assert(first_of(data, '(') == Some(p));
    let rest = data.skip(p + 1);
    assert(rest =~= j + seq![')'] + tail);
    assert(all_word_prefix(data, p)) by {
        assert forall|k: int| 0 <= k < p implies #[trigger] regex_word(data[k]) by {
            assert(data[k] == name[k]);
        }
    }
    if ds.len() > 0 {
        assert forall|i: int| 0 <= i < ds.len() implies !(#[trigger] ds[i]).contains(':') by {
            assert(!ds[i].contains(':'));
        }
        lemma_split_join(ds, ':');
        assert(arg_token(ds[0]));
        if j.len() == 0 {
            assert(split_on(Seq::<char>::empty(), ':') =~= seq![Seq::<char>::empty()]);
            assert(j =~= Seq::<char>::empty());
            assert(ds[0] == Seq::<char>::empty());
            reveal_strlit("id");
            assert("id"@.len() == 2);
            assert(!arg_token(Seq::<char>::empty()));
        }
        assert(args_valid(j));
    } else {
        assert(j =~= Seq::<char>::empty());
    }
    if sys.attr_args.is_init {
        assert(rest.last() == 'i');
        assert(rest.take(rest.len() - 2) =~= j);
    } else {
        assert(rest.last() == ')');
        assert(rest.drop_last() =~= j);
    }
}

} // verus!
