use vstd::prelude::*;
use crate::text::{decimal, push_decimal, string_of};

verus! {

/// The module that generated code lives in.
pub const NAMESPACE: &'static str = "_engine";
/// The separator between the entries of one data line.
pub const SEP: &'static str = ";";
/// The file, in the temporary directory, that carries the data between passes.
pub const DATA_FILE: &'static str = "hyperfold_data.txt";
/// The data token of an entity id argument.
pub const EID: &'static str = "id";

/// `<p><a>_<b>`, the numbers in decimal.
pub open spec fn var2(p: char, a: nat, b: nat) -> Seq<char> {
    seq![p] + decimal(a) + seq!['_'] + decimal(b)
}

/// `<p><a>_<b>_<c>`, the numbers in decimal.
pub open spec fn var3(p: char, a: nat, b: nat, c: nat) -> Seq<char> {
    var2(p, a, b) + seq!['_'] + decimal(c)
}

fn name2(p: char, a: usize, b: usize) -> (s: String)
    ensures
        s@ == var2(p, a as nat, b as nat),
{
    let mut v: Vec<char> = Vec::new();
    v.push(p);
    push_decimal(&mut v, a);
    v.push('_');
    push_decimal(&mut v, b);
    proof {
        assert(v@ =~= var2(p, a as nat, b as nat));
    }
    string_of(&v)
}

/// The variable that holds component `c_idx` of crate `cr_idx`: `c<cr>_<c>`.
pub fn component_var(cr_idx: usize, c_idx: usize) -> (s: String)
    ensures
        s@ == var2('c', cr_idx as nat, c_idx as nat),
{
    name2('c', cr_idx, c_idx)
}

/// The variable that holds global `g_idx` of crate `cr_idx`: `g<cr>_<g>`.
pub fn global_var(cr_idx: usize, g_idx: usize) -> (s: String)
    ensures
        s@ == var2('g', cr_idx as nat, g_idx as nat),
{
    name2('g', cr_idx, g_idx)
}

/// The variable of variant `v_idx` of event `e_idx` of crate `cr_idx`:
/// `e<cr>_<e>_<v>`.
pub fn event_var(cr_idx: usize, e_idx: usize, v_idx: usize) -> (s: String)
    ensures
        s@ == var3('e', cr_idx as nat, e_idx as nat, v_idx as nat),
{
    let mut v: Vec<char> = Vec::new();
    v.push('e');
    push_decimal(&mut v, cr_idx);
    v.push('_');
    push_decimal(&mut v, e_idx);
    v.push('_');
    push_decimal(&mut v, v_idx);
    proof {
        assert(v@ =~= var3('e', cr_idx as nat, e_idx as nat, v_idx as nat));
    }
    string_of(&v)
}

/// The token of event `e_idx` of crate `cr_idx`: `e<cr>_<e>`.
pub fn event_variant(cr_idx: usize, e_idx: usize) -> (s: String)
    ensures
        s@ == var2('e', cr_idx as nat, e_idx as nat),
{
    name2('e', cr_idx, e_idx)
}

} // verus!
