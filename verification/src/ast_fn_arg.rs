use vstd::prelude::*;
use crate::ast_crate::Crate;
use crate::ast_mod::Mod;
use crate::ast_resolve::{either_resolvable, mk_path, resolve_path, target, Path};
use crate::util::Get;

verus! {

/// What a system argument's type names.
#[derive(Debug)]
pub enum FnArgType {
    /// A plain type path.
    Path(Path),
    /// A trait object (`&dyn Trait`).
    Trait(Path),
    /// A type with one type argument, such as `Label<T>`.
    SContainer(Path, Box<FnArg>),
    /// A type with a tuple of type arguments, such as `Container<(A, B)>`.
    Container(Path, Vec<FnArg>),
}

/// A system argument: its type, how many references it is taken through, whether
/// the innermost one is mutable, and its text for messages.
#[derive(Debug)]
pub struct FnArg {
    pub ty: FnArgType,
    pub ref_cnt: usize,
    pub mutable: bool,
    pub text: String,
}


/// Every path in `a` resolves from module `m` of crate `cr`.
pub open spec fn arg_resolvable(a: FnArg, cr: Crate, m: Mod, crates: Seq<Crate>) -> bool
    decreases a,
{
    match a.ty {
        FnArgType::Path(p) => either_resolvable(p.path.deep_view(), cr, m, crates),
        FnArgType::Trait(p) => either_resolvable(p.path.deep_view(), cr, m, crates),
        FnArgType::SContainer(p, b) => either_resolvable(p.path.deep_view(), cr, m, crates) && arg_resolvable(*b, cr, m, crates),
        FnArgType::Container(p, v) => either_resolvable(p.path.deep_view(), cr, m, crates)
            && forall|i: int| 0 <= i < v@.len() ==> arg_resolvable(#[trigger] v@[i], cr, m, crates),
    }
}

/// `b` is `a` with every path replaced by what it stands for from module `m`
/// of crate `cr`.
pub open spec fn arg_resolved(a: FnArg, b: FnArg, cr: Crate, m: Mod, crates: Seq<Crate>) -> bool
    decreases a,
{
    &&& b.ref_cnt == a.ref_cnt
    &&& b.mutable == a.mutable
    &&& b.text@ == a.text@
    &&& match a.ty {
        FnArgType::Path(p) => b.ty matches FnArgType::Path(q) && q@ == target(p.path.deep_view(), cr, m, crates),
        FnArgType::Trait(p) => b.ty matches FnArgType::Trait(q) && q@ == target(p.path.deep_view(), cr, m, crates),
        FnArgType::SContainer(p, x) => b.ty matches FnArgType::SContainer(q, y)
            && q@ == target(p.path.deep_view(), cr, m, crates)
            && arg_resolved(*x, *y, cr, m, crates),
        FnArgType::Container(p, v) => b.ty matches FnArgType::Container(q, w)
            && q@ == target(p.path.deep_view(), cr, m, crates)
            && w@.len() == v@.len()
            && forall|i: int| 0 <= i < v@.len() ==> arg_resolved(#[trigger] v@[i], w@[i], cr, m, crates),
    }
}

/// The path that `p`, written in module `m`, stands for.
fn target_path(p: &Path, cr: &Crate, m: &Mod, crates: &Vec<Crate>) -> (r: Path)
    requires
        either_resolvable(p.path.deep_view(), *cr, *m, crates@),
    ensures
        r@ == target(p.path.deep_view(), *cr, *m, crates@),
{
    let copy = mk_path(p.cr_idx, &p.path);
    resolve_path(copy.path, cr, m, crates).get()
}

impl FnArg {
    /// This argument with every path replaced by what it stands for from
    /// module `m` of crate `cr`.
    #[verifier::loop_isolation(false)]
    pub fn resolved(&self, cr: &Crate, m: &Mod, crates: &Vec<Crate>) -> (r: FnArg)
        requires
            arg_resolvable(*self, *cr, *m, crates@),
        ensures
            arg_resolved(*self, r, *cr, *m, crates@),
        decreases self,
    {
        let ty = match &self.ty {
            FnArgType::Path(p) => FnArgType::Path(target_path(p, cr, m, crates)),
            FnArgType::Trait(p) => FnArgType::Trait(target_path(p, cr, m, crates)),
            FnArgType::SContainer(p, b) => {
                let q = target_path(p, cr, m, crates);
                let y = (&**b).resolved(cr, m, crates);
                FnArgType::SContainer(q, Box::new(y))
            },
            FnArgType::Container(p, v) => {
                let q = target_path(p, cr, m, crates);
                let mut w: Vec<FnArg> = Vec::new();
                let mut i: usize = 0;
                while i < v.len()
                    invariant
                        i <= v@.len(),
                        w@.len() == i,
                        forall|j: int| 0 <= j < v@.len() ==> arg_resolvable(#[trigger] v@[j], *cr, *m, crates@),
                        forall|j: int| 0 <= j < i ==> arg_resolved(#[trigger] v@[j], w@[j], *cr, *m, crates@),
                    decreases v.len() - i,
                {
                        proof {
                        assert(decreases_to!(*self => v@[i as int]));
                        assert(arg_resolvable(v@[i as int], *cr, *m, crates@));
                    }
                    let x = v[i].resolved(cr, m, crates);
                    w.push(x);
                    i = i + 1;
                }
                FnArgType::Container(q, w)
            },
        };
        FnArg { ty, ref_cnt: self.ref_cnt, mutable: self.mutable, text: self.text.clone() }
    }

    /// Replaces every path of this argument by what it stands for from module
    /// `m` of crate `cr`.
    pub fn resolve_paths(&mut self, cr: &Crate, m: &Mod, crates: &Vec<Crate>)
        requires
            arg_resolvable(*old(self), *cr, *m, crates@),
        ensures
            arg_resolved(*old(self), *final(self), *cr, *m, crates@),
    {
        let r = self.resolved(cr, m, crates);
        *self = r;
    }
}

} // verus!
