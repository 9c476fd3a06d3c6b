use vstd::prelude::*;
use crate::text::str_eq;

verus! {

/// A loaded texture, by the handle that the renderer gave for it.
#[derive(Debug)]
pub struct Texture {
    pub tex: u64,
}

/// A way to draw a texture that the asset manager holds.
#[derive(Clone, Copy, Debug)]
pub struct TextureAccess {
    pub tex: u64,
}

impl Texture {
    /// A way to draw this texture.
    pub fn access(&self) -> (a: TextureAccess)
        ensures
            a.tex == self.tex,
    {
        TextureAccess { tex: self.tex }
    }
}

/// The textures loaded so far, by the file they were loaded from; each file
/// once.
#[derive(Debug)]
pub struct AssetManager {
    pub file_imgs: Vec<(String, Texture)>,
}

/// The position of `file` among the entries, if it has one.
pub open spec fn file_pos(v: Seq<(String, Texture)>, file: Seq<char>) -> Option<int> {
    if exists|i: int| 0 <= i < v.len() && v[i].0@ == file {
        Some(choose|i: int| 0 <= i < v.len() && v[i].0@ == file)
    } else {
        None
    }
}

impl AssetManager {
    /// No file appears twice.
    pub open spec fn wf(&self) -> bool {
        forall|i: int, j: int| 0 <= i < j < self.file_imgs@.len() ==> self.file_imgs@[i].0@ != self.file_imgs@[j].0@
    }

    /// The texture handle of each file.
    pub open spec fn images(&self) -> Map<Seq<char>, u64> {
        Map::new(
            |f: Seq<char>| exists|i: int| 0 <= i < self.file_imgs@.len() && self.file_imgs@[i].0@ == f,
            |f: Seq<char>| self.file_imgs@[file_pos(self.file_imgs@, f)->0].1.tex,
        )
    }

    /// No texture yet.
    pub fn new() -> (a: Self)
        ensures
            a.wf(),
            a.images() == Map::<Seq<char>, u64>::empty(),
    {
        let a = AssetManager { file_imgs: Vec::new() };
        proof {
            assert(a.images() =~= Map::<Seq<char>, u64>::empty());
        }
        a
    }

    fn find(&self, file: &str) -> (r: Option<usize>)
        requires
            self.wf(),
        ensures
            match r {
                Some(i) => i < self.file_imgs@.len() && self.file_imgs@[i as int].0@ == file@,
                None => !self.images().dom().contains(file@),
            },
    {
        let mut i: usize = 0;
        while i < self.file_imgs.len()
            invariant
                i <= self.file_imgs@.len(),
                forall|j: int| 0 <= j < i ==> self.file_imgs@[j].0@ != file@,
            decreases self.file_imgs.len() - i,
        {
            if str_eq(self.file_imgs[i].0.as_str(), file) {
                return Some(i);
            }
            i = i + 1;
        }
        None
    }

    /// A way to draw the texture loaded from `file`, if there is one.
    pub fn get_image(&self, file: &str) -> (r: Option<TextureAccess>)
        requires
            self.wf(),
        ensures
            match r {
                Some(a) => self.images().dom().contains(file@) && a.tex == self.images()[file@],
                None => !self.images().dom().contains(file@),
            },
    {
        match self.find(file) {
            Some(i) => {
                proof {
                    let p = file_pos(self.file_imgs@, file@)->0;
                    assert(self.file_imgs@[p].0@ == file@);
                    assert(p == i as int);
                }
                Some(self.file_imgs[i].1.access())
            },
            None => None,
        }
    }

    /// Keeps `tex` as the texture of `file`, in place of any it had.
    pub fn add_image(&mut self, file: &str, tex: Texture)
        requires
            old(self).wf(),
        ensures
            final(self).wf(),
            final(self).images() == old(self).images().insert(file@, tex.tex),
    {
        let ghost t = tex.tex;
        let ghost old_images = self.images();
        match self.find(file) {
            Some(i) => {
                let name = self.file_imgs[i].0.clone();
                self.file_imgs.set(i, (name, tex));
                proof {
                    assert forall|f: Seq<char>| #[trigger] self.images().dom().contains(f) <==> old_images.insert(file@, t).dom().contains(f) by {
                        if f == file@ {
                            assert(self.file_imgs@[i as int].0@ == f);
                        } else if old_images.dom().contains(f) {
                            let j = file_pos(old(self).file_imgs@, f)->0;
                            assert(self.file_imgs@[j].0@ == f);
                        }
                    }
                    assert forall|f: Seq<char>| #[trigger] self.images().dom().contains(f) implies self.images()[f] == old_images.insert(file@, t)[f] by {
                        let p = file_pos(self.file_imgs@, f)->0;
                        if f == file@ {
                            assert(p == i as int);
                        } else {
                            let q = file_pos(old(self).file_imgs@, f)->0;
                            assert(old(self).file_imgs@[p].0@ == f);
                            assert(p == q);
                        }
                    }
                    assert(self.images() =~= old_images.insert(file@, t));
                }
            },
            None => {
                let name = String::from_str(file);
                self.file_imgs.push((name, tex));
                proof {
                    let n = old(self).file_imgs@.len() as int;
                    assert forall|f: Seq<char>| #[trigger] self.images().dom().contains(f) <==> old_images.insert(file@, t).dom().contains(f) by {
                        if f == file@ {
                            assert(self.file_imgs@[n].0@ == f);
                        } else if old_images.dom().contains(f) {
                            let j = file_pos(old(self).file_imgs@, f)->0;
                            assert(self.file_imgs@[j].0@ == f);
                        }
                    }
                    assert forall|f: Seq<char>| #[trigger] self.images().dom().contains(f) implies self.images()[f] == old_images.insert(file@, t)[f] by {
                        let p = file_pos(self.file_imgs@, f)->0;
                        if f == file@ {
                            assert(p == n);
                        } else {
                            assert(p < n);
                            let q = file_pos(old(self).file_imgs@, f)->0;
                            assert(old(self).file_imgs@[p].0@ == f);
                            assert(p == q);
                        }
                    }
                    assert(self.images() =~= old_images.insert(file@, t));
                }
            },
        }
    }
}


/// Once a texture is added for a file (as `add_image` leaves the images),
/// `get_image` gives that texture for the file, and every other file keeps
/// the texture it had, or still has none.
pub proof fn lemma_image_read_after_write(before: AssetManager, after: AssetManager, file: Seq<char>, tex: u64, other: Seq<char>)
    requires
        after.images() == before.images().insert(file, tex),
    ensures
        after.images().dom().contains(file),
        after.images()[file] == tex,
        other != file ==> after.images().dom().contains(other) == before.images().dom().contains(other),
        other != file && before.images().dom().contains(other) ==> after.images()[other] == before.images()[other],
{
}
} // verus!
