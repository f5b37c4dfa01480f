use vstd::prelude::*;
use crate::graphics::Texture;

verus! {

/// Textures by name, each name held once, and the folder they are read from.
pub struct Assets {
    folder_path: String,
    textures: Vec<(String, Texture)>,
}

impl Assets {
    pub closed spec fn entries(&self) -> Seq<(String, Texture)> {
        self.textures@
    }

    pub closed spec fn spec_folder(&self) -> Seq<char> {
        self.folder_path@
    }

    /// No name is held twice, and every texture is well formed.
    pub closed spec fn wf(&self) -> bool {
        &&& forall|i: int, j: int|
            0 <= i < j < self.textures@.len() ==> self.textures@[i].0@ != self.textures@[j].0@
        &&& forall|i: int| 0 <= i < self.textures@.len() ==> (#[trigger] self.textures@[i]).1.wf()
    }

    /// Whether a texture is held under `name`.
    pub closed spec fn has(&self, name: Seq<char>) -> bool {
        exists|i: int| 0 <= i < self.textures@.len() && #[trigger] self.textures@[i].0@ == name
    }

    /// The texture held under `name`, if any.
    pub closed spec fn lookup(&self, name: Seq<char>) -> Option<Texture> {
        if self.has(name) {
            Some(self.textures@[choose|i: int| 0 <= i < self.textures@.len() && #[trigger] self.textures@[i].0@ == name].1)
        } else {
            None
        }
    }

    /// Holds nothing yet; textures are read from `folder_path`.
    pub fn new(folder_path: String) -> (r: Assets)
        ensures
            r.wf(),
            r.spec_folder() == folder_path@,
            forall|name: Seq<char>| r.lookup(name).is_none(),
    {
        Assets { folder_path, textures: Vec::new() }
    }

    pub fn folder_path(&self) -> (r: &str)
        ensures
            r@ == self.spec_folder(),
    {
        self.folder_path.as_str()
    }

    /// Holds `tex` under `path`, in place of any texture held there before.
    pub fn load_texture(&mut self, path: String, tex: Texture)
        requires
            old(self).wf(),
            tex.wf(),
        ensures
            final(self).wf(),
            final(self).spec_folder() == old(self).spec_folder(),
            forall|name: Seq<char>|
                #[trigger] final(self).lookup(name) == if name == path@ {
                    Some(tex)
                } else {
                    old(self).lookup(name)
                },
    {
        let ghost before = self.textures@;
        let mut i: usize = 0;
        while i < self.textures.len()
            invariant
                self.textures@ == before,
                before == old(self).textures@,
                self.folder_path@ == old(self).folder_path@,
                old(self).wf(),
                tex.wf(),
                i <= before.len(),
                forall|j: int| 0 <= j < i ==> before[j].0@ != path@,
            decreases before.len() - i,
        {
            if self.textures[i].0 == path {
                self.textures.set(i, (path, tex));
                proof {
                    assert forall|name: Seq<char>| #[trigger] self.lookup(name) == if name == path@ {
                        Some(tex)
                    } else {
                        old(self).lookup(name)
                    } by {
                        if name == before[i as int].0@ {
                            assert(self.textures@[i as int].0@ == name);
                            let k = choose|k: int| 0 <= k < self.textures@.len() && #[trigger] self.textures@[k].0@ == name;
                            assert(k == i);
                        } else if old(self).has(name) {
                            let k = choose|k: int| 0 <= k < before.len() && #[trigger] before[k].0@ == name;
                            assert(self.textures@[k].0@ == name);
                            let k2 = choose|k2: int| 0 <= k2 < self.textures@.len() && #[trigger] self.textures@[k2].0@ == name;
                            assert(k2 == k);
                        } else {
                            assert(!self.has(name));
                        }
                    }
                }
                return;
            }
            i = i + 1;
        }
        self.textures.push((path, tex));
        proof {
            let n = before.len() as int;
            assert forall|name: Seq<char>| #[trigger] self.lookup(name) == if name == path@ {
                Some(tex)
            } else {
                old(self).lookup(name)
            } by {
                if name == path@ {
                    assert(self.textures@[n].0@ == name);
                    let k = choose|k: int| 0 <= k < self.textures@.len() && #[trigger] self.textures@[k].0@ == name;
                    assert(k == n);
                } else if old(self).has(name) {
                    let k = choose|k: int| 0 <= k < before.len() && #[trigger] before[k].0@ == name;
                    assert(self.textures@[k].0@ == name);
                    let k2 = choose|k2: int| 0 <= k2 < self.textures@.len() && #[trigger] self.textures@[k2].0@ == name;
                    assert(k2 == k);
                } else {
                    assert(!self.has(name));
                }
            }
        }
    }

    /// The texture held under `path`, if any.
    pub fn get_texture(&self, path: &str) -> (r: Option<&Texture>)
        requires
            self.wf(),
        ensures
            match r {
                Some(t) => self.lookup(path@) == Some(*t) && t.wf(),
                None => self.lookup(path@).is_none(),
            },
    {
        let key: String = path.to_string();
        let mut i: usize = 0;
        while i < self.textures.len()
            invariant
                self.wf(),
                key@ == path@,
                i <= self.textures@.len(),
                forall|j: int| 0 <= j < i ==> self.textures@[j].0@ != path@,
            decreases self.textures@.len() - i,
        {
            if self.textures[i].0 == key {
                proof {
                    let k = choose|k: int| 0 <= k < self.textures@.len() && #[trigger] self.textures@[k].0@ == path@;
                    assert(self.textures@[i as int].0@ == path@);
                    assert(k == i);
                }
                return Some(&self.textures[i].1);
            }
            i = i + 1;
        }
        None
    }
}

} // verus!
