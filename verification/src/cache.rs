//! The texture cache: a registry of canonical container paths and their
//! textures.
//!
//! Registration keys each texture by the canonical path it reads from;
//! registering a path again replaces its entry and leaves every other
//! entry untouched.  Resolving naming patterns against the file system and
//! compiling sources into canonical containers happen outside; the
//! registry itself only ever sees one canonical path and the base
//! resolution read from that container's header.

use vstd::prelude::*;

use crate::geom::blocks_of;
use crate::texture::Texture;

verus! {

/// The top-level registry mapping canonical file paths to textures.
pub struct TextureCache {
    /// Registered textures, each keyed by its canonical path; keys are
    /// unique.
    pub textures: Vec<(String, Texture)>,
}

impl TextureCache {
    /// Well-formedness: paths are unique keys and every registered
    /// texture is well formed and keyed by its own container path.
    pub open spec fn wf(self) -> bool {
        &&& forall|i: int, j: int|
            0 <= i < j < self.textures@.len() ==> (#[trigger] self.textures@[i]).0@ != (
            #[trigger] self.textures@[j]).0@
        &&& forall|i: int|
            0 <= i < self.textures@.len() ==> (#[trigger] self.textures@[i]).1.wf()
        &&& forall|i: int|
            0 <= i < self.textures@.len() ==> (#[trigger] self.textures@[i]).1.path@
                == self.textures@[i].0@
    }

    /// Whether some texture is registered under the path.
    pub open spec fn spec_contains(self, path: Seq<char>) -> bool {
        exists|i: int|
            0 <= i < self.textures@.len() && (#[trigger] self.textures@[i]).0@ == path
    }

    /// The texture registered under a path, where there is one.
    pub open spec fn spec_lookup(self, path: Seq<char>) -> Option<Texture> {
        if self.spec_contains(path) {
            let i = choose|i: int|
                0 <= i < self.textures@.len() && (#[trigger] self.textures@[i]).0@ == path;
            Option::Some(self.textures@[i].1)
        } else {
            Option::None
        }
    }

    /// In a well-formed cache the entry at any position is what lookup of
    /// its key yields: keys are unique, so the choice is determined.
    pub proof fn lemma_lookup_at(self, i: int)
        requires
            self.wf(),
            0 <= i < self.textures@.len(),
        ensures
            self.spec_lookup(self.textures@[i].0@) == Option::Some(self.textures@[i].1),
    {
        let p = self.textures@[i].0@;
        assert(self.spec_contains(p));
        let j = choose|j: int|
            0 <= j < self.textures@.len() && (#[trigger] self.textures@[j]).0@ == p;
        if i < j {
            assert(self.textures@[i].0@ != self.textures@[j].0@);
        } else if j < i {
            assert(self.textures@[j].0@ != self.textures@[i].0@);
        }
    }

    /// A cache with nothing registered.
    pub fn empty() -> (c: TextureCache)
        ensures
            c.wf(),
            c.textures@.len() == 0,
            forall|p: Seq<char>| !c.spec_contains(p),
    {
        TextureCache { textures: Vec::new() }
    }

    /// Register the texture of one canonical container path, its pyramid
    /// constructed from the container's base resolution, every tile slot
    /// empty.  An entry already registered under the same path is
    /// replaced; every other entry is left exactly as it was.
    pub fn add(&mut self, tx_path: String, resolution: (usize, usize))
        requires
            old(self).wf(),
            1 <= resolution.0,
            1 <= resolution.1,
            resolution.0 + 63 <= usize::MAX,
            resolution.1 + 63 <= usize::MAX,
            blocks_of(resolution.0 as int) * blocks_of(resolution.1 as int) <= usize::MAX,
        ensures
            final(self).wf(),
            final(self).spec_contains(tx_path@),
            ({
                let t = final(self).spec_lookup(tx_path@);
                &&& t is Some
                &&& t->Some_0.path@ == tx_path@
                &&& t->Some_0.resolution == resolution
                &&& t->Some_0.wf()
                &&& forall|l: int, k: int|
                    0 <= l < t->Some_0.mipmaps@.len() && 0 <= k
                        < t->Some_0.mipmaps@[l].tiles@.len() ==> !t->Some_0.tile_is_loaded(l, k)
            }),
            forall|p: Seq<char>|
                p != tx_path@ ==> final(self).spec_lookup(p) == old(self).spec_lookup(p),
    {
        let t = Texture::new(tx_path.clone(), resolution);
        let n = self.textures.len();
        let mut i: usize = 0;
        while i < n
            invariant
                i <= n,
                n == self.textures@.len(),
                *self == *old(self),
                old(self).wf(),
                t.wf(),
                t.path@ == tx_path@,
                t.resolution == resolution,
                forall|l: int, k: int|
                    0 <= l < t.mipmaps@.len() && 0 <= k < t.mipmaps@[l].tiles@.len()
                        ==> !t.tile_is_loaded(l, k),
                forall|j: int| 0 <= j < i ==> (#[trigger] self.textures@[j]).0@ != tx_path@,
            decreases n - i,
        {
            if self.textures[i].0 == tx_path {
                self.textures[i] = (tx_path, t);
                proof {
                    let oldv = old(self).textures@;
                    let newv = self.textures@;
                    assert forall|a: int, b: int| 0 <= a < b < newv.len() implies (
                    #[trigger] newv[a]).0@ != (#[trigger] newv[b]).0@ by {
                        assert(oldv[a].0@ != oldv[b].0@);
                    }
                    assert(self.wf());
                    self.lemma_lookup_at(i as int);
                    assert forall|p: Seq<char>| p != tx_path@ implies self.spec_lookup(p)
                        == old(self).spec_lookup(p) by {
                        Self::lemma_lookup_unchanged(*old(self), *self, i as int, p);
                    }
                }
                return ;
            }
            i = i + 1;
        }
        self.textures.push((tx_path, t));
        proof {
            let oldv = old(self).textures@;
            let newv = self.textures@;
            let ni = newv.len() - 1;
            assert forall|a: int, b: int| 0 <= a < b < newv.len() implies (#[trigger] newv[a]).0@
                != (#[trigger] newv[b]).0@ by {
                if b < ni {
                    assert(oldv[a].0@ != oldv[b].0@);
                } else {
                    assert(newv[a].0@ != tx_path@);
                }
            }
            assert(self.wf());
            self.lemma_lookup_at(ni);
            assert forall|p: Seq<char>| p != tx_path@ implies self.spec_lookup(p) == old(
                self,
            ).spec_lookup(p) by {
                Self::lemma_lookup_unchanged(*old(self), *self, ni, p);
            }
        }
    }

    /// Helper for [`TextureCache::add`]: where two well-formed caches
    /// differ at most in the entry at one position, whose key in the new
    /// cache is not `p`, lookup of `p` agrees between them.
    proof fn lemma_lookup_unchanged(oldc: TextureCache, newc: TextureCache, i: int, p: Seq<char>)
        requires
            oldc.wf(),
            newc.wf(),
            0 <= i < newc.textures@.len(),
            oldc.textures@.len() == newc.textures@.len() || oldc.textures@.len() + 1
                == newc.textures@.len() && i == newc.textures@.len() - 1,
            forall|j: int|
                0 <= j < oldc.textures@.len() && j != i ==> oldc.textures@[j] == newc.textures@[j],
            newc.textures@[i].0@ != p,
            oldc.textures@.len() == newc.textures@.len() ==> oldc.textures@[i].0@ != p,
        ensures
            newc.spec_lookup(p) == oldc.spec_lookup(p),
    {
        if newc.spec_contains(p) {
            let a = choose|a: int|
                0 <= a < newc.textures@.len() && (#[trigger] newc.textures@[a]).0@ == p;
            assert(a != i);
            assert(oldc.textures@[a] == newc.textures@[a]);
            assert(oldc.spec_contains(p));
            let b = choose|b: int|
                0 <= b < oldc.textures@.len() && (#[trigger] oldc.textures@[b]).0@ == p;
            if a < b {
                assert(oldc.textures@[a].0@ != oldc.textures@[b].0@);
            } else if b < a {
                assert(oldc.textures@[b].0@ != oldc.textures@[a].0@);
            }
            assert(oldc.spec_lookup(p) == Option::Some(oldc.textures@[b].1));
            assert(newc.spec_lookup(p) == Option::Some(newc.textures@[a].1));
        } else {
            if oldc.spec_contains(p) {
                let b = choose|b: int|
                    0 <= b < oldc.textures@.len() && (#[trigger] oldc.textures@[b]).0@ == p;
                assert(b != i || oldc.textures@.len() == newc.textures@.len());
                assert(newc.spec_contains(p));
            }
        }
    }

    /// The texture registered under a path, or nothing.
    pub fn lookup(&self, path: &String) -> (r: Option<&Texture>)
        requires
            self.wf(),
        ensures
            match r {
                Option::Some(t) => self.spec_lookup(path@) == Option::Some(*t),
                Option::None => !self.spec_contains(path@),
            },
    {
        let n = self.textures.len();
        let mut i: usize = 0;
        while i < n
            invariant
                i <= n,
                n == self.textures@.len(),
                self.wf(),
                forall|j: int| 0 <= j < i ==> (#[trigger] self.textures@[j]).0@ != path@,
            decreases n - i,
        {
            if self.textures[i].0 == *path {
                proof {
                    self.lemma_lookup_at(i as int);
                }
                return Option::Some(&self.textures[i].1);
            }
            i = i + 1;
        }
        Option::None
    }
}

} // verus!
