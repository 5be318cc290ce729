//! Which destination directories are known to exist.

use std::collections::HashMap;

use vstd::prelude::*;

use crate::path;
use crate::path::{Component, Part, PathBuf};

verus! {

/// Cap on remembered directories, so a tree with a pathological number of them cannot grow this
/// without bound.
pub const MAX_REMEMBERED_DIRS: usize = 100_000;

/// One step of the FNV-1a hash.
spec fn hash_step(h: u64, b: u8) -> u64 {
    (h ^ (b as u64)).wrapping_mul(0x100_0000_01b3)
}

spec fn hash_bytes(h: u64, bytes: Seq<u8>) -> u64
    decreases bytes.len(),
{
    if bytes.len() == 0 {
        h
    } else {
        hash_step(hash_bytes(h, bytes.drop_last()), bytes.last())
    }
}

spec fn hash_part(h: u64, part: Part) -> u64 {
    match part {
        Part::Prefix(b) => hash_bytes(hash_step(h, 1), b),
        Part::RootDir => hash_step(h, 2),
        Part::CurDir => hash_step(h, 3),
        Part::ParentDir => hash_step(h, 4),
        Part::Normal(b) => hash_bytes(hash_step(h, 5), b),
    }
}

/// Where a path with this key is kept.
spec fn hash_path(p: Seq<Part>) -> u64
    decreases p.len(),
{
    if p.len() == 0 {
        0xcbf2_9ce4_8422_2325
    } else {
        hash_part(hash_path(p.drop_last()), p.last())
    }
}

fn step(h: u64, b: u8) -> (r: u64)
    ensures
        r == hash_step(h, b),
{
    (h ^ (b as u64)).wrapping_mul(0x100_0000_01b3)
}

fn bytes_hash(h: u64, bytes: &Vec<u8>) -> (r: u64)
    ensures
        r == hash_bytes(h, bytes@),
{
    let mut r: u64 = h;
    let mut i: usize = 0;
    while i < bytes.len()
        invariant
            i <= bytes.len(),
            r == hash_bytes(h, bytes@.take(i as int)),
        decreases bytes.len() - i,
    {
        r = step(r, bytes[i]);
        i = i + 1;
        assert(bytes@.take(i as int).drop_last() =~= bytes@.take(i - 1));
    }
    assert(bytes@.take(bytes.len() as int) =~= bytes@);
    r
}

fn path_hash(p: &PathBuf) -> (r: u64)
    ensures
        r == hash_path(p.key()),
{
    let ghost key = p.key();
    let components = p.components();
    let mut r: u64 = 0xcbf2_9ce4_8422_2325;
    let mut i: usize = 0;
    while i < components.len()
        invariant
            i <= components.len(),
            path::parts_of(components@) == p@.parts(),
            key == p.key(),
            r == hash_path(key.take(i as int)),
        decreases components.len() - i,
    {
        r = match &components[i].key() {
            Component::Prefix(b) => bytes_hash(step(r, 1), b),
            Component::RootDir => step(r, 2),
            Component::CurDir => step(r, 3),
            Component::ParentDir => step(r, 4),
            Component::Normal(b) => bytes_hash(step(r, 5), b),
        };
        i = i + 1;
        assert(key.take(i as int).drop_last() =~= key.take(i - 1));
        assert(p@.parts()[i - 1] == components@[i - 1]@);
        assert(key.take(i as int).last() == path::part_key(components@[i - 1]@));
    }
    assert(key.take(components.len() as int) =~= key);
    r
}

/// Remembers which destination directories already exist.
pub struct DirCache {
    /// Directories by hash, without repetition.
    buckets: HashMap<u64, Vec<PathBuf>>,
    /// How many there are.
    count: usize,
    /// Which they are.
    seen: Ghost<Set<Seq<Part>>>,
}

/// What has to be done for a directory to exist.
#[derive(Debug, Clone, Copy, PartialEq, Eq, Structural)]
pub enum EnsureStep {
    /// Nothing: it was created earlier in this run.
    Known,
    /// Create it, and say so with [`DirCache::created`].
    Create,
}

/// One thing that the cache is told.
pub enum CacheUse {
    Created(Seq<Part>),
    Forgotten(Seq<Part>),
}

impl CacheUse {
    pub open spec fn dir(self) -> Seq<Part> {
        match self {
            CacheUse::Created(dir) => dir,
            CacheUse::Forgotten(dir) => dir,
        }
    }

    /// The remembered directories after this. A full cache starts over.
    pub open spec fn after(self, dirs: Set<Seq<Part>>) -> Set<Seq<Part>> {
        match self {
            CacheUse::Created(dir) => if dirs.len() >= MAX_REMEMBERED_DIRS {
                set![dir]
            } else {
                dirs.insert(dir)
            },
            CacheUse::Forgotten(dir) => dirs.remove(dir),
        }
    }
}

/// What has to be done for a directory to exist, going by what is remembered.
pub open spec fn step_for(dirs: Set<Seq<Part>>, dir: Seq<Part>) -> EnsureStep {
    if dirs.contains(dir) {
        EnsureStep::Known
    } else {
        EnsureStep::Create
    }
}

/// The directories that a new cache remembers after all that it was told.
pub open spec fn dirs_after(uses: Seq<CacheUse>) -> Set<Seq<Part>>
    decreases uses.len(),
{
    if uses.len() == 0 {
        Set::empty()
    } else {
        uses.last().after(dirs_after(uses.drop_last()))
    }
}

/// A directory that was just created is known, and one that was just forgotten is not.
pub proof fn law_cache_believes_what_it_is_told(dirs: Set<Seq<Part>>, dir: Seq<Part>)
    ensures
        CacheUse::Created(dir).after(dirs).contains(dir),
        !CacheUse::Forgotten(dir).after(dirs).contains(dir),
{
}

/// The cache never invents a directory: one that it knows was created in this run, and was not
/// forgotten since.
pub proof fn law_known_directories_were_created(uses: Seq<CacheUse>, dir: Seq<Part>)
    requires
        dirs_after(uses).contains(dir),
    ensures
        exists|i: int|
            #![trigger uses[i]]
            0 <= i < uses.len() && uses[i] == CacheUse::Created(dir) && forall|j: int|
                i < j < uses.len() ==> #[trigger] uses[j] != CacheUse::Forgotten(dir),
    decreases uses.len(),
{
    if uses.len() > 0 {
        let front = uses.drop_last();
        if uses.last() == CacheUse::Created(dir) {
            assert(uses[uses.len() - 1] == CacheUse::Created(dir));
        } else {
            assert(dirs_after(front).contains(dir));
            law_known_directories_were_created(front, dir);
            let i = choose|i: int|
                #![trigger front[i]]
                0 <= i < front.len() && front[i] == CacheUse::Created(dir) && forall|j: int|
                    i < j < front.len() ==> #[trigger] front[j] != CacheUse::Forgotten(dir);
            assert(uses[i] == CacheUse::Created(dir));
            assert forall|j: int| i < j < uses.len() implies #[trigger] uses[j]
                != CacheUse::Forgotten(dir) by {
                if j < front.len() {
                    assert(front[j] == uses[j]);
                }
            }
        }
    }
}

/// The cache stays within its cap.
pub proof fn law_cache_is_bounded(uses: Seq<CacheUse>)
    ensures
        dirs_after(uses).finite(),
        dirs_after(uses).len() <= MAX_REMEMBERED_DIRS,
    decreases uses.len(),
{
    if uses.len() > 0 {
        law_cache_is_bounded(uses.drop_last());
    }
}

/// A path is in a bucket.
spec fn holds(bucket: Seq<PathBuf>, p: Seq<Part>) -> bool {
    exists|i: int| 0 <= i < bucket.len() && (#[trigger] bucket[i]).key() == p
}

proof fn lemma_holds_push(bucket: Seq<PathBuf>, dir: PathBuf)
    ensures
        forall|p: Seq<Part>| #[trigger]
            holds(bucket.push(dir), p) <==> holds(bucket, p) || p == dir.key(),
{
    assert forall|p: Seq<Part>| #[trigger]
        holds(bucket.push(dir), p) <==> holds(bucket, p) || p == dir.key() by {
        if holds(bucket, p) {
            let i = choose|i: int| 0 <= i < bucket.len() && (#[trigger] bucket[i]).key() == p;
            assert(bucket.push(dir)[i].key() == p);
        }
        assert(bucket.push(dir)[bucket.len() as int] == dir);
        if holds(bucket.push(dir), p) {
            let i = choose|i: int|
                0 <= i < bucket.push(dir).len() && (#[trigger] bucket.push(dir)[i]).key() == p;
            if i < bucket.len() {
                assert(bucket[i].key() == p);
            }
        }
    }
}

proof fn lemma_holds_remove(bucket: Seq<PathBuf>, k: int)
    requires
        0 <= k < bucket.len(),
        forall|j: int|
            0 <= j < bucket.len() && j != k ==> (#[trigger] bucket[j]).key() != bucket[k].key(),
    ensures
        forall|p: Seq<Part>| #[trigger]
            holds(bucket.remove(k), p) <==> holds(bucket, p) && p != bucket[k].key(),
{
    let rest = bucket.remove(k);
    assert forall|p: Seq<Part>| #[trigger]
        holds(rest, p) <==> holds(bucket, p) && p != bucket[k].key() by {
        if holds(rest, p) {
            let i = choose|i: int| 0 <= i < rest.len() && (#[trigger] rest[i]).key() == p;
            assert(rest[i] == bucket[if i < k { i } else { i + 1 }]);
        }
        if holds(bucket, p) && p != bucket[k].key() {
            let i = choose|i: int| 0 <= i < bucket.len() && (#[trigger] bucket[i]).key() == p;
            assert(rest[if i < k { i } else { i - 1 }] == bucket[i]);
        }
    }
}

/// Looks for a path in a bucket.
fn position(bucket: &Vec<PathBuf>, p: &PathBuf) -> (r: Option<usize>)
    ensures
        match r {
            Some(i) => i < bucket@.len() && bucket@[i as int].key() == p.key(),
            None => !holds(bucket@, p.key()),
        },
{
    let mut i: usize = 0;
    while i < bucket.len()
        invariant
            i <= bucket.len(),
            forall|j: int| 0 <= j < i ==> (#[trigger] bucket@[j]).key() != p.key(),
        decreases bucket.len() - i,
    {
        if bucket[i].same(p) {
            return Some(i);
        }
        i = i + 1;
    }
    None
}

impl DirCache {
    /// The remembered directories, by their keys.
    pub closed spec fn dirs(self) -> Set<Seq<Part>> {
        self.seen@
    }

    /// The buckets hold the remembered directories, each in its place and once, and there are no
    /// more of them than the cap allows.
    pub closed spec fn wf(self) -> bool {
        &&& self.seen@.finite()
        &&& self.seen@.len() == self.count
        &&& self.count <= MAX_REMEMBERED_DIRS
        &&& forall|p: Seq<Part>| #[trigger]
            self.seen@.contains(p) <==> self.buckets@.contains_key(hash_path(p)) && holds(
                self.buckets@[hash_path(p)]@,
                p,
            )
        &&& forall|h: u64, i: int, j: int|
            #![trigger self.buckets@[h]@[i], self.buckets@[h]@[j]]
            self.buckets@.contains_key(h) && 0 <= i < j < self.buckets@[h]@.len()
                ==> self.buckets@[h]@[i].key() != self.buckets@[h]@[j].key()
    }

    pub fn new() -> (r: Self)
        ensures
            r.wf(),
            r.dirs() == dirs_after(Seq::empty()),
    {
        broadcast use vstd::std_specs::hash::group_hash_axioms;

        DirCache { buckets: HashMap::new(), count: 0, seen: Ghost(Set::empty()) }
    }

    /// What has to be done so that `dir` exists: nothing if it was already created this run.
    pub fn ensure(&self, dir: &PathBuf) -> (r: EnsureStep)
        requires
            self.wf(),
        ensures
            r == if self.dirs().contains(dir.key()) {
                EnsureStep::Known
            } else {
                EnsureStep::Create
            },
            r == step_for(self.dirs(), dir.key()),
    {
        broadcast use vstd::std_specs::hash::group_hash_axioms;

        let h: u64 = path_hash(dir);
        match self.buckets.get(&h) {
            Some(bucket) => match position(bucket, dir) {
                Some(_) => EnsureStep::Known,
                None => EnsureStep::Create,
            },
            None => EnsureStep::Create,
        }
    }

    /// Remembers that `dir` was created, starting over where the cap is reached.
    pub fn created(&mut self, dir: &PathBuf)
        requires
            old(self).wf(),
        ensures
            final(self).wf(),
            final(self).dirs() == CacheUse::Created(dir.key()).after(old(self).dirs()),
    {
        broadcast use vstd::std_specs::hash::group_hash_axioms;

        if self.count >= MAX_REMEMBERED_DIRS {
            self.buckets.clear();
            self.count = 0;
            self.seen = Ghost(Set::empty());
        }
        let ghost before = *self;
        assert(before.wf());
        let h: u64 = path_hash(dir);
        let mut bucket = match self.buckets.remove(&h) {
            Some(bucket) => bucket,
            None => Vec::new(),
        };
        let ghost kept = bucket@;
        match position(&bucket, dir) {
            Some(i) => {
                assert(holds(kept, kept[i as int].key()));
            },
            None => {
                let copy = dir.clone();
                bucket.push(copy);
                self.count = self.count + 1;
                proof {
                    lemma_holds_push(kept, copy);
                }
            },
        }
        let ghost filled = bucket@;
        self.seen = Ghost(self.seen@.insert(dir.key()));
        self.buckets.insert(h, bucket);
        proof {
            assert(before.seen@.contains(dir.key()) <==> holds(kept, dir.key()));
            assert forall|p: Seq<Part>| #[trigger]
                self.seen@.contains(p) <==> self.buckets@.contains_key(hash_path(p)) && holds(
                    self.buckets@[hash_path(p)]@,
                    p,
                ) by {
                assert(before.seen@.contains(p) <==> before.buckets@.contains_key(hash_path(p))
                    && holds(before.buckets@[hash_path(p)]@, p));
                if hash_path(p) == h {
                    assert(holds(filled, p) <==> holds(kept, p) || p == dir.key());
                }
            }
            assert forall|k: u64, i: int, j: int|
                #![trigger self.buckets@[k]@[i], self.buckets@[k]@[j]]
                self.buckets@.contains_key(k) && 0 <= i < j < self.buckets@[k]@.len() implies
                self.buckets@[k]@[i].key() != self.buckets@[k]@[j].key() by {
                if k != h {
                    assert(self.buckets@[k]@ == before.buckets@[k]@);
                } else if j < kept.len() {
                    assert(before.buckets@[h]@[i].key() != before.buckets@[h]@[j].key());
                } else {
                    assert(kept[i].key() != dir.key());
                }
            }
        }
    }

    /// Forgets a directory so the next `ensure` has it created.
    pub fn forget(&mut self, dir: &PathBuf)
        requires
            old(self).wf(),
        ensures
            final(self).wf(),
            final(self).dirs() == CacheUse::Forgotten(dir.key()).after(old(self).dirs()),
    {
        broadcast use vstd::std_specs::hash::group_hash_axioms;

        let h: u64 = path_hash(dir);
        let ghost before = *self;
        let ghost mut kept: Seq<PathBuf> = Seq::empty();
        let ghost mut left: Seq<PathBuf> = Seq::empty();
        if let Some(mut bucket) = self.buckets.remove(&h) {
            proof {
                kept = bucket@;
            }
            match position(&bucket, dir) {
                Some(i) => {
                    assert(holds(kept, kept[i as int].key()));
                    assert(before.seen@.contains(dir.key()));
                    bucket.remove(i);
                    proof {
                        assert forall|j: int| 0 <= j < kept.len() && j != i implies (
                        #[trigger] kept[j]).key() != dir.key() by {
                            if j < i {
                                assert(before.buckets@[h]@[j].key() != before.buckets@[h]@[i as int].key());
                            } else {
                                assert(before.buckets@[h]@[i as int].key() != before.buckets@[h]@[j].key());
                            }
                        }
                        lemma_holds_remove(kept, i as int);
                    }
                    self.count = self.count - 1;
                },
                None => {},
            }
            proof {
                left = bucket@;
            }
            self.buckets.insert(h, bucket);
        }
        self.seen = Ghost(self.seen@.remove(dir.key()));
        proof {
            assert(before.seen@.contains(dir.key()) <==> holds(kept, dir.key()));
            assert forall|p: Seq<Part>| #[trigger]
                self.seen@.contains(p) <==> self.buckets@.contains_key(hash_path(p)) && holds(
                    self.buckets@[hash_path(p)]@,
                    p,
                ) by {
                assert(before.seen@.contains(p) <==> before.buckets@.contains_key(hash_path(p))
                    && holds(before.buckets@[hash_path(p)]@, p));
                if hash_path(p) == h {
                    assert(holds(left, p) <==> holds(kept, p) && p != dir.key());
                }
            }
            assert forall|k: u64, i: int, j: int|
                #![trigger self.buckets@[k]@[i], self.buckets@[k]@[j]]
                self.buckets@.contains_key(k) && 0 <= i < j < self.buckets@[k]@.len() implies
                self.buckets@[k]@[i].key() != self.buckets@[k]@[j].key() by {
                if k != h {
                    assert(self.buckets@[k]@ == before.buckets@[k]@);
                } else {
                    let cut = if left.len() < kept.len() {
                        choose|c: int| 0 <= c < kept.len() && left == #[trigger] kept.remove(c)
                    } else {
                        kept.len() as int
                    };
                    let i0 = if i < cut { i } else { i + 1 };
                    let j0 = if j < cut { j } else { j + 1 };
                    assert(before.buckets@[h]@[i0].key() != before.buckets@[h]@[j0].key());
                }
            }
        }
    }
}

/// Below its cap the cache forgets nothing by itself: a directory that it knows stays known,
/// whichever others are created, and whichever others are forgotten.
pub proof fn law_cache_keeps_what_it_knows(
    dirs: Set<Seq<Part>>,
    dir: Seq<Part>,
    other: Seq<Part>,
)
    requires
        dir != other,
    ensures
        dirs.len() < 100_000 ==> (CacheUse::Created(other).after(dirs).contains(dir)
            <==> dirs.contains(dir)),
        CacheUse::Forgotten(other).after(dirs).contains(dir) <==> dirs.contains(dir),
        dirs.len() >= 100_000 ==> !CacheUse::Created(other).after(dirs).contains(dir),
{
}

/// As long as no more than the cap were created, a directory that was created and not forgotten
/// since is known.
pub proof fn law_created_directories_are_known(uses: Seq<CacheUse>, i: int, dir: Seq<Part>)
    requires
        uses.len() <= 100_000,
        0 <= i < uses.len(),
        uses[i] == CacheUse::Created(dir),
        forall|j: int| i < j < uses.len() ==> #[trigger] uses[j] != CacheUse::Forgotten(dir),
    ensures
        dirs_after(uses).contains(dir),
    decreases uses.len(),
{
    let front = uses.drop_last();
    if i < front.len() {
        assert forall|j: int| i < j < front.len() implies #[trigger] front[j]
            != CacheUse::Forgotten(dir) by {
            assert(front[j] == uses[j]);
        }
        law_created_directories_are_known(front, i, dir);
        lemma_no_more_than_told(front);
        assert(uses[uses.len() - 1] == uses.last());
    }
}

proof fn lemma_no_more_than_told(uses: Seq<CacheUse>)
    ensures
        dirs_after(uses).finite(),
        dirs_after(uses).len() <= uses.len(),
    decreases uses.len(),
{
    if uses.len() > 0 {
        lemma_no_more_than_told(uses.drop_last());
    }
}

/// A directory is created the first time and known from then on, until it is forgotten; then it is
/// created again.
pub proof fn law_directories_are_created_once(dirs: Set<Seq<Part>>, dir: Seq<Part>)
    ensures
        step_for(Set::empty(), dir) is Create,
        step_for(CacheUse::Created(dir).after(dirs), dir) is Known,
        step_for(CacheUse::Forgotten(dir).after(dirs), dir) is Create,
        step_for(dirs, dir) is Known <==> dirs.contains(dir),
{
}

} // verus!
