//! A mount table: backends bound at distinct virtual base paths, resolved
//! and dispatched to as one filesystem.

use vstd::prelude::*;

use crate::filesystem::{virtual_dir_meta, DirEntry, FsError, Filesystem, Metadata, OpenOptions};
use crate::path::{join, join_from, parse_path, segments, segs_view, valid_text};

verus! {

/// Why a mount failed.
#[derive(Clone, Copy, Debug, PartialEq, Eq, Structural)]
pub enum MountError {
    /// The base is not a well-formed virtual path.
    InvalidPath,
    /// Bases must be distinct, and none may lie inside another.
    LocationOverlap,
}

impl MountError {
    /// A short description of the error.
    pub fn description(&self) -> (r: &'static str)
        ensures
            *self == MountError::InvalidPath ==> r@ == "Mount error: Invalid path"@,
            *self == MountError::LocationOverlap ==> r@ == "Mount error: Location overlap"@,
    {
        match self {
            MountError::InvalidPath => "Mount error: Invalid path",
            MountError::LocationOverlap => "Mount error: Location overlap",
        }
    }
}

/// `pre` is a leading run of the segments of `p`.
pub open spec fn is_prefix(pre: Seq<Seq<char>>, p: Seq<Seq<char>>) -> bool {
    pre.len() <= p.len() && p.subrange(0, pre.len() as int) =~= pre
}

/// One of the two paths lies at or inside the other.
pub open spec fn overlap(a: Seq<Seq<char>>, b: Seq<Seq<char>>) -> bool {
    is_prefix(a, b) || is_prefix(b, a)
}

/// No two bases of a table overlap.
pub open spec fn table_wf(bases: Seq<Seq<Seq<char>>>) -> bool {
    forall|i: int, j: int|
        0 <= i < bases.len() && 0 <= j < bases.len() && i != j ==> !overlap(
            #[trigger] bases[i],
            #[trigger] bases[j],
        )
}

/// `b` overlaps some base of the table.
pub open spec fn overlaps_any(bases: Seq<Seq<Seq<char>>>, b: Seq<Seq<char>>) -> bool {
    exists|i: int| 0 <= i < bases.len() && overlap(#[trigger] bases[i], b)
}

/// The base at index `i` holds `p` in its subtree.
pub open spec fn owns(bases: Seq<Seq<Seq<char>>>, p: Seq<Seq<char>>, i: int) -> bool {
    0 <= i < bases.len() && is_prefix(bases[i], p)
}

/// Some base holds `p` in its subtree.
pub open spec fn owned(bases: Seq<Seq<Seq<char>>>, p: Seq<Seq<char>>) -> bool {
    exists|i: int| owns(bases, p, i)
}

/// Some base lies at or below `p`.
pub open spec fn above_mount(bases: Seq<Seq<Seq<char>>>, p: Seq<Seq<char>>) -> bool {
    exists|i: int| 0 <= i < bases.len() && is_prefix(p, #[trigger] bases[i])
}

/// The bases at or below `p`, each relative to `p`, in table order.
pub open spec fn nested(bases: Seq<Seq<Seq<char>>>, p: Seq<Seq<char>>) -> Seq<Seq<Seq<char>>>
    decreases bases.len(),
{
    if bases.len() == 0 {
        Seq::empty()
    } else {
        let rest = nested(bases.drop_last(), p);
        if is_prefix(p, bases.last()) {
            rest.push(bases.last().subrange(p.len() as int, bases.last().len() as int))
        } else {
            rest
        }
    }
}

/// A listing of synthesized directories at the relative paths `rel`.
pub open spec fn lists_virtual_dirs(entries: Seq<DirEntry>, rel: Seq<Seq<Seq<char>>>) -> bool {
    &&& entries.len() == rel.len()
    &&& forall|k: int|
        0 <= k < entries.len() ==> (#[trigger] entries[k]).path@ == join(rel[k])
            && entries[k].meta == virtual_dir_meta()
}

/// The index of the base equal to `b`, where there is one.
pub open spec fn holds_base(bases: Seq<Seq<Seq<char>>>, b: Seq<Seq<char>>, i: int) -> bool {
    0 <= i < bases.len() && bases[i] =~= b
}

proof fn lemma_prefix_trans(a: Seq<Seq<char>>, b: Seq<Seq<char>>, c: Seq<Seq<char>>)
    requires
        is_prefix(a, b),
        is_prefix(b, c),
    ensures
        is_prefix(a, c),
{
    assert(c.subrange(0, a.len() as int) =~= b.subrange(0, a.len() as int));
}

proof fn lemma_common_prefix(a: Seq<Seq<char>>, b: Seq<Seq<char>>, p: Seq<Seq<char>>)
    requires
        is_prefix(a, p),
        is_prefix(b, p),
    ensures
        overlap(a, b),
{
    if a.len() <= b.len() {
        assert(b.subrange(0, a.len() as int) =~= p.subrange(0, a.len() as int));
    } else {
        assert(a.subrange(0, b.len() as int) =~= p.subrange(0, b.len() as int));
    }
}

/// In a table whose bases do not overlap, a path inside the subtree of one
/// base lies inside no other base: resolution reaches that base's backend
/// and never another's.
pub proof fn lemma_single_owner(bases: Seq<Seq<Seq<char>>>, p: Seq<Seq<char>>, i: int, j: int)
    requires
        table_wf(bases),
        owns(bases, p, i),
        0 <= j < bases.len(),
        j != i,
    ensures
        !owns(bases, p, j),
{
    if owns(bases, p, j) {
        lemma_common_prefix(bases[i], bases[j], p);
    }
}

/// A base at, above or below a bound base overlaps the table, so mounting
/// it fails.
pub proof fn lemma_overlap_refused(bases: Seq<Seq<Seq<char>>>, b: Seq<Seq<char>>, i: int)
    requires
        0 <= i < bases.len(),
        is_prefix(b, bases[i]) || is_prefix(bases[i], b),
    ensures
        overlaps_any(bases, b),
{
    assert(overlap(bases[i], b));
}

/// A base just bound overlaps itself, so mounting it a second time fails.
pub proof fn lemma_remount_refused(bases: Seq<Seq<Seq<char>>>, b: Seq<Seq<char>>)
    ensures
        overlaps_any(bases.push(b), b),
{
    let t = bases.push(b);
    assert(b.subrange(0, b.len() as int) =~= b);
    assert(overlap(t[bases.len() as int], b));
}

/// `rel` is a base that lies below `p`, with `p` stripped from its front.
pub open spec fn strips_to(bases: Seq<Seq<Seq<char>>>, p: Seq<Seq<char>>, rel: Seq<Seq<char>>) -> bool {
    exists|i: int|
        0 <= i < bases.len() && is_prefix(p, #[trigger] bases[i]) && rel == bases[i].subrange(
            p.len() as int,
            bases[i].len() as int,
        )
}

/// The synthesized listing of a path holds one entry for each base that
/// lies below the path, and each entry is such a base with the path
/// stripped from its front.
pub proof fn lemma_nested_counts(bases: Seq<Seq<Seq<char>>>, p: Seq<Seq<char>>)
    ensures
        nested(bases, p).len() == bases.filter(|b: Seq<Seq<char>>| is_prefix(p, b)).len(),
        forall|k: int|
            0 <= k < nested(bases, p).len() ==> strips_to(bases, p, #[trigger] nested(bases, p)[k]),
    decreases bases.len(),
{
    reveal(Seq::filter);
    if bases.len() > 0 {
        let prev = bases.drop_last();
        let pred = |b: Seq<Seq<char>>| is_prefix(p, b);
        lemma_nested_counts(prev, p);
        assert(bases.filter(pred).len() == prev.filter(pred).len() + (if pred(bases.last()) {
            1int
        } else {
            0int
        }));
        assert forall|k: int| 0 <= k < nested(bases, p).len() implies strips_to(
            bases,
            p,
            #[trigger] nested(bases, p)[k],
        ) by {
            if k < nested(prev, p).len() {
                assert(nested(bases, p)[k] == nested(prev, p)[k]);
                assert(strips_to(prev, p, nested(prev, p)[k]));
                let i = choose|i: int|
                    0 <= i < prev.len() && is_prefix(p, #[trigger] prev[i]) && nested(prev, p)[k]
                        == prev[i].subrange(p.len() as int, prev[i].len() as int);
                assert(bases[i] == prev[i]);
            } else {
                assert(bases[bases.len() - 1] == bases.last());
            }
        }
    }
}

/// Mounting a base and then unmounting the same base gives back the table
/// as it was: the new binding is the last one, and removing it leaves the
/// old bases and backends.
pub proof fn lemma_mount_then_unmount<F>(
    bases: Seq<Seq<Seq<char>>>,
    backends: Seq<F>,
    b: Seq<Seq<char>>,
    fs: F,
    i: int,
)
    requires
        !overlaps_any(bases, b),
        holds_base(bases.push(b), b, i),
    ensures
        i == bases.len(),
        bases.push(b).remove(i) == bases,
        backends.push(fs)[backends.len() as int] == fs,
        backends.len() == bases.len() ==> backends.push(fs).remove(i) == backends,
{
    if i < bases.len() {
        assert(bases.push(b)[i] == bases[i]);
        assert(b.subrange(0, b.len() as int) =~= b);
        assert(overlap(bases[i], b));
    }
    assert(bases.push(b).remove(i) =~= bases);
    if backends.len() == bases.len() {
        assert(backends.push(fs).remove(i) =~= backends);
    }
}

/// Where a path of a mount table leads.
#[derive(Clone, Debug)]
pub enum Resolution {
    /// Into the backend at `index`, at the path `rest` below its base.
    Delegate { index: usize, rest: String },
    /// To a synthesized directory above one or more mount points.
    Boundary,
    /// Nowhere: nothing is mounted at, above or below the path.
    Unmounted,
}

/// Whether the segments `p` start with the segments `pre`.
fn starts_with(p: &Vec<String>, pre: &Vec<String>) -> (r: bool)
    ensures
        r == is_prefix(segs_view(pre@), segs_view(p@)),
{
    if pre.len() > p.len() {
        return false;
    }
    let mut i: usize = 0;
    while i < pre.len()
        invariant
            pre@.len() <= p@.len(),
            i <= pre@.len(),
            segs_view(p@).subrange(0, i as int) =~= segs_view(pre@).subrange(0, i as int),
        decreases pre@.len() - i,
    {
        if p[i] != pre[i] {
            assert(segs_view(p@)[i as int] != segs_view(pre@)[i as int]);
            return false;
        }
        i = i + 1;
    }
    proof {
        assert(segs_view(pre@).subrange(0, i as int) =~= segs_view(pre@));
    }
    true
}

struct Mount<F> {
    base: Vec<String>,
    fs: F,
}

/// A mount table. Each backend is bound at a base path; no base lies at or
/// inside another. Bindings keep the order in which they were mounted.
pub struct VirtualFs<F> {
    mounts: Vec<Mount<F>>,
}

impl<F> VirtualFs<F> {
    /// The bases of the table, in order.
    pub closed spec fn bases(&self) -> Seq<Seq<Seq<char>>> {
        self.mounts@.map_values(|m: Mount<F>| segs_view(m.base@))
    }

    /// The backends of the table, in the order of their bases.
    pub closed spec fn backends(&self) -> Seq<F> {
        self.mounts@.map_values(|m: Mount<F>| m.fs)
    }

    /// There is one backend for each base.
    pub proof fn lemma_lengths(&self)
        ensures
            self.bases().len() == self.backends().len(),
    {
    }

    /// An empty table.
    pub fn new() -> (r: Self)
        ensures
            r.bases() == Seq::<Seq<Seq<char>>>::empty(),
            r.backends() == Seq::<F>::empty(),
            table_wf(r.bases()),
    {
        let r = VirtualFs { mounts: Vec::new() };
        assert(r.bases() =~= Seq::<Seq<Seq<char>>>::empty());
        assert(r.backends() =~= Seq::<F>::empty());
        r
    }

    /// Binds `fs` at the base `vpath`. Fails where `vpath` is malformed, or
    /// where it equals, contains or lies inside a base already bound; the
    /// table is then unchanged.
    #[must_use]
    pub fn mount(&mut self, vpath: &str, fs: F) -> (r: Result<(), MountError>)
        ensures
            table_wf(old(self).bases()) ==> table_wf(final(self).bases()),
            !valid_text(vpath@) ==> r == Err::<(), MountError>(MountError::InvalidPath),
            valid_text(vpath@) && overlaps_any(old(self).bases(), segments(vpath@)) ==> r == Err::<
                (),
                MountError,
            >(MountError::LocationOverlap),
            valid_text(vpath@) && !overlaps_any(old(self).bases(), segments(vpath@)) ==> r == Ok::<
                (),
                MountError,
            >(()),
            r is Ok ==> final(self).bases() == old(self).bases().push(segments(vpath@))
                && final(self).backends() == old(self).backends().push(fs),
            r is Err ==> final(self).bases() == old(self).bases() && final(self).backends() == old(self).backends(),
    {
        let p = match parse_path(vpath) {
            None => return Err(MountError::InvalidPath),
            Some(p) => p,
        };
        let ghost segs = segs_view(p@);
        let ghost bases = self.bases();
        let mut i: usize = 0;
        while i < self.mounts.len()
            invariant
                i <= self.mounts@.len(),
                bases == self.bases(),
                bases == old(self).bases(),
                self.backends() == old(self).backends(),
                valid_text(vpath@),
                segs == segments(vpath@),
                bases.len() == self.mounts@.len(),
                segs == segs_view(p@),
                forall|k: int| 0 <= k < i ==> !overlap(#[trigger] bases[k], segs),
            decreases self.mounts@.len() - i,
        {
            assert(bases[i as int] == segs_view(self.mounts@[i as int].base@));
            if starts_with(&self.mounts[i].base, &p) || starts_with(&p, &self.mounts[i].base) {
                assert(overlap(bases[i as int], segs));
                return Err(MountError::LocationOverlap);
            }
            i = i + 1;
        }
        assert(!overlaps_any(bases, segs));
        let ghost backends = self.backends();
        let ghost new_bases = bases.push(segs);
        proof {
            if table_wf(bases) {
                assert forall|a: int, b: int|
                    0 <= a < new_bases.len() && 0 <= b < new_bases.len() && a != b implies !overlap(
                    #[trigger] new_bases[a],
                    #[trigger] new_bases[b],
                ) by {
                    if a == bases.len() {
                        assert(!overlap(bases[b], segs));
                    } else if b == bases.len() {
                        assert(!overlap(bases[a], segs));
                    } else {
                        assert(new_bases[a] == bases[a] && new_bases[b] == bases[b]);
                    }
                }
            }
        }
        self.mounts.push(Mount { base: p, fs });
        assert(self.bases() =~= new_bases);
        assert(self.backends() =~= backends.push(fs));
        Ok(())
    }

    /// Removes the binding whose base is exactly `vpath` and hands back its
    /// backend. Where there is none, nothing changes.
    pub fn unmount(&mut self, vpath: &str) -> (r: Option<F>)
        ensures
            table_wf(old(self).bases()) ==> table_wf(final(self).bases()),
            r is Some <==> valid_text(vpath@) && exists|i: int|
                holds_base(old(self).bases(), segments(vpath@), i),
            r matches Some(f) ==> exists|i: int|
                holds_base(old(self).bases(), segments(vpath@), i) && f == old(self).backends()[i]
                    && final(self).bases() == old(self).bases().remove(i) && final(self).backends() == old(self).backends().remove(i),
            r is None ==> final(self).bases() == old(self).bases() && final(self).backends() == old(self).backends(),
    {
        let p = match parse_path(vpath) {
            None => return None,
            Some(p) => p,
        };
        let ghost segs = segs_view(p@);
        let ghost bases = self.bases();
        let ghost backends = self.backends();
        let mut i: usize = 0;
        while i < self.mounts.len()
            invariant
                i <= self.mounts@.len(),
                bases == self.bases(),
                bases == old(self).bases(),
                self.backends() == old(self).backends(),
                valid_text(vpath@),
                segs == segments(vpath@),
                backends == self.backends(),
                bases.len() == self.mounts@.len(),
                segs == segs_view(p@),
                forall|k: int| 0 <= k < i ==> !holds_base(bases, segs, k),
            decreases self.mounts@.len() - i,
        {
            assert(bases[i as int] == segs_view(self.mounts@[i as int].base@));
            if self.mounts[i].base.len() == p.len() && starts_with(&p, &self.mounts[i].base) {
                let ghost new_bases = bases.remove(i as int);
                proof {
                    if table_wf(bases) {
                        assert forall|a: int, b: int|
                            0 <= a < new_bases.len() && 0 <= b < new_bases.len() && a != b implies !overlap(
                            #[trigger] new_bases[a],
                            #[trigger] new_bases[b],
                        ) by {
                            let a0 = if a < i { a } else { a + 1 };
                            let b0 = if b < i { b } else { b + 1 };
                            assert(new_bases[a] == bases[a0]);
                            assert(new_bases[b] == bases[b0]);
                        }
                    }
                }
                assert(segs.subrange(0, segs.len() as int) =~= segs);
                assert(holds_base(bases, segs, i as int));
                let m = self.mounts.remove(i);
                assert(self.bases() =~= new_bases);
                assert(self.backends() =~= backends.remove(i as int));
                assert(holds_base(bases, segs, i as int));
                return Some(m.fs);
            }
            i = i + 1;
        }
        None
    }

    /// Removes every binding.
    pub fn unmount_all(&mut self)
        ensures
            final(self).bases() == Seq::<Seq<Seq<char>>>::empty(),
            final(self).backends() == Seq::<F>::empty(),
            table_wf(final(self).bases()),
    {
        self.mounts.clear();
        assert(self.bases() =~= Seq::<Seq<Seq<char>>>::empty());
        assert(self.backends() =~= Seq::<F>::empty());
    }

    /// A well-formed `path` that no base holds, but above one or more bases.
    pub open spec fn at_boundary(&self, path: Seq<char>) -> bool {
        valid_text(path) && !owned(self.bases(), segments(path)) && above_mount(
            self.bases(),
            segments(path),
        )
    }

    /// A well-formed `path` that lies neither inside nor above any base.
    pub open spec fn unmounted(&self, path: Seq<char>) -> bool {
        valid_text(path) && !owned(self.bases(), segments(path)) && !above_mount(
            self.bases(),
            segments(path),
        )
    }

    /// Finds where `path` leads: into the backend whose base holds it, with
    /// the base stripped; else to a synthesized directory where a base lies
    /// below it; else nowhere.
    pub fn resolve(&self, path: &str) -> (r: Result<Resolution, FsError>)
        ensures
            !valid_text(path@) ==> r == Err::<Resolution, FsError>(FsError::InvalidInput),
            valid_text(path@) ==> r is Ok,
            r matches Ok(Resolution::Delegate { index, rest }) ==> owns(
                self.bases(),
                segments(path@),
                index as int,
            ) && rest@ == join(
                segments(path@).subrange(
                    self.bases()[index as int].len() as int,
                    segments(path@).len() as int,
                ),
            ),
            r matches Ok(Resolution::Delegate { .. }) <==> valid_text(path@) && owned(
                self.bases(),
                segments(path@),
            ),
            r matches Ok(Resolution::Boundary) <==> self.at_boundary(path@),
            r matches Ok(Resolution::Unmounted) <==> self.unmounted(path@),
    {
        let p = match parse_path(path) {
            None => return Err(FsError::InvalidInput),
            Some(p) => p,
        };
        let ghost segs = segs_view(p@);
        let ghost bases = self.bases();
        let mut i: usize = 0;
        while i < self.mounts.len()
            invariant
                i <= self.mounts@.len(),
                bases == self.bases(),
                bases.len() == self.mounts@.len(),
                segs == segs_view(p@),
                segs == segments(path@),
                valid_text(path@),
                forall|k: int| 0 <= k < i ==> !owns(bases, segs, k),
            decreases self.mounts@.len() - i,
        {
            assert(bases[i as int] == segs_view(self.mounts@[i as int].base@));
            if starts_with(&p, &self.mounts[i].base) {
                let rest = join_from(&p, self.mounts[i].base.len());
                assert(owns(bases, segs, i as int));
                return Ok(Resolution::Delegate { index: i, rest });
            }
            i = i + 1;
        }
        let mut j: usize = 0;
        while j < self.mounts.len()
            invariant
                j <= self.mounts@.len(),
                bases == self.bases(),
                bases.len() == self.mounts@.len(),
                segs == segs_view(p@),
                segs == segments(path@),
                valid_text(path@),
                !owned(bases, segs),
                forall|k: int| 0 <= k < j ==> !is_prefix(segs, #[trigger] bases[k]),
            decreases self.mounts@.len() - j,
        {
            assert(bases[j as int] == segs_view(self.mounts@[j as int].base@));
            if starts_with(&self.mounts[j].base, &p) {
                assert(is_prefix(segs, bases[j as int]));
                return Ok(Resolution::Boundary);
            }
            j = j + 1;
        }
        Ok(Resolution::Unmounted)
    }

    /// The synthesized listing of a path that no base holds: one read-only
    /// directory for each base below `path`, relative to it, in table order.
    /// Where a base holds `path`, its index comes back instead.
    fn list_boundary(&self, p: &Vec<String>) -> (r: Result<Vec<DirEntry>, usize>)
        ensures
            r matches Err(i) ==> owns(self.bases(), segs_view(p@), i as int),
            r is Ok <==> !owned(self.bases(), segs_view(p@)),
            r matches Ok(v) ==> lists_virtual_dirs(v@, nested(self.bases(), segs_view(p@))),
    {
        let ghost segs = segs_view(p@);
        let ghost bases = self.bases();
        let mut out: Vec<DirEntry> = Vec::new();
        let mut i: usize = 0;
        proof {
            assert(bases.subrange(0, 0) =~= Seq::<Seq<Seq<char>>>::empty());
        }
        while i < self.mounts.len()
            invariant
                i <= self.mounts@.len(),
                bases == self.bases(),
                bases.len() == self.mounts@.len(),
                segs == segs_view(p@),
                forall|k: int| 0 <= k < i ==> !owns(bases, segs, k),
                lists_virtual_dirs(out@, nested(bases.subrange(0, i as int), segs)),
            decreases self.mounts@.len() - i,
        {
            let ghost before = out@;
            assert(bases[i as int] == segs_view(self.mounts@[i as int].base@));
            assert(bases.subrange(0, i + 1).drop_last() =~= bases.subrange(0, i as int));
            if starts_with(&p, &self.mounts[i].base) {
                assert(owns(bases, segs, i as int));
                return Err(i);
            } else if starts_with(&self.mounts[i].base, p) {
                let rel = join_from(&self.mounts[i].base, p.len());
                out.push(DirEntry { path: rel, meta: Metadata::virtual_dir() });
                assert(segs_view(self.mounts@[i as int].base@).subrange(p@.len() as int, self.mounts@[i as int].base@.len() as int) =~= bases[i as int].subrange(segs.len() as int, bases[i as int].len() as int));
                assert forall|k: int| 0 <= k < out@.len() implies (#[trigger] out@[k]).path@ == join(
                    nested(bases.subrange(0, i + 1), segs)[k],
                ) && out@[k].meta == virtual_dir_meta() by {
                    if k < before.len() {
                        assert(out@[k] == before[k]);
                    }
                }
            }
            i = i + 1;
        }
        assert(bases.subrange(0, i as int) =~= bases);
        Ok(out)
    }
}

impl<F> Default for VirtualFs<F> {
    /// An empty table.
    fn default() -> (r: Self)
        ensures
            r.bases() == Seq::<Seq<Seq<char>>>::empty(),
            r.backends() == Seq::<F>::empty(),
    {
        Self::new()
    }
}

impl<F: Filesystem> Filesystem for VirtualFs<F> {
    type Handle = F::Handle;

    /// The backend's metadata inside a mount; a read-only directory at a
    /// boundary; `NotFound` elsewhere.
    fn metadata(&self, path: &str) -> (r: Result<Metadata, FsError>)
        ensures
            !valid_text(path@) ==> r == Err::<Metadata, FsError>(FsError::InvalidInput),
            self.at_boundary(path@) ==> r == Ok::<Metadata, FsError>(virtual_dir_meta()),
            self.unmounted(path@) ==> r == Err::<Metadata, FsError>(FsError::NotFound),
    {
        match self.resolve(path) {
            Err(e) => Err(e),
            Ok(Resolution::Delegate { index, rest }) => self.mounts[index].fs.metadata(rest.as_str()),
            Ok(Resolution::Boundary) => Ok(Metadata::virtual_dir()),
            Ok(Resolution::Unmounted) => Err(FsError::NotFound),
        }
    }

    /// The backend's file inside a mount; `PermissionDenied` at a boundary;
    /// `NotFound` elsewhere.
    fn open_file(&self, path: &str, opts: OpenOptions) -> (r: Result<F::Handle, FsError>)
        ensures
            !valid_text(path@) ==> r matches Err(FsError::InvalidInput),
            self.at_boundary(path@) ==> r matches Err(FsError::PermissionDenied),
            self.unmounted(path@) ==> r matches Err(FsError::NotFound),
    {
        match self.resolve(path) {
            Err(e) => Err(e),
            Ok(Resolution::Delegate { index, rest }) => self.mounts[index].fs.open_file(rest.as_str(), opts),
            Ok(Resolution::Boundary) => Err(FsError::PermissionDenied),
            Ok(Resolution::Unmounted) => Err(FsError::NotFound),
        }
    }

    /// The backend's removal inside a mount; `PermissionDenied` at a
    /// boundary; `NotFound` elsewhere.
    fn remove_file(&self, path: &str) -> (r: Result<(), FsError>)
        ensures
            !valid_text(path@) ==> r == Err::<(), FsError>(FsError::InvalidInput),
            self.at_boundary(path@) ==> r == Err::<(), FsError>(FsError::PermissionDenied),
            self.unmounted(path@) ==> r == Err::<(), FsError>(FsError::NotFound),
    {
        match self.resolve(path) {
            Err(e) => Err(e),
            Ok(Resolution::Delegate { index, rest }) => self.mounts[index].fs.remove_file(rest.as_str()),
            Ok(Resolution::Boundary) => Err(FsError::PermissionDenied),
            Ok(Resolution::Unmounted) => Err(FsError::NotFound),
        }
    }

    /// The backend's listing inside a mount. Elsewhere one synthesized
    /// directory for each base below the path, or `NotFound` where there is
    /// none.
    fn read_dir(&self, path: &str) -> (r: Result<Vec<DirEntry>, FsError>)
        ensures
            !valid_text(path@) ==> r == Err::<Vec<DirEntry>, FsError>(FsError::InvalidInput),
            valid_text(path@) && !owned(self.bases(), segments(path@)) ==> {
                let rel = nested(self.bases(), segments(path@));
                &&& r is Ok <==> rel.len() > 0
                &&& r matches Ok(v) ==> lists_virtual_dirs(v@, rel)
                &&& r is Err ==> r == Err::<Vec<DirEntry>, FsError>(FsError::NotFound)
            },
    {
        let p = match parse_path(path) {
            None => return Err(FsError::InvalidInput),
            Some(p) => p,
        };
        match self.list_boundary(&p) {
            Err(index) => {
                let rest = join_from(&p, self.mounts[index].base.len());
                self.mounts[index].fs.read_dir(rest.as_str())
            },
            Ok(v) => {
                if v.len() > 0 {
                    Ok(v)
                } else {
                    Err(FsError::NotFound)
                }
            },
        }
    }

    /// The backend's creation inside a mount; `PermissionDenied` elsewhere.
    fn create_dir(&self, path: &str) -> (r: Result<(), FsError>)
        ensures
            !valid_text(path@) ==> r == Err::<(), FsError>(FsError::InvalidInput),
            valid_text(path@) && !owned(self.bases(), segments(path@)) ==> r == Err::<(), FsError>(
                FsError::PermissionDenied,
            ),
    {
        match self.resolve(path) {
            Err(e) => Err(e),
            Ok(Resolution::Delegate { index, rest }) => self.mounts[index].fs.create_dir(rest.as_str()),
            Ok(_) => Err(FsError::PermissionDenied),
        }
    }

    /// The backend's recursive creation inside a mount; `PermissionDenied`
    /// elsewhere.
    fn create_dir_all(&self, path: &str) -> (r: Result<(), FsError>)
        ensures
            !valid_text(path@) ==> r == Err::<(), FsError>(FsError::InvalidInput),
            valid_text(path@) && !owned(self.bases(), segments(path@)) ==> r == Err::<(), FsError>(
                FsError::PermissionDenied,
            ),
    {
        match self.resolve(path) {
            Err(e) => Err(e),
            Ok(Resolution::Delegate { index, rest }) => self.mounts[index].fs.create_dir_all(rest.as_str()),
            Ok(_) => Err(FsError::PermissionDenied),
        }
    }

    /// The backend's removal inside a mount; `PermissionDenied` at a
    /// boundary; `NotFound` elsewhere.
    fn remove_dir(&self, path: &str) -> (r: Result<(), FsError>)
        ensures
            !valid_text(path@) ==> r == Err::<(), FsError>(FsError::InvalidInput),
            self.at_boundary(path@) ==> r == Err::<(), FsError>(FsError::PermissionDenied),
            self.unmounted(path@) ==> r == Err::<(), FsError>(FsError::NotFound),
    {
        match self.resolve(path) {
            Err(e) => Err(e),
            Ok(Resolution::Delegate { index, rest }) => self.mounts[index].fs.remove_dir(rest.as_str()),
            Ok(Resolution::Boundary) => Err(FsError::PermissionDenied),
            Ok(Resolution::Unmounted) => Err(FsError::NotFound),
        }
    }

    /// The backend's recursive removal inside a mount; `PermissionDenied` at
    /// a boundary; `NotFound` elsewhere.
    fn remove_dir_all(&self, path: &str) -> (r: Result<(), FsError>)
        ensures
            !valid_text(path@) ==> r == Err::<(), FsError>(FsError::InvalidInput),
            self.at_boundary(path@) ==> r == Err::<(), FsError>(FsError::PermissionDenied),
            self.unmounted(path@) ==> r == Err::<(), FsError>(FsError::NotFound),
    {
        match self.resolve(path) {
            Err(e) => Err(e),
            Ok(Resolution::Delegate { index, rest }) => self.mounts[index].fs.remove_dir_all(rest.as_str()),
            Ok(Resolution::Boundary) => Err(FsError::PermissionDenied),
            Ok(Resolution::Unmounted) => Err(FsError::NotFound),
        }
    }
}

} // verus!
