//! The inode address space: a bidirectional mapping between caller-assigned
//! numeric identifiers and hierarchical paths, with per-record attributes.
//! The two directions are kept mutually consistent: at any instant each
//! identifier is bound to exactly one current path and each path to exactly
//! one identifier; re-creating a record under a reused identifier or path
//! silently unbinds the prior binding.

use vstd::prelude::*;
use vstd::string::StrSliceExecFns;
use crate::text::str_eq;

verus! {

/// One record of the address space: identifier, path, directory flag, size,
/// permission bits and the three timestamps.
#[derive(Debug, PartialEq, Eq)]
pub struct GnosInode {
    pub ino: u64,
    pub path: String,
    pub is_dir: bool,
    pub size: u64,
    pub permissions: u16,
    pub mtime: u64,
    pub ctime: u64,
    pub crtime: u64,
}

impl Clone for GnosInode {
    fn clone(&self) -> (r: Self)
        ensures
            r == *self,
    {
        GnosInode {
            ino: self.ino,
            path: self.path.clone(),
            is_dir: self.is_dir,
            size: self.size,
            permissions: self.permissions,
            mtime: self.mtime,
            ctime: self.ctime,
            crtime: self.crtime,
        }
    }
}

impl GnosInode {
    /// A directory record: a fixed nominal size and directory permissions,
    /// all three timestamps set to `now`.
    pub fn new_directory(ino: u64, path: String, now: u64) -> (r: Self)
        ensures
            r.ino == ino,
            r.path == path,
            r.is_dir == true,
            r.size == 4096,
            r.permissions == 0o755,
            r.mtime == now && r.ctime == now && r.crtime == now,
    {
        GnosInode {
            ino,
            path,
            is_dir: true,
            size: 4096,
            permissions: 0o755,
            mtime: now,
            ctime: now,
            crtime: now,
        }
    }

    /// A regular-file record: empty, file permissions, all three timestamps
    /// set to `now`.
    pub fn new_file(ino: u64, path: String, now: u64) -> (r: Self)
        ensures
            r.ino == ino,
            r.path == path,
            r.is_dir == false,
            r.size == 0,
            r.permissions == 0o644,
            r.mtime == now && r.ctime == now && r.crtime == now,
    {
        GnosInode {
            ino,
            path,
            is_dir: false,
            size: 0,
            permissions: 0o644,
            mtime: now,
            ctime: now,
            crtime: now,
        }
    }
}

/// The record bound to an identifier, if any; records are unique per
/// identifier under the manager's invariant.
pub open spec fn ino_entry(entries: Seq<GnosInode>, ino: u64) -> Option<GnosInode>
    decreases entries.len(),
{
    if entries.len() == 0 {
        None
    } else if entries[0].ino == ino {
        Some(entries[0])
    } else {
        ino_entry(entries.drop_first(), ino)
    }
}

/// The record bound to a path, if any.
pub open spec fn path_entry(entries: Seq<GnosInode>, path: Seq<char>) -> Option<GnosInode>
    decreases entries.len(),
{
    if entries.len() == 0 {
        None
    } else if entries[0].path@ == path {
        Some(entries[0])
    } else {
        path_entry(entries.drop_first(), path)
    }
}

/// A record is found exactly when one with the identifier is present.
pub proof fn lemma_ino_entry_exists(entries: Seq<GnosInode>, ino: u64)
    ensures
        (ino_entry(entries, ino) is Some) <==> (exists|i: int|
            0 <= i < entries.len() && (#[trigger] entries[i]).ino == ino),
        ino_entry(entries, ino) matches Some(n) ==> n.ino == ino && entries.contains(n),
    decreases entries.len(),
{
    if entries.len() > 0 {
        lemma_ino_entry_exists(entries.drop_first(), ino);
        let rest = entries.drop_first();
        if entries[0].ino == ino {
            assert(entries.contains(entries[0]));
        } else {
            if ino_entry(rest, ino) is Some {
                let n = ino_entry(rest, ino).unwrap();
                assert(rest.contains(n));
                let i = choose|i: int| 0 <= i < rest.len() && rest[i] == n;
                assert(entries[i + 1] == n);
            }
            if exists|i: int| 0 <= i < entries.len() && (#[trigger] entries[i]).ino == ino {
                let i = choose|i: int|
                    0 <= i < entries.len() && (#[trigger] entries[i]).ino == ino;
                assert(rest[i - 1].ino == ino);
            }
        }
    }
}

/// A record is found exactly when one with the path is present.
pub proof fn lemma_path_entry_exists(entries: Seq<GnosInode>, path: Seq<char>)
    ensures
        (path_entry(entries, path) is Some) <==> (exists|i: int|
            0 <= i < entries.len() && (#[trigger] entries[i]).path@ == path),
        path_entry(entries, path) matches Some(n) ==> n.path@ == path && entries.contains(n),
    decreases entries.len(),
{
    if entries.len() > 0 {
        lemma_path_entry_exists(entries.drop_first(), path);
        let rest = entries.drop_first();
        if entries[0].path@ == path {
            assert(entries.contains(entries[0]));
        } else {
            if path_entry(rest, path) is Some {
                let n = path_entry(rest, path).unwrap();
                assert(rest.contains(n));
                let i = choose|i: int| 0 <= i < rest.len() && rest[i] == n;
                assert(entries[i + 1] == n);
            }
            if exists|i: int| 0 <= i < entries.len() && (#[trigger] entries[i]).path@ == path {
                let i = choose|i: int|
                    0 <= i < entries.len() && (#[trigger] entries[i]).path@ == path;
                assert(rest[i - 1].path@ == path);
            }
        }
    }
}

/// Installing a record: any record under the same identifier or the same
/// path is unbound, and the new record is appended.
pub open spec fn created(entries: Seq<GnosInode>, nd: GnosInode) -> Seq<GnosInode> {
    entries.filter(|e: GnosInode| e.ino != nd.ino && e.path@ != nd.path@).push(nd)
}

/// Filtering keeps a sequence whole when the predicate holds of every
/// element.
pub proof fn lemma_filter_all<A>(s: Seq<A>, pred: spec_fn(A) -> bool)
    requires
        forall|k: int| 0 <= k < s.len() ==> pred(#[trigger] s[k]),
    ensures
        s.filter(pred) == s,
    decreases s.len(),
{
    reveal(Seq::filter);
    if s.len() > 0 {
        lemma_filter_all(s.drop_last(), pred);
        assert(pred(s.last()));
        assert(s.drop_last().push(s.last()) =~= s);
    }
}

/// Every element of a filtered sequence is an element of the original.
pub proof fn lemma_filter_members<A>(s: Seq<A>, f: Seq<A>, pred: spec_fn(A) -> bool)
    requires
        f == s.filter(pred),
    ensures
        forall|i: int| 0 <= i < f.len() ==> s.contains(#[trigger] f[i]),
    decreases s.len(),
{
    reveal(Seq::filter);
    if s.len() > 0 {
        let prev = s.drop_last();
        lemma_filter_members(prev, prev.filter(pred), pred);
        assert forall|i: int| 0 <= i < f.len() implies s.contains(f[i]) by {
            if pred(s.last()) && i == f.len() - 1 {
                assert(f[i] == s.last());
                assert(s[s.len() - 1] == s.last());
            } else {
                assert(f[i] == prev.filter(pred)[i]);
                assert(prev.contains(f[i]));
                let j = choose|j: int| 0 <= j < prev.len() && prev[j] == f[i];
                assert(s[j] == f[i]);
            }
        }
    }
}

/// The address space: one vector of records, unique in both identifier and
/// path.
pub struct InodeManager {
    pub inodes: Vec<GnosInode>,
}

impl InodeManager {
    /// Both directions of the mapping are consistent: no two records share
    /// an identifier or a path.
    pub open spec fn wf(self) -> bool {
        forall|i: int, j: int|
            0 <= i < j < self.inodes@.len() ==> (#[trigger] self.inodes@[i]).ino != (
            #[trigger] self.inodes@[j]).ino && self.inodes@[i].path@ != self.inodes@[j].path@
    }

    /// An empty address space.
    pub fn new() -> (r: Self)
        ensures
            r.wf(),
            r.inodes@.len() == 0,
    {
        InodeManager { inodes: Vec::new() }
    }

    /// Installs both sides of the mapping for a record, unbinding whatever
    /// held the identifier or the path before.
    fn create(&mut self, nd: GnosInode) -> (r: u64)
        requires
            old(self).wf(),
        ensures
            final(self).wf(),
            r == nd.ino,
            final(self).inodes@ == created(old(self).inodes@, nd),
    {
        let ghost olds = self.inodes@;
        let ghost pred = |e: GnosInode| e.ino != nd.ino && e.path@ != nd.path@;
        let mut kept: Vec<GnosInode> = Vec::new();
        let mut i: usize = 0;
        proof {
            reveal(Seq::filter);
            assert(olds.subrange(0, 0).filter(pred) =~= Seq::<GnosInode>::empty());
        }
        while i < self.inodes.len()
            invariant
                old(self).wf(),
                *self == *old(self),
                self.inodes@ == olds,
                0 <= i <= olds.len(),
                kept@ == olds.subrange(0, i as int).filter(
                    |e: GnosInode| e.ino != nd.ino && e.path@ != nd.path@,
                ),
                forall|a: int, b: int|
                    0 <= a < b < kept@.len() ==> (#[trigger] kept@[a]).ino != (
                    #[trigger] kept@[b]).ino && kept@[a].path@ != kept@[b].path@,
                forall|a: int|
                    0 <= a < kept@.len() ==> (#[trigger] kept@[a]).ino != nd.ino && kept@[a].path@
                        != nd.path@,
            decreases olds.len() - i,
        {
            let e = &self.inodes[i];
            let keep = e.ino != nd.ino && !str_eq(e.path.as_str(), nd.path.as_str());
            if keep {
                let c = self.inodes[i].clone();
                proof {
                    assert forall|a: int| 0 <= a < kept@.len() implies (#[trigger] kept@[a]).ino
                        != c.ino && kept@[a].path@ != c.path@ by {
                        lemma_filter_members(
                            olds.subrange(0, i as int),
                            kept@,
                            |e: GnosInode| e.ino != nd.ino && e.path@ != nd.path@,
                        );
                        assert(olds.subrange(0, i as int).contains(kept@[a]));
                        let j = choose|j: int|
                            0 <= j < olds.subrange(0, i as int).len() && olds.subrange(
                                0,
                                i as int,
                            )[j] == kept@[a];
                        assert(olds[j] == kept@[a]);
                        assert(olds[i as int] == c);
                    }
                }
                kept.push(c);
            }
            proof {
                reveal(Seq::filter);
                let p = |e: GnosInode| e.ino != nd.ino && e.path@ != nd.path@;
                assert(olds.subrange(0, i + 1).drop_last() =~= olds.subrange(0, i as int));
                assert(olds.subrange(0, i + 1).last() == olds[i as int]);
                assert(kept@ == olds.subrange(0, i + 1).filter(p));
            }
            i = i + 1;
        }
        let ino = nd.ino;
        kept.push(nd);
        self.inodes = kept;
        proof {
            assert(olds.subrange(0, olds.len() as int) =~= olds);
        }
        ino
    }

    /// Installs a directory record under the caller-assigned identifier,
    /// overwriting any prior binding of that identifier or path.
    pub fn create_directory(&mut self, ino: u64, path: String, now: u64) -> (r: u64)
        requires
            old(self).wf(),
        ensures
            final(self).wf(),
            r == ino,
            ({
                let nd = final(self).inodes@.last();
                &&& nd.ino == ino
                &&& nd.path@ == path@
                &&& nd.is_dir == true
                &&& nd.size == 4096
                &&& nd.permissions == 0o755
                &&& nd.mtime == now && nd.ctime == now && nd.crtime == now
                &&& final(self).inodes@ == created(old(self).inodes@, nd)
            }),
    {
        let nd = GnosInode::new_directory(ino, path, now);
        self.create(nd)
    }

    /// Installs a regular-file record under the caller-assigned identifier,
    /// overwriting any prior binding of that identifier or path.
    pub fn create_file(&mut self, ino: u64, path: String, now: u64) -> (r: u64)
        requires
            old(self).wf(),
        ensures
            final(self).wf(),
            r == ino,
            ({
                let nd = final(self).inodes@.last();
                &&& nd.ino == ino
                &&& nd.path@ == path@
                &&& nd.is_dir == false
                &&& nd.size == 0
                &&& nd.permissions == 0o644
                &&& nd.mtime == now && nd.ctime == now && nd.crtime == now
                &&& final(self).inodes@ == created(old(self).inodes@, nd)
            }),
    {
        let nd = GnosInode::new_file(ino, path, now);
        self.create(nd)
    }

    /// An immutable snapshot of the record bound to the identifier, or none.
    pub fn get(&self, ino: u64) -> (r: Option<GnosInode>)
        ensures
            match r {
                Some(n) => ino_entry(self.inodes@, ino) == Some(n),
                None => ino_entry(self.inodes@, ino) is None,
            },
    {
        let ghost entries = self.inodes@;
        proof {
            assert(entries.skip(0) =~= entries);
        }
        let mut i: usize = 0;
        while i < self.inodes.len()
            invariant
                self.inodes@ == entries,
                0 <= i <= entries.len(),
                ino_entry(entries, ino) == ino_entry(entries.skip(i as int), ino),
            decreases entries.len() - i,
        {
            proof {
                assert(entries.skip(i as int)[0] == entries[i as int]);
            }
            if self.inodes[i].ino == ino {
                return Some(self.inodes[i].clone());
            }
            proof {
                assert(entries.skip(i as int).drop_first() =~= entries.skip(i + 1));
            }
            i = i + 1;
        }
        proof {
            assert(entries.skip(entries.len() as int).len() == 0);
        }
        None
    }

    /// The identifier bound to the path, or none.
    pub fn find_by_path(&self, path: &str) -> (r: Option<u64>)
        ensures
            match r {
                Some(ino) => path_entry(self.inodes@, path@) matches Some(n) && n.ino == ino,
                None => path_entry(self.inodes@, path@) is None,
            },
    {
        let ghost entries = self.inodes@;
        proof {
            assert(entries.skip(0) =~= entries);
        }
        let mut i: usize = 0;
        while i < self.inodes.len()
            invariant
                self.inodes@ == entries,
                0 <= i <= entries.len(),
                path_entry(entries, path@) == path_entry(entries.skip(i as int), path@),
            decreases entries.len() - i,
        {
            proof {
                assert(entries.skip(i as int)[0] == entries[i as int]);
            }
            if str_eq(self.inodes[i].path.as_str(), path) {
                return Some(self.inodes[i].ino);
            }
            proof {
                assert(entries.skip(i as int).drop_first() =~= entries.skip(i + 1));
            }
            i = i + 1;
        }
        proof {
            assert(entries.skip(entries.len() as int).len() == 0);
        }
        None
    }
}

/// Re-creating a record under a reused identifier rebinds the identifier to
/// the new record and unbinds the prior path: after installing `n1` and then
/// `n2` under the same identifier, the identifier resolves to `n2` and no
/// record holds `n1`'s path.
pub proof fn lemma_recreate_rebinds(entries: Seq<GnosInode>, n1: GnosInode, n2: GnosInode)
    requires
        n1.ino == n2.ino,
        n1.path@ != n2.path@,
    ensures
        ({
            let twice = created(created(entries, n1), n2);
            &&& (forall|i: int|
                0 <= i < twice.len() && (#[trigger] twice[i]).ino == n2.ino ==> twice[i] == n2)
            &&& (forall|i: int| 0 <= i < twice.len() ==> (#[trigger] twice[i]).path@ != n1.path@)
            &&& twice.len() > 0 && twice.last() == n2
        }),
{
    let once = created(entries, n1);
    let p1 = |e: GnosInode| e.ino != n1.ino && e.path@ != n1.path@;
    let p2 = |e: GnosInode| e.ino != n2.ino && e.path@ != n2.path@;
    let twice = created(once, n2);
    let kept1 = entries.filter(p1);
    let kept2 = once.filter(p2);
    broadcast use vstd::seq_lib::group_filter_ensures;

    lemma_filter_members(once, kept2, p2);
    assert forall|i: int| 0 <= i < twice.len() implies ((#[trigger] twice[i]).ino == n2.ino
        ==> twice[i] == n2) && twice[i].path@ != n1.path@ by {
        if i < twice.len() - 1 {
            assert(twice[i] == kept2[i]);
            assert(p2(kept2[i]));
            assert(once.contains(kept2[i]));
            let j = choose|j: int| 0 <= j < once.len() && once[j] == kept2[i];
            if j < once.len() - 1 {
                assert(once[j] == kept1[j]);
                assert(p1(kept1[j]));
            } else {
                assert(once[j] == n1);
                assert(!p2(n1));
            }
        }
    }
}

} // verus!
