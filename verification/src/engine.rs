//! The protocol engine: translates filesystem protocol operations into
//! address-space lookups, authorization checks and backend selection, and
//! synthesizes protocol-level attributes. A handle moves from open, through
//! any number of reads and writes, to released; handle values grow
//! monotonically and are never reused. On a read or write the engine
//! resolves the handle, asks the capability manager for the authorization
//! decision, and selects the backend that the byte-level work is delegated
//! to; the host hands the backend's bytes back through the windowing
//! helper.

use vstd::prelude::*;
use vstd::string::StrSliceExecFns;
use vstd::string::StringExecFns;
use crate::GnosError;
use crate::capability::Operation;
use crate::capability::denied_with;
use crate::inode::GnosInode;
use crate::inode::InodeManager;
use crate::inode::ino_entry;
use crate::inode::path_entry;
use crate::manager::AuditEntry;
use crate::manager::CapabilityManager;
use crate::manager::ambient_grants;
use crate::manager::find_grant;
use crate::path::joined;
use crate::path::path_join;
use crate::registry::DriverRegistry;
use crate::registry::find_driver;

verus! {

/// The client-side validity window advertised with every attribute reply,
/// in seconds.
pub const ATTR_TTL_SECS: u64 = 1;

/// The identifier of the root directory.
pub const ROOT_INODE: u64 = 1;

/// Protocol-level attributes synthesized for one record.
pub struct FileAttr {
    pub ino: u64,
    pub size: u64,
    pub blocks: u64,
    pub atime: u64,
    pub mtime: u64,
    pub ctime: u64,
    pub crtime: u64,
    pub is_dir: bool,
    pub perm: u16,
    pub nlink: u32,
    pub uid: u32,
    pub gid: u32,
    pub rdev: u32,
    pub flags: u32,
    pub blksize: u32,
}

/// How many 512-byte blocks a size occupies, rounded up.
pub open spec fn blocks_of(size: u64) -> int {
    size / 512 + if size % 512 != 0 {
        1int
    } else {
        0int
    }
}

/// The attributes synthesized for a record at `now`: fixed owner, group and
/// block size, link count two for directories and one for files.
pub open spec fn attr_for(n: GnosInode, now: u64) -> FileAttr {
    FileAttr {
        ino: n.ino,
        size: n.size,
        blocks: blocks_of(n.size) as u64,
        atime: now,
        mtime: n.mtime,
        ctime: n.ctime,
        crtime: n.crtime,
        is_dir: n.is_dir,
        perm: n.permissions,
        nlink: if n.is_dir {
            2
        } else {
            1
        },
        uid: 1000,
        gid: 1000,
        rdev: 0,
        flags: 0,
        blksize: 4096,
    }
}

/// An open handle bound to its resolved path.
pub struct OpenFile {
    pub fh: u64,
    pub path: String,
}

impl Clone for OpenFile {
    fn clone(&self) -> (r: Self)
        ensures
            r == *self,
    {
        OpenFile { fh: self.fh, path: self.path.clone() }
    }
}

/// The open file bound to a handle, if any.
pub open spec fn handle_entry(files: Seq<OpenFile>, fh: u64) -> Option<OpenFile>
    decreases files.len(),
{
    if files.len() == 0 {
        None
    } else if files[0].fh == fh {
        Some(files[0])
    } else {
        handle_entry(files.drop_first(), fh)
    }
}

/// What an authorized read or write needs from the engine: the resolved
/// path and the selected backend's name.
#[derive(Debug)]
pub struct AccessPlan {
    pub path: String,
    pub driver_name: String,
}

/// The engine's state: the three managers, the open handles, and the next
/// handle value, which only grows.
pub struct GnosFileSystem {
    pub driver_registry: DriverRegistry,
    pub capability_manager: CapabilityManager,
    pub inode_manager: InodeManager,
    pub open_files: Vec<OpenFile>,
    pub next_fh: u64,
}

impl GnosFileSystem {
    /// The managers are well formed, and every open handle is below the
    /// next handle value, so a fresh handle never collides.
    pub open spec fn wf(self) -> bool {
        &&& self.capability_manager.wf()
        &&& self.inode_manager.wf()
        &&& self.next_fh >= 1
        &&& (forall|i: int|
            0 <= i < self.open_files@.len() ==> (#[trigger] self.open_files@[i]).fh
                < self.next_fh)
    }

    /// A fresh engine over the given registry and capability manager, with
    /// the pre-seeded top-level hierarchy installed at `now`.
    pub fn new(
        driver_registry: DriverRegistry,
        capability_manager: CapabilityManager,
        now: u64,
    ) -> (r: Self)
        requires
            capability_manager.wf(),
        ensures
            r.wf(),
            r.driver_registry == driver_registry,
            r.capability_manager == capability_manager,
            r.open_files@.len() == 0,
            r.next_fh == 1,
            r.inode_manager.inodes@.len() == 6,
            ino_entry(r.inode_manager.inodes@, ROOT_INODE) matches Some(n) && n.path@ == "/"@
                && n.is_dir,
            ino_entry(r.inode_manager.inodes@, 2) matches Some(n) && n.path@ == "/proc"@
                && n.is_dir,
            ino_entry(r.inode_manager.inodes@, 3) matches Some(n) && n.path@ == "/cloud"@
                && n.is_dir,
            ino_entry(r.inode_manager.inodes@, 4) matches Some(n) && n.path@ == "/net"@
                && n.is_dir,
            ino_entry(r.inode_manager.inodes@, 5) matches Some(n) && n.path@ == "/dev"@
                && n.is_dir,
            ino_entry(r.inode_manager.inodes@, 10) matches Some(n) && n.path@ == "/proc/llama3"@
                && !n.is_dir,
    {
        let mut inode_manager = InodeManager::new();
        inode_manager.create_directory(ROOT_INODE, String::from_str("/"), now);
        let ghost n1 = inode_manager.inodes@.last();
        proof {
            reveal_strlit("/");
            reveal_strlit("/proc");
            reveal_strlit("/cloud");
            reveal_strlit("/net");
            reveal_strlit("/dev");
            reveal_strlit("/proc/llama3");
            assert("/"@.len() == 1 && "/proc"@.len() == 5 && "/cloud"@.len() == 6
                && "/net"@.len() == 4 && "/dev"@.len() == 4 && "/proc/llama3"@.len() == 12);
            crate::inode::lemma_filter_all(
                Seq::<GnosInode>::empty(),
                |e: GnosInode| e.ino != n1.ino && e.path@ != n1.path@,
            );
            assert(inode_manager.inodes@ =~= seq![n1]);
        }
        inode_manager.create_directory(2, String::from_str("/proc"), now);
        let ghost n2 = inode_manager.inodes@.last();
        proof {
            reveal_strlit("/");
            reveal_strlit("/proc");
            reveal_strlit("/cloud");
            reveal_strlit("/net");
            reveal_strlit("/dev");
            reveal_strlit("/proc/llama3");
            assert("/"@.len() == 1 && "/proc"@.len() == 5 && "/cloud"@.len() == 6
                && "/net"@.len() == 4 && "/dev"@.len() == 4 && "/proc/llama3"@.len() == 12);
            let p = |e: GnosInode| e.ino != n2.ino && e.path@ != n2.path@;
            assert(p(n1));
            crate::inode::lemma_filter_all(seq![n1], p);
            assert(inode_manager.inodes@ =~= seq![n1, n2]);
        }
        inode_manager.create_directory(3, String::from_str("/cloud"), now);
        let ghost n3 = inode_manager.inodes@.last();
        proof {
            reveal_strlit("/");
            reveal_strlit("/proc");
            reveal_strlit("/cloud");
            reveal_strlit("/net");
            reveal_strlit("/dev");
            reveal_strlit("/proc/llama3");
            assert("/"@.len() == 1 && "/proc"@.len() == 5 && "/cloud"@.len() == 6
                && "/net"@.len() == 4 && "/dev"@.len() == 4 && "/proc/llama3"@.len() == 12);
            let p = |e: GnosInode| e.ino != n3.ino && e.path@ != n3.path@;
            assert(p(n1) && p(n2));
            crate::inode::lemma_filter_all(seq![n1, n2], p);
            assert(inode_manager.inodes@ =~= seq![n1, n2, n3]);
        }
        inode_manager.create_directory(4, String::from_str("/net"), now);
        let ghost n4 = inode_manager.inodes@.last();
        proof {
            reveal_strlit("/");
            reveal_strlit("/proc");
            reveal_strlit("/cloud");
            reveal_strlit("/net");
            reveal_strlit("/dev");
            reveal_strlit("/proc/llama3");
            assert("/"@.len() == 1 && "/proc"@.len() == 5 && "/cloud"@.len() == 6
                && "/net"@.len() == 4 && "/dev"@.len() == 4 && "/proc/llama3"@.len() == 12);
            let p = |e: GnosInode| e.ino != n4.ino && e.path@ != n4.path@;
            assert(p(n1) && p(n2) && p(n3));
            crate::inode::lemma_filter_all(seq![n1, n2, n3], p);
            assert(inode_manager.inodes@ =~= seq![n1, n2, n3, n4]);
        }
        inode_manager.create_directory(5, String::from_str("/dev"), now);
        let ghost n5 = inode_manager.inodes@.last();
        proof {
            reveal_strlit("/");
            reveal_strlit("/proc");
            reveal_strlit("/cloud");
            reveal_strlit("/net");
            reveal_strlit("/dev");
            reveal_strlit("/proc/llama3");
            assert("/"@.len() == 1 && "/proc"@.len() == 5 && "/cloud"@.len() == 6
                && "/net"@.len() == 4 && "/dev"@.len() == 4 && "/proc/llama3"@.len() == 12);
            let p = |e: GnosInode| e.ino != n5.ino && e.path@ != n5.path@;
            assert(n4.path@ != n5.path@) by {
                assert(n4.path@[1] == 'n' && n5.path@[1] == 'd');
            }
            assert(p(n1) && p(n2) && p(n3) && p(n4));
            crate::inode::lemma_filter_all(seq![n1, n2, n3, n4], p);
            assert(inode_manager.inodes@ =~= seq![n1, n2, n3, n4, n5]);
        }
        inode_manager.create_file(10, String::from_str("/proc/llama3"), now);
        let ghost n6 = inode_manager.inodes@.last();
        proof {
            reveal_strlit("/");
            reveal_strlit("/proc");
            reveal_strlit("/cloud");
            reveal_strlit("/net");
            reveal_strlit("/dev");
            reveal_strlit("/proc/llama3");
            assert("/"@.len() == 1 && "/proc"@.len() == 5 && "/cloud"@.len() == 6
                && "/net"@.len() == 4 && "/dev"@.len() == 4 && "/proc/llama3"@.len() == 12);
            let p = |e: GnosInode| e.ino != n6.ino && e.path@ != n6.path@;
            assert(p(n1) && p(n2) && p(n3) && p(n4) && p(n5));
            crate::inode::lemma_filter_all(seq![n1, n2, n3, n4, n5], p);
            assert(inode_manager.inodes@ =~= seq![n1, n2, n3, n4, n5, n6]);
        }
        let r = GnosFileSystem {
            driver_registry,
            capability_manager,
            inode_manager,
            open_files: Vec::new(),
            next_fh: 1,
        };
        proof {
            let s = r.inode_manager.inodes@;
            assert(s =~= seq![n1, n2, n3, n4, n5, n6]);
            assert(s[0] == n1 && s[0].ino == ROOT_INODE);
            assert(ino_entry(s, ROOT_INODE) == Some(n1));
            assert(s.drop_first() =~= seq![n2, n3, n4, n5, n6]);
            assert(seq![n2, n3, n4, n5, n6].drop_first() =~= seq![n3, n4, n5, n6]);
            assert(seq![n3, n4, n5, n6].drop_first() =~= seq![n4, n5, n6]);
            assert(seq![n4, n5, n6].drop_first() =~= seq![n5, n6]);
            assert(seq![n5, n6].drop_first() =~= seq![n6]);
            assert(ino_entry(seq![n6], 10) == Some(n6));
            assert(ino_entry(seq![n5, n6], 10) == Some(n6));
            assert(ino_entry(seq![n4, n5, n6], 10) == Some(n6));
            assert(ino_entry(seq![n3, n4, n5, n6], 10) == Some(n6));
            assert(ino_entry(seq![n2, n3, n4, n5, n6], 10) == Some(n6));
            assert(ino_entry(s, 10) == Some(n6));
            assert(ino_entry(seq![n2, n3, n4, n5, n6], 2) == Some(n2));
            assert(ino_entry(s, 2) == Some(n2));
            assert(ino_entry(seq![n3, n4, n5, n6], 3) == Some(n3));
            assert(ino_entry(seq![n2, n3, n4, n5, n6], 3) == Some(n3));
            assert(ino_entry(s, 3) == Some(n3));
            assert(ino_entry(seq![n4, n5, n6], 4) == Some(n4));
            assert(ino_entry(seq![n3, n4, n5, n6], 4) == Some(n4));
            assert(ino_entry(seq![n2, n3, n4, n5, n6], 4) == Some(n4));
            assert(ino_entry(s, 4) == Some(n4));
            assert(ino_entry(seq![n5, n6], 5) == Some(n5));
            assert(ino_entry(seq![n4, n5, n6], 5) == Some(n5));
            assert(ino_entry(seq![n3, n4, n5, n6], 5) == Some(n5));
            assert(ino_entry(seq![n2, n3, n4, n5, n6], 5) == Some(n5));
            assert(ino_entry(s, 5) == Some(n5));
        }
        r
    }

    /// The synthesized attributes of the record bound to the identifier, or
    /// a not-found failure.
    pub fn get_file_attr(&self, ino: u64, now: u64) -> (r: Result<FileAttr, GnosError>)
        ensures
            match r {
                Ok(a) => ino_entry(self.inode_manager.inodes@, ino) matches Some(n) && a
                    == attr_for(n, now),
                Err(e) => ino_entry(self.inode_manager.inodes@, ino) is None && e matches
                    GnosError::PathNotFound(_),
            },
    {
        let inode = match self.inode_manager.get(ino) {
            Some(n) => n,
            None => {
                return Err(GnosError::PathNotFound(String::from_str("unknown inode")));
            },
        };
        let blocks = inode.size / 512 + if inode.size % 512 != 0 {
            1
        } else {
            0
        };
        Ok(
            FileAttr {
                ino: inode.ino,
                size: inode.size,
                blocks,
                atime: now,
                mtime: inode.mtime,
                ctime: inode.ctime,
                crtime: inode.crtime,
                is_dir: inode.is_dir,
                perm: inode.permissions,
                nlink: if inode.is_dir {
                    2
                } else {
                    1
                },
                uid: 1000,
                gid: 1000,
                rdev: 0,
                flags: 0,
                blksize: 4096,
            },
        )
    }

    /// Resolves `name` below the parent record and synthesizes the child's
    /// attributes; unknown parents and unknown children surface as
    /// not-found.
    pub fn lookup(&self, parent: u64, name: &str, now: u64) -> (r: Result<FileAttr, GnosError>)
        requires
            self.wf(),
        ensures
            ({
                let entries = self.inode_manager.inodes@;
                match ino_entry(entries, parent) {
                    None => r matches Err(e) && e matches GnosError::PathNotFound(_),
                    Some(p) => match path_entry(entries, joined(p.path@, name@)) {
                        None => r matches Err(e) && e matches GnosError::PathNotFound(_),
                        Some(c) => r matches Ok(a) && a == attr_for(c, now),
                    },
                }
            }),
    {
        let parent_inode = match self.inode_manager.get(parent) {
            Some(n) => n,
            None => {
                return Err(GnosError::PathNotFound(String::from_str("unknown inode")));
            },
        };
        let child_path = path_join(parent_inode.path.as_str(), name);
        let child_ino = match self.inode_manager.find_by_path(child_path.as_str()) {
            Some(ino) => ino,
            None => {
                return Err(GnosError::PathNotFound(String::from_str("unknown path")));
            },
        };
        proof {
            let entries = self.inode_manager.inodes@;
            let jp = joined(parent_inode.path@, name@);
            crate::inode::lemma_path_entry_exists(entries, jp);
            crate::inode::lemma_ino_entry_exists(entries, child_ino);
            match (path_entry(entries, jp), ino_entry(entries, child_ino)) {
                (Some(np), Some(ni)) => {
                    let a = choose|a: int| 0 <= a < entries.len() && entries[a] == np;
                    let b = choose|b: int| 0 <= b < entries.len() && entries[b] == ni;
                    assert(entries[a].ino == entries[b].ino);
                    assert(np == ni);
                },
                _ => {},
            }
        }
        self.get_file_attr(child_ino, now)
    }

    /// Opens a known, non-directory record: allocates a monotonically
    /// increasing handle, never reused, bound to the record's path.
    pub fn open(&mut self, ino: u64) -> (r: Result<u64, GnosError>)
        requires
            old(self).wf(),
            old(self).next_fh < u64::MAX,
        ensures
            final(self).wf(),
            final(self).driver_registry == old(self).driver_registry,
            final(self).capability_manager == old(self).capability_manager,
            final(self).inode_manager == old(self).inode_manager,
            match r {
                Ok(fh) => ino_entry(old(self).inode_manager.inodes@, ino) matches Some(n)
                    && !n.is_dir && fh == old(self).next_fh && final(self).next_fh == old(
                    self,
                ).next_fh + 1 && (exists|f: OpenFile|
                    f.fh == fh && f.path@ == n.path@ && final(self).open_files@ == #[trigger] old(
                        self,
                    ).open_files@.push(f)),
                Err(e) => (e matches GnosError::PathNotFound(_)) && !(ino_entry(
                    old(self).inode_manager.inodes@,
                    ino,
                ) matches Some(n) && !n.is_dir) && final(self).open_files@ == old(
                    self,
                ).open_files@ && final(self).next_fh == old(self).next_fh,
            },
    {
        let inode = match self.inode_manager.get(ino) {
            Some(n) => n,
            None => {
                return Err(GnosError::PathNotFound(String::from_str("unknown inode")));
            },
        };
        if inode.is_dir {
            return Err(GnosError::PathNotFound(String::from_str("not a regular file")));
        }
        let fh = self.next_fh;
        self.next_fh = self.next_fh + 1;
        let f = OpenFile { fh, path: inode.path };
        self.open_files.push(f);
        Ok(fh)
    }

    /// Discards a handle; further operations on it are rejected. Releasing
    /// an unknown handle is a no-op, as the protocol allows.
    pub fn release(&mut self, fh: u64)
        requires
            old(self).wf(),
        ensures
            final(self).wf(),
            final(self).driver_registry == old(self).driver_registry,
            final(self).capability_manager == old(self).capability_manager,
            final(self).inode_manager == old(self).inode_manager,
            final(self).next_fh == old(self).next_fh,
            final(self).open_files@ == old(self).open_files@.filter(|f: OpenFile| f.fh != fh),
    {
        let ghost olds = self.open_files@;
        let mut kept: Vec<OpenFile> = Vec::new();
        let mut i: usize = 0;
        proof {
            reveal(Seq::filter);
            assert(olds.subrange(0, 0).filter(|f: OpenFile| f.fh != fh)
                =~= Seq::<OpenFile>::empty());
        }
        while i < self.open_files.len()
            invariant
                old(self).wf(),
                *self == *old(self),
                self.open_files@ == olds,
                0 <= i <= olds.len(),
                kept@ == olds.subrange(0, i as int).filter(|f: OpenFile| f.fh != fh),
                forall|k: int|
                    0 <= k < kept@.len() ==> (#[trigger] kept@[k]).fh < self.next_fh,
            decreases olds.len() - i,
        {
            if self.open_files[i].fh != fh {
                let f = self.open_files[i].clone();
                kept.push(f);
            }
            proof {
                reveal(Seq::filter);
                let p = |f: OpenFile| f.fh != fh;
                assert(olds.subrange(0, i + 1).drop_last() =~= olds.subrange(0, i as int));
                assert(olds.subrange(0, i + 1).last() == olds[i as int]);
                assert(kept@ == olds.subrange(0, i + 1).filter(p));
            }
            i = i + 1;
        }
        self.open_files = kept;
        proof {
            assert(olds.subrange(0, olds.len() as int) =~= olds);
        }
    }

    /// Resolves a handle, asks the capability manager to authorize the
    /// operation on its path (which appends exactly one audit entry), and
    /// selects the backend the byte-level work is delegated to. An unknown
    /// handle is rejected before any authorization; an authorized request
    /// on a path no backend claims is a driver failure.
    pub fn access_plan(
        &mut self,
        fh: u64,
        operation: Operation,
        ambient_token: Option<&str>,
        now: u64,
    ) -> (r: Result<AccessPlan, GnosError>)
        requires
            old(self).wf(),
        ensures
            final(self).wf(),
            final(self).driver_registry == old(self).driver_registry,
            final(self).inode_manager == old(self).inode_manager,
            final(self).open_files@ == old(self).open_files@,
            final(self).next_fh == old(self).next_fh,
            final(self).capability_manager.active@ == old(self).capability_manager.active@,
            final(self).capability_manager.config == old(self).capability_manager.config,
            ({
                let m = old(self).capability_manager;
                match handle_entry(old(self).open_files@, fh) {
                    None => (r matches Err(e) && e matches GnosError::ResourceBusy(_))
                        && final(self).capability_manager == m,
                    Some(f) => {
                        let authorized = (match ambient_token {
                            Some(t) => ambient_grants(
                                m.config.require_signatures,
                                m.config.hmac_secret@,
                                t@,
                                f.path@,
                                operation,
                                now,
                            ),
                            None => false,
                        }) || find_grant(m.active@, f.path@, operation, now) is Some;
                        &&& (!authorized ==> (r matches Err(e) && denied_with(
                            e,
                            "no valid capability found"@,
                        )))
                        &&& (authorized ==> (match find_driver(
                            old(self).driver_registry.drivers@,
                            f.path@,
                        ) {
                            None => r matches Err(e) && e matches GnosError::Driver(_),
                            Some(d) => r matches Ok(pl) && pl.path@ == f.path@ && pl.driver_name@
                                == d.name@,
                        }))
                        &&& (exists|e: AuditEntry|
                            final(self).capability_manager.audit@
                                == #[trigger] crate::manager::audit_push(m.audit@, e)
                                && e.timestamp == now && e.operation == operation && e.path@
                                == f.path@ && e.success == authorized)
                    },
                }
            }),
    {
        let ghost files = self.open_files@;
        proof {
            assert(files.skip(0) =~= files);
        }
        let mut i: usize = 0;
        while i < self.open_files.len()
            invariant
                old(self).wf(),
                *self == *old(self),
                self.open_files@ == files,
                0 <= i <= files.len(),
                handle_entry(files, fh) == handle_entry(files.skip(i as int), fh),
            decreases files.len() - i,
        {
            proof {
                assert(files.skip(i as int)[0] == files[i as int]);
            }
            if self.open_files[i].fh == fh {
                let path = self.open_files[i].path.clone();
                proof {
                    assert(handle_entry(files, fh) == Some(files[i as int]));
                }
                match self.capability_manager.check_permission(
                    path.as_str(),
                    operation,
                    ambient_token,
                    now,
                ) {
                    Ok(()) => {},
                    Err(e) => {
                        return Err(e);
                    },
                }
                match self.driver_registry.get_driver(path.as_str()) {
                    None => {
                        return Err(
                            GnosError::Driver(String::from_str("no backend claims the path")),
                        );
                    },
                    Some(d) => {
                        return Ok(AccessPlan { path, driver_name: d.name });
                    },
                }
            }
            proof {
                assert(files.skip(i as int).drop_first() =~= files.skip(i + 1));
            }
            i = i + 1;
        }
        proof {
            assert(files.skip(files.len() as int).len() == 0);
        }
        Err(GnosError::ResourceBusy(String::from_str("handle not open")))
    }
}

/// The directory listing for the pre-seeded top-level hierarchy, by
/// identifier: the listing is table-driven rather than derived from the
/// registry's current contents; dynamic backend-provided listings belong to
/// the external backend collaborators.
pub open spec fn dir_table(ino: u64) -> Seq<(Seq<char>, u64)> {
    if ino == 1 {
        seq![("proc"@, 2u64), ("cloud"@, 3u64), ("net"@, 4u64), ("dev"@, 5u64)]
    } else if ino == 2 {
        seq![("llama3"@, 10u64)]
    } else if ino == 3 {
        seq![("aws"@, 20u64), ("gcp"@, 21u64), ("azure"@, 22u64)]
    } else if ino == 4 {
        seq![("http"@, 30u64)]
    } else if ino == 5 {
        seq![("sensors"@, 40u64)]
    } else {
        Seq::empty()
    }
}

impl GnosFileSystem {
    /// The entries of the table-driven listing for a directory identifier,
    /// from `offset` on; an unknown identifier or an offset past the end
    /// lists nothing.
    pub fn readdir(&self, ino: u64, offset: usize) -> (r: Vec<(String, u64)>)
        ensures
            ({
                let table = dir_table(ino);
                if offset <= table.len() {
                    r@.len() == table.len() - offset && (forall|i: int|
                        0 <= i < r@.len() ==> (#[trigger] r@[i]).0@ == table[offset + i].0
                            && r@[i].1 == table[offset + i].1)
                } else {
                    r@.len() == 0
                }
            }),
    {
        let mut full: Vec<(String, u64)> = Vec::new();
        if ino == 1 {
            full.push((String::from_str("proc"), 2));
            full.push((String::from_str("cloud"), 3));
            full.push((String::from_str("net"), 4));
            full.push((String::from_str("dev"), 5));
        } else if ino == 2 {
            full.push((String::from_str("llama3"), 10));
        } else if ino == 3 {
            full.push((String::from_str("aws"), 20));
            full.push((String::from_str("gcp"), 21));
            full.push((String::from_str("azure"), 22));
        } else if ino == 4 {
            full.push((String::from_str("http"), 30));
        } else if ino == 5 {
            full.push((String::from_str("sensors"), 40));
        }
        proof {
            assert(full@.len() == dir_table(ino).len());
            assert(forall|i: int|
                0 <= i < full@.len() ==> (#[trigger] full@[i]).0@ == dir_table(ino)[i].0
                    && full@[i].1 == dir_table(ino)[i].1);
        }
        let mut out: Vec<(String, u64)> = Vec::new();
        if offset > full.len() {
            return out;
        }
        let mut i: usize = offset;
        while i < full.len()
            invariant
                offset <= i <= full@.len(),
                full@.len() == dir_table(ino).len(),
                forall|j: int|
                    0 <= j < full@.len() ==> (#[trigger] full@[j]).0@ == dir_table(ino)[j].0
                        && full@[j].1 == dir_table(ino)[j].1,
                out@.len() == i - offset,
                forall|j: int|
                    0 <= j < out@.len() ==> (#[trigger] out@[j]).0@ == dir_table(ino)[offset + j].0
                        && out@[j].1 == dir_table(ino)[offset + j].1,
            decreases full@.len() - i,
        {
            let name = full[i].0.clone();
            let child = full[i].1;
            out.push((name, child));
            i = i + 1;
        }
        out
    }
}

/// The window of a backend's bytes one read returns: at most `size` bytes
/// from `offset`; an offset at or past the end yields no bytes.
pub open spec fn window_of(data: Seq<u8>, offset: u64, size: u32) -> Seq<u8> {
    if offset < data.len() {
        let end = if offset + size <= data.len() {
            offset + size
        } else {
            data.len() as int
        };
        data.subrange(offset as int, end)
    } else {
        Seq::empty()
    }
}

/// The exec counterpart of [`window_of`]: slices the backend's bytes for
/// one read reply.
pub fn read_window(data: &[u8], offset: u64, size: u32) -> (r: Vec<u8>)
    ensures
        r@ == window_of(data@, offset, size),
{
    let len = data.len();
    if offset >= len as u64 {
        proof {
            assert(window_of(data@, offset, size) =~= Seq::<u8>::empty());
        }
        return Vec::new();
    }
    let off = offset as usize;
    let take: usize = if (size as u64) <= (len - off) as u64 {
        size as usize
    } else {
        len - off
    };
    let mut out: Vec<u8> = Vec::new();
    let mut i: usize = 0;
    while i < take
        invariant
            len == data@.len(),
            off < len,
            off == offset,
            off + take <= len,
            0 <= i <= take,
            out@ =~= data@.subrange(off as int, off + i),
        decreases take - i,
    {
        let b = data[off + i];
        out.push(b);
        proof {
            assert(out@ =~= data@.subrange(off as int, off + i + 1));
        }
        i = i + 1;
    }
    proof {
        assert(out@ =~= window_of(data@, offset, size));
    }
    out
}

} // verus!
