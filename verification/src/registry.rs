//! The driver registry: an ordered set of backend descriptors, each owning a
//! path prefix, selected by the first-match rule over registration order.
//! The selection order is deterministic by construction: repeated calls on
//! the same registry and path return the same backend.

use vstd::prelude::*;
use vstd::string::StrSliceExecFns;

verus! {

/// One registered backend: its display name and the path prefix it claims
/// (a raw prefix-style ownership test, as the resource-access contract
/// specifies).
pub struct DriverEntry {
    pub name: String,
    pub prefix: String,
}

impl Clone for DriverEntry {
    fn clone(&self) -> (r: Self)
        ensures
            r == *self,
    {
        DriverEntry { name: self.name.clone(), prefix: self.prefix.clone() }
    }
}

impl DriverEntry {
    /// Whether the backend claims the path: the path starts with the
    /// backend's prefix, character for character.
    pub open spec fn spec_supports(self, path: Seq<char>) -> bool {
        path.len() >= self.prefix@.len() && path.subrange(0, self.prefix@.len() as int)
            == self.prefix@
    }

    /// The exec counterpart of [`DriverEntry::spec_supports`].
    pub fn supports(&self, path: &str) -> (r: bool)
        ensures
            r == self.spec_supports(path@),
    {
        let plen = self.prefix.as_str().unicode_len();
        let tlen = path.unicode_len();
        if tlen < plen {
            return false;
        }
        let mut i: usize = 0;
        while i < plen
            invariant
                plen == self.prefix@.len(),
                tlen == path@.len(),
                plen <= tlen,
                0 <= i <= plen,
                forall|j: int| 0 <= j < i ==> self.prefix@[j] == path@[j],
            decreases plen - i,
        {
            if self.prefix.as_str().get_char(i) != path.get_char(i) {
                proof {
                    assert(path@.subrange(0, plen as int)[i as int] != self.prefix@[i as int]);
                }
                return false;
            }
            i = i + 1;
        }
        proof {
            assert(path@.subrange(0, plen as int) =~= self.prefix@);
        }
        true
    }
}

/// The first registered backend, in registration order, that claims the
/// path.
pub open spec fn find_driver(entries: Seq<DriverEntry>, path: Seq<char>) -> Option<DriverEntry>
    decreases entries.len(),
{
    if entries.len() == 0 {
        None
    } else if entries[0].spec_supports(path) {
        Some(entries[0])
    } else {
        find_driver(entries.drop_first(), path)
    }
}

/// A backend is selected exactly when some registered backend claims the
/// path; the selected backend claims it, and no backend registered earlier
/// does.
pub proof fn lemma_selection_order(entries: Seq<DriverEntry>, path: Seq<char>)
    ensures
        (find_driver(entries, path) is Some) <==> (exists|i: int|
            0 <= i < entries.len() && (#[trigger] entries[i]).spec_supports(path)),
        find_driver(entries, path) matches Some(d) ==> d.spec_supports(path) && (exists|i: int|
            0 <= i < entries.len() && entries[i] == d && (forall|j: int|
                0 <= j < i ==> !(#[trigger] entries[j]).spec_supports(path))),
    decreases entries.len(),
{
    if entries.len() > 0 {
        let rest = entries.drop_first();
        lemma_selection_order(rest, path);
        if entries[0].spec_supports(path) {
            assert(entries[0] == entries[0] && (forall|j: int|
                0 <= j < 0 ==> !(#[trigger] entries[j]).spec_supports(path)));
        } else {
            match find_driver(rest, path) {
                Some(d) => {
                    let i = choose|i: int|
                        0 <= i < rest.len() && rest[i] == d && (forall|j: int|
                            0 <= j < i ==> !(#[trigger] rest[j]).spec_supports(path));
                    assert(entries[i + 1] == d);
                    assert(forall|j: int|
                        0 <= j < i + 1 ==> !(#[trigger] entries[j]).spec_supports(path)) by {
                        assert(forall|j: int|
                            1 <= j < i + 1 ==> entries[j] == rest[j - 1]);
                    }
                },
                None => {},
            }
            if find_driver(rest, path) is Some {
                let i = choose|i: int|
                    0 <= i < rest.len() && (#[trigger] rest[i]).spec_supports(path);
                assert(entries[i + 1].spec_supports(path));
            }
            if exists|i: int|
                0 <= i < entries.len() && (#[trigger] entries[i]).spec_supports(path) {
                let i = choose|i: int|
                    0 <= i < entries.len() && (#[trigger] entries[i]).spec_supports(path);
                assert(rest[i - 1].spec_supports(path));
            }
        }
    }
}

/// The registry: backends in registration order.
pub struct DriverRegistry {
    pub drivers: Vec<DriverEntry>,
}

impl DriverRegistry {
    /// An empty registry; backends are registered once at startup.
    pub fn new() -> (r: Self)
        ensures
            r.drivers@.len() == 0,
    {
        DriverRegistry { drivers: Vec::new() }
    }

    /// Appends a backend; later registrations yield to earlier ones on
    /// overlapping prefixes.
    pub fn register(&mut self, entry: DriverEntry)
        ensures
            final(self).drivers@ == old(self).drivers@.push(entry),
    {
        self.drivers.push(entry);
    }

    /// The first registered backend that claims the path, or none. The
    /// result is a function of the registry's contents and the path alone,
    /// so repeated calls select the same backend.
    pub fn get_driver(&self, path: &str) -> (r: Option<DriverEntry>)
        ensures
            match r {
                Some(d) => find_driver(self.drivers@, path@) == Some(d),
                None => find_driver(self.drivers@, path@) is None,
            },
    {
        let ghost entries = self.drivers@;
        proof {
            assert(entries.skip(0) =~= entries);
        }
        let mut i: usize = 0;
        while i < self.drivers.len()
            invariant
                self.drivers@ == entries,
                0 <= i <= entries.len(),
                find_driver(entries, path@) == find_driver(entries.skip(i as int), path@),
            decreases entries.len() - i,
        {
            proof {
                assert(entries.skip(i as int)[0] == entries[i as int]);
            }
            if self.drivers[i].supports(path) {
                return Some(self.drivers[i].clone());
            }
            proof {
                assert(entries.skip(i as int).drop_first() =~= entries.skip(i + 1));
            }
            i = i + 1;
        }
        proof {
            assert(entries.skip(entries.len() as int).len() == 0);
        }
        None
    }

    /// How many backends are registered.
    pub fn count(&self) -> (r: usize)
        ensures
            r == self.drivers@.len(),
    {
        self.drivers.len()
    }
}

} // verus!
