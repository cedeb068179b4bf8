//! The Route Table: an immutable mapping from a request path to the resource
//! descriptor served under it.
//!
//! Lookup is an exact byte-for-byte match on the path, with no prefix or
//! wildcard matching. The table is built once at startup and never changed
//! while serving; its one invariant is that no path is registered twice.

use vstd::prelude::*;
use vstd::slice::slice_to_vec;
use crate::wire::{ascii_of, bytes_eq, str_bytes};

verus! {

/// Identifies which resource to fetch (`name`) and how to label its content
/// (`kind`, a MIME-type-like string).
pub struct ResourceDescriptor {
    pub name: Vec<u8>,
    pub kind: Vec<u8>,
}

impl ResourceDescriptor {
    /// Builds a descriptor from a resource name and a content kind.
    pub fn new(name: Vec<u8>, kind: Vec<u8>) -> (r: ResourceDescriptor)
        ensures
            r.name == name,
            r.kind == kind,
    {
        ResourceDescriptor { name, kind }
    }

    /// An owned copy with the same name and kind.
    pub fn duplicate(&self) -> (r: ResourceDescriptor)
        ensures
            r.name@ == self.name@,
            r.kind@ == self.kind@,
    {
        ResourceDescriptor {
            name: slice_to_vec(self.name.as_slice()),
            kind: slice_to_vec(self.kind.as_slice()),
        }
    }
}

/// One registered route: a path and the descriptor served under it.
pub struct RouteEntry {
    pub path: Vec<u8>,
    pub desc: ResourceDescriptor,
}

/// What resolving a path against a sequence of entries yields: the name and
/// kind of the first entry whose path matches, if any.
pub open spec fn spec_resolve_from(entries: Seq<RouteEntry>, p: Seq<u8>) -> Option<(Seq<u8>, Seq<u8>)>
    decreases entries.len(),
{
    if entries.len() == 0 {
        None
    } else if entries[0].path@ == p {
        Some((entries[0].desc.name@, entries[0].desc.kind@))
    } else {
        spec_resolve_from(entries.drop_first(), p)
    }
}

/// A path resolves exactly when some entry carries it.
pub proof fn lemma_resolve_registered(entries: Seq<RouteEntry>, p: Seq<u8>)
    ensures
        spec_resolve_from(entries, p) is Some <==> exists|i: int|
            0 <= i < entries.len() && entries[i].path@ == p,
    decreases entries.len(),
{
    if entries.len() > 0 {
        lemma_resolve_registered(entries.drop_first(), p);
        if entries[0].path@ != p {
            if spec_resolve_from(entries, p) is Some {
                let i = choose|i: int|
                    0 <= i < entries.drop_first().len() && entries.drop_first()[i].path@ == p;
                assert(entries[i + 1].path@ == p);
            }
            if exists|i: int| 0 <= i < entries.len() && entries[i].path@ == p {
                let i = choose|i: int| 0 <= i < entries.len() && entries[i].path@ == p;
                assert(entries.drop_first()[i - 1].path@ == p);
            }
        }
    }
}

/// Registering a fresh path and then resolving it yields exactly the
/// registered descriptor, and leaves every other path's resolution unchanged.
pub proof fn lemma_register_then_resolve(entries: Seq<RouteEntry>, e: RouteEntry, q: Seq<u8>)
    requires
        spec_resolve_from(entries, e.path@) is None,
    ensures
        spec_resolve_from(entries.push(e), e.path@) == Some((e.desc.name@, e.desc.kind@)),
        q != e.path@ ==> spec_resolve_from(entries.push(e), q) == spec_resolve_from(entries, q),
    decreases entries.len(),
{
    if entries.len() == 0 {
        assert(entries.push(e)[0] == e);
        assert(entries.push(e).drop_first() =~= Seq::<RouteEntry>::empty());
    } else {
        assert(entries.push(e).drop_first() =~= entries.drop_first().push(e));
        lemma_register_then_resolve(entries.drop_first(), e, q);
    }
}

/// The immutable route table.
pub struct RouteTable {
    pub entries: Vec<RouteEntry>,
}

impl RouteTable {
    /// No path is registered twice.
    pub open spec fn wf(self) -> bool {
        forall|i: int, j: int|
            0 <= i < j < self.entries@.len() ==> self.entries@[i].path@ != self.entries@[j].path@
    }

    /// What resolving a path against this table yields.
    pub open spec fn spec_resolve(self, p: Seq<u8>) -> Option<(Seq<u8>, Seq<u8>)> {
        spec_resolve_from(self.entries@, p)
    }

    /// Whether a path is registered.
    pub open spec fn contains_path(self, p: Seq<u8>) -> bool {
        self.spec_resolve(p) is Some
    }

    /// An empty table.
    pub fn new() -> (r: RouteTable)
        ensures
            r.entries@.len() == 0,
            r.wf(),
    {
        RouteTable { entries: Vec::new() }
    }

    /// Adds an entry. Meant for startup only: nothing may be registered once
    /// the table is shared with the workers.
    pub fn register(&mut self, path: Vec<u8>, desc: ResourceDescriptor)
        requires
            old(self).wf(),
            !old(self).contains_path(path@),
        ensures
            final(self).entries@ == old(self).entries@.push((RouteEntry { path, desc })),
            final(self).wf(),
    {
        let ghost pre = self.entries@;
        let entry = RouteEntry { path, desc };
        self.entries.push(entry);
        proof {
            lemma_resolve_registered(pre, self.entries@.last().path@);
            assert forall|i: int, j: int| 0 <= i < j < self.entries@.len() implies self.entries@[i].path@
                != self.entries@[j].path@ by {
                if j < pre.len() {
                    assert(pre[i].path@ != pre[j].path@);
                }
            }
        }
    }

    /// Looks the path up; `Some` holds the registered descriptor, `None`
    /// says the path is not registered.
    pub fn resolve(&self, path: &[u8]) -> (r: Option<&ResourceDescriptor>)
        ensures
            match r {
                Some(d) => self.spec_resolve(path@) == Some((d.name@, d.kind@)),
                None => self.spec_resolve(path@) is None,
            },
    {
        proof {
            assert(self.entries@.skip(0) =~= self.entries@);
        }
        let mut i: usize = 0;
        while i < self.entries.len()
            invariant
                0 <= i <= self.entries@.len(),
                spec_resolve_from(self.entries@.skip(i as int), path@) == self.spec_resolve(
                    path@,
                ),
            decreases self.entries@.len() - i,
        {
            let entry = &self.entries[i];
            proof {
                assert(self.entries@.skip(i as int)[0] == self.entries@[i as int]);
            }
            if bytes_eq(entry.path.as_slice(), path) {
                return Some(&entry.desc);
            }
            proof {
                assert(self.entries@.skip(i as int).drop_first() =~= self.entries@.skip(
                    i as int + 1,
                ));
            }
            i = i + 1;
        }
        proof {
            assert(self.entries@.skip(i as int) =~= Seq::<RouteEntry>::empty());
        }
        None
    }
}

/// The descriptor served under `/`.
pub fn index() -> (r: ResourceDescriptor)
    ensures
        r.name@ == ascii_of("hello.html"@),
        r.kind@ == ascii_of("text/html"@),
{
    proof {
        reveal_strlit("hello.html");
        reveal_strlit("text/html");
    }
    ResourceDescriptor { name: str_bytes("hello.html"), kind: str_bytes("text/html") }
}

/// The descriptor served under `/download`.
pub fn download() -> (r: ResourceDescriptor)
    ensures
        r.name@ == ascii_of("test.mp3"@),
        r.kind@ == ascii_of("audio/mpeg"@),
{
    proof {
        reveal_strlit("test.mp3");
        reveal_strlit("audio/mpeg");
    }
    ResourceDescriptor { name: str_bytes("test.mp3"), kind: str_bytes("audio/mpeg") }
}

/// Builds the fixed route table: `/` serves the index page inline and
/// `/download` serves the audio file as an attachment. Nothing else is
/// registered.
pub fn register_routes() -> (r: RouteTable)
    ensures
        r.wf(),
        r.spec_resolve(ascii_of("/"@)) == Some(
            (ascii_of("hello.html"@), ascii_of("text/html"@)),
        ),
        r.spec_resolve(ascii_of("/download"@)) == Some(
            (ascii_of("test.mp3"@), ascii_of("audio/mpeg"@)),
        ),
        forall|q: Seq<u8>|
            q != ascii_of("/"@) && q != ascii_of("/download"@) ==> #[trigger] r.spec_resolve(q)
                is None,
{
    proof {
        reveal_strlit("/");
        reveal_strlit("/download");
    }
    let mut table = RouteTable::new();
    let ghost empty_entries = table.entries@;
    table.register(str_bytes("/"), index());
    let ghost one_entry = table.entries@;
    proof {
        assert(ascii_of("/"@).len() == 1);
        assert(ascii_of("/download"@).len() == 9);
        lemma_register_then_resolve(empty_entries, one_entry.last(), ascii_of("/download"@));
    }
    table.register(str_bytes("/download"), download());
    proof {
        let entries = table.entries@;
        lemma_register_then_resolve(one_entry, entries.last(), ascii_of("/"@));
        lemma_register_then_resolve(empty_entries, one_entry.last(), ascii_of("/"@));
        assert forall|q: Seq<u8>|
            q != ascii_of("/"@) && q != ascii_of("/download"@) implies #[trigger] spec_resolve_from(
            entries,
            q,
        ) is None by {
            lemma_register_then_resolve(one_entry, entries.last(), q);
            lemma_register_then_resolve(empty_entries, one_entry.last(), q);
        }
    }
    table
}

} // verus!
