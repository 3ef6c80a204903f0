//! Snapshots: the whole filesystem state as plain data, for storing it
//! elsewhere and restoring it later.

use crate::fs::{inodes_view, Fs};
use crate::fs_spec::FsView;
use crate::inode::{
    entries_have, entries_map, entries_sorted, lemma_entries_map_at, ContentView, DirEntries,
    FileContent, Inode, InodeView, Metadata,
};
use crate::path::{lemma_name_lt_irreflexive, name_lt};
use crate::storage::{resize_spec, BlockStorage};
use crate::time::TimeProvider;
use crate::types::InodeId;
use std::collections::HashMap;
use vstd::prelude::*;

verus! {

broadcast use vstd::std_specs::hash::group_hash_axioms;

/// The whole filesystem as plain data. Open descriptors are not part of it.
pub struct FsSnapshot {
    /// Next inode id to allocate.
    pub next_inode: InodeId,
    /// Id of the root directory.
    pub root_inode: InodeId,
    /// Every inode.
    pub inodes: Vec<InodeSnapshot>,
}

/// One inode as plain data.
pub struct InodeSnapshot {
    pub id: InodeId,
    pub metadata: MetadataSnapshot,
    pub content: FileContentSnapshot,
}

/// Metadata as plain data.
#[derive(Clone, Copy, Debug, PartialEq, Eq, Structural)]
pub struct MetadataSnapshot {
    pub size: u64,
    pub created: u64,
    pub modified: u64,
    pub permissions: u16,
    pub is_dir: bool,
}

/// Contents as plain data.
pub enum FileContentSnapshot {
    /// A regular file and its bytes.
    File(FileDataSnapshot),
    /// A directory: `(name, inode id)` pairs in name order.
    Dir(Vec<(String, InodeId)>),
}

/// The bytes of a file, sparse blocks written out as zeros.
pub struct FileDataSnapshot {
    /// File size in bytes.
    pub size: usize,
    /// The file's bytes.
    pub data: Vec<u8>,
}

impl MetadataSnapshot {
    /// The snapshot of `m`.
    pub fn from_metadata(m: &Metadata) -> (r: Self)
        ensures
            r.view() == *m,
    {
        MetadataSnapshot {
            size: m.size,
            created: m.created,
            modified: m.modified,
            permissions: m.permissions,
            is_dir: m.is_dir,
        }
    }

    /// The metadata this snapshot stands for.
    pub open spec fn view(self) -> Metadata {
        Metadata {
            size: self.size,
            created: self.created,
            modified: self.modified,
            permissions: self.permissions,
            is_dir: self.is_dir,
        }
    }

    /// The metadata this snapshot stands for.
    pub fn to_metadata(&self) -> (m: Metadata)
        ensures
            m == self.view(),
    {
        Metadata {
            size: self.size,
            created: self.created,
            modified: self.modified,
            permissions: self.permissions,
            is_dir: self.is_dir,
        }
    }
}

/// The map that a list of `(name, id)` pairs builds when inserted in order.
pub open spec fn pairs_map(s: Seq<(String, InodeId)>) -> Map<Seq<char>, InodeId>
    decreases s.len(),
{
    if s.len() == 0 {
        Map::empty()
    } else {
        pairs_map(s.drop_last()).insert(s.last().0@, s.last().1)
    }
}

/// For a sorted list the two readings agree.
pub proof fn lemma_pairs_map_sorted(s: Seq<(String, InodeId)>)
    requires
        entries_sorted(s),
    ensures
        pairs_map(s) == entries_map(s),
    decreases s.len(),
{
    if s.len() == 0 {
        assert(entries_map(s) =~= Map::<Seq<char>, InodeId>::empty());
    } else {
        let p = s.drop_last();
        assert(entries_sorted(p)) by {
            assert forall|i: int, j: int| 0 <= i < j < p.len() implies name_lt(
                #[trigger] p[i].0@,
                #[trigger] p[j].0@,
            ) by {
                assert(p[i] == s[i] && p[j] == s[j]);
            }
        }
        lemma_pairs_map_sorted(p);
        let l = s.len() - 1;
        assert(!entries_have(p, s[l].0@)) by {
            if entries_have(p, s[l].0@) {
                let i = choose|i: int| 0 <= i < p.len() && #[trigger] p[i].0@ == s[l].0@;
                assert(name_lt(s[i].0@, s[l].0@));
                lemma_name_lt_irreflexive(s[l].0@);
            }
        }
        assert forall|k: Seq<char>| #![auto]
            entries_map(s).contains_key(k) <==> entries_map(p).insert(s[l].0@, s[l].1).contains_key(
                k,
            ) by {
            if entries_have(s, k) && k != s[l].0@ {
                let i = choose|i: int| 0 <= i < s.len() && #[trigger] s[i].0@ == k;
                assert(p[i].0@ == k);
            }
            if entries_have(p, k) {
                let i = choose|i: int| 0 <= i < p.len() && #[trigger] p[i].0@ == k;
                assert(s[i].0@ == k);
            }
            if k == s[l].0@ {
                assert(s[l].0@ == k);
            }
        }
        assert forall|k: Seq<char>| #[trigger]
            entries_map(s).contains_key(k) implies entries_map(s)[k] == entries_map(p).insert(
            s[l].0@,
            s[l].1,
        )[k] by {
            let i = choose|i: int| 0 <= i < s.len() && #[trigger] s[i].0@ == k;
            lemma_entries_map_at(s, i);
            if i < l {
                assert(p[i] == s[i]);
                lemma_entries_map_at(p, i);
            }
        }
        assert(entries_map(s) =~= entries_map(p).insert(s[l].0@, s[l].1));
    }
}

impl InodeSnapshot {
    /// The inode this snapshot restores to.
    pub open spec fn view(self) -> InodeView {
        InodeView {
            id: self.id,
            meta: self.metadata.view(),
            content: match self.content {
                FileContentSnapshot::File(f) => ContentView::File(resize_spec(f.data@, f.size as int)),
                FileContentSnapshot::Dir(entries) => ContentView::Dir(pairs_map(entries@)),
            },
        }
    }
}

/// The inode table that restoring a list of snapshots builds (later ids win).
pub open spec fn snapshot_table(s: Seq<InodeSnapshot>) -> Map<InodeId, InodeView>
    decreases s.len(),
{
    if s.len() == 0 {
        Map::empty()
    } else {
        snapshot_table(s.drop_last()).insert(s.last().id, s.last().view())
    }
}

impl FsSnapshot {
    /// The filesystem this snapshot restores to.
    pub open spec fn view(self) -> FsView {
        FsView {
            next_inode: self.next_inode,
            next_fd: 3,
            fds: Map::empty(),
            inodes: snapshot_table(self.inodes@),
            root: self.root_inode,
        }
    }
}

/// Restoring a table keeps every inode under its own id.
pub proof fn lemma_snapshot_table_wf(s: Seq<InodeSnapshot>)
    ensures
        forall|k: InodeId| #[trigger]
            snapshot_table(s).contains_key(k) ==> snapshot_table(s)[k].id == k,
    decreases s.len(),
{
    if s.len() > 0 {
        lemma_snapshot_table_wf(s.drop_last());
    }
}

/// The bytes of a file.
fn file_data_snapshot(storage: &BlockStorage) -> (f: FileDataSnapshot)
    ensures
        f.size == storage@.len(),
        f.data@ == storage@,
{
    let size = storage.size();
    let mut data = vec![0u8; size];
    storage.read(0, data.as_mut_slice());
    assert(data@ =~= storage@);
    FileDataSnapshot { size, data }
}

/// A storage holding `f`'s bytes, cut or zero-filled to `f.size`.
fn restore_storage(f: &FileDataSnapshot) -> (s: BlockStorage)
    ensures
        s@ == resize_spec(f.data@, f.size as int),
{
    let mut storage = BlockStorage::new();
    if f.data.len() > 0 {
        storage.write(0, f.data.as_slice());
        assert(storage@ =~= f.data@);
    }
    if storage.size() != f.size {
        storage.truncate(f.size);
    } else {
        assert(storage@ =~= resize_spec(f.data@, f.size as int));
    }
    storage
}

/// A directory table holding `entries`, inserted in order.
fn restore_dir(entries: &Vec<(String, InodeId)>) -> (d: DirEntries)
    ensures
        d@ == pairs_map(entries@),
{
    let mut d = DirEntries::new();
    let mut i: usize = 0;
    while i < entries.len()
        invariant
            i <= entries@.len(),
            d@ == pairs_map(entries@.take(i as int)),
        decreases entries@.len() - i,
    {
        d.insert(entries[i].0.clone(), entries[i].1);
        assert(entries@.take(i + 1).drop_last() =~= entries@.take(i as int));
        i = i + 1;
    }
    assert(entries@.take(entries@.len() as int) =~= entries@);
    d
}

/// The snapshot of one inode.
fn snapshot_inode(n: &Inode) -> (s: InodeSnapshot)
    ensures
        s.view() == n@,
{
    let content = match &n.content {
        FileContent::File(st) => FileContentSnapshot::File(file_data_snapshot(st)),
        FileContent::Dir(d) => {
            let v = d.to_vec();
            proof {
                lemma_pairs_map_sorted(v@);
            }
            FileContentSnapshot::Dir(v)
        },
    };
    let s = InodeSnapshot {
        id: n.id,
        metadata: MetadataSnapshot::from_metadata(&n.metadata),
        content,
    };
    proof {
        if let FileContent::File(st) = &n.content {
            assert(resize_spec(st@, st@.len() as int) =~= st@);
        }
    }
    s
}

impl<T: TimeProvider> Fs<T> {
    /// The inodes, root and next inode id as a snapshot; descriptors are left out.
    pub fn to_snapshot(&self) -> (snap: FsSnapshot)
        requires
            self@.wf(),
        ensures
            snap.view() == (FsView { next_fd: 3, fds: Map::empty(), ..self@ }),
    {
        let table = self.inode_table_ref();
        let ghost m = inodes_view(table@);
        let mut keys: Vec<InodeId> = Vec::new();
        let ghost all = vstd::std_specs::iter::IteratorSpec::remaining(&vstd::std_specs::hash::spec_keys_iter(table));
        for k in it: table.keys()
            invariant
                keys@ == it.seq().take(it.index() as int).unref(),
                it.seq() == all,
                all == vstd::std_specs::iter::IteratorSpec::remaining(&vstd::std_specs::hash::spec_keys_iter(table)),
        {
            keys.push(*k);
            assert(keys@ =~= it.seq().take(it.index() + 1).unref());
        }
        assert(keys@ =~= all.unref());
        assert(keys@.to_set() == table@.dom());
        assert(keys@.no_duplicates());
        let mut out: Vec<InodeSnapshot> = Vec::new();
        let mut i: usize = 0;
        while i < keys.len()
            invariant
                i <= keys@.len(),
                m == inodes_view(table@),
                m == self@.inodes,
                keys@.to_set() == table@.dom(),
                keys@.no_duplicates(),
                self@.wf(),
                snapshot_table(out@) == m.restrict(keys@.take(i as int).to_set()),
            decreases keys@.len() - i,
        {
            let k = keys[i];
            let ghost seen = keys@.take(i as int).to_set();
            proof {
                assert(keys@.contains(k));
            }
            let n = table.get(&k).unwrap();
            let s = snapshot_inode(n);
            let ghost prev = out@;
            out.push(s);
            proof {
                assert(out@.drop_last() =~= prev);
                if seen.contains(k) {
                    assert(keys@.take(i as int).contains(k));
                    let j = choose|j: int| 0 <= j < i && keys@.take(i as int)[j] == k;
                    assert(keys@[j] == keys@[i as int]);
                    assert(false);
                }
                assert(keys@.take(i + 1) =~= keys@.take(i as int).push(k));
                keys@.take(i as int).lemma_push_to_set_commute(k);
                assert(keys@.take(i + 1).to_set() =~= seen.insert(k));
                assert(m.contains_key(k));
                assert(m[k] == n@);
                assert(s.id == k);
                assert(snapshot_table(out@) == snapshot_table(prev).insert(k, n@));
                assert(snapshot_table(out@) =~= m.restrict(seen.insert(k)));
            }
            i = i + 1;
        }
        proof {
            assert(keys@.take(keys@.len() as int) =~= keys@);
            assert(m.restrict(keys@.to_set()) =~= m);
        }
        FsSnapshot { next_inode: self.next_inode_value(), root_inode: self.root_inode_id(), inodes: out }
    }

    /// A filesystem holding the snapshot's inodes (a later inode with the same
    /// id replaces an earlier one), with no open descriptors.
    pub fn from_snapshot(snapshot: FsSnapshot, time_provider: T) -> (fs: Self)
        ensures
            fs@ == snapshot.view(),
            fs@.wf(),
    {
        let FsSnapshot { next_inode, root_inode, inodes } = snapshot;
        let mut table: HashMap<InodeId, Inode> = HashMap::new();
        let mut i: usize = 0;
        while i < inodes.len()
            invariant
                i <= inodes@.len(),
                inodes_view(table@) == snapshot_table(inodes@.take(i as int)),
            decreases inodes@.len() - i,
        {
            let snap = &inodes[i];
            let content = match &snap.content {
                FileContentSnapshot::File(f) => FileContent::File(restore_storage(f)),
                FileContentSnapshot::Dir(entries) => FileContent::Dir(restore_dir(entries)),
            };
            let node = Inode { id: snap.id, metadata: snap.metadata.to_metadata(), content };
            table.insert(snap.id, node);
            assert(inodes@.take(i + 1).drop_last() =~= inodes@.take(i as int));
            assert(inodes_view(table@) =~= snapshot_table(inodes@.take(i + 1)));
            i = i + 1;
        }
        assert(inodes@.take(inodes@.len() as int) =~= inodes@);
        proof {
            lemma_snapshot_table_wf(inodes@);
        }
        Self::from_parts(time_provider, table, root_inode, next_inode)
    }
}

} // verus!
