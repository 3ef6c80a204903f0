//! Inodes: metadata, file contents and directory entry tables.

use crate::path::{
    chars_lt, lemma_name_lt_irreflexive, lemma_name_lt_total, lemma_name_lt_transitive, name_lt,
    str_chars, strings_view,
};
use crate::storage::BlockStorage;
use crate::types::InodeId;
use vstd::prelude::*;

verus! {

/// Metadata of a file or directory.
#[derive(Clone, Copy, Debug, PartialEq, Eq, Structural)]
pub struct Metadata {
    pub size: u64,
    pub created: u64,
    pub modified: u64,
    pub permissions: u16,
    pub is_dir: bool,
}

/// Permission bits given to new regular files.
pub const FILE_PERMISSIONS: u16 = 0o644;

/// Permission bits given to new directories.
pub const DIR_PERMISSIONS: u16 = 0o755;

/// Entries strictly sorted by name; names are therefore unique.
pub open spec fn entries_sorted(s: Seq<(String, InodeId)>) -> bool {
    forall|i: int, j: int| 0 <= i < j < s.len() ==> name_lt(#[trigger] s[i].0@, #[trigger] s[j].0@)
}

/// Whether some entry of `s` is called `k`.
pub open spec fn entries_have(s: Seq<(String, InodeId)>, k: Seq<char>) -> bool {
    exists|i: int| 0 <= i < s.len() && #[trigger] s[i].0@ == k
}

/// The name-to-inode map that a list of entries stands for.
pub open spec fn entries_map(s: Seq<(String, InodeId)>) -> Map<Seq<char>, InodeId> {
    Map::new(
        |k: Seq<char>| entries_have(s, k),
        |k: Seq<char>| s[choose|i: int| 0 <= i < s.len() && #[trigger] s[i].0@ == k].1,
    )
}

/// The names of a list of entries, in order.
pub open spec fn entries_names(s: Seq<(String, InodeId)>) -> Seq<Seq<char>> {
    s.map_values(|e: (String, InodeId)| e.0@)
}

/// A sequence of names in strictly increasing order.
pub open spec fn names_sorted(s: Seq<Seq<char>>) -> bool {
    forall|i: int, j: int| 0 <= i < j < s.len() ==> name_lt(#[trigger] s[i], #[trigger] s[j])
}

/// In a sorted list, an entry is found at its own index.
pub proof fn lemma_entries_map_at(s: Seq<(String, InodeId)>, i: int)
    requires
        entries_sorted(s),
        0 <= i < s.len(),
    ensures
        entries_map(s).contains_key(s[i].0@),
        entries_map(s)[s[i].0@] == s[i].1,
{
    assert(entries_have(s, s[i].0@));
    let j = choose|j: int| 0 <= j < s.len() && #[trigger] s[j].0@ == s[i].0@;
    if j != i {
        if j < i {
            assert(name_lt(s[j].0@, s[i].0@));
        } else {
            assert(name_lt(s[i].0@, s[j].0@));
        }
        lemma_name_lt_irreflexive(s[i].0@);
    }
}

/// The entries of a directory, kept sorted by name.
pub struct DirEntries {
    entries: Vec<(String, InodeId)>,
}

impl DirEntries {
    #[verifier::type_invariant]
    closed spec fn inv(self) -> bool {
        entries_sorted(self.entries@)
    }

    /// The entries in name order.
    pub closed spec fn seq(self) -> Seq<(String, InodeId)> {
        self.entries@
    }
}

impl View for DirEntries {
    type V = Map<Seq<char>, InodeId>;

    open spec fn view(&self) -> Map<Seq<char>, InodeId> {
        entries_map(self.seq())
    }
}

impl DirEntries {
    /// An empty directory table.
    pub fn new() -> (d: Self)
        ensures
            d@ == Map::<Seq<char>, InodeId>::empty(),
            d.seq().len() == 0,
    {
        let d = DirEntries { entries: Vec::new() };
        assert(d@ =~= Map::<Seq<char>, InodeId>::empty());
        d
    }

    /// Index of the entry called `name`, if any.
    fn find(&self, name: &String) -> (r: Option<usize>)
        ensures
            match r {
                Some(i) => i < self.seq().len() && self.seq()[i as int].0@ == name@,
                None => !entries_have(self.seq(), name@),
            },
    {
        let mut i: usize = 0;
        while i < self.entries.len()
            invariant
                i <= self.entries@.len(),
                forall|j: int| 0 <= j < i ==> self.entries@[j].0@ != name@,
            decreases self.entries@.len() - i,
        {
            if self.entries[i].0.eq(name) {
                return Some(i);
            }
            i = i + 1;
        }
        None
    }

    /// The inode that `name` refers to.
    pub fn get(&self, name: &String) -> (r: Option<InodeId>)
        ensures
            r == (if self@.contains_key(name@) {
                Some(self@[name@])
            } else {
                None::<InodeId>
            }),
    {
        proof {
            use_type_invariant(self);
        }
        match self.find(name) {
            Some(i) => {
                proof {
                    lemma_entries_map_at(self.seq(), i as int);
                }
                Some(self.entries[i].1)
            },
            None => None,
        }
    }

    /// Whether the table has no entries.
    pub fn is_empty(&self) -> (b: bool)
        ensures
            b == (self@ == Map::<Seq<char>, InodeId>::empty()),
    {
        proof {
            use_type_invariant(self);
        }
        if self.entries.len() == 0 {
            assert(self@ =~= Map::<Seq<char>, InodeId>::empty());
            true
        } else {
            proof {
                lemma_entries_map_at(self.seq(), 0);
            }
            false
        }
    }

    /// Whether the name of entry `p` sorts before `key`.
    fn name_at_lt(&self, p: usize, key: &Vec<char>) -> (r: bool)
        requires
            p < self.seq().len(),
        ensures
            r == name_lt(self.seq()[p as int].0@, key@),
    {
        let cur = str_chars(self.entries[p].0.as_str());
        chars_lt(&cur, key)
    }

    /// Map `name` to `id`, replacing any entry of that name.
    pub fn insert(&mut self, name: String, id: InodeId)
        ensures
            final(self)@ == old(self)@.insert(name@, id),
    {
        proof {
            use_type_invariant(&*self);
        }
        let key = str_chars(name.as_str());
        let ghost s = self.entries@;
        let mut p: usize = 0;
        while p < self.entries.len() && self.name_at_lt(p, &key)
            invariant
                p <= s.len(),
                s == self.entries@,
                entries_sorted(s),
                key@ == name@,
                forall|j: int| 0 <= j < p ==> name_lt(#[trigger] s[j].0@, name@),
            decreases s.len() - p,
        {
            p = p + 1;
        }
        let found = p < self.entries.len() && self.entries[p].0.eq(&name);
        let mut this = DirEntries::new();
        std::mem::swap(self, &mut this);
        let DirEntries { mut entries } = this;
        if found {
            entries[p] = (name, id);
            proof {
                assert forall|i: int, j: int| 0 <= i < j < entries@.len() implies name_lt(
                    #[trigger] entries@[i].0@,
                    #[trigger] entries@[j].0@,
                ) by {
                    assert(entries@[i].0@ == s[i].0@);
                    assert(entries@[j].0@ == s[j].0@);
                }
                assert forall|k: Seq<char>| #![auto]
                    entries_map(entries@).contains_key(k) <==> entries_map(s).insert(
                        name@,
                        id,
                    ).contains_key(k) by {
                    if entries_have(s, k) && k != name@ {
                        let i = choose|i: int| 0 <= i < s.len() && #[trigger] s[i].0@ == k;
                        assert(entries@[i].0@ == k);
                    }
                    if k == name@ {
                        assert(entries@[p as int].0@ == k);
                    }
                    if entries_have(entries@, k) {
                        let i = choose|i: int| 0 <= i < entries@.len() && #[trigger] entries@[i].0@ == k;
                        assert(s[i].0@ == k);
                    }
                }
                assert forall|k: Seq<char>| #[trigger]
                    entries_map(entries@).contains_key(k) implies entries_map(entries@)[k]
                    == entries_map(s).insert(name@, id)[k] by {
                    let i = choose|i: int| 0 <= i < entries@.len() && #[trigger] entries@[i].0@ == k;
                    lemma_entries_map_at(entries@, i);
                    if i != p {
                        assert(entries@[i] == s[i]);
                        lemma_entries_map_at(s, i);
                        if k == name@ {
                            if i < p {
                                assert(name_lt(s[i].0@, s[p as int].0@));
                            } else {
                                assert(name_lt(s[p as int].0@, s[i].0@));
                            }
                            lemma_name_lt_irreflexive(k);
                        }
                    }
                }
                assert(entries_map(entries@) =~= entries_map(s).insert(name@, id));
            }
        } else {
            entries.insert(p, (name, id));
            proof {
                assert forall|i: int, j: int| 0 <= i < j < entries@.len() implies name_lt(
                    #[trigger] entries@[i].0@,
                    #[trigger] entries@[j].0@,
                ) by {
                    if j == p {
                        assert(entries@[i].0@ == s[i].0@);
                    } else if i == p {
                        assert(entries@[j].0@ == s[j - 1].0@);
                        if j - 1 > p {
                            assert(name_lt(s[p as int].0@, s[j - 1].0@));
                        }
                        if s[p as int].0@ != name@ {
                            lemma_name_lt_total(s[p as int].0@, name@);
                        }
                        if j - 1 > p {
                            lemma_name_lt_transitive(name@, s[p as int].0@, s[j - 1].0@);
                        }
                    } else if i < p && j < p {
                        assert(entries@[i].0@ == s[i].0@);
                        assert(entries@[j].0@ == s[j].0@);
                    } else if i < p {
                        assert(entries@[i].0@ == s[i].0@);
                        assert(entries@[j].0@ == s[j - 1].0@);
                        if j - 1 >= p {
                            assert(name_lt(s[i].0@, name@));
                            if s[p as int].0@ != name@ {
                                lemma_name_lt_total(s[p as int].0@, name@);
                            }
                            lemma_name_lt_transitive(s[i].0@, name@, s[p as int].0@);
                            if j - 1 > p {
                                lemma_name_lt_transitive(s[i].0@, s[p as int].0@, s[j - 1].0@);
                            }
                        }
                    } else {
                        assert(entries@[i].0@ == s[i - 1].0@);
                        assert(entries@[j].0@ == s[j - 1].0@);
                    }
                }
                assert(!entries_have(s, name@)) by {
                    if entries_have(s, name@) {
                        let i = choose|i: int| 0 <= i < s.len() && #[trigger] s[i].0@ == name@;
                        if i < p {
                            lemma_name_lt_irreflexive(name@);
                        } else if i > p {
                            assert(name_lt(s[p as int].0@, s[i].0@));
                            if s[p as int].0@ != name@ {
                                lemma_name_lt_total(s[p as int].0@, name@);
                            }
                        }
                    }
                }
                assert forall|k: Seq<char>| #![auto]
                    entries_map(entries@).contains_key(k) <==> entries_map(s).insert(
                        name@,
                        id,
                    ).contains_key(k) by {
                    if entries_have(s, k) {
                        let i = choose|i: int| 0 <= i < s.len() && #[trigger] s[i].0@ == k;
                        if i < p {
                            assert(entries@[i].0@ == k);
                        } else {
                            assert(entries@[i + 1].0@ == k);
                        }
                    }
                    if k == name@ {
                        assert(entries@[p as int].0@ == k);
                    }
                    if entries_have(entries@, k) {
                        let i = choose|i: int| 0 <= i < entries@.len() && #[trigger] entries@[i].0@ == k;
                        if i < p {
                            assert(s[i].0@ == k);
                        } else if i > p {
                            assert(s[i - 1].0@ == k);
                        }
                    }
                }
                assert forall|k: Seq<char>| #[trigger]
                    entries_map(entries@).contains_key(k) implies entries_map(entries@)[k]
                    == entries_map(s).insert(name@, id)[k] by {
                    let i = choose|i: int| 0 <= i < entries@.len() && #[trigger] entries@[i].0@ == k;
                    lemma_entries_map_at(entries@, i);
                    if i < p {
                        lemma_entries_map_at(s, i);
                    } else if i > p {
                        lemma_entries_map_at(s, i - 1);
                    }
                }
                assert(entries_map(entries@) =~= entries_map(s).insert(name@, id));
            }
        }
        *self = DirEntries { entries };
    }

    /// Remove the entry called `name`, returning the inode it referred to.
    pub fn remove(&mut self, name: &String) -> (r: Option<InodeId>)
        ensures
            final(self)@ == old(self)@.remove(name@),
            r == (if old(self)@.contains_key(name@) {
                Some(old(self)@[name@])
            } else {
                None::<InodeId>
            }),
    {
        proof {
            use_type_invariant(&*self);
        }
        let ghost s = self.entries@;
        match self.find(name) {
            None => {
                assert(self@ =~= old(self)@.remove(name@));
                None
            },
            Some(p) => {
                proof {
                    lemma_entries_map_at(s, p as int);
                }
                let mut this = DirEntries::new();
                std::mem::swap(self, &mut this);
                let DirEntries { mut entries } = this;
                let (_, id) = entries.remove(p);
                proof {
                    assert forall|i: int, j: int| 0 <= i < j < entries@.len() implies name_lt(
                        #[trigger] entries@[i].0@,
                        #[trigger] entries@[j].0@,
                    ) by {
                        if i < p {
                            assert(entries@[i].0@ == s[i].0@);
                        } else {
                            assert(entries@[i].0@ == s[i + 1].0@);
                        }
                        if j < p {
                            assert(entries@[j].0@ == s[j].0@);
                        } else {
                            assert(entries@[j].0@ == s[j + 1].0@);
                        }
                    }
                    assert forall|k: Seq<char>| #![auto]
                        entries_map(entries@).contains_key(k) <==> entries_map(s).remove(
                            name@,
                        ).contains_key(k) by {
                        if entries_have(s, k) && k != name@ {
                            let i = choose|i: int| 0 <= i < s.len() && #[trigger] s[i].0@ == k;
                            if i < p {
                                assert(entries@[i].0@ == k);
                            } else {
                                assert(i != p);
                                assert(entries@[i - 1].0@ == k);
                            }
                        }
                        if entries_have(entries@, k) {
                            let i = choose|i: int|
                                0 <= i < entries@.len() && #[trigger] entries@[i].0@ == k;
                            if i < p {
                                assert(s[i].0@ == k);
                                if k == name@ {
                                    assert(name_lt(s[i].0@, s[p as int].0@));
                                    lemma_name_lt_irreflexive(k);
                                }
                            } else {
                                assert(s[i + 1].0@ == k);
                                if k == name@ {
                                    assert(name_lt(s[p as int].0@, s[i + 1].0@));
                                    lemma_name_lt_irreflexive(k);
                                }
                            }
                        }
                    }
                    assert forall|k: Seq<char>| #[trigger]
                        entries_map(entries@).contains_key(k) implies entries_map(entries@)[k]
                        == entries_map(s).remove(name@)[k] by {
                        let i = choose|i: int|
                            0 <= i < entries@.len() && #[trigger] entries@[i].0@ == k;
                        lemma_entries_map_at(entries@, i);
                        if i < p {
                            lemma_entries_map_at(s, i);
                        } else {
                            lemma_entries_map_at(s, i + 1);
                        }
                    }
                    assert(entries_map(entries@) =~= entries_map(s).remove(name@));
                }
                *self = DirEntries { entries };
                Some(id)
            },
        }
    }

    /// The entries in name order.
    pub fn to_vec(&self) -> (v: Vec<(String, InodeId)>)
        ensures
            v@ == self.seq(),
            entries_sorted(v@),
    {
        proof {
            use_type_invariant(self);
        }
        let mut v: Vec<(String, InodeId)> = Vec::new();
        let mut i: usize = 0;
        while i < self.entries.len()
            invariant
                i <= self.entries@.len(),
                v@ == self.entries@.take(i as int),
            decreases self.entries@.len() - i,
        {
            v.push((self.entries[i].0.clone(), self.entries[i].1));
            assert(v@ =~= self.entries@.take(i + 1));
            i = i + 1;
        }
        assert(self.entries@.take(self.entries@.len() as int) =~= self.entries@);
        v
    }

    /// The names in increasing order.
    pub fn names(&self) -> (v: Vec<String>)
        ensures
            strings_view(v@) == entries_names(self.seq()),
            names_sorted(strings_view(v@)),
            strings_view(v@).to_set() == self@.dom(),
    {
        proof {
            use_type_invariant(self);
        }
        let mut v: Vec<String> = Vec::new();
        let mut i: usize = 0;
        while i < self.entries.len()
            invariant
                i <= self.entries@.len(),
                strings_view(v@) == entries_names(self.entries@.take(i as int)),
            decreases self.entries@.len() - i,
        {
            let ghost prev = v@;
            v.push(self.entries[i].0.clone());
            assert(strings_view(v@) =~= strings_view(prev).push(self.entries@[i as int].0@));
            assert(entries_names(self.entries@.take(i + 1)) =~= entries_names(
                self.entries@.take(i as int),
            ).push(self.entries@[i as int].0@));
            i = i + 1;
        }
        assert(self.entries@.take(self.entries@.len() as int) =~= self.entries@);
        proof {
            let names = strings_view(v@);
            assert forall|k: Seq<char>| names.contains(k) <==> self@.dom().contains(k) by {
                if names.contains(k) {
                    let i = choose|i: int| 0 <= i < names.len() && names[i] == k;
                    assert(self.entries@[i].0@ == k);
                }
                if self@.dom().contains(k) {
                    let i = choose|i: int|
                        0 <= i < self.entries@.len() && #[trigger] self.entries@[i].0@ == k;
                    assert(names[i] == k);
                }
            }
            assert(names.to_set() =~= self@.dom());
        }
        v
    }
}

} // verus!

verus! {

/// What an inode holds: file bytes or a directory table.
pub enum FileContent {
    File(BlockStorage),
    Dir(DirEntries),
}

/// A file or directory.
pub struct Inode {
    pub id: InodeId,
    pub metadata: Metadata,
    pub content: FileContent,
}

/// The contents of an inode as mathematical values.
#[verifier::ext_equal]
pub enum ContentView {
    File(Seq<u8>),
    Dir(Map<Seq<char>, InodeId>),
}

/// An inode as mathematical values.
#[verifier::ext_equal]
pub struct InodeView {
    pub id: InodeId,
    pub meta: Metadata,
    pub content: ContentView,
}

impl FileContent {
    pub open spec fn view(&self) -> ContentView {
        match self {
            FileContent::File(s) => ContentView::File(s@),
            FileContent::Dir(d) => ContentView::Dir(d@),
        }
    }
}

impl Inode {
    pub open spec fn view(&self) -> InodeView {
        InodeView { id: self.id, meta: self.metadata, content: self.content.view() }
    }
}

/// Metadata of a fresh, empty file or directory.
pub open spec fn fresh_metadata(is_dir: bool) -> Metadata {
    Metadata {
        size: 0,
        created: 0,
        modified: 0,
        permissions: if is_dir { DIR_PERMISSIONS } else { FILE_PERMISSIONS },
        is_dir,
    }
}

impl Inode {
    /// An empty regular file with zero timestamps.
    pub fn new_file(id: InodeId) -> (n: Inode)
        ensures
            n@ == (InodeView {
                id,
                meta: fresh_metadata(false),
                content: ContentView::File(Seq::empty()),
            }),
    {
        Inode {
            id,
            metadata: Metadata {
                size: 0,
                created: 0,
                modified: 0,
                permissions: FILE_PERMISSIONS,
                is_dir: false,
            },
            content: FileContent::File(BlockStorage::new()),
        }
    }

    /// An empty directory with zero timestamps.
    pub fn new_dir(id: InodeId) -> (n: Inode)
        ensures
            n@ == (InodeView {
                id,
                meta: fresh_metadata(true),
                content: ContentView::Dir(Map::empty()),
            }),
    {
        Inode {
            id,
            metadata: Metadata {
                size: 0,
                created: 0,
                modified: 0,
                permissions: DIR_PERMISSIONS,
                is_dir: true,
            },
            content: FileContent::Dir(DirEntries::new()),
        }
    }
}

} // verus!
