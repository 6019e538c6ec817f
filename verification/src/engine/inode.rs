//! The inode table: from the opaque 64-bit ids that clients see to an open
//! reference descriptor, with the `(parent, name)` under which the file was
//! last seen, for the system calls that have no descriptor-relative form.
use crate::engine::attr::{Stat, S_IFDIR, S_IFLNK, S_IFMT, S_IFREG};
use crate::engine::error::{FsError, FsResult};
use crate::octets;
use std::collections::HashMap;
use vstd::prelude::*;

verus! {

broadcast use vstd::std_specs::hash::group_hash_axioms;

/// The id of the shared directory itself.
pub const ROOT_ID: u64 = 1;

#[derive(Debug, Clone, Copy, PartialEq, Eq, Structural)]
pub enum FileKind {
    Dir,
    Symlink,
    Regular,
    Other,
}

/// The kind of file that `mode` describes.
pub open spec fn kind_of(mode: u32) -> FileKind {
    if mode & S_IFMT == S_IFDIR {
        FileKind::Dir
    } else if mode & S_IFMT == S_IFLNK {
        FileKind::Symlink
    } else if mode & S_IFMT == S_IFREG {
        FileKind::Regular
    } else {
        FileKind::Other
    }
}

impl FileKind {
    pub fn from_mode(mode: u32) -> (k: Self)
        ensures
            k == kind_of(mode),
    {
        let bits: u32 = mode & S_IFMT;
        if bits == S_IFDIR {
            FileKind::Dir
        } else if bits == S_IFLNK {
            FileKind::Symlink
        } else if bits == S_IFREG {
            FileKind::Regular
        } else {
            FileKind::Other
        }
    }
}

/// What identifies a file whatever its path: the device and inode numbers.
pub open spec fn key_of(st: Stat) -> (u64, u64) {
    (st.dev, st.ino)
}

/// A tracked inode, as a value.
#[verifier::ext_equal]
pub struct Inode<F> {
    pub id: u64,
    pub fd: F,
    pub kind: FileKind,
    pub key: (u64, u64),
    /// The directory under which the file was last seen; none for a root
    /// that no lookup has come back to.
    pub parent: Option<u64>,
    /// The name it had there.
    pub name: Seq<u8>,
    /// How many lookups the client still holds.
    pub lookups: u64,
}

/// The inode table, as a value.
#[verifier::ext_equal]
pub struct InodeTable<F> {
    pub inodes: Map<u64, Inode<F>>,
    /// The id that the next new inode gets.
    pub next_id: u64,
}

impl<F> InodeTable<F> {
    pub open spec fn tracks(self, id: u64) -> bool {
        self.inodes.contains_key(id)
    }

    /// There are finitely many inodes, the root is tracked, every inode knows
    /// its id, ids that are still to be given out are not in use, and no file
    /// is tracked under two ids.
    pub open spec fn wf(self) -> bool {
        &&& self.inodes.dom().finite()
        &&& self.tracks(ROOT_ID)
        &&& forall|id: u64| #[trigger] self.tracks(id) ==> 1 <= id < self.next_id && self.inodes[id].id
            == id
        &&& forall|a: u64, b: u64| #[trigger]
            self.tracks(a) && #[trigger] self.tracks(b) && a != b ==> self.inodes[a].key
                != self.inodes[b].key
    }

    /// Whether `id` is the file with this key.
    pub open spec fn holds(self, id: u64, key: (u64, u64)) -> bool {
        self.tracks(id) && self.inodes[id].key == key
    }

    /// The id under which the file with this key is tracked.
    pub open spec fn holder(self, key: (u64, u64)) -> Option<u64> {
        if exists|id: u64| self.holds(id, key) {
            Some(choose|id: u64| self.holds(id, key))
        } else {
            None
        }
    }

    /// A new inode under the next id, looked up once.
    pub open spec fn added(self, parent: u64, name: Seq<u8>, fd: F, st: Stat) -> Self {
        InodeTable {
            inodes: self.inodes.insert(
                self.next_id,
                Inode {
                    id: self.next_id,
                    fd,
                    kind: kind_of(st.mode),
                    key: key_of(st),
                    parent: Some(parent),
                    name,
                    lookups: 1,
                },
            ),
            next_id: (self.next_id + 1) as u64,
        }
    }

    /// A tracked inode looked up once more, now seen at `(parent, name)`.
    pub open spec fn seen_again(self, id: u64, parent: u64, name: Seq<u8>) -> Self {
        let was = self.inodes[id];
        InodeTable {
            inodes: self.inodes.insert(
                id,
                Inode {
                    parent: Some(parent),
                    name,
                    lookups: ((was.lookups + 1) % 0x1_0000_0000_0000_0000) as u64,
                    ..was
                },
            ),
            next_id: self.next_id,
        }
    }

    /// The table after a lookup found the file of `st` at `(parent, name)`.
    pub open spec fn registered(self, parent: u64, name: Seq<u8>, fd: F, st: Stat) -> Self {
        match self.holder(key_of(st)) {
            Some(id) => self.seen_again(id, parent, name),
            None => self.added(parent, name, fd, st),
        }
    }

    /// The id which that lookup gives.
    pub open spec fn registered_id(self, st: Stat) -> u64 {
        match self.holder(key_of(st)) {
            Some(id) => id,
            None => self.next_id,
        }
    }

    /// The table after the client dropped `count` lookups of `id`: the inode
    /// goes when none is left. The root stays.
    pub open spec fn forgotten(self, id: u64, count: u64) -> Self {
        if id == ROOT_ID || !self.tracks(id) {
            self
        } else if self.inodes[id].lookups <= count {
            InodeTable { inodes: self.inodes.remove(id), next_id: self.next_id }
        } else {
            InodeTable {
                inodes: self.inodes.insert(
                    id,
                    Inode {
                        lookups: (self.inodes[id].lookups - count) as u64,
                        ..self.inodes[id]
                    },
                ),
                next_id: self.next_id,
            }
        }
    }

    /// Whether `id` was last seen at `(parent, name)`.
    pub open spec fn seen_at(self, id: u64, parent: u64, name: Seq<u8>) -> bool {
        self.tracks(id) && self.inodes[id].parent == Some(parent) && self.inodes[id].name == name
    }

    /// The table with `id` at `(parent, name)`.
    pub open spec fn moved(self, id: u64, parent: u64, name: Seq<u8>) -> Self {
        InodeTable {
            inodes: self.inodes.insert(
                id,
                Inode { parent: Some(parent), name, ..self.inodes[id] },
            ),
            next_id: self.next_id,
        }
    }

    /// What a rename on the host makes of the table: one inode last seen
    /// under the old name, if there is one, moves to the new name. Which one
    /// moves, if several were last seen there, is left open.
    pub open spec fn follows_rename(
        self,
        after: Self,
        parent: u64,
        name: Seq<u8>,
        new_parent: u64,
        new_name: Seq<u8>,
    ) -> bool {
        if exists|id: u64| self.seen_at(id, parent, name) {
            exists|id: u64| #[trigger]
                self.seen_at(id, parent, name) && after == self.moved(id, new_parent, new_name)
        } else {
            after == self
        }
    }
}

/// A tracked inode.
pub struct InodeData<F> {
    pub id: u64,
    pub fd: F,
    pub kind: FileKind,
    key: (u64, u64),
    parent: Option<u64>,
    name: Vec<u8>,
    lookups: u64,
}

impl<F> View for InodeData<F> {
    type V = Inode<F>;

    closed spec fn view(&self) -> Inode<F> {
        Inode {
            id: self.id,
            fd: self.fd,
            kind: self.kind,
            key: self.key,
            parent: self.parent,
            name: self.name@,
            lookups: self.lookups,
        }
    }
}

impl<F> InodeData<F> {
    /// The reference descriptor.
    pub fn raw_fd(&self) -> (fd: &F)
        ensures
            *fd == self@.fd,
    {
        &self.fd
    }

    pub fn parent(&self) -> (p: Option<u64>)
        ensures
            p == self@.parent,
    {
        self.parent
    }

    pub fn name(&self) -> (n: &Vec<u8>)
        ensures
            n@ == self@.name,
    {
        &self.name
    }

    pub fn set_location(&mut self, parent: u64, name: Vec<u8>)
        ensures
            final(self)@ == (Inode { parent: Some(parent), name: name@, ..old(self)@ }),
    {
        self.parent = Some(parent);
        self.name = name;
    }
}

/// One number for a device and inode number.
spec fn packed(key: (u64, u64)) -> u128 {
    (key.0 * 0x1_0000_0000_0000_0000 + key.1) as u128
}

fn pack(key: (u64, u64)) -> (r: u128)
    ensures
        r == packed(key),
{
    (key.0 as u128) * 0x1_0000_0000_0000_0000 + (key.1 as u128)
}

/// Different files have different numbers.
proof fn lemma_packed_injective()
    ensures
        forall|a: (u64, u64), b: (u64, u64)| #[trigger]
            packed(a) == #[trigger] packed(b) ==> a == b,
{
}

/// The inode table.
pub struct InodeStore<F> {
    by_id: HashMap<u64, InodeData<F>>,
    by_key: HashMap<u128, u64>,
    next_id: u64,
}

impl<F> View for InodeStore<F> {
    type V = InodeTable<F>;

    closed spec fn view(&self) -> InodeTable<F> {
        InodeTable {
            inodes: self.by_id@.map_values(|d: InodeData<F>| d@),
            next_id: self.next_id,
        }
    }
}

impl<F> InodeStore<F> {
    /// The table is well formed, and the index by key agrees with it.
    pub closed spec fn wf(&self) -> bool {
        &&& self@.wf()
        &&& forall|id: u64| #[trigger]
            self@.tracks(id) ==> self.by_key@.contains_key(packed(self@.inodes[id].key))
                && self.by_key@[packed(self@.inodes[id].key)] == id
        &&& forall|k: u128| #[trigger]
            self.by_key@.contains_key(k) ==> self@.tracks(self.by_key@[k]) && packed(
                self@.inodes[self.by_key@[k]].key,
            ) == k
    }

    /// What a well-formed store stands for is well formed.
    pub proof fn lemma_wf(&self)
        requires
            self.wf(),
        ensures
            self@.wf(),
    {
    }

    /// A table with only the root, whose descriptor is `root_fd`.
    pub fn new(root_fd: F, root_stat: &Stat) -> (s: Self)
        ensures
            s.wf(),
            s@ == (InodeTable {
                inodes: Map::<u64, Inode<F>>::empty().insert(
                    ROOT_ID,
                    Inode {
                        id: ROOT_ID,
                        fd: root_fd,
                        kind: FileKind::Dir,
                        key: key_of(*root_stat),
                        parent: None,
                        name: Seq::<u8>::empty(),
                        lookups: 1,
                    },
                ),
                next_id: 2,
            }),
    {
        let key: (u64, u64) = (root_stat.dev, root_stat.ino);
        let root = InodeData {
            id: ROOT_ID,
            fd: root_fd,
            kind: FileKind::Dir,
            key,
            parent: None,
            name: Vec::new(),
            lookups: 1,
        };
        let mut by_id: HashMap<u64, InodeData<F>> = HashMap::new();
        let mut by_key: HashMap<u128, u64> = HashMap::new();
        by_key.insert(pack(key), ROOT_ID);
        by_id.insert(ROOT_ID, root);
        let s = InodeStore { by_id, by_key, next_id: 2 };
        assert(s@.inodes =~= Map::<u64, Inode<F>>::empty().insert(ROOT_ID, root@));
        assert(s@.inodes[ROOT_ID] == root@);
        s
    }

    /// The tracked inode `id`.
    pub fn get(&self, id: u64) -> (r: FsResult<&InodeData<F>>)
        ensures
            self@.tracks(id) ==> (r matches Ok(d) && d@ == self@.inodes[id]),
            !self@.tracks(id) ==> r == Err::<&InodeData<F>, FsError>(FsError::UnknownInode(id)),
    {
        match self.by_id.get(&id) {
            Some(d) => Ok(d),
            None => Err(FsError::UnknownInode(id)),
        }
    }

    /// Whether there is an id left for one more inode.
    pub fn has_room(&self) -> (b: bool)
        ensures
            b == (self@.next_id < u64::MAX),
    {
        self.next_id < u64::MAX
    }

    /// Tracks a freshly opened file, or looks it up once more if it is
    /// tracked already (by another link, or by an earlier lookup), in which
    /// case `fd` is dropped. Either way the file is now seen at
    /// `(parent, name)`. Gives its id.
    pub fn register(&mut self, parent: u64, name: Vec<u8>, fd: F, st: &Stat) -> (id: u64)
        requires
            old(self).wf(),
            old(self)@.next_id < u64::MAX,
        ensures
            final(self).wf(),
            id == old(self)@.registered_id(*st),
            final(self)@ == old(self)@.registered(parent, name@, fd, *st),
            final(self)@.tracks(id),
    {
        let key: (u64, u64) = (st.dev, st.ino);
        let ghost before = self@;
        proof {
            lemma_packed_injective();
        }
        match self.by_key.get(&pack(key)) {
            Some(existing) => {
                let id: u64 = *existing;
                assert(before.holds(id, key));
                assert(before.holder(key) == Some(id)) by {
                    let other = choose|x: u64| before.holds(x, key);
                    assert(before.holds(other, key));
                }
                let removed = self.by_id.remove(&id);
                match removed {
                    Some(mut data) => {
                        data.lookups = data.lookups.wrapping_add(1);
                        data.set_location(parent, name);
                        self.by_id.insert(id, data);
                        assert(self@.inodes =~= before.seen_again(id, parent, name@).inodes);
                        assert forall|x: u64| #[trigger] self@.tracks(x) implies before.tracks(x)
                            && self@.inodes[x].key == before.inodes[x].key && self@.inodes[x].id
                            == before.inodes[x].id by {}
                        assert(self@.wf());
                        assert(self.wf());
                    },
                    None => {
                        assert(false);
                    },
                }
                id
            },
            None => {
                assert(before.holder(key) is None) by {
                    assert forall|x: u64| !before.holds(x, key) by {
                        assert(before.tracks(x) ==> self.by_key@.contains_key(
                            packed(before.inodes[x].key),
                        ));
                    }
                }
                let id: u64 = self.next_id;
                self.next_id = id + 1;
                let data = InodeData {
                    id,
                    fd,
                    kind: FileKind::from_mode(st.mode),
                    key,
                    parent: Some(parent),
                    name,
                    lookups: 1,
                };
                self.by_id.insert(id, data);
                self.by_key.insert(pack(key), id);
                assert(self@.inodes =~= before.added(parent, name@, fd, *st).inodes);
                assert forall|x: u64| #[trigger] self@.tracks(x) && x != id implies before.tracks(x)
                    && self@.inodes[x] == before.inodes[x] && before.inodes[x].key != key by {
                    assert(!before.holds(x, key));
                }
                assert(self@.wf());
                assert(self.wf());
                id
            },
        }
    }

    /// Drops `count` lookups of the inode `id`; when none is left, the inode
    /// is evicted and its descriptor dropped.
    pub fn forget(&mut self, id: u64, count: u64)
        requires
            old(self).wf(),
        ensures
            final(self).wf(),
            final(self)@ == old(self)@.forgotten(id, count),
    {
        let ghost before = self@;
        proof {
            lemma_packed_injective();
        }
        if id == ROOT_ID {
            return;
        }
        match self.by_id.remove(&id) {
            Some(mut data) => {
                assert(before.tracks(id));
                if data.lookups <= count {
                    self.by_key.remove(&pack(data.key));
                    assert(self@.inodes =~= before.inodes.remove(id));
                    assert forall|x: u64| #[trigger] self@.tracks(x) implies before.tracks(x) && x
                        != id && self@.inodes[x] == before.inodes[x] by {}
                    assert(self@.wf());
                    assert(self.wf());
                } else {
                    data.lookups = data.lookups - count;
                    self.by_id.insert(id, data);
                    assert(self@.inodes =~= before.forgotten(id, count).inodes);
                    assert forall|x: u64| #[trigger] self@.tracks(x) implies before.tracks(x)
                        && self@.inodes[x].key == before.inodes[x].key && self@.inodes[x].id
                        == before.inodes[x].id by {}
                    assert(self@.wf());
                    assert(self.wf());
                }
            },
            None => {
                assert(self@.inodes =~= before.inodes);
                assert(self.wf());
            },
        }
    }

    /// An inode last seen at `(parent, name)`, if there is one.
    fn find_at(&self, parent: u64, name: &[u8]) -> (r: Option<u64>)
        ensures
            r matches Some(id) ==> self@.seen_at(id, parent, name@),
            r is None ==> !exists|id: u64| self@.seen_at(id, parent, name@),
    {
        for entry in it: self.by_id.iter()
            invariant
                forall|i: int|
                    0 <= i < it.index() ==> !self@.seen_at(
                        *(#[trigger] it.seq()[i]).0,
                        parent,
                        name@,
                    ),
        {
            let (id, data) = entry;
            if data.parent == Some(parent) && octets::same(data.name.as_slice(), name) {
                return Some(*id);
            }
        }
        assert forall|id: u64| !self@.seen_at(id, parent, name@) by {
            if self@.tracks(id) {
                assert(self.by_id@.contains_key(id));
            }
        }
        None
    }

    /// Keeps the table in step with a successful rename on the host.
    pub fn note_rename(
        &mut self,
        old_parent: u64,
        old_name: &[u8],
        new_parent: u64,
        new_name: Vec<u8>,
    )
        requires
            old(self).wf(),
        ensures
            final(self).wf(),
            old(self)@.follows_rename(
                final(self)@,
                old_parent,
                old_name@,
                new_parent,
                new_name@,
            ),
    {
        let ghost before = self@;
        match self.find_at(old_parent, old_name) {
            Some(id) => {
                let removed = self.by_id.remove(&id);
                match removed {
                    Some(mut data) => {
                        data.set_location(new_parent, new_name);
                        self.by_id.insert(id, data);
                        assert(self@.inodes =~= before.moved(id, new_parent, new_name@).inodes);
                        assert forall|x: u64| #[trigger] self@.tracks(x) implies before.tracks(x)
                            && self@.inodes[x].key == before.inodes[x].key && self@.inodes[x].id
                            == before.inodes[x].id by {}
                        assert(self@.wf());
                        assert(self.wf());
                        assert(before.seen_at(id, old_parent, old_name@));
                    },
                    None => {
                        assert(false);
                    },
                }
            },
            None => {},
        }
    }

    /// How many inodes are tracked.
    pub fn len(&self) -> (n: usize)
        ensures
            self@.inodes.dom().finite(),
            n == self@.inodes.len(),
    {
        assert(self@.inodes.dom() =~= self.by_id@.dom());
        self.by_id.len()
    }
}

/// A table that tracks the file has a holder for its key, and only one.
pub proof fn lemma_holder<F>(table: InodeTable<F>, id: u64)
    requires
        table.wf(),
        table.tracks(id),
    ensures
        table.holder(table.inodes[id].key) == Some(id),
{
    let key = table.inodes[id].key;
    assert(table.holds(id, key));
    let other = choose|x: u64| table.holds(x, key);
    assert(table.holds(other, key));
}

/// Every operation keeps the table well formed: the root stays tracked, and no
/// file is tracked under two ids. The id to be given out next never goes down,
/// so that no id is given out twice.
pub proof fn law_inode_table_invariant<F>(
    table: InodeTable<F>,
    parent: u64,
    name: Seq<u8>,
    fd: F,
    st: Stat,
    id: u64,
    count: u64,
)
    requires
        table.wf(),
    ensures
        table.next_id < u64::MAX ==> table.registered(parent, name, fd, st).wf(),
        table.forgotten(id, count).wf(),
        table.tracks(id) ==> table.moved(id, parent, name).wf(),
        table.next_id < u64::MAX ==> table.registered(parent, name, fd, st).next_id
            >= table.next_id,
        table.forgotten(id, count).next_id == table.next_id,
        table.moved(id, parent, name).next_id == table.next_id,
{
    if table.next_id < u64::MAX {
        let after = table.registered(parent, name, fd, st);
        match table.holder(key_of(st)) {
            Some(x) => {
                assert(table.holds(x, key_of(st)));
                assert forall|y: u64| #[trigger] after.tracks(y) implies table.tracks(y)
                    && after.inodes[y].key == table.inodes[y].key && after.inodes[y].id
                    == table.inodes[y].id by {}
                assert(after.tracks(ROOT_ID));
            },
            None => {
                assert forall|y: u64| #[trigger] after.tracks(y) && y != table.next_id implies
                    table.tracks(y) && after.inodes[y] == table.inodes[y] && table.inodes[y].key
                    != key_of(st) by {
                    assert(!table.holds(y, key_of(st)));
                }
                assert(after.tracks(ROOT_ID));
            },
        }
    }
    let after = table.forgotten(id, count);
    assert forall|y: u64| #[trigger] after.tracks(y) implies table.tracks(y) && after.inodes[y].key
        == table.inodes[y].key && after.inodes[y].id == table.inodes[y].id by {}
    assert(after.tracks(ROOT_ID));
    if table.tracks(id) {
        let after = table.moved(id, parent, name);
        assert forall|y: u64| #[trigger] after.tracks(y) implies table.tracks(y)
            && after.inodes[y].key == table.inodes[y].key && after.inodes[y].id
            == table.inodes[y].id by {}
        assert(after.tracks(ROOT_ID));
    }
}

/// A lookup tracks its file at the place where it was found. If the file was
/// tracked already, it keeps its id, its descriptor and its kind, has one lookup
/// more (the count wraps around), and nothing is added. If not, it is added
/// under an id above all that were given out before, which is never the root's,
/// with one lookup. Nothing else changes.
pub proof fn law_lookup_registers_its_file<F>(
    table: InodeTable<F>,
    parent: u64,
    name: Seq<u8>,
    fd: F,
    st: Stat,
)
    requires
        table.wf(),
        table.next_id < u64::MAX,
    ensures
        ({
            let id = table.registered_id(st);
            let after = table.registered(parent, name, fd, st);
            let now = after.inodes[id];
            &&& after.wf()
            &&& after.seen_at(id, parent, name)
            &&& now.id == id
            &&& now.key == key_of(st)
            &&& after.inodes.contains_key(id)
            &&& now.key == (st.dev, st.ino)
            &&& now.parent == Some(parent)
            &&& now.name == name
            &&& forall|x: u64| #![trigger after.tracks(x)]
                x != id ==> after.tracks(x) == table.tracks(x) && (table.tracks(x)
                    ==> after.inodes[x] == table.inodes[x])
            &&& (exists|x: u64| table.holds(x, key_of(st))) ==> {
                let was = table.inodes[id];
                &&& table.holds(id, key_of(st))
                &&& now.fd == was.fd
                &&& now.kind == was.kind
                &&& now.lookups == (was.lookups + 1) % 0x1_0000_0000_0000_0000
                &&& after.inodes.len() == table.inodes.len()
                &&& after.next_id == table.next_id
            }
            &&& !(exists|x: u64| table.holds(x, key_of(st))) ==> {
                &&& id == table.next_id
                &&& id != ROOT_ID
                &&& forall|x: u64| #[trigger] table.tracks(x) ==> x < id
                &&& now.fd == fd
                &&& now.kind == kind_of(st.mode)
                &&& now.lookups == 1
                &&& after.inodes.len() == table.inodes.len() + 1
                &&& after.next_id == id + 1
            }
        }),
{
    law_inode_table_invariant(table, parent, name, fd, st, table.registered_id(st), 0);
    assert(table.tracks(ROOT_ID));
    if let Some(x) = table.holder(key_of(st)) {
        assert(table.holds(x, key_of(st)));
        assert(table.inodes.insert(
            x,
            table.registered(parent, name, fd, st).inodes[x],
        ).dom() =~= table.inodes.dom());
    } else {
        assert(!table.tracks(table.next_id));
    }
}

/// Looking one file up twice, under whatever names, gives the same id, and
/// the second time nothing new is tracked: hard links share one inode.
pub proof fn law_same_file_same_inode<F>(
    table: InodeTable<F>,
    parent: u64,
    name: Seq<u8>,
    fd: F,
    st: Stat,
    other_parent: u64,
    other_name: Seq<u8>,
    other_fd: F,
    other_st: Stat,
)
    requires
        table.wf(),
        table.next_id < u64::MAX,
        key_of(st) == key_of(other_st),
    ensures
        ({
            let after = table.registered(parent, name, fd, st);
            let id = table.registered_id(st);
            &&& after.registered_id(other_st) == id
            &&& after.registered(other_parent, other_name, other_fd, other_st)
                == after.seen_again(id, other_parent, other_name)
        }),
{
    let after = table.registered(parent, name, fd, st);
    let id = table.registered_id(st);
    law_inode_table_invariant(table, parent, name, fd, st, id, 0);
    if let Some(x) = table.holder(key_of(st)) {
        assert(table.holds(x, key_of(st)));
    }
    lemma_holder(after, id);
}

/// Files that differ get ids that differ.
pub proof fn law_different_files_different_inodes<F>(
    table: InodeTable<F>,
    parent: u64,
    name: Seq<u8>,
    fd: F,
    st: Stat,
    other_st: Stat,
)
    requires
        table.wf(),
        table.next_id < u64::MAX,
        key_of(st) != key_of(other_st),
    ensures
        table.registered(parent, name, fd, st).registered_id(other_st) != table.registered_id(st),
{
    let after = table.registered(parent, name, fd, st);
    let id = table.registered_id(st);
    law_inode_table_invariant(table, parent, name, fd, st, id, 0);
    if let Some(x) = table.holder(key_of(st)) {
        assert(table.holds(x, key_of(st)));
    }
    assert(after.tracks(id) && after.inodes[id].key == key_of(st));
    if let Some(y) = after.holder(key_of(other_st)) {
        assert(after.holds(y, key_of(other_st)));
    }
}

/// A forget takes back what lookups gave: a new inode that is looked up once
/// and then forgotten is gone without a trace, and an inode that was tracked
/// before keeps the number of lookups it had.
pub proof fn law_forget_takes_back_lookup<F>(
    table: InodeTable<F>,
    parent: u64,
    name: Seq<u8>,
    fd: F,
    st: Stat,
)
    requires
        table.wf(),
        table.next_id < u64::MAX,
    ensures
        ({
            let id = table.registered_id(st);
            let after = table.registered(parent, name, fd, st).forgotten(id, 1);
            match table.holder(key_of(st)) {
                None => after.inodes == table.inodes,
                Some(_) => id != ROOT_ID && 0 < table.inodes[id].lookups < u64::MAX
                    ==> after.tracks(id) && after.inodes[id].lookups == table.inodes[id].lookups,
            }
        }),
{
    let id = table.registered_id(st);
    let after = table.registered(parent, name, fd, st).forgotten(id, 1);
    match table.holder(key_of(st)) {
        None => {
            assert(table.tracks(ROOT_ID) && !table.tracks(table.next_id));
            assert(after.inodes =~= table.inodes);
        },
        Some(x) => {
            assert(table.holds(x, key_of(st)));
        },
    }
}

/// A forget touches no inode but its own, never the root, and evicts an inode
/// exactly when it drops all of its lookups.
pub proof fn law_forget_evicts<F>(table: InodeTable<F>, id: u64, count: u64)
    requires
        table.wf(),
    ensures
        ({
            let after = table.forgotten(id, count);
            &&& after.inodes[ROOT_ID] == table.inodes[ROOT_ID] && after.tracks(ROOT_ID)
            &&& forall|x: u64| #![trigger after.tracks(x)]
                x != id ==> after.tracks(x) == table.tracks(x) && (table.tracks(x)
                    ==> after.inodes[x] == table.inodes[x])
            &&& id != ROOT_ID && table.tracks(id) ==> (after.tracks(id)
                <==> table.inodes[id].lookups > count)
            &&& table.tracks(id) && !after.tracks(id) ==> after.inodes.len() + 1
                == table.inodes.len()
            &&& !(table.tracks(id) && !after.tracks(id)) ==> after.inodes.len()
                == table.inodes.len()
        }),
{
}

/// A forget takes as many lookups off an inode as it says, and changes nothing else
/// of it; with the last of them the inode goes. Forgetting some and then some more
/// is forgetting all of them at once. The root, and what is not tracked, stay as
/// they are.
pub proof fn law_forget_takes_off_what_it_says<F>(
    table: InodeTable<F>,
    id: u64,
    count: u64,
    more: u64,
)
    ensures
        id == 1 || !table.inodes.contains_key(id) ==> table.forgotten(id, count) == table,
        id != 1 && table.inodes.contains_key(id) ==> {
            let was = table.inodes[id];
            let after = table.forgotten(id, count);
            &&& after.next_id == table.next_id
            &&& was.lookups <= count ==> after.inodes == table.inodes.remove(id)
            &&& was.lookups > count ==> {
                let now = after.inodes[id];
                &&& after.inodes.dom() == table.inodes.dom()
                &&& after.inodes.remove(id) == table.inodes.remove(id)
                &&& now.lookups == was.lookups - count
                &&& now.id == was.id
                &&& now.fd == was.fd
                &&& now.kind == was.kind
                &&& now.key == was.key
                &&& now.parent == was.parent
                &&& now.name == was.name
            }
        },
        count + more <= u64::MAX ==> table.forgotten(id, count).forgotten(id, more)
            == table.forgotten(id, (count + more) as u64),
{
    let after = table.forgotten(id, count);
    if id != 1 && table.inodes.contains_key(id) && table.inodes[id].lookups > count {
        assert(after.inodes.dom() =~= table.inodes.dom());
        assert(after.inodes.remove(id) =~= table.inodes.remove(id));
    }
    if count + more <= u64::MAX {
        assert(after.forgotten(id, more) =~= table.forgotten(id, (count + more) as u64));
    }
}

/// A rename is followed: if one inode was last seen under the old name, it is
/// now seen under the new one, as the same file, and nothing else changes.
pub proof fn law_rename_is_followed<F>(
    table: InodeTable<F>,
    after: InodeTable<F>,
    id: u64,
    parent: u64,
    name: Seq<u8>,
    new_parent: u64,
    new_name: Seq<u8>,
)
    requires
        table.follows_rename(after, parent, name, new_parent, new_name),
        table.seen_at(id, parent, name),
        forall|x: u64| table.seen_at(x, parent, name) ==> x == id,
    ensures
        after.seen_at(id, new_parent, new_name),
        after.inodes[id].key == table.inodes[id].key,
        after.inodes[id] == (Inode {
            parent: Some(new_parent),
            name: new_name,
            ..table.inodes[id]
        }),
        forall|x: u64| #![trigger after.tracks(x)]
            after.tracks(x) == table.tracks(x) && (x != id ==> after.inodes[x]
                == table.inodes[x]),
{
}

} // verus!
