//! The table of open handles. It is apart from the inode table because a
//! client may open one inode several times with different flags, and each
//! opening has a descriptor of its own.
use crate::engine::error::{FsError, FsResult};
use std::collections::HashMap;
use vstd::prelude::*;

verus! {

broadcast use vstd::std_specs::hash::group_hash_axioms;

/// What an open handle stands for: an open file, with its descriptor, or an
/// open directory, with its stream.
pub enum HandleData<F, D> {
    File(F),
    Dir(D),
}

/// The table of open handles, as a value: what is open under which number,
/// and the number that the next handle gets.
#[verifier::ext_equal]
pub struct HandleTable<F, D> {
    pub open: Map<u64, HandleData<F, D>>,
    pub next_id: u64,
}

impl<F, D> HandleTable<F, D> {
    /// No number that is still to be given out is in use.
    pub open spec fn wf(self) -> bool {
        &&& 1 <= self.next_id
        &&& forall|id: u64| #[trigger] self.open.contains_key(id) ==> 1 <= id < self.next_id
    }

    /// The table with `data` under the next number. Numbers wrap around.
    pub open spec fn inserted(self, data: HandleData<F, D>) -> Self {
        HandleTable {
            open: self.open.insert(self.next_id, data),
            next_id: ((self.next_id + 1) % 0x1_0000_0000_0000_0000) as u64,
        }
    }

    /// The table without `id`.
    pub open spec fn removed(self, id: u64) -> Self {
        HandleTable { open: self.open.remove(id), next_id: self.next_id }
    }

    /// The descriptor of the open file `id`.
    pub open spec fn file(self, id: u64) -> FsResult<F> {
        if !self.open.contains_key(id) {
            Err(FsError::UnknownHandle(id))
        } else {
            match self.open[id] {
                HandleData::File(fd) => Ok(fd),
                HandleData::Dir(_) => Err(
                    FsError::InvalidArgument("handle is a directory, not a file"),
                ),
            }
        }
    }

    /// The stream of the open directory `id`.
    pub open spec fn dir(self, id: u64) -> FsResult<D> {
        if !self.open.contains_key(id) {
            Err(FsError::UnknownHandle(id))
        } else {
            match self.open[id] {
                HandleData::Dir(dir) => Ok(dir),
                HandleData::File(_) => Err(
                    FsError::InvalidArgument("handle is a file, not a directory"),
                ),
            }
        }
    }
}

/// The table of open handles.
pub struct HandleStore<F, D> {
    handles: HashMap<u64, HandleData<F, D>>,
    next_id: u64,
}

impl<F, D> View for HandleStore<F, D> {
    type V = HandleTable<F, D>;

    closed spec fn view(&self) -> HandleTable<F, D> {
        HandleTable { open: self.handles@, next_id: self.next_id }
    }
}

impl<F, D> Default for HandleStore<F, D> {
    fn default() -> (s: Self)
        ensures
            s@ == (HandleTable { open: Map::<u64, HandleData<F, D>>::empty(), next_id: 1 }),
    {
        Self::new()
    }
}

impl<F, D> HandleStore<F, D> {
    pub fn new() -> (s: Self)
        ensures
            s@ == (HandleTable { open: Map::<u64, HandleData<F, D>>::empty(), next_id: 1 }),
            s@.wf(),
    {
        HandleStore { handles: HashMap::new(), next_id: 1 }
    }

    /// Opens a handle for `data` and gives its number.
    pub fn insert(&mut self, data: HandleData<F, D>) -> (id: u64)
        ensures
            id == old(self)@.next_id,
            final(self)@ == old(self)@.inserted(data),
    {
        let id: u64 = self.next_id;
        self.next_id = id.wrapping_add(1);
        self.handles.insert(id, data);
        id
    }

    /// Closes the handle `id` and gives what it stood for.
    pub fn remove(&mut self, id: u64) -> (r: FsResult<HandleData<F, D>>)
        ensures
            old(self)@.open.contains_key(id) ==> r == Ok::<_, FsError>(old(self)@.open[id]),
            !old(self)@.open.contains_key(id) ==> r == Err::<HandleData<F, D>, _>(
                FsError::UnknownHandle(id),
            ),
            final(self)@ == old(self)@.removed(id),
    {
        match self.handles.remove(&id) {
            Some(data) => Ok(data),
            None => {
                assert(self@.open =~= old(self)@.open.remove(id));
                Err(FsError::UnknownHandle(id))
            },
        }
    }

    /// The descriptor of the open file `id`.
    pub fn file(&self, id: u64) -> (r: FsResult<&F>)
        ensures
            self@.file(id) matches Ok(fd) ==> r == Ok::<&F, FsError>(&fd),
            self@.file(id) matches Err(e) ==> r == Err::<&F, FsError>(e),
    {
        match self.handles.get(&id) {
            Some(HandleData::File(fd)) => Ok(fd),
            Some(HandleData::Dir(_)) => Err(
                FsError::InvalidArgument("handle is a directory, not a file"),
            ),
            None => Err(FsError::UnknownHandle(id)),
        }
    }

    /// The stream of the open directory `id`.
    pub fn dir(&self, id: u64) -> (r: FsResult<&D>)
        ensures
            self@.dir(id) matches Ok(dir) ==> r == Ok::<&D, FsError>(&dir),
            self@.dir(id) matches Err(e) ==> r == Err::<&D, FsError>(e),
    {
        match self.handles.get(&id) {
            Some(HandleData::Dir(dir)) => Ok(dir),
            Some(HandleData::File(_)) => Err(
                FsError::InvalidArgument("handle is a file, not a directory"),
            ),
            None => Err(FsError::UnknownHandle(id)),
        }
    }

    /// Runs `f` on the descriptor of the open file `id`.
    pub fn with_file<R, G: FnOnce(&F) -> FsResult<R>>(&self, id: u64, f: G) -> (r: FsResult<R>)
        requires
            self@.file(id) matches Ok(fd) ==> f.requires((&fd,)),
        ensures
            self@.file(id) matches Ok(fd) ==> f.ensures((&fd,), r),
            self@.file(id) matches Err(e) ==> r == Err::<R, FsError>(e),
    {
        match self.file(id) {
            Ok(fd) => f(fd),
            Err(e) => Err(e),
        }
    }

    /// Runs `f` on the stream of the open directory `id`.
    pub fn with_dir<R, G: FnOnce(&D) -> FsResult<R>>(&self, id: u64, f: G) -> (r: FsResult<R>)
        requires
            self@.dir(id) matches Ok(dir) ==> f.requires((&dir,)),
        ensures
            self@.dir(id) matches Ok(dir) ==> f.ensures((&dir,), r),
            self@.dir(id) matches Err(e) ==> r == Err::<R, FsError>(e),
    {
        match self.dir(id) {
            Ok(dir) => f(dir),
            Err(e) => Err(e),
        }
    }

    /// How many handles are open.
    pub fn len(&self) -> (n: usize)
        ensures
            self@.open.dom().finite(),
            n == self@.open.len(),
    {
        self.handles.len()
    }
}

/// A handle number is not in use when it is given out, and the handle is then
/// the only one that changed; closing it gives back the data and restores the
/// other handles. This holds until the numbers wrap around.
pub proof fn law_handle_numbers_are_fresh<F, D>(table: HandleTable<F, D>, data: HandleData<F, D>)
    requires
        table.wf(),
        table.next_id < u64::MAX,
    ensures
        !table.open.contains_key(table.next_id),
        table.inserted(data).wf(),
        table.inserted(data).open[table.next_id] == data,
        forall|id: u64|
            id != table.next_id ==> (#[trigger] table.inserted(data).open.contains_key(id)
                == table.open.contains_key(id)) && (table.open.contains_key(id)
                ==> table.inserted(data).open[id] == table.open[id]),
        table.inserted(data).removed(table.next_id).open == table.open,
        table.inserted(data).removed(table.next_id).wf(),
{
    assert(table.inserted(data).removed(table.next_id).open =~= table.open);
}

} // verus!
