//! Serving one FUSE request: decode it, run the engine's operation, encode the
//! reply.
//!
//! A [`Session`] holds the engine and, per directory handle, the listing that
//! the first `READDIR` on that handle gave. A later `READDIR` at another
//! offset, which comes when the listing does not fit in one reply, is served
//! from that listing, and not from the host's directory stream, which has
//! moved on.
use crate::engine::attr::SetAttr;
use crate::engine::call::{
    entries_view, After, DirEntry, FsOut, FsStep, HostResult, ResultView, Step, StepView, SysCall,
    SysResult, Task,
};
use crate::engine::error::{fs_errno, FsError};
use crate::engine::inode::{FileKind, InodeTable};
use crate::engine::passthrough::{listed, FsState, PassthroughFs};
use crate::fuse::linux_errno::{
    law_engine_errnos_become_linux, law_host_numbers_become_linux, linux_errno,
};
use crate::fuse::request::{
    decode, decoded, is_forget, readable, FuseRequest, Request, RequestView,
};
use crate::fuse::wire::{
    attr_out, attr_out_bytes, dirent_bytes, entry_bytes, entry_out, error_bytes, in_header,
    law_reply_reads_back, lemma_dirent_len, open_out, open_out_bytes, opcode_of, push_dirent,
    read_in, reply_bytes, request_body, round_up8, statfs_bytes, statfs_out, write_out,
    write_out_bytes, ForgetOne, InHeader, Opcode, OutHeader, DT_DIR, DT_LNK, DT_REG, DT_UNKNOWN,
    IN_HEADER_LEN, MAX_WRITE, OUT_HEADER_LEN,
};
use crate::host::HostErrnos;
use crate::le;
use crate::octets::append;
use std::collections::HashMap;
use vstd::prelude::*;

verus! {

broadcast use vstd::std_specs::hash::group_hash_axioms;

/// What a request is answered with.
pub enum Reply<B> {
    /// These bytes, header and all.
    Bytes(B),
    /// Nothing, not even a header: what the protocol wants for a forget.
    Nothing,
}

impl View for Reply<Vec<u8>> {
    type V = Reply<Seq<u8>>;

    open spec fn view(&self) -> Reply<Seq<u8>> {
        match *self {
            Reply::Bytes(b) => Reply::Bytes(b@),
            Reply::Nothing => Reply::Nothing,
        }
    }
}

/// What is left of a request once the call at hand has come back.
pub enum Pending<F, B> {
    /// The operation goes on, and its result is the answer.
    Answer { unique: u64, task: Task<F, B> },
    /// A directory is being listed, and a page of the listing is the answer.
    Listing { unique: u64, fh: u64, offset: u64, size: u32 },
}

impl<F> View for Pending<F, Vec<u8>> {
    type V = Pending<F, Seq<u8>>;

    open spec fn view(&self) -> Pending<F, Seq<u8>> {
        match *self {
            Pending::Answer { unique, task } => Pending::Answer { unique, task: task@ },
            Pending::Listing { unique, fh, offset, size } => Pending::Listing {
                unique,
                fh,
                offset,
                size,
            },
        }
    }
}

impl<F> Pending<F, Seq<u8>> {
    /// The engine's part of it.
    pub open spec fn task(self) -> Task<F, Seq<u8>> {
        match self {
            Pending::Answer { task, .. } => task,
            Pending::Listing { .. } => Task::Readdir,
        }
    }

    /// The request that it is of.
    pub open spec fn unique(self) -> u64 {
        match self {
            Pending::Answer { unique, .. } => unique,
            Pending::Listing { unique, .. } => unique,
        }
    }
}

/// How far a request has come: it is answered, or it needs a call.
pub enum Progress<F, B> {
    Reply(Reply<B>),
    Call(SysCall<F, B>, Pending<F, B>),
}

impl<F> View for Progress<F, Vec<u8>> {
    type V = Progress<F, Seq<u8>>;

    open spec fn view(&self) -> Progress<F, Seq<u8>> {
        match *self {
            Progress::Reply(reply) => Progress::Reply(reply@),
            Progress::Call(call, pending) => Progress::Call(call@, pending@),
        }
    }
}

/// The type of a directory entry on the wire.
pub open spec fn dt_of(kind: FileKind) -> u32 {
    match kind {
        FileKind::Dir => DT_DIR,
        FileKind::Regular => DT_REG,
        FileKind::Symlink => DT_LNK,
        FileKind::Other => DT_UNKNOWN,
    }
}

/// The `i`th entry of a listing on the wire; its offset is where the listing
/// goes on after it.
pub open spec fn entry_at(entries: Seq<DirEntry<Seq<u8>>>, i: int) -> Seq<u8> {
    dirent_bytes(entries[i].ino, (i + 1) as u64, dt_of(entries[i].kind), entries[i].name)
}

/// How many bytes the `i`th entry of a listing takes.
pub open spec fn entry_size(entries: Seq<DirEntry<Seq<u8>>>, i: int) -> nat {
    round_up8(24 + entries[i].name.len())
}

/// The entries from `i` on, as many as fit in `room` bytes.
pub open spec fn page(entries: Seq<DirEntry<Seq<u8>>>, i: int, room: int) -> Seq<u8>
    decreases entries.len() - i,
{
    if i >= entries.len() || entry_size(entries, i) > room {
        Seq::empty()
    } else {
        entry_at(entries, i) + page(entries, i + 1, room - entry_size(entries, i))
    }
}

/// The body that answers a request whose operation gave `out`. (A listing is
/// answered by [`page`] instead.)
pub open spec fn body_of(out: FsOut<Seq<u8>, Seq<DirEntry<Seq<u8>>>>) -> Seq<u8> {
    match out {
        FsOut::Unit => Seq::empty(),
        FsOut::Attr(attr) => attr_out_bytes(attr),
        FsOut::Entry { ino, attr } => entry_bytes(ino, attr),
        FsOut::Created { ino, handle, attr } => entry_bytes(ino, attr) + open_out_bytes(handle),
        FsOut::Handle(handle) => open_out_bytes(handle),
        FsOut::Bytes(b) => b,
        FsOut::Count(n) => write_out_bytes((n as int % 0x1_0000_0000) as u32),
        FsOut::Entries(_) => Seq::empty(),
        FsOut::Vfs(st) => statfs_bytes(st),
    }
}

/// A success.
pub open spec fn success<F>(unique: u64, body: Seq<u8>) -> Progress<F, Seq<u8>> {
    Progress::Reply(Reply::Bytes(reply_bytes(unique, 0, body)))
}

/// A failure.
pub open spec fn failure<F>(host: HostErrnos, unique: u64, e: FsError) -> Progress<F, Seq<u8>> {
    Progress::Reply(Reply::Bytes(error_bytes(host, unique, fs_errno(host, e))))
}

/// How far a request has come with a step of its operation.
pub open spec fn progress_of<F>(host: HostErrnos, unique: u64, step: StepView<F>) -> Progress<
    F,
    Seq<u8>,
> {
    match step {
        Step::Call(call, task) => Progress::Call(call, Pending::Answer { unique, task }),
        Step::Done(Ok(out)) => success(unique, body_of(out)),
        Step::Done(Err(e)) => failure(host, unique, e),
    }
}

/// The inode table after all these forgets, in order.
pub open spec fn all_forgotten<F>(table: InodeTable<F>, list: Seq<ForgetOne>) -> InodeTable<F>
    decreases list.len(),
{
    if list.len() == 0 {
        table
    } else {
        all_forgotten(table, list.drop_last()).forgotten(list.last().nodeid, list.last().nlookup)
    }
}

/// A session, as a value.
#[verifier::ext_equal]
pub struct SessionState<F, D> {
    pub fs: FsState<F, D>,
    /// The listing of each directory handle that was listed.
    pub listings: Map<u64, Seq<DirEntry<Seq<u8>>>>,
}

impl<F, D> SessionState<F, D> {
    /// What the host calls its errors.
    pub open spec fn host(self) -> HostErrnos {
        self.fs.platform.errnos
    }

    /// What a request makes of the session.
    pub open spec fn after(self, request: RequestView) -> Self {
        match request {
            Request::Forget(list) => SessionState {
                fs: FsState { inodes: all_forgotten(self.fs.inodes, list), ..self.fs },
                ..self
            },
            Request::Release { fh } => SessionState {
                fs: FsState { handles: self.fs.handles.removed(fh), ..self.fs },
                ..self
            },
            Request::Releasedir { fh } => SessionState {
                fs: FsState { handles: self.fs.handles.removed(fh), ..self.fs },
                listings: self.listings.remove(fh),
            },
            _ => self,
        }
    }

    /// The first step of a request's operation, for those that have one.
    pub open spec fn first_step(self, request: RequestView) -> StepView<F> {
        match request {
            Request::Lookup { parent, name } => self.fs.lookup(parent, name, After::Entry),
            Request::Getattr { ino } => self.fs.getattr(ino),
            Request::Setattr { ino, set } => self.fs.setattr(ino, set),
            Request::Readlink { ino } => self.fs.readlink(ino),
            Request::Symlink { parent, name, target } => self.fs.symlink(parent, name, target),
            Request::Mkdir { parent, name, mode } => self.fs.mkdir(parent, name, mode),
            Request::Unlink { parent, name } => self.fs.remove(parent, name, false),
            Request::Rmdir { parent, name } => self.fs.remove(parent, name, true),
            Request::Rename { parent, name, new_parent, new_name } => self.fs.rename(
                parent,
                name,
                new_parent,
                new_name,
            ),
            Request::Link { ino, new_parent, new_name } => self.fs.link(ino, new_parent, new_name),
            Request::Open { ino, flags } => self.fs.open(ino, flags),
            Request::Create { parent, name, flags, mode } => self.fs.create(
                parent,
                name,
                flags,
                mode,
            ),
            Request::Read { fh, offset, size } => self.fs.read(fh, offset, size as usize),
            Request::Write { fh, offset, data } => self.fs.write(fh, offset, data),
            Request::Fsync { fh } => self.fs.fsync(fh),
            Request::Opendir { ino } => self.fs.opendir(ino),
            Request::Readdir { fh, .. } => self.fs.readdir(fh),
            Request::Statfs { ino } => self.fs.statfs(ino),
            Request::Release { fh } | Request::Releasedir { fh } => match self.fs.released(fh) {
                Ok(_) => Step::Done(Ok(FsOut::Unit)),
                Err(e) => Step::Done(Err(e)),
            },
            Request::Answer(_) | Request::Refuse { .. } | Request::Forget(_) => Step::Done(
                Ok(FsOut::Unit),
            ),
        }
    }

    /// How far a request comes at first.
    pub open spec fn served(self, unique: u64, request: RequestView) -> Progress<F, Seq<u8>> {
        match request {
            Request::Answer(body) => success(unique, body),
            Request::Refuse { errno } => Progress::Reply(
                Reply::Bytes(error_bytes(self.host(), unique, errno)),
            ),
            Request::Forget(_) => Progress::Reply(Reply::Nothing),
            Request::Readdir { fh, offset, size } => if offset != 0 && self.listings.contains_key(
                fh,
            ) {
                success(unique, page(self.listings[fh], offset as int, size as int))
            } else {
                match self.first_step(request) {
                    Step::Call(call, _) => Progress::Call(
                        call,
                        Pending::Listing { unique, fh, offset, size },
                    ),
                    step => progress_of(self.host(), unique, step),
                }
            },
            _ => progress_of(self.host(), unique, self.first_step(request)),
        }
    }

    /// What a request, header and body, makes of the session, and how far it
    /// comes at first. One without a whole header gets no reply.
    pub open spec fn handled(self, request: Seq<u8>, now: (i64, u32)) -> (
        Self,
        Progress<F, Seq<u8>>,
    ) {
        if request.len() < IN_HEADER_LEN {
            (self, Progress::Reply(Reply::Nothing))
        } else {
            let header = in_header(request);
            let wants = decoded(
                self.host(),
                opcode_of(header.opcode),
                header.nodeid,
                request_body(request),
                now,
            );
            (self.after(wants), self.served(header.unique, wants))
        }
    }

    /// How far a request comes when its call gives `result`.
    pub open spec fn resumed(self, pending: Pending<F, Seq<u8>>, result: ResultView<F, D>) -> Progress<
        F,
        Seq<u8>,
    > {
        let step = self.fs.resumed(pending.task(), result).1;
        match (pending, step) {
            (
                Pending::Listing { unique, fh, offset, size },
                Step::Done(Ok(FsOut::Entries(entries))),
            ) => success(unique, page(entries, offset as int, size as int)),
            (Pending::Listing { unique, .. }, step) => progress_of(self.host(), unique, step),
            (Pending::Answer { unique, .. }, step) => progress_of(self.host(), unique, step),
        }
    }

    /// The listings when the call of `pending` gives `result`.
    pub open spec fn listings_after(
        self,
        pending: Pending<F, Seq<u8>>,
        result: ResultView<F, D>,
    ) -> Map<u64, Seq<DirEntry<Seq<u8>>>> {
        match (pending, self.fs.resumed(pending.task(), result).1) {
            (Pending::Listing { fh, .. }, Step::Done(Ok(FsOut::Entries(entries)))) =>
                self.listings.insert(fh, entries),
            _ => self.listings,
        }
    }
}

/// A client's session.
pub struct Session<F, D> {
    fs: PassthroughFs<F, D>,
    readdir_cache: HashMap<u64, Vec<DirEntry<Vec<u8>>>>,
}

impl<F, D> View for Session<F, D> {
    type V = SessionState<F, D>;

    closed spec fn view(&self) -> SessionState<F, D> {
        SessionState {
            fs: self.fs@,
            listings: self.readdir_cache@.map_values(
                |v: Vec<DirEntry<Vec<u8>>>| entries_view(v@),
            ),
        }
    }
}

/// The error reply for `e`.
pub fn errno_reply(host: &HostErrnos, unique: u64, e: FsError) -> (r: Reply<Vec<u8>>)
    ensures
        r@ == Reply::Bytes(error_bytes(*host, unique, fs_errno(*host, e))),
{
    Reply::Bytes(OutHeader::error_for(host, unique, e.errno(host)))
}

/// The success reply with this body.
pub fn ok_reply(unique: u64, body: Vec<u8>) -> (r: Reply<Vec<u8>>)
    ensures
        r@ == Reply::Bytes(reply_bytes(unique, 0, body@)),
{
    Reply::Bytes(OutHeader::reply(unique, 0, body.as_slice()))
}

/// The type of a directory entry on the wire.
pub fn dt_type(kind: FileKind) -> (r: u32)
    ensures
        r == dt_of(kind),
{
    match kind {
        FileKind::Dir => DT_DIR,
        FileKind::Regular => DT_REG,
        FileKind::Symlink => DT_LNK,
        FileKind::Other => DT_UNKNOWN,
    }
}

/// One page of a listing: the entries from `offset` on, as many as fit in
/// `size` bytes.
pub fn listing_page(entries: &[DirEntry<Vec<u8>>], offset: u64, size: u32) -> (r: Vec<u8>)
    ensures
        r@ == page(entries_view(entries@), offset as int, size as int),
{
    let ghost all = entries_view(entries@);
    let mut out: Vec<u8> = Vec::new();
    if offset >= entries.len() as u64 {
        return out;
    }
    let mut i: usize = offset as usize;
    let ghost whole = page(all, i as int, size as int);
    while i < entries.len()
        invariant
            i <= entries.len(),
            out@.len() <= size,
            all == entries_view(entries@),
            whole == page(all, offset as int, size as int),
            out@ + page(all, i as int, size - out@.len()) == whole,
        decreases entries.len() - i,
    {
        let entry = &entries[i];
        assert(all[i as int] == entry@);
        let ghost before = out@;
        let remaining: usize = size as usize - out.len();
        let fits: bool = push_dirent(
            &mut out,
            remaining,
            entry.ino,
            i as u64 + 1,
            dt_type(entry.kind),
            entry.name.as_slice(),
        );
        if !fits {
            assert(out@ + Seq::<u8>::empty() =~= out@);
            return out;
        }
        proof {
            lemma_dirent_len(entry.ino, (i + 1) as u64, dt_of(entry.kind), entry.name@);
            let rest = page(all, i + 1, remaining - entry_size(all, i as int));
            assert(before + entry_at(all, i as int) + rest =~= before + (entry_at(all, i as int)
                + rest));
        }
        i += 1;
    }
    assert(out@ + Seq::<u8>::empty() =~= out@);
    out
}

/// The body that answers a request whose operation gave `out`.
fn body_from(out: FsOut<Vec<u8>, Vec<DirEntry<Vec<u8>>>>) -> (r: Vec<u8>)
    ensures
        r@ == body_of(out@),
{
    match out {
        FsOut::Unit => Vec::new(),
        FsOut::Attr(attr) => attr_out(&attr),
        FsOut::Entry { ino, attr } => entry_out(ino, &attr),
        FsOut::Created { ino, handle, attr } => {
            let mut body = entry_out(ino, &attr);
            append(&mut body, open_out(handle).as_slice());
            body
        },
        FsOut::Handle(handle) => open_out(handle),
        FsOut::Bytes(b) => b,
        FsOut::Count(n) => write_out((n as u128 % 0x1_0000_0000) as u32),
        FsOut::Entries(_) => Vec::new(),
        FsOut::Vfs(st) => statfs_out(&st),
    }
}

/// How far a request has come with a step of its operation.
fn progress_from<F>(host: &HostErrnos, unique: u64, step: FsStep<F>) -> (r: Progress<F, Vec<u8>>)
    ensures
        r@ == progress_of(*host, unique, step@),
{
    match step {
        Step::Call(call, task) => Progress::Call(call, Pending::Answer { unique, task }),
        Step::Done(Ok(out)) => Progress::Reply(ok_reply(unique, body_from(out))),
        Step::Done(Err(e)) => Progress::Reply(errno_reply(host, unique, e)),
    }
}

impl<F, D> Session<F, D> {
    /// The engine's tables are well formed.
    pub closed spec fn wf(&self) -> bool {
        self.fs.wf()
    }

    /// What a well-formed session stands for is well formed.
    pub proof fn lemma_wf(&self)
        requires
            self.wf(),
        ensures
            self@.fs.inodes.wf(),
    {
        self.fs.lemma_wf();
    }

    pub fn new(fs: PassthroughFs<F, D>) -> (s: Self)
        requires
            fs.wf(),
        ensures
            s.wf(),
            s@ == (SessionState { fs: fs@, listings: Map::empty() }),
    {
        let s = Session { fs, readdir_cache: HashMap::new() };
        assert(s@.listings =~= Map::empty());
        s
    }

    /// The engine.
    pub fn fs(&self) -> (fs: &PassthroughFs<F, D>)
        ensures
            fs@ == self@.fs,
            self.wf() ==> fs.wf(),
    {
        &self.fs
    }

    /// Drops all these lookups, in order.
    fn forget_all(&mut self, list: &[ForgetOne])
        requires
            old(self).wf(),
        ensures
            final(self).wf(),
            final(self)@ == old(self)@.after(Request::Forget(list@)),
    {
        let ghost before = self@;
        let mut i: usize = 0;
        assert(list@.take(0) =~= Seq::empty());
        while i < list.len()
            invariant
                i <= list.len(),
                self.wf(),
                self@ == before.after(Request::Forget(list@.take(i as int))),
            decreases list.len() - i,
        {
            let ghost upto = list@.take(i as int + 1);
            assert(upto.drop_last() =~= list@.take(i as int));
            assert(upto.last() == list@[i as int]);
            self.fs.forget(list[i].nodeid, list[i].nlookup);
            i += 1;
        }
        assert(list@.take(i as int) =~= list@);
    }

    /// Serves a request that was decoded.
    fn serve(&mut self, unique: u64, request: FuseRequest) -> (r: Progress<F, Vec<u8>>)
        requires
            old(self).wf(),
        ensures
            final(self).wf(),
            final(self)@ == old(self)@.after(request@),
            r@ == old(self)@.served(unique, request@),
    {
        let step = match request {
            Request::Answer(body) => {
                return Progress::Reply(ok_reply(unique, body));
            },
            Request::Refuse { errno } => {
                return Progress::Reply(Reply::Bytes(OutHeader::error_for(self.fs.errnos(), unique, errno)));
            },
            Request::Forget(list) => {
                self.forget_all(list.as_slice());
                return Progress::Reply(Reply::Nothing);
            },
            Request::Readdir { fh, offset, size } => {
                if offset != 0 {
                    if let Some(entries) = self.readdir_cache.get(&fh) {
                        let body = listing_page(entries.as_slice(), offset, size);
                        return Progress::Reply(ok_reply(unique, body));
                    }
                }
                match self.fs.readdir(fh) {
                    Step::Call(call, _) => {
                        return Progress::Call(
                            call,
                            Pending::Listing { unique, fh, offset, size },
                        );
                    },
                    step => step,
                }
            },
            Request::Release { fh } => match self.fs.release(fh) {
                Ok(_) => Step::Done(Ok(FsOut::Unit)),
                Err(e) => Step::Done(Err(e)),
            },
            Request::Releasedir { fh } => {
                self.readdir_cache.remove(&fh);
                let released = self.fs.releasedir(fh);
                assert(self@.listings =~= old(self)@.listings.remove(fh));
                match released {
                    Ok(_) => Step::Done(Ok(FsOut::Unit)),
                    Err(e) => Step::Done(Err(e)),
                }
            },
            Request::Lookup { parent, name } => self.fs.lookup(parent, name.as_slice()),
            Request::Getattr { ino } => self.fs.getattr(ino),
            Request::Setattr { ino, set } => self.fs.setattr(ino, &set),
            Request::Readlink { ino } => self.fs.readlink(ino),
            Request::Symlink { parent, name, target } => self.fs.symlink(
                parent,
                name.as_slice(),
                target.as_slice(),
            ),
            Request::Mkdir { parent, name, mode } => self.fs.mkdir(parent, name.as_slice(), mode),
            Request::Unlink { parent, name } => self.fs.unlink(parent, name.as_slice()),
            Request::Rmdir { parent, name } => self.fs.rmdir(parent, name.as_slice()),
            Request::Rename { parent, name, new_parent, new_name } => self.fs.rename(
                parent,
                name.as_slice(),
                new_parent,
                new_name.as_slice(),
            ),
            Request::Link { ino, new_parent, new_name } => self.fs.link(
                ino,
                new_parent,
                new_name.as_slice(),
            ),
            Request::Open { ino, flags } => self.fs.open(ino, flags),
            Request::Create { parent, name, flags, mode } => self.fs.create(
                parent,
                name.as_slice(),
                flags,
                mode,
            ),
            Request::Read { fh, offset, size } => self.fs.read(fh, offset, size as usize),
            Request::Write { fh, offset, data } => self.fs.write(fh, offset, data.as_slice()),
            Request::Fsync { fh } => self.fs.fsync(fh),
            Request::Opendir { ino } => self.fs.opendir(ino),
            Request::Statfs { ino } => self.fs.statfs(ino),
        };
        progress_from(self.fs.errnos(), unique, step)
    }

    /// Serves one request: header and body, already gathered in one buffer.
    /// `now` is the present, in seconds and nanoseconds since the epoch. A
    /// request without a whole header gets no reply.
    pub fn handle(&mut self, request: &[u8], now: (i64, u32)) -> (r: Progress<F, Vec<u8>>)
        requires
            old(self).wf(),
        ensures
            final(self).wf(),
            final(self)@ == old(self)@.handled(request@, now).0,
            r@ == old(self)@.handled(request@, now).1,
            r@ == silence::<F>() <==> request@.len() < IN_HEADER_LEN || le::le32_at(request@, 4) == 2
                || le::le32_at(request@, 4) == 42,
    {
        proof {
            law_only_forgets_are_silent(self@, request@, now);
        }
        let header = match InHeader::from_bytes(request) {
            Ok(header) => header,
            Err(_) => {
                return Progress::Reply(Reply::Nothing);
            },
        };
        let body = InHeader::body(request);
        let wants = decode(
            self.fs.errnos(),
            Opcode::from(header.opcode),
            header.nodeid,
            body,
            now,
        );
        self.serve(header.unique, wants)
    }

    /// Goes on with a request: `result` is what its call gave.
    pub fn resume(&mut self, pending: Pending<F, Vec<u8>>, result: HostResult<F, D>) -> (r:
        Progress<F, Vec<u8>>)
        requires
            old(self).wf(),
            old(self)@.fs.inodes.next_id < u64::MAX,
        ensures
            final(self).wf(),
            r@ == old(self)@.resumed(pending@, result@),
            old(self)@.fs.becomes(pending@.task(), result@, final(self)@.fs),
            final(self)@.listings == old(self)@.listings_after(pending@, result@),
    {
        match pending {
            Pending::Answer { unique, task } => {
                let step = self.fs.resume(task, result);
                progress_from(self.fs.errnos(), unique, step)
            },
            Pending::Listing { unique, fh, offset, size } => {
                match self.fs.resume(Task::Readdir, result) {
                    Step::Done(Ok(FsOut::Entries(entries))) => {
                        let body = listing_page(entries.as_slice(), offset, size);
                        self.readdir_cache.insert(fh, entries);
                        assert(self@.listings =~= old(self)@.listings.insert(
                            fh,
                            entries_view(entries@),
                        ));
                        Progress::Reply(ok_reply(unique, body))
                    },
                    step => progress_from(self.fs.errnos(), unique, step),
                }
            },
        }
    }
}

/// Where a page that starts at `i` ends: at the first entry that does not fit.
pub open spec fn page_end(entries: Seq<DirEntry<Seq<u8>>>, i: int, room: int) -> int
    decreases entries.len() - i,
{
    if i >= entries.len() || entry_size(entries, i) > room {
        i
    } else {
        page_end(entries, i + 1, room - entry_size(entries, i))
    }
}

/// The entries from `i` to before `j`, on the wire.
pub open spec fn span(entries: Seq<DirEntry<Seq<u8>>>, i: int, j: int) -> Seq<u8>
    decreases j - i,
{
    if i >= j {
        Seq::empty()
    } else {
        entry_at(entries, i) + span(entries, i + 1, j)
    }
}

/// Whether `body` is the page of a listing from `i` on that was asked for with
/// room for `room` bytes: whole entries, in order, none left out, as many as
/// fit, each with its own inode number, type and name and with the offset at
/// which the listing goes on after it; and nothing from the end of the listing
/// on.
pub open spec fn is_page(entries: Seq<DirEntry<Seq<u8>>>, i: int, room: int, body: Seq<u8>) -> bool {
    let end = page_end(entries, i, room);
    &&& body == span(entries, i, end)
    &&& body.len() <= room
    &&& i <= entries.len() ==> i <= end <= entries.len()
    &&& end < entries.len() ==> body.len() + entry_size(entries, end) > room
    &&& i >= entries.len() ==> body == Seq::<u8>::empty()
}

/// A page is the run of whole entries from its offset on that fit, and makes
/// progress as long as there is room for one entry.
pub proof fn law_page_is_a_run_of_entries(entries: Seq<DirEntry<Seq<u8>>>, i: int, room: int)
    requires
        0 <= i,
        0 <= room,
    ensures
        is_page(entries, i, room, page(entries, i, room)),
        i < entries.len() && entry_size(entries, i) <= room ==> page_end(entries, i, room) > i,
    decreases entries.len() - i,
{
    if i < entries.len() && entry_size(entries, i) <= room {
        law_page_is_a_run_of_entries(entries, i + 1, room - entry_size(entries, i));
        lemma_dirent_len(
            entries[i].ino,
            (i + 1) as u64,
            dt_of(entries[i].kind),
            entries[i].name,
        );
    }
}

/// Runs of entries that follow each other join.
proof fn lemma_spans_join(entries: Seq<DirEntry<Seq<u8>>>, i: int, j: int, k: int)
    requires
        0 <= i <= j <= k <= entries.len(),
    ensures
        span(entries, i, j) + span(entries, j, k) == span(entries, i, k),
    decreases j - i,
{
    if i < j {
        lemma_spans_join(entries, i + 1, j, k);
        assert(entry_at(entries, i) + span(entries, i + 1, j) + span(entries, j, k) =~= entry_at(
            entries,
            i,
        ) + (span(entries, i + 1, j) + span(entries, j, k)));
    } else {
        assert(span(entries, i, j) + span(entries, j, k) =~= span(entries, j, k));
    }
}

/// Pages join: going on at the offset where a page ended gives the entries
/// that come next, with nothing skipped and nothing repeated, and with room
/// for at least the next entry it gets further, until the listing is through.
pub proof fn law_pages_join(entries: Seq<DirEntry<Seq<u8>>>, i: int, room: int, more: int)
    requires
        0 <= i <= entries.len(),
        0 <= room,
        0 <= more,
    ensures
        ({
            let end = page_end(entries, i, room);
            let next = page_end(entries, end, more);
            &&& page(entries, i, room) + page(entries, end, more) == span(entries, i, next)
            &&& end <= next <= entries.len()
            &&& end < entries.len() && entry_size(entries, end) <= more ==> end < next
            &&& end == entries.len() ==> page(entries, end, more) == Seq::<u8>::empty()
        }),
{
    let end = page_end(entries, i, room);
    law_page_is_a_run_of_entries(entries, i, room);
    law_page_is_a_run_of_entries(entries, end, more);
    lemma_spans_join(entries, i, end, page_end(entries, end, more));
}

/// The last entry of a page says where the next page starts.
pub proof fn law_last_entry_gives_next_offset(
    entries: Seq<DirEntry<Seq<u8>>>,
    i: int,
    j: int,
)
    requires
        0 <= i < j <= entries.len(),
        j <= u64::MAX,
        entries[j - 1].name.len() < 0x1_0000_0000,
    ensures
        span(entries, i, j) == span(entries, i, j - 1) + entry_at(entries, j - 1),
        le::le64_at(entry_at(entries, j - 1), 8) == j,
{
    lemma_spans_join(entries, i, j - 1, j);
    assert(span(entries, j - 1, j) =~= entry_at(entries, j - 1)) by {
        reveal_with_fuel(span, 2);
    }
    crate::fuse::wire::law_dirent_reads_back(
        entries[j - 1].ino,
        j as u64,
        dt_of(entries[j - 1].kind),
        entries[j - 1].name,
    );
}

/// A `READDIR` request (opcode 28) pages a snapshot. If it starts at the front,
/// or on a handle that was not listed yet, the open directory is listed once, and
/// that listing, without `.` and `..`, is kept; the reply is the page of it from
/// the offset that was asked for. If not, the reply is that page of the listing
/// that was kept, without a call, whatever has become of the directory.
pub proof fn law_readdir_pages_a_snapshot<F, D>(
    s: SessionState<F, D>,
    request: Seq<u8>,
    now: (i64, u32),
    then: SessionState<F, D>,
    es: Seq<DirEntry<Seq<u8>>>,
)
    requires
        request.len() >= IN_HEADER_LEN + 20,
        le::le32_at(request, 4) == 28,
    ensures
        ({
            let unique = in_header(request).unique;
            let r = read_in(request_body(request));
            let kept = r.offset != 0 && s.listings.contains_key(r.fh);
            let pending = Pending::Listing { unique, fh: r.fh, offset: r.offset, size: r.size };
            &&& kept ==> s.handled(request, now) == (
                s,
                success::<F>(
                    unique,
                    page(s.listings[r.fh], r.offset as int, r.size as int),
                ),
            )
            &&& kept ==> is_page(
                s.listings[r.fh],
                r.offset as int,
                r.size as int,
                page(s.listings[r.fh], r.offset as int, r.size as int),
            )
            &&& !kept && s.fs.handles.dir(r.fh) is Ok ==> {
                &&& s.handled(request, now) == (
                    s,
                    Progress::<F, Seq<u8>>::Call(SysCall::ReadDir { handle: r.fh }, pending),
                )
                &&& then.resumed(pending, SysResult::Entries(es)) == success::<F>(
                    unique,
                    page(listed(es), r.offset as int, r.size as int),
                )
                &&& then.listings_after(pending, SysResult::Entries(es)) == then.listings.insert(
                    r.fh,
                    listed(es),
                )
                &&& is_page(
                    listed(es),
                    r.offset as int,
                    r.size as int,
                    page(listed(es), r.offset as int, r.size as int),
                )
            }
        }),
{
    let r = read_in(request_body(request));
    law_page_is_a_run_of_entries(s.listings[r.fh], r.offset as int, r.size as int);
    law_page_is_a_run_of_entries(listed(es), r.offset as int, r.size as int);
}

/// A listing that is kept stays as it is, whatever is asked of the session and
/// whatever the host gives, until the handle is listed again or closed. When it
/// is closed, the listing goes.
pub proof fn law_listing_is_kept<F, D>(
    s: SessionState<F, D>,
    fh: u64,
    request: RequestView,
    pending: Pending<F, Seq<u8>>,
    result: ResultView<F, D>,
)
    requires
        s.listings.contains_key(fh),
    ensures
        request != (Request::<Seq<u8>, Seq<ForgetOne>>::Releasedir { fh }) ==> {
            &&& s.after(request).listings.contains_key(fh)
            &&& s.after(request).listings[fh] == s.listings[fh]
        },
        !(pending matches Pending::Listing { fh: other, .. } && other == fh) ==> {
            &&& s.listings_after(pending, result).contains_key(fh)
            &&& s.listings_after(pending, result)[fh] == s.listings[fh]
        },
        !s.after(Request::Releasedir { fh }).listings.contains_key(fh),
{
}

/// Whether a reply answers a request: it has the request's id, and either is a
/// success or tells of an error that Linux defines, and then has no body.
pub open spec fn is_reply_to(unique: u64, bytes: Seq<u8>) -> bool {
    exists|error: i32, body: Seq<u8>|
        bytes == #[trigger] reply_bytes(unique, error, body) && (error == 0 || (-133 <= error <= -1
            && bytes.len() == OUT_HEADER_LEN))
}

/// Whether a request has come to a reply that is for it, or waits for a call.
pub open spec fn answers<F>(unique: u64, progress: Progress<F, Seq<u8>>) -> bool {
    match progress {
        Progress::Reply(Reply::Bytes(bytes)) => is_reply_to(unique, bytes),
        Progress::Reply(Reply::Nothing) => false,
        Progress::Call(_, pending) => pending.unique() == unique,
    }
}

/// The silence that a forget is met with.
pub open spec fn silence<F>() -> Progress<F, Seq<u8>> {
    Progress::Reply(Reply::Nothing)
}

/// A request gets no reply exactly if it has no whole header, or if it is a
/// forget (opcode 2) or a batch of forgets (opcode 42), whatever its body is
/// like. Every other request gets a reply with its own id, at once or after the
/// calls it needs.
pub proof fn law_only_forgets_are_silent<F, D>(
    s: SessionState<F, D>,
    request: Seq<u8>,
    now: (i64, u32),
)
    ensures
        ({
            let silent = request.len() < IN_HEADER_LEN || le::le32_at(request, 4) == 2
                || le::le32_at(request, 4) == 42;
            let progress = s.handled(request, now).1;
            &&& progress == silence::<F>() <==> silent
            &&& !silent ==> answers(in_header(request).unique, progress)
        }),
{
    if request.len() >= IN_HEADER_LEN {
        let header = in_header(request);
        let opcode = opcode_of(header.opcode);
        let wants = decoded(s.host(), opcode, header.nodeid, request_body(request), now);
        assert(wants is Forget <==> is_forget(opcode));
        lemma_served_answers(s, header.unique, wants);
    }
}

/// A forget whose body cannot be read changes nothing.
pub proof fn law_unreadable_forgets_change_nothing<F, D>(
    s: SessionState<F, D>,
    request: Seq<u8>,
    now: (i64, u32),
)
    requires
        request.len() >= IN_HEADER_LEN,
        is_forget(opcode_of(in_header(request).opcode)),
        !readable(opcode_of(in_header(request).opcode), request_body(request)),
    ensures
        s.handled(request, now) == (s, silence::<F>()),
{
}

proof fn lemma_success_answers(unique: u64, body: Seq<u8>)
    ensures
        is_reply_to(unique, reply_bytes(unique, 0, body)),
{
}

proof fn lemma_error_answers(host: HostErrnos, unique: u64, host_errno: i32)
    ensures
        is_reply_to(unique, error_bytes(host, unique, host_errno)),
{
    law_host_numbers_become_linux(host, host_errno);
    let error = (-linux_errno(host, host_errno)) as i32;
    law_reply_reads_back(unique, error, Seq::empty());
    assert(error_bytes(host, unique, host_errno) == reply_bytes(unique, error, Seq::empty()));
}

proof fn lemma_served_answers<F, D>(s: SessionState<F, D>, unique: u64, request: RequestView)
    ensures
        request is Forget ==> s.served(unique, request) == silence::<F>(),
        !(request is Forget) ==> answers(unique, s.served(unique, request)),
{
    lemma_progress_answers::<F>(s.host(), unique, s.first_step(request));
    match request {
        Request::Answer(body) => {
            lemma_success_answers(unique, body);
        },
        Request::Refuse { errno } => {
            lemma_error_answers(s.host(), unique, errno);
        },
        Request::Readdir { fh, offset, size } => {
            lemma_success_answers(unique, page(s.listings[fh], offset as int, size as int));
        },
        _ => {},
    }
}

proof fn lemma_progress_answers<F>(host: HostErrnos, unique: u64, step: StepView<F>)
    ensures
        answers(unique, progress_of(host, unique, step)),
{
    match step {
        Step::Call(_, _) => {},
        Step::Done(Ok(out)) => {
            lemma_success_answers(unique, body_of(out));
        },
        Step::Done(Err(e)) => {
            lemma_error_answers(host, unique, fs_errno(host, e));
        },
    }
}

/// Whatever its calls give, a request goes on to a reply with its own id.
pub proof fn law_calls_lead_to_a_reply<F, D>(
    s: SessionState<F, D>,
    pending: Pending<F, Seq<u8>>,
    result: ResultView<F, D>,
)
    ensures
        answers(pending.unique(), s.resumed(pending, result)),
{
    let unique = pending.unique();
    let step = s.fs.resumed(pending.task(), result).1;
    lemma_progress_answers::<F>(s.host(), unique, step);
    if let Pending::Listing { offset, size, .. } = pending {
        if let Step::Done(Ok(FsOut::Entries(entries))) = step {
            lemma_success_answers(unique, page(entries, offset as int, size as int));
        }
    }
}

/// The refusal of a request with a Linux errno.
pub open spec fn refusal<F>(unique: u64, linux_errno: int) -> Progress<F, Seq<u8>> {
    Progress::Reply(Reply::Bytes(reply_bytes(unique, (-linux_errno) as i32, Seq::empty())))
}

/// What the engine's own errors are on the wire, whatever the host calls them:
/// `EBADF` is 9, `ENOSYS` 38, `EINVAL` 22, `ENAMETOOLONG` 36 and `EACCES` 13.
pub proof fn law_engine_errors_on_the_wire<F>(
    host: HostErrnos,
    unique: u64,
    id: u64,
    text: &'static str,
)
    requires
        host.wf(),
    ensures
        failure::<F>(host, unique, FsError::UnknownInode(id)) == refusal::<F>(unique, 9),
        failure::<F>(host, unique, FsError::UnknownHandle(id)) == refusal::<F>(unique, 9),
        failure::<F>(host, unique, FsError::Unsupported(text)) == refusal::<F>(unique, 38),
        failure::<F>(host, unique, FsError::InvalidArgument(text)) == refusal::<F>(unique, 22),
        failure::<F>(host, unique, FsError::NameTooLong) == refusal::<F>(unique, 36),
        failure::<F>(host, unique, FsError::PathEscape) == refusal::<F>(unique, 13),
{
    law_engine_errnos_become_linux(host);
}

/// A request for an inode that is not tracked, or on a handle that is not open,
/// is refused with Linux's `EBADF`.
pub proof fn law_unknown_ids_are_ebadf<F, D>(
    s: SessionState<F, D>,
    unique: u64,
    id: u64,
    set: SetAttr,
    flags: i32,
    offset: u64,
    size: u32,
    data: Seq<u8>,
)
    requires
        s.host().wf(),
    ensures
        !s.fs.inodes.tracks(id) ==> {
            &&& s.served(unique, Request::Lookup { parent: id, name: data }) == refusal::<F>(unique, 9)
            &&& s.served(unique, Request::Getattr { ino: id }) == refusal::<F>(unique, 9)
            &&& s.served(unique, Request::Setattr { ino: id, set }) == refusal::<F>(unique, 9)
            &&& s.served(unique, Request::Readlink { ino: id }) == refusal::<F>(unique, 9)
            &&& s.served(unique, Request::Open { ino: id, flags }) == refusal::<F>(unique, 9)
            &&& s.served(unique, Request::Opendir { ino: id }) == refusal::<F>(unique, 9)
            &&& s.served(unique, Request::Statfs { ino: id }) == refusal::<F>(unique, 9)
        },
        !s.fs.handles.open.contains_key(id) ==> {
            &&& s.served(unique, Request::Read { fh: id, offset, size }) == refusal::<F>(unique, 9)
            &&& s.served(unique, Request::Write { fh: id, offset, data }) == refusal::<F>(unique, 9)
            &&& s.served(unique, Request::Fsync { fh: id }) == refusal::<F>(unique, 9)
            &&& s.served(unique, Request::Release { fh: id }) == refusal::<F>(unique, 9)
            &&& s.served(unique, Request::Releasedir { fh: id }) == refusal::<F>(unique, 9)
        },
{
    law_engine_errors_on_the_wire::<F>(s.host(), unique, id, "");
}

/// A request that is not known, or that is about extended attributes, is
/// refused with Linux's `ENOSYS`, whatever the host calls it, and changes
/// nothing.
pub proof fn law_unknown_requests_are_enosys<F, D>(
    s: SessionState<F, D>,
    request: Seq<u8>,
    now: (i64, u32),
)
    requires
        s.host().wf(),
        request.len() >= IN_HEADER_LEN,
        ({
            let opcode = opcode_of(in_header(request).opcode);
            opcode is Unknown || opcode is Getxattr || opcode is Setxattr || opcode is Listxattr
                || opcode is Removexattr
        }),
    ensures
        s.handled(request, now) == (s, refusal::<F>(in_header(request).unique, 38)),
{
    law_engine_errnos_become_linux(s.host());
}

/// A request whose body cannot be read, other than a forget, is refused with
/// Linux's `EINVAL`, whatever the host calls it, and changes nothing.
pub proof fn law_unreadable_requests_are_einval<F, D>(
    s: SessionState<F, D>,
    request: Seq<u8>,
    now: (i64, u32),
)
    requires
        s.host().wf(),
        request.len() >= IN_HEADER_LEN,
        !is_forget(opcode_of(in_header(request).opcode)),
        !readable(opcode_of(in_header(request).opcode), request_body(request)),
    ensures
        s.handled(request, now) == (s, refusal::<F>(in_header(request).unique, 22)),
{
    law_engine_errnos_become_linux(s.host());
}

/// No single read or write is larger than what is advertised: a read request
/// asks the host for at most `MAX_WRITE` bytes and its reply has at most that
/// many, whatever the host gives, and a write request writes at most that many.
pub proof fn law_reads_and_writes_are_limited<F, D>(
    s: SessionState<F, D>,
    request: Seq<u8>,
    now: (i64, u32),
    later: SessionState<F, D>,
    result: ResultView<F, D>,
)
    requires
        request.len() >= IN_HEADER_LEN,
    ensures
        s.handled(request, now).1 matches Progress::Call(call, pending) ==> {
            &&& opcode_of(in_header(request).opcode) is Read ==> {
                &&& call matches SysCall::Read { len, .. } && len <= MAX_WRITE
                &&& later.resumed(pending, result) matches Progress::Reply(Reply::Bytes(bytes))
                &&& bytes.len() <= OUT_HEADER_LEN + MAX_WRITE
            }
            &&& opcode_of(in_header(request).opcode) is Write ==> {
                &&& call matches SysCall::Write { data, .. } && data.len() <= MAX_WRITE
            }
        },
{
    let header = in_header(request);
    let opcode = opcode_of(header.opcode);
    if opcode is Read {
        if let Progress::Call(call, pending) = s.handled(request, now).1 {
            let step = later.fs.resumed(pending.task(), result).1;
            if let Step::Done(Ok(out)) = step {
                law_reply_reads_back(pending.unique(), 0, body_of(out));
            }
            if let Step::Done(Err(e)) = step {
                law_reply_reads_back(
                    pending.unique(),
                    (-linux_errno(later.host(), fs_errno(later.host(), e))) as i32,
                    Seq::empty(),
                );
            }
        }
    }
}

/// Whatever a request asks and whatever its calls give, it makes no call on a
/// directory or inode that is not tracked, or on a handle that is not open for
/// it, or with a name that has a NUL in it.
pub proof fn law_requests_stay_confined<F, D>(
    s: SessionState<F, D>,
    unique: u64,
    request: RequestView,
    pending: Pending<F, Seq<u8>>,
    result: ResultView<F, D>,
    after: FsState<F, D>,
)
    requires
        s.fs.supports(pending.task()),
        s.fs.becomes(pending.task(), result, after),
    ensures
        s.served(unique, request) matches Progress::Call(call, next) ==> s.fs.confines(call)
            && s.fs.supports(next.task()),
        s.resumed(pending, result) matches Progress::Call(call, next) ==> after.confines(call)
            && after.supports(next.task()),
{
    assert(s.fs.confines_step(s.first_step(request)));
    crate::engine::passthrough::law_operations_stay_confined(s.fs, pending.task(), result, after);
}

} // verus!
