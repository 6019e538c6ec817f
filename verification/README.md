# riftlessfs

A userspace virtio-fs back-end. It shares a directory of the host with a guest:
the guest's FUSE requests come in over vhost-user, and are served by system
calls on the shared directory.

What the back-end decides is in a library that is verified with Verus. The
library makes no system call itself: an operation gives the call it needs, as a
plain value, together with what is left to do, and is handed the outcome. The
program around the library makes the calls, polls, and maps memory.

## Layout

- `src/engine/` is the passthrough engine: the tables of inodes and open
  handles, and for every operation the system calls that serve it.
- `src/fuse/` is the FUSE protocol: byte layouts (`bytes.rs`, `wire.rs`), what a
  request asks for (`request.rs`), the session that serves it (`dispatch.rs`),
  and the errno numbers that go on the wire (`linux_errno.rs`).
- `src/vhost_user/` is the vhost-user protocol: headers and payloads, how
  messages are cut and put together again (`connection.rs`), guest memory,
  virtqueues, and the back-end that ties them together (`server.rs`).
- `src/le.rs` has little-endian integers, `src/doorbell.rs` what to do with a
  descriptor that signals, and `src/host.rs` the host's errno numbers: a table
  with a place for each error. Which number an error has is up to the host. That
  the number at a place is the one of that place's error rests on the order of a
  list of `libc` constants, which is not verified, and on a test that goes
  through the whole list on the host it runs on (`tests/errno.rs`).
- `tests/` runs the library, with a filesystem in memory in place of the host.
- `app/` is the daemon.

## What is proved

Every function states what it returns and what it changes, over plain values:
the tables as maps, messages and memory as byte sequences. The public proof
functions whose names begin with `law_` state what holds across functions, for
instance:

- no file has two inode ids, and a forget takes back exactly what lookups gave
  (`engine/inode.rs`);
- an operation calls only on directories, inodes and handles that the engine
  holds (`engine/passthrough.rs`);
- the pages of a directory listing join without a gap or a repetition, and a
  listing is a snapshot (`fuse/dispatch.rs`);
- of the requests that have a header, only forgets get no reply
  (`fuse/dispatch.rs`);
- a message survives being cut into pieces anywhere (`vhost_user/connection.rs`);
- every error on the wire is one that Linux defines, whatever the host calls it,
  and the one of the same name if the host's table passes `is_wf`, that is, if
  errors with different Linux numbers have different numbers in it
  (`fuse/linux_errno.rs`);
- no single read or write is larger than what is advertised (`fuse/dispatch.rs`);
- each published chain is taken once, in order, a reply reaches the guest, whole
  if it fits and otherwise as far as its buffers take it, and draining a vring
  serves every request on it, also when replies are cut short
  (`vhost_user/virtqueue.rs`, `vhost_user/server.rs`).
