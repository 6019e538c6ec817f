//! Draining a doorbell: a descriptor that is written to by whoever wants to be
//! noticed, and read by whoever wants to notice, be it an eventfd or a pipe.
use vstd::prelude::*;

verus! {

/// How many bytes one read of a doorbell takes at most.
pub const DRAIN_CAPACITY: usize = 256;

/// What a non-blocking read of a doorbell gave.
#[derive(Debug, Clone, Copy, PartialEq, Eq, Structural)]
pub enum ReadOutcome {
    /// This many bytes; zero at the end of a stream.
    Bytes(usize),
    /// There is nothing to read.
    WouldBlock,
    /// It failed, with this errno.
    Failed { errno: i32 },
}

/// What to do after a read.
#[derive(Debug, Clone, Copy, PartialEq, Eq, Structural)]
pub enum Drain {
    /// Read again: there may be more.
    Again,
    /// All is read. Says whether there was anything.
    Finished(bool),
    /// Give up, with this errno.
    Failed { errno: i32 },
}

/// What to do after a read, when it matters whether there was anything.
pub open spec fn after_read(any: bool, outcome: ReadOutcome, capacity: usize) -> Drain {
    match outcome {
        ReadOutcome::Bytes(n) => if n > 0 && n == capacity {
            Drain::Again
        } else {
            Drain::Finished(any || n > 0)
        },
        ReadOutcome::WouldBlock => Drain::Finished(any),
        ReadOutcome::Failed { errno } => Drain::Failed { errno },
    }
}

/// Whether to read again when only emptying the doorbell matters.
pub open spec fn reads_on(outcome: ReadOutcome, capacity: usize) -> bool {
    outcome matches ReadOutcome::Bytes(n) && n > 0 && n >= capacity
}

/// What to do after a read, when it matters whether there was anything: `any`
/// says whether an earlier read had something (after `Again` one had). Only a
/// read that filled the buffer may have left something behind, and only a
/// failure other than having nothing to read is an error.
pub fn consume_step(any: bool, outcome: ReadOutcome, capacity: usize) -> (next: Drain)
    ensures
        next == match outcome {
            ReadOutcome::Bytes(n) => if n > 0 && n == capacity {
                Drain::Again
            } else {
                Drain::Finished(any || n > 0)
            },
            ReadOutcome::WouldBlock => Drain::Finished(any),
            ReadOutcome::Failed { errno } => Drain::Failed { errno },
        },
        next == after_read(any, outcome, capacity),
{
    match outcome {
        ReadOutcome::Bytes(n) => {
            if n > 0 && n == capacity {
                Drain::Again
            } else {
                Drain::Finished(any || n > 0)
            }
        },
        ReadOutcome::WouldBlock => Drain::Finished(any),
        ReadOutcome::Failed { errno } => Drain::Failed { errno },
    }
}

/// Whether to read again when only emptying the doorbell matters: after a read
/// that filled the buffer. A failure ends it like an empty doorbell.
pub fn drain_again(outcome: ReadOutcome, capacity: usize) -> (again: bool)
    ensures
        again == (outcome matches ReadOutcome::Bytes(n) && n > 0 && n >= capacity),
        again == reads_on(outcome, capacity),
{
    match outcome {
        ReadOutcome::Bytes(n) => n > 0 && n >= capacity,
        _ => false,
    }
}

/// What a read of a doorbell gives that has `n` bytes in it: as many as fit, or that there
/// is nothing to read.
pub open spec fn read_of(n: nat, capacity: usize) -> ReadOutcome {
    if n == 0 {
        ReadOutcome::WouldBlock
    } else if n < capacity {
        ReadOutcome::Bytes(n as usize)
    } else {
        ReadOutcome::Bytes(capacity)
    }
}

/// How a doorbell with `n` bytes in it is read, over and over, as long as it is to be read
/// again: how many bytes are left in it then, and what came of it.
pub open spec fn read_through(any: bool, n: nat, capacity: usize) -> (int, Drain)
    decreases n,
{
    let got = if n < capacity {
        n as int
    } else {
        capacity as int
    };
    let next = after_read(any, read_of(n, capacity), capacity);
    if next == Drain::Again && 0 < got <= n {
        read_through(true, (n - got) as nat, capacity)
    } else {
        (n - got, next)
    }
}

/// Reading a doorbell through empties it, however much is in it, and says whether there
/// was anything. An error ends it, and is told; a stream that has ended has nothing more.
pub proof fn law_doorbell_is_emptied(any: bool, n: nat, capacity: usize, errno: i32)
    requires
        capacity > 0,
    ensures
        read_through(any, n, capacity) == (0int, Drain::Finished(any || n > 0)),
        after_read(any, ReadOutcome::Failed { errno }, capacity) == (Drain::Failed { errno }),
        after_read(any, ReadOutcome::Bytes(0), capacity) == Drain::Finished(any),
    decreases n,
{
    if n >= capacity {
        law_doorbell_is_emptied(true, (n - capacity) as nat, capacity, errno);
    }
}

/// Where only emptying it matters, a doorbell is read again exactly if a read may have
/// left something in it, which is one that filled the buffer.
pub proof fn law_draining_goes_on_while_there_may_be_more(n: nat, capacity: usize, errno: i32)
    requires
        capacity > 0,
    ensures
        reads_on(read_of(n, capacity), capacity) <==> n >= capacity,
        !reads_on(ReadOutcome::WouldBlock, capacity),
        !reads_on(ReadOutcome::Bytes(0), capacity),
        !reads_on(ReadOutcome::Failed { errno }, capacity),
{
}

} // verus!
