//! Draining a doorbell.
use riftlessfs::doorbell::{consume_step, drain_again, Drain, ReadOutcome, DRAIN_CAPACITY};

/// A doorbell in memory, which counts the bytes that were written to it.
struct Bell {
    pending: usize,
}

impl Bell {
    fn read(&mut self) -> ReadOutcome {
        if self.pending == 0 {
            return ReadOutcome::WouldBlock;
        }
        let n = self.pending.min(DRAIN_CAPACITY);
        self.pending -= n;
        ReadOutcome::Bytes(n)
    }

    fn consume(&mut self) -> Result<bool, i32> {
        let mut any = false;
        loop {
            match consume_step(any, self.read(), DRAIN_CAPACITY) {
                Drain::Again => any = true,
                Drain::Finished(any) => return Ok(any),
                Drain::Failed { errno } => return Err(errno),
            }
        }
    }
}

#[test]
fn notify_then_consume() {
    let mut d = Bell { pending: 0 };
    assert!(!d.consume().unwrap());
    d.pending += 1;
    d.pending += 1;
    assert!(d.consume().unwrap());
    // Fully drained now.
    assert!(!d.consume().unwrap());
}

#[test]
fn a_full_buffer_is_read_again() {
    let mut d = Bell { pending: 256 };
    assert!(d.consume().unwrap());
    assert_eq!(d.pending, 0);
    let mut d = Bell { pending: 700 };
    assert!(d.consume().unwrap());
    assert_eq!(d.pending, 0);
}

#[test]
fn outcomes_of_a_read() {
    assert_eq!(
        consume_step(true, ReadOutcome::Bytes(0), 256),
        Drain::Finished(true)
    );
    assert_eq!(
        consume_step(false, ReadOutcome::Bytes(0), 256),
        Drain::Finished(false)
    );
    assert_eq!(
        consume_step(true, ReadOutcome::Failed { errno: 9 }, 256),
        Drain::Failed { errno: 9 }
    );
    assert!(drain_again(ReadOutcome::Bytes(256), 256));
    assert!(!drain_again(ReadOutcome::Bytes(255), 256));
    assert!(!drain_again(ReadOutcome::Bytes(0), 256));
    assert!(!drain_again(ReadOutcome::WouldBlock, 256));
    assert!(!drain_again(ReadOutcome::Failed { errno: 9 }, 256));
}
