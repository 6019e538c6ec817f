//! A little-endian cursor over a byte slice, and a builder of byte vectors.
use crate::error::{ProtoError, ProtoResult};
use crate::le;
use crate::octets::append;
use vstd::prelude::*;
use vstd::slice::slice_subrange;

verus! {

/// The index of the first NUL byte of `s` at or after `from`, or the length
/// of `s` if there is none.
pub open spec fn nul_at(s: Seq<u8>, from: int) -> int
    decreases s.len() - from,
{
    if from >= s.len() || s[from] == 0 {
        from
    } else {
        nul_at(s, from + 1)
    }
}

/// The NUL-terminated string that starts at `from`, without its NUL.
pub open spec fn cstr_at(s: Seq<u8>, from: int) -> Seq<u8> {
    s.subrange(from, nul_at(s, from))
}

/// `nul_at` is what it says: nothing before it is NUL, and it is NUL unless
/// it is the end of the sequence.
pub proof fn lemma_nul_at(s: Seq<u8>, from: int)
    requires
        0 <= from <= s.len(),
    ensures
        from <= nul_at(s, from) <= s.len(),
        nul_at(s, from) < s.len() ==> s[nul_at(s, from)] == 0,
        forall|j: int| from <= j < nul_at(s, from) ==> s[j] != 0,
    decreases s.len() - from,
{
    if from < s.len() && s[from] != 0 {
        lemma_nul_at(s, from + 1);
    }
}

/// An index with a NUL, and no NUL between `from` and it, is `nul_at`.
pub proof fn lemma_nul_at_is(s: Seq<u8>, from: int, n: int)
    requires
        0 <= from <= n <= s.len(),
        n < s.len() ==> s[n] == 0,
        forall|j: int| from <= j < n ==> s[j] != 0,
    ensures
        nul_at(s, from) == n,
    decreases n - from,
{
    if from < n {
        lemma_nul_at_is(s, from + 1, n);
    }
}

/// Finds the first NUL byte at or after `from`.
pub(crate) fn find_nul(buf: &[u8], from: usize) -> (r: usize)
    requires
        from <= buf@.len(),
    ensures
        r == nul_at(buf@, from as int),
        from <= r <= buf@.len(),
{
    let mut i: usize = from;
    while i < buf.len() && buf[i] != 0
        invariant
            from <= i <= buf@.len(),
            nul_at(buf@, i as int) == nul_at(buf@, from as int),
        decreases buf@.len() - i,
    {
        i += 1;
    }
    i
}

/// A cursor that reads integers and strings off the front of a buffer.
pub struct Reader<'a> {
    buf: &'a [u8],
    pos: usize,
}

impl<'a> Reader<'a> {
    #[verifier::type_invariant]
    spec fn inv(&self) -> bool {
        self.pos <= self.buf@.len()
    }

    /// The whole buffer.
    pub closed spec fn data(&self) -> Seq<u8> {
        self.buf@
    }

    /// How much of the buffer has been consumed.
    pub closed spec fn pos(&self) -> nat {
        self.pos as nat
    }

    /// Whether `n` more bytes are left.
    pub open spec fn has(&self, n: int) -> bool {
        self.pos() + n <= self.data().len()
    }

    /// A reader of the same buffer, `n` bytes further on.
    pub open spec fn advanced(&self, after: Self, n: int) -> bool {
        &&& after.data() == self.data()
        &&& after.pos() == self.pos() + n
    }

    pub fn new(buf: &'a [u8]) -> (r: Self)
        ensures
            r.data() == buf@,
            r.pos() == 0,
            r.pos() <= r.data().len(),
    {
        Reader { buf, pos: 0 }
    }

    /// Takes the next `n` bytes.
    fn take(&mut self, n: usize) -> (r: ProtoResult<&'a [u8]>)
        ensures
            old(self).pos() <= old(self).data().len(),
            final(self).pos() <= final(self).data().len(),
            old(self).has(n as int) ==> {
                &&& r matches Ok(s)
                &&& s@ == old(self).data().subrange(
                    old(self).pos() as int,
                    old(self).pos() + n as int,
                )
                &&& old(self).advanced(*final(self), n as int)
            },
            !old(self).has(n as int) ==> r == Err::<&'a [u8], _>(ProtoError::Truncated)
                && old(self).advanced(*final(self), 0),
    {
        proof {
            use_type_invariant(&*self);
        }
        if n > self.buf.len() - self.pos {
            return Err(ProtoError::Truncated);
        }
        let end: usize = self.pos + n;
        let s = slice_subrange(self.buf, self.pos, end);
        self.pos = end;
        Ok(s)
    }

    pub fn u16(&mut self) -> (r: ProtoResult<u16>)
        ensures
            old(self).pos() <= old(self).data().len(),
            final(self).pos() <= final(self).data().len(),
            old(self).has(2) ==> r == Ok::<u16, ProtoError>(
                le::le16_at(old(self).data(), old(self).pos() as int),
            ) && old(self).advanced(*final(self), 2),
            !old(self).has(2) ==> r == Err::<u16, _>(ProtoError::Truncated)
                && old(self).advanced(*final(self), 0),
    {
        match self.take(2) {
            Ok(s) => Ok(le::read_u16_at(s, 0)),
            Err(e) => Err(e),
        }
    }

    pub fn u32(&mut self) -> (r: ProtoResult<u32>)
        ensures
            old(self).pos() <= old(self).data().len(),
            final(self).pos() <= final(self).data().len(),
            old(self).has(4) ==> r == Ok::<u32, ProtoError>(
                le::le32_at(old(self).data(), old(self).pos() as int),
            ) && old(self).advanced(*final(self), 4),
            !old(self).has(4) ==> r == Err::<u32, _>(ProtoError::Truncated)
                && old(self).advanced(*final(self), 0),
    {
        match self.take(4) {
            Ok(s) => Ok(le::read_u32_at(s, 0)),
            Err(e) => Err(e),
        }
    }

    pub fn i32(&mut self) -> (r: ProtoResult<i32>)
        ensures
            old(self).pos() <= old(self).data().len(),
            final(self).pos() <= final(self).data().len(),
            old(self).has(4) ==> r == Ok::<i32, ProtoError>(
                le::le_i32_at(old(self).data(), old(self).pos() as int),
            ) && old(self).advanced(*final(self), 4),
            !old(self).has(4) ==> r == Err::<i32, _>(ProtoError::Truncated)
                && old(self).advanced(*final(self), 0),
    {
        match self.take(4) {
            Ok(s) => Ok(le::to_signed32(le::read_u32_at(s, 0))),
            Err(e) => Err(e),
        }
    }

    pub fn u64(&mut self) -> (r: ProtoResult<u64>)
        ensures
            old(self).pos() <= old(self).data().len(),
            final(self).pos() <= final(self).data().len(),
            old(self).has(8) ==> r == Ok::<u64, ProtoError>(
                le::le64_at(old(self).data(), old(self).pos() as int),
            ) && old(self).advanced(*final(self), 8),
            !old(self).has(8) ==> r == Err::<u64, _>(ProtoError::Truncated)
                && old(self).advanced(*final(self), 0),
    {
        match self.take(8) {
            Ok(s) => Ok(le::read_u64_at(s, 0)),
            Err(e) => Err(e),
        }
    }

    pub fn skip(&mut self, n: usize) -> (r: ProtoResult<()>)
        ensures
            old(self).pos() <= old(self).data().len(),
            final(self).pos() <= final(self).data().len(),
            old(self).has(n as int) ==> r == Ok::<(), ProtoError>(())
                && old(self).advanced(*final(self), n as int),
            !old(self).has(n as int) ==> r == Err::<(), _>(ProtoError::Truncated)
                && old(self).advanced(*final(self), 0),
    {
        match self.take(n) {
            Ok(_) => Ok(()),
            Err(e) => Err(e),
        }
    }

    /// Everything not yet consumed.
    pub fn remaining(&self) -> (r: &'a [u8])
        ensures
            self.pos() <= self.data().len(),
            r@ == self.data().skip(self.pos() as int),
    {
        proof {
            use_type_invariant(&*self);
        }
        slice_subrange(self.buf, self.pos, self.buf.len())
    }

    /// Reads a single NUL-terminated string, returning it without the NUL
    /// and leaving the cursor just after it. With no NUL left, nothing is
    /// consumed.
    pub fn cstr(&mut self) -> (r: ProtoResult<&'a [u8]>)
        ensures
            final(self).pos() <= final(self).data().len(),
            old(self).pos() <= nul_at(old(self).data(), old(self).pos() as int)
                <= old(self).data().len(),
            nul_at(old(self).data(), old(self).pos() as int) < old(self).data().len() ==> {
                &&& r matches Ok(s)
                &&& s@ == cstr_at(old(self).data(), old(self).pos() as int)
                &&& final(self).data() == old(self).data()
                &&& final(self).pos() == nul_at(old(self).data(), old(self).pos() as int) + 1
            },
            nul_at(old(self).data(), old(self).pos() as int) == old(self).data().len() ==> r
                == Err::<&'a [u8], _>(ProtoError::Truncated) && old(self).advanced(*final(self), 0),
    {
        proof {
            use_type_invariant(&*self);
        }
        let nul: usize = find_nul(self.buf, self.pos);
        if nul == self.buf.len() {
            return Err(ProtoError::Truncated);
        }
        let s = slice_subrange(self.buf, self.pos, nul);
        self.pos = nul + 1;
        Ok(s)
    }
}

/// A byte vector that is built front to back.
pub struct Writer {
    buf: Vec<u8>,
}

impl View for Writer {
    type V = Seq<u8>;

    closed spec fn view(&self) -> Seq<u8> {
        self.buf@
    }
}

/// `s` with zeroes after it up to length `len`.
pub open spec fn padded(s: Seq<u8>, len: nat) -> Seq<u8> {
    if s.len() < len {
        s + zeroes((len - s.len()) as nat)
    } else {
        s
    }
}

/// `n` zero bytes.
pub open spec fn zeroes(n: nat) -> Seq<u8> {
    Seq::new(n, |i: int| 0u8)
}

/// Appends `n` zero bytes to `out`.
pub(crate) fn append_zeroes(out: &mut Vec<u8>, n: usize)
    ensures
        final(out)@ == old(out)@ + zeroes(n as nat),
{
    let mut i: usize = 0;
    while i < n
        invariant
            i <= n,
            out@ == old(out)@ + zeroes(i as nat),
        decreases n - i,
    {
        out.push(0);
        i += 1;
        assert(out@ =~= old(out)@ + zeroes(i as nat));
    }
    assert(out@ =~= old(out)@ + zeroes(n as nat));
}

impl Default for Writer {
    fn default() -> (w: Self)
        ensures
            w@ == Seq::<u8>::empty(),
    {
        Writer::new()
    }
}

impl Writer {
    pub fn new() -> (w: Self)
        ensures
            w@ == Seq::<u8>::empty(),
    {
        Writer { buf: Vec::new() }
    }

    pub fn u16(&mut self, v: u16) -> (r: &mut Self)
        ensures
            r@ == old(self)@ + le::u16_bytes(v),
            *final(r) == *final(self),
    {
        append(&mut self.buf, &le::u16_array(v));
        self
    }

    pub fn u32(&mut self, v: u32) -> (r: &mut Self)
        ensures
            r@ == old(self)@ + le::u32_bytes(v),
            *final(r) == *final(self),
    {
        append(&mut self.buf, &le::u32_array(v));
        self
    }

    pub fn i32(&mut self, v: i32) -> (r: &mut Self)
        ensures
            r@ == old(self)@ + le::i32_bytes(v),
            *final(r) == *final(self),
    {
        append(&mut self.buf, &le::u32_array(le::to_unsigned32(v)));
        self
    }

    pub fn u64(&mut self, v: u64) -> (r: &mut Self)
        ensures
            r@ == old(self)@ + le::u64_bytes(v),
            *final(r) == *final(self),
    {
        append(&mut self.buf, &le::u64_array(v));
        self
    }

    pub fn bytes(&mut self, b: &[u8]) -> (r: &mut Self)
        ensures
            r@ == old(self)@ + b@,
            *final(r) == *final(self),
    {
        append(&mut self.buf, b);
        self
    }

    /// Appends `s` and then a NUL.
    pub fn cstr(&mut self, s: &[u8]) -> (r: &mut Self)
        ensures
            r@ == old(self)@ + s@ + seq![0u8],
            *final(r) == *final(self),
    {
        append(&mut self.buf, s);
        self.buf.push(0);
        assert(self.buf@ =~= old(self)@ + s@ + seq![0u8]);
        self
    }

    /// Pads with zeroes up to `len` bytes in all; does nothing to what is
    /// that long already.
    pub fn pad_to(&mut self, len: usize) -> (r: &mut Self)
        ensures
            r@ == padded(old(self)@, len as nat),
            *final(r) == *final(self),
    {
        if self.buf.len() < len {
            let missing: usize = len - self.buf.len();
            append_zeroes(&mut self.buf, missing);
        }
        self
    }

    pub fn len(&self) -> (n: usize)
        ensures
            n == self@.len(),
    {
        self.buf.len()
    }

    pub fn is_empty(&self) -> (b: bool)
        ensures
            b == (self@.len() == 0),
    {
        self.buf.len() == 0
    }

    pub fn into_vec(self) -> (v: Vec<u8>)
        ensures
            v@ == self@,
    {
        self.buf
    }
}

/// What a writer wrote is what a reader at that position reads: an integer of
/// each width, and a string without a NUL inside it.
pub proof fn law_read_back(before: Seq<u8>, after: Seq<u8>, a: u16, b: u32, c: u64, d: i32, s: Seq<u8>)
    requires
        !s.contains(0),
    ensures
        le::le16_at(before + le::u16_bytes(a) + after, before.len() as int) == a,
        le::le32_at(before + le::u32_bytes(b) + after, before.len() as int) == b,
        le::le64_at(before + le::u64_bytes(c) + after, before.len() as int) == c,
        le::le_i32_at(before + le::i32_bytes(d) + after, before.len() as int) == d,
        nul_at(before + s + seq![0u8] + after, before.len() as int) == before.len() + s.len(),
        cstr_at(before + s + seq![0u8] + after, before.len() as int) == s,
{
    let n = before.len() as int;
    let w = before + le::u16_bytes(a) + after;
    le::law_u16_roundtrip(a);
    assert(w.subrange(n, n + 2) =~= le::u16_bytes(a));
    le::lemma_le_shift(w, n, n + 2, 0);
    let w = before + le::u32_bytes(b) + after;
    le::law_u32_roundtrip(b);
    assert(w.subrange(n, n + 4) =~= le::u32_bytes(b));
    le::lemma_le_shift(w, n, n + 4, 0);
    let w = before + le::u64_bytes(c) + after;
    le::law_u64_roundtrip(c);
    assert(w.subrange(n, n + 8) =~= le::u64_bytes(c));
    le::lemma_le_shift(w, n, n + 8, 0);
    let w = before + le::i32_bytes(d) + after;
    le::law_u32_roundtrip(le::unsigned32(d));
    assert(w.subrange(n, n + 4) =~= le::i32_bytes(d));
    le::lemma_le_shift(w, n, n + 4, 0);
    let w = before + s + seq![0u8] + after;
    assert forall|j: int| n <= j < n + s.len() implies w[j] != 0 by {
        assert(w[j] == s[j - n]);
        assert(s.contains(s[j - n]));
    }
    lemma_nul_at_is(w, n, n + s.len());
    assert(cstr_at(w, n) =~= s);
}

} // verus!
