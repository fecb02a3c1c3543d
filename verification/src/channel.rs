use crate::error::{Error, ErrorKind};
use crate::traits::{spec_checked, spec_same_verdict, write_bytes, splice, FlatUnsized, Portable};
use core::marker::PhantomData;
use vstd::prelude::*;
use vstd::slice::slice_subrange;

verus! {

/// What the reader does once it has tried to take a message from what it has received, given
/// the outcome: hand the message over (`Some(Ok)`), report an error (`Some(Err)`), or receive
/// more bytes (`None`). A message cut short waits for more bytes unless the buffer has no room
/// left for them, in which case it cannot fit the buffer.
pub open spec fn spec_next_message(
    message: Result<(), Error>,
    extendable_len: nat,
    occupied_len: nat,
) -> Option<Result<(), Error>> {
    match message {
        Ok(()) => Some(Ok(())),
        Err(e) => if e.kind == ErrorKind::InsufficientSize {
            if extendable_len == 0 {
                Some(Err(Error { kind: ErrorKind::InsufficientSize, pos: occupied_len as usize }))
            } else {
                None
            }
        } else {
            Some(Err(e))
        },
    }
}

/// What the reader does given the outcome of taking a message; see [`spec_next_message`].
pub fn next_message_of(message: Result<(), Error>, extendable_len: usize, occupied_len: usize) -> (r:
    Option<Result<(), Error>>)
    ensures
        r == spec_next_message(message, extendable_len as nat, occupied_len as nat),
{
    match message {
        Ok(()) => Some(Ok(())),
        Err(e) => {
            if e.kind == ErrorKind::InsufficientSize {
                if extendable_len == 0 {
                    Some(Err(Error { kind: ErrorKind::InsufficientSize, pos: occupied_len }))
                } else {
                    None
                }
            } else {
                Some(Err(e))
            }
        },
    }
}

/// Buffer of received bytes: those before the window were consumed, those in it (occupied)
/// wait to be read as messages of type `M`, those after it (vacant) are free for more.
///
/// Messages are portable, aligned to a byte, so that they can be read wherever the waiting
/// bytes start.
pub struct MessageBuffer<M: Portable> {
    buffer: Vec<u8>,
    start: usize,
    end: usize,
    _phantom: PhantomData<M>,
}

impl<M: Portable> MessageBuffer<M> {
    /// All bytes of the buffer.
    pub closed spec fn spec_buffer(&self) -> Seq<u8> {
        self.buffer@
    }

    /// Start of the window.
    pub closed spec fn spec_start(&self) -> nat {
        self.start as nat
    }

    /// End of the window.
    pub closed spec fn spec_end(&self) -> nat {
        self.end as nat
    }

    /// The window lies in the buffer.
    pub open spec fn wf(&self) -> bool {
        &&& self.spec_start() <= self.spec_end() <= self.spec_buffer().len() <= isize::MAX
    }

    /// The bytes that wait to be read.
    pub open spec fn spec_occupied(&self) -> Seq<u8> {
        self.spec_buffer().subrange(self.spec_start() as int, self.spec_end() as int)
    }

    /// Empty buffer of `capacity` zeroed bytes.
    pub fn new(capacity: usize) -> (r: Self)
        requires
            capacity <= isize::MAX,
        ensures
            r.wf(),
            r.spec_buffer() == Seq::new(capacity as nat, |i: int| 0u8),
            r.spec_start() == 0,
            r.spec_end() == 0,
    {
        let mut buffer: Vec<u8> = Vec::new();
        let mut i: usize = 0;
        while i < capacity
            invariant
                i <= capacity,
                buffer@ == Seq::new(i as nat, |j: int| 0u8),
            decreases capacity - i,
        {
            buffer.push(0u8);
            i = i + 1;
            assert(buffer@ =~= Seq::new(i as nat, |j: int| 0u8));
        }
        MessageBuffer { buffer, start: 0, end: 0, _phantom: PhantomData }
    }

    /// Size of the buffer.
    pub fn capacity(&self) -> (r: usize)
        ensures
            r == self.spec_buffer().len(),
    {
        self.buffer.len()
    }

    /// Number of consumed bytes before the window.
    pub fn preceding_len(&self) -> (r: usize)
        ensures
            r == self.spec_start(),
    {
        self.start
    }

    /// Number of bytes that wait to be read.
    pub fn occupied_len(&self) -> (r: usize)
        requires
            self.wf(),
        ensures
            r == self.spec_end() - self.spec_start(),
    {
        self.end - self.start
    }

    /// Number of free bytes after the window.
    pub fn vacant_len(&self) -> (r: usize)
        requires
            self.wf(),
        ensures
            r == self.spec_buffer().len() - self.spec_end(),
    {
        self.buffer.len() - self.end
    }

    /// Number of bytes that can still be received: the free ones and the consumed ones.
    pub fn extendable_len(&self) -> (r: usize)
        requires
            self.wf(),
        ensures
            r == self.spec_start() + self.spec_buffer().len() - self.spec_end(),
    {
        self.preceding_len() + self.vacant_len()
    }

    /// The bytes that wait to be read.
    pub fn occupied(&self) -> (r: &[u8])
        requires
            self.wf(),
        ensures
            r@ == self.spec_occupied(),
    {
        slice_subrange(self.buffer.as_slice(), self.start, self.end)
    }

    /// Consume the first `count` waiting bytes; an emptied window goes back to the start.
    pub fn skip_occupied(&mut self, count: usize)
        requires
            old(self).wf(),
            old(self).spec_start() + count <= old(self).spec_end(),
        ensures
            final(self).wf(),
            final(self).spec_buffer() == old(self).spec_buffer(),
            final(self).spec_occupied() == old(self).spec_occupied().skip(count as int),
            final(self).spec_occupied().len() == 0 ==> final(self).spec_start() == 0
                && final(self).spec_end() == 0,
            final(self).spec_occupied().len() > 0 ==> final(self).spec_start() == old(
                self,
            ).spec_start() + count && final(self).spec_end() == old(self).spec_end(),
    {
        self.start = self.start + count;
        if self.start == self.end {
            self.start = 0;
            self.end = 0;
        }
        assert(self.spec_occupied() =~= old(self).spec_occupied().skip(count as int));
    }

    /// Mark the first `count` free bytes as received.
    pub fn take_vacant(&mut self, count: usize)
        requires
            old(self).wf(),
            old(self).spec_end() + count <= old(self).spec_buffer().len(),
        ensures
            final(self).wf(),
            final(self).spec_buffer() == old(self).spec_buffer(),
            final(self).spec_start() == old(self).spec_start(),
            final(self).spec_end() == old(self).spec_end() + count,
    {
        self.end = self.end + count;
    }

    /// Write the received bytes `src` into the free bytes and mark them as received.
    pub fn fill_vacant(&mut self, src: &[u8])
        requires
            old(self).wf(),
            old(self).spec_end() + src@.len() <= old(self).spec_buffer().len(),
        ensures
            final(self).wf(),
            final(self).spec_start() == old(self).spec_start(),
            final(self).spec_end() == old(self).spec_end() + src@.len(),
            final(self).spec_occupied() == old(self).spec_occupied() + src@,
    {
        let ghost old_buf = self.buffer@;
        write_bytes(&mut self.buffer, self.end, src);
        self.take_vacant(src.len());
        assert(self.spec_occupied() =~= old(self).spec_occupied() + src@);
    }

    /// Move the waiting bytes to the start of the buffer to make room for more; `false`
    /// (and nothing changed) when they already start there.
    pub fn try_extend_vacant(&mut self) -> (r: bool)
        requires
            old(self).wf(),
        ensures
            final(self).wf(),
            r == (old(self).spec_start() > 0),
            final(self).spec_occupied() == old(self).spec_occupied(),
            final(self).spec_buffer().len() == old(self).spec_buffer().len(),
            r ==> final(self).spec_start() == 0,
            !r ==> *final(self) == *old(self),
    {
        if self.start > 0 {
            let n = self.end - self.start;
            let ghost old_buf = self.buffer@;
            let s = self.start;
            let mut i: usize = 0;
            while i < n
                invariant
                    self.start == s,
                    0 < s,
                    s + n <= old_buf.len() <= isize::MAX,
                    self.buffer@.len() == old_buf.len(),
                    i <= n,
                    forall|j: int| 0 <= j < i ==> self.buffer@[j] == old_buf[s + j],
                    forall|j: int| i <= j < old_buf.len() && j >= s ==> self.buffer@[j] == old_buf[j],
                decreases n - i,
            {
                let b = self.buffer[s + i];
                self.buffer.set(i, b);
                i = i + 1;
            }
            self.start = 0;
            self.end = n;
            assert(self.spec_occupied() =~= old(self).spec_occupied());
            true
        } else {
            false
        }
    }

    /// What taking a message from the waiting bytes gives: too short for the smallest
    /// message, or what validating them gives.
    pub open spec fn spec_message(&self) -> Result<(), Error> {
        spec_checked(self.spec_occupied().len(), M::spec_min_size(), M::spec_validate(self.spec_occupied()))
    }

    /// The message that the waiting bytes start with.
    pub fn message(&self) -> (r: Result<M, Error>)
        requires
            self.wf(),
        ensures
            spec_same_verdict(r, self.spec_message()),
            r matches Ok(m) ==> m.wf() && m.spec_mem() == self.spec_occupied().take(
                M::spec_mem_len(self.spec_occupied().len()) as int,
            ),
    {
        let _ = M::align();
        proof {
            M::lemma_portable_align();
        }
        M::from_bytes(self.occupied())
    }

    /// Hand over the message that the waiting bytes start with, consuming the bytes it
    /// occupies; on an error nothing changes.
    pub fn take_message(&mut self) -> (r: Result<M, Error>)
        requires
            old(self).wf(),
        ensures
            final(self).wf(),
            final(self).spec_buffer() == old(self).spec_buffer(),
            spec_same_verdict(r, old(self).spec_message()),
            r is Err ==> *final(self) == *old(self),
            r matches Ok(m) ==> {
                let occ = old(self).spec_occupied();
                &&& m.wf()
                &&& m.spec_mem() == occ.take(M::spec_mem_len(occ.len()) as int)
                &&& M::spec_size(occ) <= occ.len()
                &&& final(self).spec_occupied() == occ.skip(M::spec_size(occ) as int)
            },
    {
        let ghost occ = self.spec_occupied();
        let message = self.message()?;
        proof {
            message.lemma_wf();
            M::lemma_mem_len(occ);
            M::lemma_valid_size(message.spec_mem());
        }
        let size = message.size();
        self.skip_occupied(size);
        Ok(message)
    }

    /// Whether a message can be handed over, an error reported, or more bytes are needed:
    /// [`spec_next_message`] of what taking a message gives.
    pub fn next_message(&self) -> (r: Option<Result<(), Error>>)
        requires
            self.wf(),
        ensures
            r == spec_next_message(
                self.spec_message(),
                (self.spec_start() + self.spec_buffer().len() - self.spec_end()) as nat,
                self.spec_occupied().len(),
            ),
    {
        let _ = M::align();
        proof {
            M::lemma_portable_align();
        }
        let message = M::validate(self.occupied());
        next_message_of(message, self.extendable_len(), self.occupied_len())
    }

    /// The reader's decision before it receives more bytes: the outcome of
    /// [`MessageBuffer::next_message`] when there is one; otherwise the buffer makes room at
    /// its end, so that there are free bytes to receive into.
    pub fn read_step(&mut self) -> (r: Option<Result<(), Error>>)
        requires
            old(self).wf(),
        ensures
            final(self).wf(),
            final(self).spec_occupied() == old(self).spec_occupied(),
            final(self).spec_buffer().len() == old(self).spec_buffer().len(),
            r is Some ==> *final(self) == *old(self),
            r is None ==> final(self).spec_end() < final(self).spec_buffer().len(),
            r == spec_next_message(
                old(self).spec_message(),
                (old(self).spec_start() + old(self).spec_buffer().len() - old(self).spec_end()) as nat,
                old(self).spec_occupied().len(),
            ),
    {
        let r = self.next_message();
        if r.is_none() && self.vacant_len() == 0 {
            self.try_extend_vacant();
        }
        r
    }
}

/// The bytes of a message that a writer sends: those the message uses.
pub fn message_bytes<M: FlatUnsized>(m: &M) -> (r: Vec<u8>)
    requires
        m.wf(),
    ensures
        r@ == m.spec_mem().take(M::spec_size(m.spec_mem()) as int),
{
    proof {
        m.lemma_wf();
        M::lemma_valid_size(m.spec_mem());
    }
    let b = m.as_bytes();
    let n = m.size();
    let r = vstd::slice::slice_to_vec(slice_subrange(b.as_slice(), 0, n));
    assert(r@ =~= m.spec_mem().take(n as int));
    r
}

} // verus!
