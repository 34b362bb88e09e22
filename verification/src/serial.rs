//! The receive buffer between the serial interrupt and the node.

use vstd::prelude::*;

verus! {

/// The number of slots of the receive buffer. One slot always stays free,
/// so the buffer holds one byte less.
pub const RX_SZ: usize = 512;

/// A ring of received bytes: the interrupt pushes, the node reads.
///
/// A push into a full buffer wraps the write position onto the read
/// position: the buffer then counts as empty, and every byte that was
/// waiting is lost together with the new one.
pub struct Buffer {
    buffer: [u8; 512],
    write_idx: usize,
    read_idx: usize,
}

impl Buffer {
    /// What holds of every buffer: both positions lie inside the ring.
    pub closed spec fn wf(&self) -> bool {
        self.write_idx < RX_SZ && self.read_idx < RX_SZ
    }

    /// The bytes that wait in the buffer, oldest first.
    pub closed spec fn view(&self) -> Seq<u8> {
        Seq::new(
            ((self.write_idx + RX_SZ - self.read_idx) % (RX_SZ as int)) as nat,
            |i: int| self.buffer@[(self.read_idx + i) % (RX_SZ as int)],
        )
    }

    /// Fewer bytes wait in a buffer than it has slots.
    pub proof fn lemma_len(&self)
        requires
            self.wf(),
        ensures
            self@.len() < RX_SZ,
    {
    }

    /// An empty buffer.
    pub fn new() -> (b: Buffer)
        ensures
            b.wf(),
            b@ == Seq::<u8>::empty(),
    {
        let b = Buffer { buffer: [0u8; 512], write_idx: 0, read_idx: 0 };
        assert(b@ =~= Seq::<u8>::empty());
        b
    }

    /// Appends `data`. Where the buffer is full, it is empty afterwards.
    pub fn push(&mut self, data: u8)
        requires
            old(self).wf(),
        ensures
            final(self).wf(),
            final(self)@ == if old(self)@.len() < RX_SZ - 1 {
                old(self)@.push(data)
            } else {
                Seq::<u8>::empty()
            },
    {
        self.buffer[self.write_idx] = data;
        self.write_idx = (self.write_idx + 1) % RX_SZ;
        proof {
            let before = old(self)@;
            if before.len() < RX_SZ - 1 {
                assert(self@.len() == before.len() + 1);
                assert forall|i: int| 0 <= i < self@.len() implies self@[i] == before.push(
                    data,
                )[i] by {
                    let at = (old(self).read_idx + i) % (RX_SZ as int);
                    if i < before.len() {
                        assert(at != old(self).write_idx);
                    } else {
                        assert(at == old(self).write_idx);
                    }
                }
                assert(self@ =~= before.push(data));
            } else {
                assert(self@ =~= Seq::<u8>::empty());
            }
        }
    }

    /// Takes the oldest byte, if one waits.
    pub fn read(&mut self) -> (data: Option<u8>)
        requires
            old(self).wf(),
        ensures
            final(self).wf(),
            old(self)@.len() == 0 ==> data is None && final(self)@ == old(self)@,
            old(self)@.len() > 0 ==> data == Some(old(self)@[0]) && final(self)@ == old(
                self,
            )@.skip(1),
    {
        if self.write_idx != self.read_idx {
            let data: u8 = self.buffer[self.read_idx];
            self.read_idx = (self.read_idx + 1) % RX_SZ;
            proof {
                let before = old(self)@;
                assert(before.len() > 0);
                assert(before[0] == data);
                assert(self@.len() == before.len() - 1);
                assert forall|i: int| 0 <= i < self@.len() implies self@[i] == before.skip(
                    1,
                )[i] by {
                    assert((self.read_idx + i) % (RX_SZ as int) == (old(self).read_idx + (i + 1))
                        % (RX_SZ as int));
                }
                assert(self@ =~= before.skip(1));
            }
            Some(data)
        } else {
            assert(self@.len() == 0);
            None
        }
    }
}

} // verus!
