//! What the node needs from the device it runs on, and the link through
//! which the node talks to it.

use vstd::prelude::*;

verus! {

/// The transport and the clock that the embedding application supplies.
///
/// The node reads at most one byte at a time and never waits for one; it
/// writes one byte at a time and expects each write to complete.
pub trait HardwareInterface {
    /// The next received byte, or `None` where none has arrived.
    fn read(&mut self) -> Option<u8>;

    /// Sends one byte.
    fn write(&mut self, data: u8);

    /// The device's monotonic clock, in ticks.
    fn time(&self) -> u32;
}

/// The hardware together with a record of the traffic: every byte that was
/// taken from it and every byte that was handed to it through this link.
///
/// The record is ghost state: it costs nothing at run time.
pub struct Link<H: HardwareInterface> {
    hardware: H,
    taken: Ghost<Seq<u8>>,
    sent: Ghost<Seq<u8>>,
}

impl<H: HardwareInterface> Link<H> {
    /// Every byte read through this link so far, oldest first.
    pub closed spec fn taken(&self) -> Seq<u8> {
        self.taken@
    }

    /// Every byte written through this link so far, oldest first.
    pub closed spec fn sent(&self) -> Seq<u8> {
        self.sent@
    }

    /// The hardware behind the link.
    pub closed spec fn device(&self) -> H {
        self.hardware
    }

    /// A link to `hardware` over which nothing has travelled yet.
    pub fn new(hardware: H) -> (link: Self)
        ensures
            link.device() == hardware,
            link.taken() == Seq::<u8>::empty(),
            link.sent() == Seq::<u8>::empty(),
    {
        Link { hardware, taken: Ghost(Seq::empty()), sent: Ghost(Seq::empty()) }
    }

    /// The hardware behind the link.
    pub fn hardware(&self) -> (hardware: &H)
        ensures
            *hardware == self.device(),
    {
        &self.hardware
    }

    /// Gives the hardware back.
    pub fn into_inner(self) -> (hardware: H)
        ensures
            hardware == self.device(),
    {
        self.hardware
    }

    /// Takes the next received byte from the hardware, if one has arrived:
    /// the answer is what one read of the hardware behind the link gave.
    /// Reading sends nothing.
    pub fn read(&mut self) -> (data: Option<u8>)
        ensures
            exists|port: &mut H|
                {
                    &&& mut_ref_current(port) == old(self).device()
                    &&& mut_ref_future(port) == final(self).device()
                    &&& #[trigger] call_ensures(H::read, (port,), data)
                },
            final(self).sent() == old(self).sent(),
            final(self).taken() == match data {
                Some(byte) => old(self).taken().push(byte),
                None => old(self).taken(),
            },
    {
        let data = self.hardware.read();
        proof {
            if let Some(byte) = data {
                self.taken@ = self.taken@.push(byte);
            }
        }
        data
    }

    /// Hands one byte to the hardware: one write of `data` to the hardware
    /// behind the link.
    pub fn write(&mut self, data: u8)
        ensures
            exists|port: &mut H|
                {
                    &&& mut_ref_current(port) == old(self).device()
                    &&& mut_ref_future(port) == final(self).device()
                    &&& #[trigger] call_ensures(H::write, (port, data), ())
                },
            final(self).sent() == old(self).sent().push(data),
            final(self).taken() == old(self).taken(),
    {
        self.hardware.write(data);
        proof {
            self.sent@ = self.sent@.push(data);
        }
    }

    /// The device's monotonic clock, in ticks: what the hardware behind the
    /// link answers when it is asked for the time.
    pub fn time(&self) -> (ticks: u32)
        ensures
            call_ensures(H::time, (&self.device(),), ticks),
    {
        self.hardware.time()
    }
}

} // verus!
