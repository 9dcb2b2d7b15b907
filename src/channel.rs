//! Packets of the emulated channel that harnesses put between two peers.
use vstd::prelude::*;

verus! {

/// The bytes that UDP and IPv4 headers add to a datagram.
pub const PACKET_OVERHEAD: usize = 8 + 20;

#[derive(Clone)]
pub struct Packet {
    dummy_len: Option<usize>,
    payload: Vec<u8>,
}

impl Packet {
    /// The payload length that the packet stands for on the wire: the dummy
    /// length if one is set, else the length of the payload.
    pub closed spec fn wire_payload_len(&self) -> nat {
        match self.dummy_len {
            Some(d) => d as nat,
            None => self.payload@.len(),
        }
    }

    pub closed spec fn spec_payload(&self) -> Seq<u8> {
        self.payload@
    }

    /// The length of the packet on the wire, headers included.
    pub fn len(&self) -> (r: usize)
        requires
            self.wire_payload_len() + PACKET_OVERHEAD <= usize::MAX,
        ensures
            r == self.wire_payload_len() + PACKET_OVERHEAD,
    {
        let payload_len = if let Some(dummy_len) = self.dummy_len {
            dummy_len
        } else {
            self.payload.len()
        };
        PACKET_OVERHEAD + payload_len
    }

    /// Lets the packet stand for `dummy_len` payload bytes on the wire.
    pub fn set_dummy_len(&mut self, dummy_len: usize)
        ensures
            final(self).wire_payload_len() == dummy_len,
            final(self).spec_payload() == old(self).spec_payload(),
    {
        self.dummy_len = Some(dummy_len);
    }

    pub fn new(payload: Vec<u8>) -> (r: Self)
        ensures
            r.spec_payload() == payload@,
            r.wire_payload_len() == payload@.len(),
    {
        Self { dummy_len: None, payload }
    }

    pub fn payload(&self) -> (r: &[u8])
        ensures
            r@ == self.spec_payload(),
    {
        self.payload.as_slice()
    }
}

impl Default for Packet {
    fn default() -> (r: Self)
        ensures
            r.spec_payload().len() == 0,
            r.wire_payload_len() == 0,
    {
        Packet { dummy_len: None, payload: Vec::new() }
    }
}

} // verus!
