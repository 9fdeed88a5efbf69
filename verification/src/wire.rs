//! The wire format of the network server: a frame is a length of four
//! bytes, little endian, and then that many bytes of payload.

use vstd::prelude::*;

verus! {

/// The version of the protocol that a peer speaks.
#[derive(Clone, Copy, Debug, PartialEq, Eq, Structural)]
pub struct Version {
    pub major: u32,
    pub minor: u32,
    pub patch: u32,
}

/// A message between server and client.
#[derive(Clone, Copy, Debug, PartialEq, Eq, Structural)]
pub enum Message {
    /// The first message of a connection.
    Greeting { version: Version },
}

/// The length that the four bytes of a header announce, little endian:
/// the first byte counts once, the second 256 times, the third 65536
/// times, the fourth 16777216 times.
pub open spec fn header_value(bytes: Seq<u8>) -> u32
    recommends
        bytes.len() == 4,
{
    (bytes[0] + 256 * bytes[1] + 65536 * bytes[2] + 16777216 * bytes[3]) as u32
}

/// What a reader of frames waits for.
#[derive(Clone, Copy, Debug, PartialEq, Eq, Structural)]
pub enum Expect {
    /// The four bytes of a frame's length.
    Header,
    /// The payload of a frame, of this length.
    Payload(u32),
}

impl Expect {
    /// The number of bytes that must arrive next.
    pub open spec fn len(self) -> nat {
        match self {
            Expect::Header => 4,
            Expect::Payload(n) => n as nat,
        }
    }

    /// What is waited for after `bytes` arrived, `bytes` being as many as
    /// were waited for: after a header, the payload it announces; after a
    /// payload, the next header.
    pub open spec fn after(self, bytes: Seq<u8>) -> Expect {
        match self {
            Expect::Header => Expect::Payload(header_value(bytes)),
            Expect::Payload(_) => Expect::Header,
        }
    }

    /// The payload that `bytes` complete, if they complete one.
    pub open spec fn yields(self, bytes: Seq<u8>) -> Option<Seq<u8>> {
        match self {
            Expect::Header => None,
            Expect::Payload(_) => Some(bytes),
        }
    }
}

/// The reading side of one connection: it knows what part of a frame
/// comes next. The socket stays with the caller, who reads as many bytes
/// as `expects` says and hands them to `accept`.
#[derive(Debug)]
pub struct Client {
    expect: Expect,
}

impl View for Client {
    type V = Expect;

    closed spec fn view(&self) -> Expect {
        self.expect
    }
}

impl Client {
    /// A reader at the start of a frame.
    pub fn new() -> (c: Self)
        ensures
            c@ == Expect::Header,
    {
        Client { expect: Expect::Header }
    }

    /// What the reader waits for.
    pub fn expect(&self) -> (r: Expect)
        ensures
            r == self@,
    {
        self.expect
    }

    /// The number of bytes to read next: four for a header, else the
    /// length that the header gave.
    pub fn expects(&self) -> (n: usize)
        ensures
            n == self@.len(),
    {
        match self.expect {
            Expect::Header => 4,
            Expect::Payload(n) => n as usize,
        }
    }

    /// Takes the bytes that were waited for. A header sets the length of
    /// the payload to come and yields nothing. A payload is handed back
    /// whole, and the reader is at the start of the next frame.
    pub fn accept(&mut self, bytes: Vec<u8>) -> (r: Option<Vec<u8>>)
        requires
            bytes@.len() == old(self)@.len(),
        ensures
            final(self)@ == old(self)@.after(bytes@),
            match r {
                Some(payload) => old(self)@.yields(bytes@) == Some(payload@),
                None => old(self)@.yields(bytes@) is None,
            },
    {
        match self.expect {
            Expect::Header => {
                let size: u32 = bytes[0] as u32 + 256 * (bytes[1] as u32) + 65536 * (bytes[2] as u32)
                    + 16777216 * (bytes[3] as u32);
                self.expect = Expect::Payload(size);
                None
            },
            Expect::Payload(_) => {
                self.expect = Expect::Header;
                Some(bytes)
            },
        }
    }
}

} // verus!
