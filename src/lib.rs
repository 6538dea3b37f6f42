//! Protocol core of a driver for the MCP3xxx family of successive-approximation
//! A/D converters on an SPI bus: channel and pairing validation, the command
//! frame sent to the chip, and the decoding of its answer into a reading.
//!
//! The bus transfer itself is left to the caller: a [`Device`] hands out the
//! bytes to send and turns the bytes received back into a [`Reading`].
use vstd::prelude::*;

pub mod device;
pub mod frame;

pub use device::{Channels, Device, Model, Resolution};
pub use frame::Mode;

verus! {

/// Why a request could not be served.
#[derive(Clone, Copy, Debug, PartialEq, Eq, Structural)]
pub enum Error {
    /// A channel index above 7.
    InvalidChannelNumber(u8),
    /// A channel that the device does not have.
    UnsupportedChannel(Channel),
    /// A pair of channels that the chip cannot measure against each other.
    UnsupportedDifferentialCombination(Channel, Channel),
    /// A resolution outside 1 to 15 bits.
    InvalidResolution(u8),
    /// A channel count other than 2, 4 or 8.
    InvalidChannelCount(u8),
    /// The answer does not have as many bytes as the command frame.
    UnexpectedResponseLength(usize),
    /// The answer has bits set above the resolution of the device.
    ResponseOutOfRange(u32),
}

/// A channel of the chip, 0 to 7.
#[derive(Clone, Copy, Debug, PartialEq, Eq, Structural)]
pub struct Channel(u8);

impl View for Channel {
    type V = nat;

    closed spec fn view(&self) -> nat {
        self.0 as nat
    }
}

impl Channel {
    #[verifier::type_invariant]
    spec fn inv(self) -> bool {
        self.0 <= 7
    }

    /// The channel with index `n`; fails when `n` is above 7.
    pub fn new(n: u8) -> (r: Result<Channel, Error>)
        ensures
            n > 7 ==> r == Err::<Channel, Error>(Error::InvalidChannelNumber(n)),
            n <= 7 ==> (r matches Ok(c) && c@ == n),
    {
        if n > 7 {
            return Err(Error::InvalidChannelNumber(n));
        }
        Ok(Channel(n))
    }

    /// The index of the channel.
    pub fn index(&self) -> (r: u8)
        ensures
            r == self@,
            r <= 7,
    {
        proof {
            use_type_invariant(self);
        }
        self.0
    }
}

/// A raw conversion result together with the largest value it could have had.
pub struct Reading {
    value: u16,
    range: u16,
}

impl Reading {
    #[verifier::type_invariant]
    spec fn inv(self) -> bool {
        self.value <= self.range
    }

    /// The raw value.
    pub closed spec fn spec_value(&self) -> nat {
        self.value as nat
    }

    /// The largest value possible.
    pub closed spec fn spec_range(&self) -> nat {
        self.range as nat
    }

    /// A reading of `value` out of `range`.
    pub fn new(value: u16, range: u16) -> (r: Reading)
        requires
            value <= range,
        ensures
            r.spec_value() == value,
            r.spec_range() == range,
    {
        Reading { value, range }
    }

    /// The raw value read from the chip, from 0 to `range()`.
    pub fn value(&self) -> (r: u16)
        ensures
            r == self.spec_value(),
            r <= self.spec_range(),
    {
        proof {
            use_type_invariant(self);
        }
        self.value
    }

    /// The largest value the chip can return.
    pub fn range(&self) -> (r: u16)
        ensures
            r == self.spec_range(),
    {
        self.range
    }
}

} // verus!
