use crate::frame::{
    be_bytes, be_value, encode_command, frame_bits, frame_bytes, is_command_frame,
    lemma_be_value_injective, lemma_be_value_of_bytes, read_be, Mode,
};
use crate::{Channel, Error, Reading};
use vstd::arithmetic::power2::{lemma2_to64, lemma_pow2_strictly_increases, pow2};
use vstd::bits::lemma_u32_shl_is_mul;
use vstd::prelude::*;

verus! {

/// Width in bits of a conversion result, 1 to 15.
#[derive(Clone, Copy, Debug)]
pub struct Resolution(u8);

impl View for Resolution {
    type V = nat;

    closed spec fn view(&self) -> nat {
        self.0 as nat
    }
}

impl Resolution {
    #[verifier::type_invariant]
    spec fn inv(self) -> bool {
        1 <= self.0 <= 15
    }

    /// A resolution of `bits` bits; fails unless `bits` is 1 to 15.
    pub fn new(bits: u8) -> (r: Result<Resolution, Error>)
        ensures
            (bits == 0 || bits >= 16) ==> r == Err::<Resolution, Error>(
                Error::InvalidResolution(bits),
            ),
            (1 <= bits <= 15) ==> (r matches Ok(res) && res@ == bits),
    {
        if bits == 0 || bits >= 16 {
            return Err(Error::InvalidResolution(bits));
        }
        Ok(Resolution(bits))
    }

    /// The number of bits.
    pub fn bits(&self) -> (r: u8)
        ensures
            r == self@,
            1 <= r <= 15,
    {
        proof {
            use_type_invariant(self);
        }
        self.0
    }

    /// The smallest and the largest value of a result: 0 and `2^bits - 1`.
    pub fn range(self) -> (r: (u16, u16))
        ensures
            r.0 == 0,
            r.1 == pow2(self@) - 1,
    {
        let bits: u8 = self.bits();
        proof {
            vstd::bits::lemma_u32_pow2_no_overflow(bits as nat);
            lemma_u32_shl_is_mul(1, bits as u32);
            lemma2_to64();
            if bits < 15 {
                lemma_pow2_strictly_increases(bits as nat, 15);
            }
        }
        (0, ((1u32 << (bits as u32)) - 1) as u16)
    }
}

/// Width in bits of the address field for a chip with `count` channels.
pub open spec fn address_bits_for(count: nat) -> nat {
    if count == 2 {
        1
    } else {
        3
    }
}

/// Number of input channels of a chip: 2, 4 or 8.
#[derive(Clone, Copy, Debug)]
pub struct Channels(u8);

impl View for Channels {
    type V = nat;

    closed spec fn view(&self) -> nat {
        self.0 as nat
    }
}

impl Channels {
    #[verifier::type_invariant]
    spec fn inv(self) -> bool {
        self.0 == 2 || self.0 == 4 || self.0 == 8
    }

    /// A channel count of `num`; fails unless `num` is 2, 4 or 8.
    pub fn new(num: u8) -> (r: Result<Channels, Error>)
        ensures
            (num == 2 || num == 4 || num == 8) ==> (r matches Ok(c) && c@ == num),
            !(num == 2 || num == 4 || num == 8) ==> r == Err::<Channels, Error>(
                Error::InvalidChannelCount(num),
            ),
    {
        match num {
            2 | 4 | 8 => Ok(Channels(num)),
            _ => Err(Error::InvalidChannelCount(num)),
        }
    }

    /// The number of channels.
    pub fn count(&self) -> (r: u8)
        ensures
            r == self@,
            r == 2 || r == 4 || r == 8,
    {
        proof {
            use_type_invariant(self);
        }
        self.0
    }

    /// Width of the address field: 1 bit for 2 channels, 3 bits for 4 or 8.
    pub fn bit_size(self) -> (r: u8)
        ensures
            r == address_bits_for(self@),
    {
        if self.count() == 2 {
            1
        } else {
            3
        }
    }
}

/// The chips of the family, each with a fixed resolution and channel count.
#[derive(Clone, Copy, Debug, PartialEq, Eq, Structural)]
pub enum Model {
    Mcp3002,
    Mcp3004,
    Mcp3008,
    Mcp3202,
    Mcp3204,
    Mcp3208,
    Mcp3302,
    Mcp3304,
}

/// Resolution in bits and channel count of each chip.
pub open spec fn model_config(model: Model) -> (nat, nat) {
    match model {
        Model::Mcp3002 => (10, 2),
        Model::Mcp3004 => (10, 4),
        Model::Mcp3008 => (10, 8),
        Model::Mcp3202 => (12, 2),
        Model::Mcp3204 => (12, 4),
        Model::Mcp3208 => (12, 8),
        Model::Mcp3302 => (13, 4),
        Model::Mcp3304 => (13, 8),
    }
}

impl Model {
    /// Resolution of the chip.
    pub fn resolution(self) -> (r: Resolution)
        ensures
            r@ == model_config(self).0,
    {
        match self {
            Model::Mcp3002 | Model::Mcp3004 | Model::Mcp3008 => Resolution(10),
            Model::Mcp3202 | Model::Mcp3204 | Model::Mcp3208 => Resolution(12),
            Model::Mcp3302 | Model::Mcp3304 => Resolution(13),
        }
    }

    /// Number of input channels of the chip.
    pub fn channels(self) -> (r: Channels)
        ensures
            r@ == model_config(self).1,
    {
        match self {
            Model::Mcp3002 | Model::Mcp3202 => Channels(2),
            Model::Mcp3004 | Model::Mcp3204 | Model::Mcp3302 => Channels(4),
            Model::Mcp3008 | Model::Mcp3208 | Model::Mcp3304 => Channels(8),
        }
    }
}

/// The address that selects the differential pair (`plus`, `minus`), if the
/// chip can measure that pair.
pub open spec fn pair_address(plus: nat, minus: nat) -> Option<nat> {
    if plus == 0 && minus == 1 {
        Some(0)
    } else if plus == 1 && minus == 0 {
        Some(1)
    } else if plus == 2 && minus == 3 {
        Some(2)
    } else if plus == 3 && minus == 2 {
        Some(3)
    } else if plus == 4 && minus == 5 {
        Some(4)
    } else if plus == 5 && minus == 4 {
        Some(5)
    } else if plus == 6 && minus == 7 {
        Some(6)
    } else if plus == 7 && minus == 6 {
        Some(7)
    } else {
        None
    }
}

/// A converter of a given resolution and channel count. It builds the command
/// frames to send and decodes the answers received in the same transfer.
pub struct Device {
    channels: Channels,
    resolution: Resolution,
}

impl Device {
    /// Number of input channels of the device.
    pub closed spec fn channel_count(&self) -> nat {
        self.channels@
    }

    /// Width in bits of the device's conversion result.
    pub closed spec fn resolution_bits(&self) -> nat {
        self.resolution@
    }

    /// Width in bits of the device's address field.
    pub open spec fn address_bits(&self) -> nat {
        address_bits_for(self.channel_count())
    }

    /// Bits in the device's command frame.
    pub open spec fn spec_frame_bits(&self) -> nat {
        frame_bits(self.address_bits(), self.resolution_bits())
    }

    /// Bytes in the device's command frame, and in its answer.
    pub open spec fn spec_frame_bytes(&self) -> nat {
        frame_bytes(self.spec_frame_bits())
    }

    /// Whether `s` is this device's command frame for `mode` and `address`.
    pub open spec fn is_frame(&self, s: Seq<u8>, mode: Mode, address: nat) -> bool {
        is_command_frame(s, mode, address, self.address_bits(), self.resolution_bits())
    }

    /// The conversion result that the answer `rx` carries, if it is well formed:
    /// as long as the command frame, with no bit set above the resolution.
    pub open spec fn response_value(&self, rx: Seq<u8>) -> Option<nat> {
        if rx.len() == self.spec_frame_bytes() && be_value(rx) < pow2(self.resolution_bits()) {
            Some(be_value(rx))
        } else {
            None
        }
    }

    /// A device with the given channel count and resolution.
    pub fn new(channels: Channels, resolution: Resolution) -> (r: Device)
        ensures
            r.channel_count() == channels@,
            r.resolution_bits() == resolution@,
    {
        Device { channels, resolution }
    }

    /// The device for one chip of the family.
    pub fn for_model(model: Model) -> (r: Device)
        ensures
            r.resolution_bits() == model_config(model).0,
            r.channel_count() == model_config(model).1,
    {
        Device::new(model.channels(), model.resolution())
    }

    /// Bits in a command frame: `1 + 1 + A + 1 + 1 + R` for an address field of
    /// `A` bits and a resolution of `R` bits.
    pub fn frame_bits(&self) -> (r: u8)
        ensures
            r == self.spec_frame_bits(),
            6 <= r <= 22,
    {
        1 + 1 + self.channels.bit_size() + 1 + 1 + self.resolution.bits()
    }

    /// Bytes in a command frame, and in the answer: the bits rounded up to whole bytes.
    pub fn frame_bytes(&self) -> (r: u8)
        ensures
            r == self.spec_frame_bytes(),
            r <= 3,
    {
        (self.frame_bits() + 7) / 8
    }

    fn check_channel_valid(&self, channel: Channel) -> (r: Result<(), Error>)
        ensures
            channel@ < self.channel_count() ==> r is Ok,
            channel@ >= self.channel_count() ==> r == Err::<(), Error>(
                Error::UnsupportedChannel(channel),
            ),
    {
        if channel.index() >= self.channels.count() {
            return Err(Error::UnsupportedChannel(channel));
        }
        Ok(())
    }

    fn command(&self, mode: Mode, address: u8) -> (r: Vec<u8>)
        requires
            address < self.channel_count(),
        ensures
            self.is_frame(r@, mode, address as nat),
    {
        proof {
            use_type_invariant(&self.channels);
            lemma2_to64();
        }
        encode_command(mode, address, self.channels.bit_size(), self.resolution.bits())
    }

    /// The frame that asks for a single-ended conversion of `channel`;
    /// fails when the device has no such channel.
    pub fn single_ended_command(&self, channel: Channel) -> (r: Result<Vec<u8>, Error>)
        ensures
            channel@ >= self.channel_count() ==> r == Err::<Vec<u8>, Error>(
                Error::UnsupportedChannel(channel),
            ),
            channel@ < self.channel_count() ==> (r matches Ok(tx) && self.is_frame(
                tx@,
                Mode::SingleEnded,
                channel@,
            )),
    {
        match self.check_channel_valid(channel) {
            Err(e) => Err(e),
            Ok(()) => Ok(self.command(Mode::SingleEnded, channel.index())),
        }
    }

    /// The frame that asks for a differential conversion of `plus` against
    /// `minus`; fails when the device lacks either channel, or when the chip
    /// cannot measure that pair.
    pub fn differential_command(&self, plus: Channel, minus: Channel) -> (r: Result<
        Vec<u8>,
        Error,
    >)
        ensures
            plus@ >= self.channel_count() ==> r == Err::<Vec<u8>, Error>(
                Error::UnsupportedChannel(plus),
            ),
            plus@ < self.channel_count() && minus@ >= self.channel_count() ==> r == Err::<
                Vec<u8>,
                Error,
            >(Error::UnsupportedChannel(minus)),
            plus@ < self.channel_count() && minus@ < self.channel_count() && pair_address(
                plus@,
                minus@,
            ) is None ==> r == Err::<Vec<u8>, Error>(
                Error::UnsupportedDifferentialCombination(plus, minus),
            ),
            plus@ < self.channel_count() && minus@ < self.channel_count() ==> (pair_address(
                plus@,
                minus@,
            ) matches Some(a) ==> (r matches Ok(tx) && self.is_frame(tx@, Mode::Differential, a))),
    {
        if let Err(e) = self.check_channel_valid(plus) {
            return Err(e);
        }
        if let Err(e) = self.check_channel_valid(minus) {
            return Err(e);
        }
        let address: u8 = match (plus.index(), minus.index()) {
            (0, 1) => 0b000,
            (1, 0) => 0b001,
            (2, 3) => 0b010,
            (3, 2) => 0b011,
            (4, 5) => 0b100,
            (5, 4) => 0b101,
            (6, 7) => 0b110,
            (7, 6) => 0b111,
            _ => {
                return Err(Error::UnsupportedDifferentialCombination(plus, minus));
            },
        };
        Ok(self.command(Mode::Differential, address))
    }

    /// The reading carried by `rx`, the bytes received while the command frame
    /// was sent. Fails when `rx` is not as long as the frame, or has bits set
    /// above the resolution.
    pub fn decode_response(&self, rx: &Vec<u8>) -> (r: Result<Reading, Error>)
        ensures
            rx@.len() != self.spec_frame_bytes() ==> r == Err::<Reading, Error>(
                Error::UnexpectedResponseLength(rx@.len() as usize),
            ),
            rx@.len() == self.spec_frame_bytes() && be_value(rx@) >= pow2(self.resolution_bits())
                ==> r == Err::<Reading, Error>(Error::ResponseOutOfRange(be_value(rx@) as u32)),
            self.response_value(rx@) matches Some(v) ==> (r matches Ok(reading)
                && reading.spec_value() == v && reading.spec_range() == pow2(self.resolution_bits())
                - 1),
    {
        let bytes = self.frame_bytes();
        if rx.len() != bytes as usize {
            return Err(Error::UnexpectedResponseLength(rx.len()));
        }
        let value: u32 = read_be(rx);
        let (_, max) = self.resolution.range();
        if value > max as u32 {
            return Err(Error::ResponseOutOfRange(value));
        }
        Ok(Reading::new(value as u16, max))
    }
}

/// Encoding is deterministic: for a given device, mode and address there is
/// exactly one command frame.
pub proof fn lemma_command_frame_unique(
    device: Device,
    mode: Mode,
    address: nat,
    s1: Seq<u8>,
    s2: Seq<u8>,
)
    requires
        device.is_frame(s1, mode, address),
        device.is_frame(s2, mode, address),
    ensures
        s1 == s2,
{
    lemma_be_value_injective(s1, s2);
}

/// Of all ordered pairs of channels 0 to 7, a differential conversion is
/// possible exactly for the two orders of each pair {2k, 2k+1}, and the pair
/// is selected by the address of its plus channel.
pub proof fn lemma_differential_pairs(plus: nat, minus: nat)
    requires
        plus < 8,
        minus < 8,
    ensures
        pair_address(plus, minus) == if plus / 2 == minus / 2 && plus != minus {
            Some(plus)
        } else {
            None::<nat>
        },
{
}

/// An answer that carries a value of the device's resolution in the bytes of
/// the frame decodes to that value.
pub proof fn lemma_response_round_trip(device: Device, v: nat)
    requires
        v < pow2(device.resolution_bits()),
    ensures
        be_bytes(v, device.spec_frame_bytes()).len() == device.spec_frame_bytes(),
        device.response_value(be_bytes(v, device.spec_frame_bytes())) == Some(v),
{
    let r = device.resolution_bits();
    let n = device.spec_frame_bytes();
    assert(r < 8 * n);
    lemma_pow2_strictly_increases(r, 8 * n);
    lemma_be_value_of_bytes(v, n);
}

} // verus!
