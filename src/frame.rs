use vstd::arithmetic::div_mod::{lemma_basic_div, lemma_div_denominator, lemma_fundamental_div_mod};
use vstd::arithmetic::power2::{lemma2_to64, lemma_pow2_adds, lemma_pow2_pos, pow2};
use vstd::bits::{lemma_u32_shl_is_mul, lemma_u32_shr_is_div};
use vstd::prelude::*;

verus! {

/// How a conversion is taken: against ground, or between two inputs.
#[derive(Clone, Copy, Debug, PartialEq, Eq, Structural)]
pub enum Mode {
    Differential,
    SingleEnded,
}

/// The MODE bit of a command frame.
pub open spec fn mode_bit(mode: Mode) -> nat {
    match mode {
        Mode::Differential => 0,
        Mode::SingleEnded => 1,
    }
}

/// Number of bits in a command frame:
/// START, MODE, ADDRESS, SAMPLE, NULL and the data window.
pub open spec fn frame_bits(address_bits: nat, resolution: nat) -> nat {
    1 + 1 + address_bits + 1 + 1 + resolution
}

/// Number of whole bytes that hold a frame of `bits` bits.
pub open spec fn frame_bytes(bits: nat) -> nat {
    (bits + 7) / 8
}

/// The command frame as one integer: START at the top bit, MODE right below
/// it, and the address placed so that `resolution + 2` zero bits stay below.
pub open spec fn command_value(mode: Mode, address: nat, address_bits: nat, resolution: nat) -> nat {
    let bits = frame_bits(address_bits, resolution);
    pow2((bits - 1) as nat) + mode_bit(mode) * pow2((bits - 2) as nat) + address * pow2(
        resolution + 2,
    )
}

/// The unsigned integer that a byte sequence spells, most significant byte first.
pub open spec fn be_value(s: Seq<u8>) -> nat
    decreases s.len(),
{
    if s.len() == 0 {
        0
    } else {
        (be_value(s.drop_last()) * 256 + s.last()) as nat
    }
}

/// `v` written in `n` bytes, most significant byte first.
pub open spec fn be_bytes(v: nat, n: nat) -> Seq<u8>
    decreases n,
{
    if n == 0 {
        Seq::empty()
    } else {
        be_bytes(v / 256, (n - 1) as nat).push((v % 256) as u8)
    }
}

/// Whether `s` is the command frame for this mode and address on a device
/// with the given address width and resolution.
pub open spec fn is_command_frame(
    s: Seq<u8>,
    mode: Mode,
    address: nat,
    address_bits: nat,
    resolution: nat,
) -> bool {
    &&& s.len() == frame_bytes(frame_bits(address_bits, resolution))
    &&& be_value(s) == command_value(mode, address, address_bits, resolution)
}

/// `256^k`, the number of values that `k` bytes can hold.
pub open spec fn pow256(k: nat) -> nat {
    pow2(8 * k)
}

proof fn lemma_pow256_step(k: nat)
    ensures
        pow256(k + 1) == pow256(k) * 256,
        pow256(k) > 0,
{
    lemma_pow2_adds(8 * k, 8);
    lemma2_to64();
    assert(8 * (k + 1) == 8 * k + 8);
    lemma_pow2_pos(8 * k);
}

/// Appending the next lower byte to a prefix of a big-endian number.
proof fn lemma_next_byte(c: nat, d: nat)
    requires
        d > 0,
    ensures
        (c / (d * 256)) * 256 + (c / d) % 256 == c / d,
{
    lemma_div_denominator(c as int, d as int, 256);
    lemma_fundamental_div_mod((c / d) as int, 256);
}

/// Reading back a number written in `n` bytes gives it again.
pub proof fn lemma_be_value_of_bytes(v: nat, n: nat)
    requires
        v < pow256(n),
    ensures
        be_bytes(v, n).len() == n,
        be_value(be_bytes(v, n)) == v,
    decreases n,
{
    if n == 0 {
        assert(pow256(0) == 1) by {
            lemma2_to64();
        }
    } else {
        let m = (n - 1) as nat;
        lemma_pow256_step(m);
        assert(v / 256 < pow256(m)) by (nonlinear_arith)
            requires
                v < pow256(m) * 256,
        ;
        lemma_be_value_of_bytes(v / 256, m);
        let s = be_bytes(v, n);
        assert(s.drop_last() == be_bytes(v / 256, m));
        lemma_fundamental_div_mod(v as int, 256);
    }
}

/// Two byte sequences of one length that spell the same number are equal.
pub proof fn lemma_be_value_injective(s1: Seq<u8>, s2: Seq<u8>)
    requires
        s1.len() == s2.len(),
        be_value(s1) == be_value(s2),
    ensures
        s1 == s2,
    decreases s1.len(),
{
    if s1.len() > 0 {
        let p1 = be_value(s1.drop_last());
        let p2 = be_value(s2.drop_last());
        let b1 = s1.last() as nat;
        let b2 = s2.last() as nat;
        assert(p1 == p2 && b1 == b2) by (nonlinear_arith)
            requires
                p1 * 256 + b1 == p2 * 256 + b2,
                b1 < 256,
                b2 < 256,
        ;
        lemma_be_value_injective(s1.drop_last(), s2.drop_last());
        assert(s1 == s1.drop_last().push(s1.last()));
        assert(s2 == s2.drop_last().push(s2.last()));
    }
}

/// A number held in `n` bytes is below `256^n`.
proof fn lemma_be_value_bound(s: Seq<u8>)
    ensures
        be_value(s) < pow256(s.len()),
    decreases s.len(),
{
    if s.len() == 0 {
        assert(pow256(0) == 1) by {
            lemma2_to64();
        }
    } else {
        let m = (s.len() - 1) as nat;
        lemma_be_value_bound(s.drop_last());
        lemma_pow256_step(m);
        let p = be_value(s.drop_last());
        let b = s.last() as nat;
        assert(p * 256 + b < pow256(m) * 256) by (nonlinear_arith)
            requires
                p < pow256(m),
                b < 256,
        ;
    }
}

/// Builds the command frame for `mode` and `address`, most significant byte
/// first, on a device whose address field is `address_bits` wide and whose
/// result is `resolution` bits.
pub fn encode_command(mode: Mode, address: u8, address_bits: u8, resolution: u8) -> (r: Vec<u8>)
    requires
        1 <= address_bits <= 3,
        1 <= resolution <= 15,
        address < pow2(address_bits as nat),
    ensures
        is_command_frame(r@, mode, address as nat, address_bits as nat, resolution as nat),
{
    let bits: u8 = 1 + 1 + address_bits + 1 + 1 + resolution;
    let bytes: u8 = (bits + 7) / 8;
    let mode_value: u32 = match mode {
        Mode::Differential => 0,
        Mode::SingleEnded => 1,
    };
    let low: u32 = (resolution + 2) as u32;
    let ghost cv = command_value(mode, address as nat, address_bits as nat, resolution as nat);
    proof {
        let a = address_bits as nat;
        let l = low as nat;
        lemma_pow2_adds(a, l);
        lemma_pow2_adds((bits - 2) as nat, 1);
        lemma_pow2_adds((bits - 1) as nat, 1);
        lemma_pow2_pos(l);
        assert(address * pow2(l) < pow2(a) * pow2(l)) by (nonlinear_arith)
            requires
                address < pow2(a),
                pow2(l) > 0,
        ;
        assert(a + l == bits - 2);
        lemma2_to64();
        if (bits as nat) < 8 * bytes {
            vstd::arithmetic::power2::lemma_pow2_strictly_increases(bits as nat, 8 * bytes as nat);
        }
        vstd::bits::lemma_u32_pow2_no_overflow(bits as nat);
        lemma_u32_shl_is_mul(1, (bits - 1) as u32);
        lemma_u32_shl_is_mul(mode_value, (bits - 2) as u32);
        lemma_u32_shl_is_mul(address as u32, low);
    }
    let command: u32 = (1u32 << ((bits - 1) as u32)) + (mode_value << ((bits - 2) as u32)) + ((
    address as u32) << low);
    assert(command == cv);
    assert(cv < pow256(bytes as nat));
    proof {
        lemma_basic_div(cv as int, pow256(bytes as nat) as int);
    }
    let mut tx: Vec<u8> = Vec::new();
    let mut i: u8 = 0;
    while i < bytes
        invariant
            i <= bytes <= 3,
            tx@.len() == i,
            command == cv,
            cv < pow256(bytes as nat),
            be_value(tx@) == cv / pow256((bytes - i) as nat),
        decreases bytes - i,
    {
        let k: u8 = bytes - 1 - i;
        let shift: u32 = 8 * (k as u32);
        proof {
            lemma_u32_shr_is_div(command, shift);
            lemma_pow256_step(k as nat);
            lemma_next_byte(cv, pow256(k as nat));
            assert((bytes - i) as nat == k + 1);
        }
        let byte: u8 = ((command >> shift) % 256) as u8;
        let ghost prev = tx@;
        tx.push(byte);
        assert(tx@.drop_last() == prev);
        i = i + 1;
    }
    assert(pow256(0) == 1) by {
        lemma2_to64();
    }
    assert(cv / 1 == cv);
    tx
}

/// The unsigned integer that `rx` spells, most significant byte first.
pub fn read_be(rx: &Vec<u8>) -> (r: u32)
    requires
        rx@.len() <= 3,
    ensures
        r == be_value(rx@),
{
    let mut acc: u32 = 0;
    let mut i: usize = 0;
    while i < rx.len()
        invariant
            i <= rx@.len() <= 3,
            acc == be_value(rx@.subrange(0, i as int)),
        decreases rx@.len() - i,
    {
        let ghost prefix = rx@.subrange(0, i as int);
        proof {
            lemma_be_value_bound(prefix);
            lemma2_to64();
            if i == 0 {
                assert(pow256(0) == 1);
            } else if i == 1 {
                assert(pow256(1) == 256);
            } else {
                assert(pow256(2) == 65536);
            }
        }
        acc = acc * 256 + rx[i] as u32;
        i = i + 1;
        assert(rx@.subrange(0, i as int).drop_last() == prefix);
    }
    assert(rx@.subrange(0, rx@.len() as int) == rx@);
    acc
}

} // verus!
