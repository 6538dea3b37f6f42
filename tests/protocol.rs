use mcp3xxx::frame::{encode_command, read_be};
use mcp3xxx::{Channel, Channels, Device, Error, Mode, Model, Resolution};

const MODELS: [(Model, u8, u8); 8] = [
    (Model::Mcp3002, 10, 2),
    (Model::Mcp3004, 10, 4),
    (Model::Mcp3008, 10, 8),
    (Model::Mcp3202, 12, 2),
    (Model::Mcp3204, 12, 4),
    (Model::Mcp3208, 12, 8),
    (Model::Mcp3302, 13, 4),
    (Model::Mcp3304, 13, 8),
];

fn ch(n: u8) -> Channel {
    Channel::new(n).unwrap()
}

fn be(v: u32, n: u8) -> Vec<u8> {
    (0..n).rev().map(|i| (v >> (8 * u32::from(i))) as u8).collect()
}

#[test]
fn frame_sizes_of_every_model() {
    // (model, address bits, frame bits, frame bytes), worked out by hand
    let expected = [
        (Model::Mcp3002, 1, 15, 2),
        (Model::Mcp3004, 3, 17, 3),
        (Model::Mcp3008, 3, 17, 3),
        (Model::Mcp3202, 1, 17, 3),
        (Model::Mcp3204, 3, 19, 3),
        (Model::Mcp3208, 3, 19, 3),
        (Model::Mcp3302, 3, 20, 3),
        (Model::Mcp3304, 3, 20, 3),
    ];
    for (model, a, bits, bytes) in expected {
        let d = Device::for_model(model);
        assert_eq!(model.channels().bit_size(), a);
        assert_eq!(d.frame_bits(), bits);
        assert_eq!(d.frame_bytes(), bytes);
        let tx = d.single_ended_command(ch(0)).unwrap();
        assert_eq!(tx.len(), bytes as usize);
    }
}

#[test]
fn model_configurations() {
    for (model, res, count) in MODELS {
        assert_eq!(model.resolution().bits(), res);
        assert_eq!(model.channels().count(), count);
    }
}

#[test]
fn encoding_is_deterministic() {
    for (model, _, count) in MODELS {
        let d1 = Device::for_model(model);
        let d2 = Device::for_model(model);
        for i in 0..count {
            assert_eq!(
                d1.single_ended_command(ch(i)).unwrap(),
                d2.single_ended_command(ch(i)).unwrap()
            );
            assert_eq!(
                d1.single_ended_command(ch(i)).unwrap(),
                d1.single_ended_command(ch(i)).unwrap()
            );
        }
    }
}

#[test]
fn channels_beyond_the_device_are_unsupported() {
    for (model, _, count) in MODELS {
        let d = Device::for_model(model);
        for i in 0..8u8 {
            let r = d.single_ended_command(ch(i));
            if i >= count {
                assert_eq!(r, Err(Error::UnsupportedChannel(ch(i))));
            } else {
                assert!(r.is_ok());
            }
        }
    }
}

#[test]
fn channel_numbers_above_seven_are_invalid() {
    for n in 0..=255u8 {
        let r = Channel::new(n);
        if n > 7 {
            assert_eq!(r, Err(Error::InvalidChannelNumber(n)));
        } else {
            assert_eq!(r.unwrap().index(), n);
        }
    }
}

#[test]
fn exactly_eight_differential_pairs() {
    let table = [(0, 1), (1, 0), (2, 3), (3, 2), (4, 5), (5, 4), (6, 7), (7, 6)];
    let d = Device::for_model(Model::Mcp3208);
    let mut ok = 0;
    for p in 0..8u8 {
        for m in 0..8u8 {
            let r = d.differential_command(ch(p), ch(m));
            if table.contains(&(p, m)) {
                assert!(r.is_ok());
                ok += 1;
            } else {
                assert_eq!(
                    r,
                    Err(Error::UnsupportedDifferentialCombination(ch(p), ch(m)))
                );
            }
        }
    }
    assert_eq!(ok, 8);
}

#[test]
fn differential_pair_address_is_the_plus_channel() {
    let d = Device::for_model(Model::Mcp3208);
    for (p, m) in [(0, 1), (1, 0), (2, 3), (3, 2), (4, 5), (5, 4), (6, 7), (7, 6)] {
        // START at bit 18, MODE = 0, address at bits 14 to 16
        let command = (1u32 << 18) | (u32::from(p) << 14);
        assert_eq!(d.differential_command(ch(p), ch(m)).unwrap(), be(command, 3));
    }
}

#[test]
fn differential_on_small_device_checks_channels_first() {
    let d = Device::for_model(Model::Mcp3002);
    assert_eq!(
        d.differential_command(ch(2), ch(3)),
        Err(Error::UnsupportedChannel(ch(2)))
    );
    assert_eq!(
        d.differential_command(ch(1), ch(3)),
        Err(Error::UnsupportedChannel(ch(3)))
    );
    assert_eq!(
        d.differential_command(ch(0), ch(0)),
        Err(Error::UnsupportedDifferentialCombination(ch(0), ch(0)))
    );
    // 10 bits, 2 channels: START at bit 14, MODE = 0, address bit 12
    assert_eq!(d.differential_command(ch(1), ch(0)).unwrap(), vec![0x50, 0x00]);
}

#[test]
fn round_trip_through_an_echoing_transport() {
    for (model, res, _) in MODELS {
        let d = Device::for_model(model);
        let max = (1u32 << res) - 1;
        for v in [0, 1, 2, 255, 256, 1000, max / 2, max - 1, max] {
            let tx = d.single_ended_command(ch(1)).unwrap();
            let rx = be(v, tx.len() as u8);
            let reading = d.decode_response(&rx).unwrap();
            assert_eq!(u32::from(reading.value()), v);
            assert_eq!(u32::from(reading.range()), max);
        }
    }
}

#[test]
fn reading_value_never_exceeds_range() {
    for (model, res, _) in MODELS {
        let d = Device::for_model(model);
        for v in (0..(1u32 << res)).step_by(97) {
            let reading = d.decode_response(&be(v, d.frame_bytes())).unwrap();
            assert!(reading.value() <= reading.range());
        }
    }
    let r = mcp3xxx::Reading::new(7, 7);
    assert!(r.value() <= r.range());
}

#[test]
fn mcp3208_single_ended_channel_three() {
    let d = Device::for_model(Model::Mcp3208);
    let tx = d.single_ended_command(ch(3)).unwrap();
    // START bit 18, MODE bit 17, address 0b011 at bits 14 to 16
    assert_eq!(tx, vec![0x06, 0xC0, 0x00]);
    let reading = d.decode_response(&vec![0x00, 0x08, 0x00]).unwrap();
    assert_eq!(reading.value(), 2048);
    assert_eq!(reading.range(), 4095);
}

#[test]
fn mcp3208_differential_two_three() {
    let d = Device::for_model(Model::Mcp3208);
    let tx = d.differential_command(ch(2), ch(3)).unwrap();
    assert_eq!(tx, vec![0x04, 0x80, 0x00]);
    assert_eq!((u32::from(tx[0]) << 16 | u32::from(tx[1]) << 8) >> 14 & 0b111, 0b010);
    assert_eq!((u32::from(tx[0]) << 16) >> 17 & 1, 0);
    assert_eq!(
        d.differential_command(ch(2), ch(4)),
        Err(Error::UnsupportedDifferentialCombination(ch(2), ch(4)))
    );
}

#[test]
fn response_with_wrong_length_is_rejected() {
    let d = Device::for_model(Model::Mcp3208);
    assert!(matches!(
        d.decode_response(&vec![0x00, 0x08]),
        Err(Error::UnexpectedResponseLength(2))
    ));
    assert!(matches!(
        d.decode_response(&vec![]),
        Err(Error::UnexpectedResponseLength(0))
    ));
    assert!(matches!(
        d.decode_response(&vec![0, 0, 0, 0]),
        Err(Error::UnexpectedResponseLength(4))
    ));
}

#[test]
fn response_with_bits_above_resolution_is_rejected() {
    let d = Device::for_model(Model::Mcp3208);
    assert!(matches!(
        d.decode_response(&vec![0x00, 0x10, 0x00]),
        Err(Error::ResponseOutOfRange(4096))
    ));
    assert!(matches!(
        d.decode_response(&vec![0xFF, 0xFF, 0xFF]),
        Err(Error::ResponseOutOfRange(0xFF_FFFF))
    ));
    let reading = d.decode_response(&vec![0x00, 0x0F, 0xFF]).unwrap();
    assert_eq!(reading.value(), 4095);
}

#[test]
fn thirteen_bit_device_reads_full_range() {
    let d = Device::for_model(Model::Mcp3304);
    let reading = d.decode_response(&vec![0x00, 0x1F, 0xFF]).unwrap();
    assert_eq!(reading.value(), 8191);
    assert_eq!(reading.range(), 8191);
    assert!(matches!(
        d.decode_response(&vec![0x00, 0x20, 0x00]),
        Err(Error::ResponseOutOfRange(8192))
    ));
}

#[test]
fn resolution_bounds() {
    assert!(matches!(Resolution::new(0), Err(Error::InvalidResolution(0))));
    assert!(matches!(Resolution::new(16), Err(Error::InvalidResolution(16))));
    assert!(matches!(Resolution::new(200), Err(Error::InvalidResolution(200))));
    assert_eq!(Resolution::new(1).unwrap().range(), (0, 1));
    assert_eq!(Resolution::new(10).unwrap().range(), (0, 1023));
    assert_eq!(Resolution::new(12).unwrap().range(), (0, 4095));
    assert_eq!(Resolution::new(13).unwrap().range(), (0, 8191));
    assert_eq!(Resolution::new(15).unwrap().range(), (0, 32767));
}

#[test]
fn channel_count_bounds() {
    for n in 0..=255u8 {
        let r = Channels::new(n);
        match n {
            2 => assert_eq!(r.unwrap().bit_size(), 1),
            4 | 8 => assert_eq!(r.unwrap().bit_size(), 3),
            _ => assert!(matches!(r, Err(Error::InvalidChannelCount(k)) if k == n)),
        }
    }
}

#[test]
fn custom_device_frames() {
    let d = Device::new(Channels::new(4).unwrap(), Resolution::new(1).unwrap());
    // 4 + 3 + 1 = 8 bits: START bit 7, MODE bit 6, address at bits 3 to 5
    assert_eq!(d.frame_bits(), 8);
    assert_eq!(d.frame_bytes(), 1);
    assert_eq!(d.single_ended_command(ch(2)).unwrap(), vec![0b1101_0000]);
    assert!(matches!(
        d.decode_response(&vec![0b10]),
        Err(Error::ResponseOutOfRange(2))
    ));
    assert_eq!(d.decode_response(&vec![1]).unwrap().value(), 1);
}

#[test]
fn encoder_and_reader_exact_values() {
    assert_eq!(encode_command(Mode::SingleEnded, 7, 3, 12), vec![0x07, 0xC0, 0x00]);
    assert_eq!(encode_command(Mode::Differential, 0, 3, 10), vec![0x01, 0x00, 0x00]);
    assert_eq!(encode_command(Mode::SingleEnded, 1, 1, 10), vec![0x70, 0x00]);
    assert_eq!(read_be(&vec![]), 0);
    assert_eq!(read_be(&vec![0x12]), 0x12);
    assert_eq!(read_be(&vec![0x12, 0x34, 0x56]), 0x12_3456);
}
