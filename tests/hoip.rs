use hoip_net::hoip::{
    DelayIndicator, FrameError, Header, Message, PayloadM2S, PayloadS2M, PayloadType,
    SamplingScheme, Serializable,
};

fn header(
    payload_type: PayloadType,
    sampling_scheme: SamplingScheme,
    num_samples: u8,
    delay_indicator: DelayIndicator,
) -> Header {
    Header {
        payload_type,
        sampling_scheme,
        num_samples,
        delay_indicator,
        threshold: 0,
        rott: 0,
        timestamp: 0,
    }
}

#[test]
fn basic() {
    for payload_type in vec![PayloadType::Master, PayloadType::Slave].into_iter() {
        for sampling_scheme in vec![
            SamplingScheme::Weber,
            SamplingScheme::LevelCrossing,
            SamplingScheme::Lossless,
        ]
        .into_iter()
        {
            for num_samples in 1..5 {
                for delay_indicator in
                    vec![DelayIndicator::InHeader, DelayIndicator::InPayload].into_iter()
                {
                    let msg = Message {
                        header: Header {
                            payload_type,
                            sampling_scheme,
                            num_samples,
                            delay_indicator,
                            threshold: 10,
                            rott: 1,
                            timestamp: std::u64::MAX,
                        },
                        payload: vec![1, 2, 3],
                    };
                    assert_eq!(Ok(msg.clone()), Message::from_bytes(&msg.to_bytes()));
                }
            }
        }
    }
}

#[test]
fn header_of_zeros_is_fourteen_zero_bytes() {
    let msg = Message {
        header: header(
            PayloadType::Master,
            SamplingScheme::Lossless,
            1,
            DelayIndicator::InHeader,
        ),
        payload: vec![],
    };
    assert_eq!(msg.to_bytes(), vec![0u8; 14]);
}

#[test]
fn first_byte_sets_every_flag() {
    let msg = Message {
        header: header(
            PayloadType::Slave,
            SamplingScheme::Weber,
            4,
            DelayIndicator::InPayload,
        ),
        payload: vec![],
    };
    let bytes = msg.to_bytes();
    assert_eq!(bytes[0], 0b1001_0111);
    assert_eq!(Message::from_bytes(&bytes), Ok(msg));
}

#[test]
fn first_byte_of_each_sample_count() {
    let expected = [0x00u8, 0x04, 0x02, 0x06];
    for n in 1..5u8 {
        let msg = Message {
            header: header(
                PayloadType::Master,
                SamplingScheme::LevelCrossing,
                n,
                DelayIndicator::InHeader,
            ),
            payload: vec![],
        };
        assert_eq!(msg.to_bytes()[0], 0x08 | expected[(n - 1) as usize]);
    }
}

#[test]
fn fields_are_big_endian() {
    let mut h = header(
        PayloadType::Master,
        SamplingScheme::Lossless,
        1,
        DelayIndicator::InHeader,
    );
    h.threshold = 0x0102;
    h.rott = 0x030405;
    h.timestamp = 0x0607_0809_0a0b_0c0d;
    let msg = Message { header: h, payload: vec![0xee, 0xff] };
    assert_eq!(
        msg.to_bytes(),
        vec![0, 1, 2, 3, 4, 5, 6, 7, 8, 9, 10, 11, 12, 13, 0xee, 0xff]
    );
}

#[test]
fn rott_saturates_at_three_bytes() {
    let mut h = header(
        PayloadType::Slave,
        SamplingScheme::Lossless,
        2,
        DelayIndicator::InHeader,
    );
    h.rott = 0x1FF_FFFF;
    let msg = Message { header: h, payload: vec![] };
    let decoded = Message::from_bytes(&msg.to_bytes()).unwrap();
    assert_eq!(decoded.rott(), 0x00FF_FFFF);
}

#[test]
fn largest_rott_saturates() {
    let mut h = header(
        PayloadType::Master,
        SamplingScheme::Weber,
        3,
        DelayIndicator::InPayload,
    );
    h.rott = u32::MAX;
    let msg = Message { header: h, payload: vec![9] };
    let decoded = Message::from_bytes(&msg.to_bytes()).unwrap();
    assert_eq!(decoded.rott(), 0xFF_FFFF);
    assert_eq!(decoded.num_samples(), 3);
    assert_eq!(decoded.timestamp(), 0);
    assert_eq!(decoded.payload, vec![9]);
}

#[test]
fn both_scheme_flags_are_malformed() {
    let mut bytes = vec![0u8; 14];
    bytes[0] = 0b0001_1000;
    assert_eq!(Message::from_bytes(&bytes), Err(FrameError::MalformedFrame));
}

#[test]
fn short_header_is_a_short_read() {
    assert_eq!(Message::from_bytes(&[0u8; 13]), Err(FrameError::ShortRead));
    assert_eq!(Message::from_bytes(&[]), Err(FrameError::ShortRead));
}

#[test]
fn reserved_bits_are_ignored() {
    let mut bytes = vec![0u8; 14];
    bytes[0] = 0b0110_0000;
    let decoded = Message::from_bytes(&bytes).unwrap();
    assert_eq!(
        decoded.header,
        header(
            PayloadType::Master,
            SamplingScheme::Lossless,
            1,
            DelayIndicator::InHeader
        )
    );
}

#[test]
fn force_record_round_trip() {
    let force = [1.0f32.to_bits(), (-2.5f32).to_bits(), 0];
    let bytes = PayloadS2M::new(force).to_bytes();
    assert_eq!(bytes.len(), PayloadS2M::len());
    assert_eq!(&bytes[0..4], &[0x3f, 0x80, 0, 0]);
    assert_eq!(&bytes[4..8], &[0xc0, 0x20, 0, 0]);
    assert_eq!(PayloadS2M::from_bytes(&bytes).force(), force);
}

#[test]
fn pose_record_round_trip() {
    let pos = [1, 2, 3];
    let vel = [0x0102_0304, 5, u32::MAX];
    let bytes = PayloadM2S::new(pos, vel).to_bytes();
    assert_eq!(bytes.len(), 24);
    assert_eq!(PayloadM2S::len(), 24);
    assert_eq!(&bytes[12..16], &[1, 2, 3, 4]);
    let back = PayloadM2S::from_bytes(&bytes);
    assert_eq!(back.pos(), pos);
    assert_eq!(back.vel(), vel);
}

#[test]
fn record_decodes_from_longer_buffer() {
    let mut bytes = PayloadS2M::new([7, 8, 9]).to_bytes();
    bytes.extend_from_slice(&[1, 2, 3]);
    assert_eq!(PayloadS2M::from_bytes(&bytes), PayloadS2M::new([7, 8, 9]));
}
