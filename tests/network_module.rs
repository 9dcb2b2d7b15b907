use hoip_net::congestion_detection::{CongestionState, ZigZag};
use hoip_net::hoip::{
    DelayIndicator, Header, Message, PayloadM2S, PayloadS2M, PayloadType, SamplingScheme,
    Serializable,
};
use hoip_net::k_policy::{KPolicy, KPolicySDMI, K_MAX};
use hoip_net::NetworkModule;

/// Hands out a fixed sequence of choices, then keeps the last.
struct Scripted {
    choices: Vec<Option<i8>>,
}

impl KPolicy for Scripted {
    fn inv(&self) -> bool {
        true
    }

    fn choice(&self, _state: CongestionState, _current_k: i8) -> Option<i8> {
        self.choices[0]
    }

    fn select_k(&mut self, _state: CongestionState, _current_k: i8) -> Option<i8> {
        if self.choices.len() > 1 {
            self.choices.remove(0)
        } else {
            self.choices[0]
        }
    }
}

fn pose(i: u32) -> PayloadM2S {
    PayloadM2S::new([i, i + 1, i + 2], [0, 0, i])
}

fn force(i: u32) -> PayloadS2M {
    PayloadS2M::new([i, 2 * i, 3 * i])
}

fn frame_of(forces: &[PayloadS2M], timestamp: u64, rott: u32) -> Vec<u8> {
    let mut payload = Vec::new();
    for f in forces {
        payload.extend_from_slice(&f.clone().to_bytes());
    }
    Message {
        header: Header {
            payload_type: PayloadType::Slave,
            sampling_scheme: SamplingScheme::Lossless,
            num_samples: forces.len() as u8,
            delay_indicator: DelayIndicator::InHeader,
            threshold: 10,
            rott,
            timestamp,
        },
        payload,
    }
    .to_bytes()
}

type Master<KP> = NetworkModule<PayloadM2S, PayloadS2M, ZigZag, KP>;

fn master<KP: KPolicy>(policy: KP, rate: u64) -> Master<KP> {
    NetworkModule::new(ZigZag::new(), policy, 100_000, 10, PayloadType::Master, rate, 0)
}

#[test]
fn starts_at_largest_k() {
    let m = master(KPolicySDMI, 100);
    assert_eq!(m.k(), K_MAX);
    assert_eq!(m.rate(), 100);
}

#[test]
fn batches_k_samples_per_frame() {
    let mut m = master(Scripted { choices: vec![Some(3)] }, 100);
    assert_eq!(m.send(pose(1), 10), None);
    assert_eq!(m.k(), 3);
    assert_eq!(m.send(pose(2), 20), None);
    let frame = m.send(pose(3), 30).expect("a frame after the third sample");
    assert_eq!(frame.len(), 14 + 3 * 24);
    let msg = Message::from_bytes(&frame).unwrap();
    assert_eq!(msg.header.payload_type, PayloadType::Master);
    assert_eq!(msg.header.sampling_scheme, SamplingScheme::Lossless);
    assert_eq!(msg.header.delay_indicator, DelayIndicator::InHeader);
    assert_eq!(msg.header.num_samples, 3);
    assert_eq!(msg.header.threshold, 10);
    assert_eq!(msg.header.rott, 0);
    assert_eq!(msg.header.timestamp, 30);
    assert_eq!(PayloadM2S::from_bytes(&msg.payload[0..24]), pose(1));
    assert_eq!(PayloadM2S::from_bytes(&msg.payload[48..72]), pose(3));
    // the buffer is empty again
    assert_eq!(m.send(pose(4), 40), None);
}

#[test]
fn shrinking_k_drops_the_oldest() {
    // no tokens at first: the fourth sample stays pending
    let mut m = master(
        Scripted { choices: vec![None, None, None, None, Some(2)] },
        0,
    );
    for i in 1..5 {
        assert_eq!(m.send(pose(i), 0), None);
    }
    m.set_rate(1_000_000);
    let frame = m.send(pose(5), 1).expect("one token after a microsecond");
    assert_eq!(m.k(), 2);
    let msg = Message::from_bytes(&frame).unwrap();
    assert_eq!(msg.header.num_samples, 2);
    assert_eq!(msg.payload.len(), 48);
    assert_eq!(PayloadM2S::from_bytes(&msg.payload[0..24]), pose(4));
    assert_eq!(PayloadM2S::from_bytes(&msg.payload[24..48]), pose(5));
}

#[test]
fn rate_limited_frame_keeps_buffer() {
    let mut m = master(Scripted { choices: vec![Some(1)] }, 1);
    assert!(m.send(pose(1), 0).is_some());
    // the single token is spent: the next sample waits
    assert_eq!(m.send(pose(2), 1), None);
    // and is replaced by the newer one once a token is back
    let frame = m.send(pose(3), 1_000_001).unwrap();
    let msg = Message::from_bytes(&frame).unwrap();
    assert_eq!(PayloadM2S::from_bytes(&msg.payload), pose(3));
}

#[test]
fn releases_samples_last_first_one_ms_apart() {
    let mut m = master(KPolicySDMI, 100);
    let t = 1_000_000;
    let forces = [force(1), force(2), force(3), force(4)];
    let frame = frame_of(&forces, t, 7);
    assert_eq!(m.try_recv(&frame, t + 500), Some((t + 3000, force(4))));
    assert_eq!(m.try_recv(&[], t + 600), Some((t + 2000, force(3))));
    assert_eq!(m.try_recv(&[], t + 700), Some((t + 1000, force(2))));
    assert_eq!(m.try_recv(&[], t + 800), Some((t, force(1))));
    assert_eq!(m.try_recv(&[], t + 900), None);
    // a newer frame fills the queue again
    let frame = frame_of(&[force(9)], t + 1, 7);
    assert_eq!(m.try_recv(&frame, t + 1000), Some((t + 1, force(9))));
}

#[test]
fn older_frames_are_not_released() {
    let mut m = master(KPolicySDMI, 100);
    let t = 5_000;
    assert_eq!(m.try_recv(&frame_of(&[force(1), force(2)], t, 0), t), Some((t + 1000, force(2))));
    assert_eq!(m.try_recv(&frame_of(&[force(8)], t, 0), t), Some((t, force(1))));
    assert_eq!(m.try_recv(&frame_of(&[force(8)], t - 1, 0), t), None);
}

#[test]
fn broken_datagrams_leave_the_queue() {
    let mut m = master(KPolicySDMI, 100);
    let t = 5_000;
    assert_eq!(m.try_recv(&frame_of(&[force(1), force(2)], t, 0), t), Some((t + 1000, force(2))));
    // both scheme flags set
    let mut malformed = frame_of(&[force(3)], t + 10, 0);
    malformed[0] |= 0b0001_1000;
    assert_eq!(m.try_recv(&malformed, t), Some((t, force(1))));
    // announces two records, holds one
    let mut short = frame_of(&[force(3)], t + 20, 0);
    short[0] |= 0b0000_0100;
    assert_eq!(m.try_recv(&short, t), None);
    assert_eq!(m.try_recv(&[1, 2, 3], t), None);
}

#[test]
fn measured_rott_goes_into_the_next_header() {
    let mut m = master(Scripted { choices: vec![Some(1)] }, 100);
    m.try_recv(&frame_of(&[force(1)], 2_000, 0), 2_750);
    let frame = m.send(pose(1), 3_000).unwrap();
    assert_eq!(Message::from_bytes(&frame).unwrap().rott(), 750);
}

#[test]
fn congestion_raises_k() {
    // SDMI: k steps down while the link looks idle and jumps back under congestion
    let mut m = master(KPolicySDMI, 1_000);
    // a tiny rott: not congested
    m.try_recv(&frame_of(&[force(1)], 10, 0), 10);
    m.send(pose(1), 100);
    assert_eq!(m.k(), 3);
    m.send(pose(2), 200);
    assert_eq!(m.k(), 2);
    // a large rott: congested
    m.try_recv(&frame_of(&[force(2)], 20, 1_000_000), 300);
    m.send(pose(3), 400);
    assert_eq!(m.k(), K_MAX);
}
