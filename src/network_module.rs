//! The protocol state of one peer: batching outgoing samples into frames of
//! `k`, releasing received samples one per call, measuring the rott and
//! adapting `k`.
//!
//! The module does no I/O. `send` returns the datagram to transmit, if any;
//! `try_recv` takes the newest datagram that arrived since the last call
//! (empty when none did). Times are microseconds of the local clock.
use crate::congestion_detection::{CongestionDetector, WEIGHT_ONE};
use crate::endian::{lemma_be_value_bound, lemma_byte_span_values};
use crate::hoip::{
    frame_bytes, parse_header, DelayIndicator, Header, Message, PayloadType,
    SamplingScheme, Serializable, HEADER_LEN,
};
use crate::k_policy::{valid_k, KPolicy, K_MAX};
use crate::network_analyzer::{next_avg, next_std, NetworkAnalyzer};
use crate::rate_limiter::{limiter_step, RateLimiter};
use vstd::prelude::*;
use vstd::slice::slice_subrange;

verus! {

/// The notional spacing of the samples of one frame, in microseconds.
pub const SAMPLE_PERIOD: u64 = 1000;

/// The threshold written into every frame.
pub const FRAME_THRESHOLD: u16 = 10;

/// The bytes of the records of `s`, one after the other.
pub open spec fn records_bytes<S: Serializable>(s: Seq<S>) -> Seq<u8>
    decreases s.len(),
{
    if s.len() == 0 {
        Seq::empty()
    } else {
        s[0].spec_bytes() + records_bytes(s.skip(1))
    }
}

/// The `i`-th record of length `len` in `payload`.
pub open spec fn record_at(payload: Seq<u8>, len: nat, i: int) -> Seq<u8> {
    payload.subrange(i * len, (i + 1) * len)
}

/// The time at which the sample at `offset` of a frame sent at `base` is
/// released, saturated at `u64::MAX`.
pub open spec fn release_stamp(base: u64, offset: int) -> u64 {
    if base + offset * SAMPLE_PERIOD <= u64::MAX {
        (base + offset * SAMPLE_PERIOD) as u64
    } else {
        u64::MAX
    }
}

/// One release from the queue `q` of a frame sent at `base`: the last
/// record leaves, stamped with its offset.
pub open spec fn pop_step<R>(q: Seq<R>, base: u64) -> (Seq<R>, Option<(u64, R)>) {
    if q.len() == 0 {
        (q, None)
    } else {
        (q.drop_last(), Some((release_stamp(base, q.len() - 1), q.last())))
    }
}

/// The queue after `j` releases in a row.
pub open spec fn pops<R>(q: Seq<R>, base: u64, j: nat) -> Seq<R>
    decreases j,
{
    if j == 0 {
        q
    } else {
        pop_step(pops(q, base, (j - 1) as nat), base).0
    }
}

/// What the release that follows `j` releases in a row hands out.
pub open spec fn released<R>(q: Seq<R>, base: u64, j: nat) -> Option<(u64, R)> {
    pop_step(pops(q, base, j), base).1
}

/// The rott of a frame sent at `sent` and received at `now`: zero if the
/// clocks disagree, saturated at `u32::MAX`.
pub open spec fn rott_since(now: u64, sent: u64) -> u32 {
    if now <= sent {
        0
    } else if now - sent <= u32::MAX {
        (now - sent) as u32
    } else {
        u32::MAX
    }
}

/// Whether `d` is a frame whose header decodes and whose payload holds the
/// records that the header announces, `len` bytes each.
pub open spec fn complete_frame(d: Seq<u8>, len: nat) -> bool {
    match parse_header(d) {
        Ok(h) => h.num_samples * len <= d.len() - HEADER_LEN,
        Err(_) => false,
    }
}

proof fn lemma_pops<R>(q: Seq<R>, base: u64, j: nat)
    requires
        j <= q.len(),
    ensures
        pops(q, base, j) == q.take(q.len() - j),
    decreases j,
{
    if j > 0 {
        lemma_pops(q, base, (j - 1) as nat);
        assert(q.take(q.len() - (j - 1)).drop_last() =~= q.take(q.len() - j));
    }
}

/// Within one frame, successive releases hand out the records last to
/// first, the `j`-th stamped `base + (len - 1 - j) * 1000`, so that the
/// offsets fall by one each time; once the queue is empty nothing comes.
pub proof fn lemma_release_order<R>(q: Seq<R>, base: u64, j: nat)
    ensures
        j < q.len() ==> released(q, base, j) == Some((release_stamp(base, q.len() - 1 - j), q[q.len() - 1 - j])),
        j >= q.len() ==> released(q, base, j) == None::<(u64, R)>,
    decreases j,
{
    if j <= q.len() {
        lemma_pops(q, base, j);
    } else {
        lemma_release_order(q, base, (j - 1) as nat);
        lemma_pops(q, base, q.len());
        assert(pops(q, base, (j - 1) as nat).len() == 0) by {
            lemma_empty_stays(q, base, q.len(), (j - 1) as nat);
        }
    }
}

proof fn lemma_empty_stays<R>(q: Seq<R>, base: u64, i: nat, j: nat)
    requires
        i <= j,
        pops(q, base, i).len() == 0,
    ensures
        pops(q, base, j).len() == 0,
    decreases j - i,
{
    if j > i {
        lemma_empty_stays(q, base, i, (j - 1) as nat);
    }
}

/// Stamps within one frame strictly fall while they do not saturate.
pub proof fn lemma_release_stamps_fall(base: u64, a: int, b: int)
    requires
        0 <= a < b,
        base + b * SAMPLE_PERIOD <= u64::MAX,
    ensures
        release_stamp(base, a) < release_stamp(base, b),
{
}

/// In every well-formed state, which `new` establishes and every method
/// keeps, `k` lies between `K_MIN` and `K_MAX` and no more than `k` samples
/// wait to be sent.
pub proof fn lemma_k_bounds<S: Serializable, R: Serializable, CD: CongestionDetector, KP: KPolicy>(
    m: NetworkModule<S, R, CD, KP>,
)
    requires
        m.wf(),
    ensures
        valid_k(m.spec_k()),
        m.pending().len() <= m.spec_k(),
{
}

pub struct NetworkModule<S, R, CD, KP> {
    payloads: Vec<S>,
    msgs: Vec<R>,
    msgs_offset: u64,
    rott: u32,
    previous_timestamp: u64,
    network_analyzer: NetworkAnalyzer<CD>,
    k_policy: KP,
    k: i8,
    op: PayloadType,
    rate_limiter: RateLimiter,
    cooloff: usize,
}

impl<S: Serializable, R: Serializable, CD: CongestionDetector, KP: KPolicy> NetworkModule<
    S,
    R,
    CD,
    KP,
> {
    pub closed spec fn wf(&self) -> bool {
        &&& valid_k(self.k)
        &&& self.payloads@.len() <= self.k
        &&& self.msgs@.len() <= K_MAX
        &&& self.msgs_offset == self.msgs@.len()
        &&& self.network_analyzer.wf()
        &&& self.k_policy.inv()
        &&& self.rate_limiter.wf()
    }

    /// The current compression factor.
    pub closed spec fn spec_k(&self) -> i8 {
        self.k
    }

    /// The samples waiting to be sent, oldest first.
    pub closed spec fn pending(&self) -> Seq<S> {
        self.payloads@
    }

    /// The received samples waiting to be released; the last leaves first.
    pub closed spec fn queue(&self) -> Seq<R> {
        self.msgs@
    }

    /// The timestamp of the newest frame taken in.
    pub closed spec fn previous_timestamp(&self) -> u64 {
        self.previous_timestamp
    }

    /// The rott measured on the latest frame, for the next outgoing header.
    pub closed spec fn last_rott(&self) -> u32 {
        self.rott
    }

    pub closed spec fn role(&self) -> PayloadType {
        self.op
    }

    pub closed spec fn limiter(&self) -> RateLimiter {
        self.rate_limiter
    }

    pub closed spec fn analyzer(&self) -> NetworkAnalyzer<CD> {
        self.network_analyzer
    }

    pub closed spec fn policy(&self) -> KP {
        self.k_policy
    }

    pub closed spec fn spec_cooloff(&self) -> usize {
        self.cooloff
    }

    /// Creates the module of a peer in role `op`: `k` at `K_MAX`, nothing
    /// pending, nothing received, a full token bucket of `rate` hertz at
    /// time `now`. `w` is in units of `1 / WEIGHT_ONE`.
    pub fn new(
        congestion_detector: CD,
        k_policy: KP,
        w: u32,
        cooloff: usize,
        op: PayloadType,
        rate: u64,
        now: u64,
    ) -> (r: Self)
        requires
            w <= WEIGHT_ONE,
            congestion_detector.inv(),
            k_policy.inv(),
        ensures
            r.wf(),
            r.spec_k() == K_MAX,
            r.pending().len() == 0,
            r.queue().len() == 0,
            r.previous_timestamp() == 0,
            r.last_rott() == 0,
            r.role() == op,
            r.spec_cooloff() == cooloff,
            r.analyzer().weight() == w,
            r.analyzer().spec_state() == crate::congestion_detection::CongestionState::NotSure,
            r.policy() == k_policy,
            r.limiter().spec_rate() == rate,
            r.limiter().tokens() == rate * crate::rate_limiter::TOKEN_UNIT,
            r.limiter().previous() == now,
    {
        Self {
            payloads: Vec::new(),
            msgs: Vec::new(),
            msgs_offset: 0,
            rott: 0,
            previous_timestamp: 0,
            network_analyzer: NetworkAnalyzer::new(congestion_detector, w),
            k_policy,
            k: K_MAX,
            op,
            rate_limiter: RateLimiter::new(rate, now),
            cooloff,
        }
    }

    /// Queues `payload` for sending at time `now`. First lets the policy
    /// choose `k` from the analyzer's state. When `k` samples are pending
    /// (the oldest dropped beyond `k`) and the limiter admits, returns the
    /// frame of those samples to transmit and empties the queue.
    pub fn send(&mut self, payload: S, now: u64) -> (r: Option<Vec<u8>>)
        requires
            old(self).wf(),
        ensures
            final(self).wf(),
            final(self).pending().len() <= final(self).spec_k(),
            final(self).spec_k() == match old(self).policy().choice(
                old(self).analyzer().spec_state(),
                old(self).spec_k(),
            ) {
                Some(k) => k,
                None => old(self).spec_k(),
            },
            final(self).role() == old(self).role(),
            final(self).analyzer() == old(self).analyzer(),
            final(self).queue() == old(self).queue(),
            final(self).previous_timestamp() == old(self).previous_timestamp(),
            final(self).last_rott() == old(self).last_rott(),
            final(self).limiter().spec_rate() == old(self).limiter().spec_rate(),
            ({
                let k = final(self).spec_k() as int;
                let buf = old(self).pending().push(payload);
                let kept = buf.skip(buf.len() - k);
                let step = limiter_step(
                    old(self).limiter().spec_rate(),
                    old(self).limiter().previous(),
                    old(self).limiter().tokens(),
                    now,
                );
                let header = Header {
                    payload_type: old(self).role(),
                    sampling_scheme: SamplingScheme::Lossless,
                    num_samples: k as u8,
                    delay_indicator: DelayIndicator::InHeader,
                    threshold: FRAME_THRESHOLD,
                    rott: old(self).last_rott(),
                    timestamp: now,
                };
                &&& buf.len() < k ==> r is None && final(self).pending() == buf && final(self).limiter() == old(self).limiter()
                &&& buf.len() >= k ==> final(self).limiter().previous() == step.0 && final(self).limiter().tokens() == step.1
                &&& buf.len() >= k && !step.2 ==> r is None && final(self).pending() == kept
                &&& buf.len() >= k && step.2 ==> final(self).pending().len() == 0 && r is Some
                    && r->0@ == frame_bytes(header, records_bytes(kept))
            }),
    {
        let state = self.network_analyzer.state();
        if let Some(new_k) = self.k_policy.select_k(state, self.k) {
            self.k = new_k;
        }

        self.payloads.push(payload);
        let k = self.k as usize;
        if self.payloads.len() < k {
            return None;
        }

        let ghost buf = self.payloads@;
        let too_many = self.payloads.len() - k;
        let mut i: usize = 0;
        while i < too_many
            invariant
                i <= too_many,
                too_many == buf.len() - k,
                self.payloads@ == buf.skip(i as int),
                k == self.k,
                valid_k(self.k),
                self.network_analyzer == old(self).network_analyzer,
                self.network_analyzer.wf(),
                self.k_policy.inv(),
                self.rate_limiter == old(self).rate_limiter,
                self.msgs == old(self).msgs,
                self.msgs_offset == old(self).msgs_offset,
                self.rott == old(self).rott,
                self.previous_timestamp == old(self).previous_timestamp,
                self.op == old(self).op,
            decreases too_many - i,
        {
            self.payloads.remove(0);
            i += 1;
            assert(self.payloads@ =~= buf.skip(i as int));
        }

        if self.rate_limiter.limited(now) {
            return None;
        }

        let ghost kept = self.payloads@;
        let ghost limiter = self.rate_limiter;
        let mut bytes: Vec<u8> = Vec::new();
        while self.payloads.len() > 0
            invariant
                bytes@ + records_bytes(self.payloads@) == records_bytes(kept),
                k == self.k,
                valid_k(self.k),
                self.network_analyzer == old(self).network_analyzer,
                self.network_analyzer.wf(),
                self.k_policy.inv(),
                self.rate_limiter == limiter,
                limiter.wf(),
                limiter.spec_rate() == old(self).rate_limiter.spec_rate(),
                self.msgs == old(self).msgs,
                self.msgs_offset == old(self).msgs_offset,
                self.rott == old(self).rott,
                self.previous_timestamp == old(self).previous_timestamp,
                self.op == old(self).op,
            decreases self.payloads@.len(),
        {
            let ghost before = self.payloads@;
            let p = self.payloads.remove(0);
            let mut b = p.to_bytes();
            proof {
                assert(before.skip(1) =~= self.payloads@);
                assert(bytes@ + b@ + records_bytes(self.payloads@) =~= bytes@ + records_bytes(
                    before,
                ));
            }
            bytes.append(&mut b);
        }
        assert(bytes@ =~= records_bytes(kept));
        let msg = Message {
            header: Header {
                payload_type: self.op,
                sampling_scheme: SamplingScheme::Lossless,
                num_samples: k as u8,
                delay_indicator: DelayIndicator::InHeader,
                threshold: FRAME_THRESHOLD,
                rott: self.rott,
                timestamp: now,
            },
            payload: bytes,
        };
        Some(msg.to_bytes())
    }

    fn try_pop_msg(&mut self) -> (r: Option<(u64, R)>)
        requires
            old(self).wf(),
        ensures
            final(self).wf(),
            (final(self).queue(), r) == pop_step(old(self).queue(), old(self).previous_timestamp()),
            final(self).previous_timestamp() == old(self).previous_timestamp(),
            final(self).last_rott() == old(self).last_rott(),
            final(self).spec_k() == old(self).spec_k(),
            final(self).pending() == old(self).pending(),
            final(self).role() == old(self).role(),
            final(self).limiter() == old(self).limiter(),
            final(self).analyzer() == old(self).analyzer(),
    {
        match self.msgs.pop() {
            None => None,
            Some(m) => {
                self.msgs_offset = self.msgs_offset - 1;
                let step = self.msgs_offset * SAMPLE_PERIOD;
                let ts = if self.previous_timestamp <= u64::MAX - step {
                    self.previous_timestamp + step
                } else {
                    u64::MAX
                };
                Some((ts, m))
            },
        }
    }

    /// Takes in `datagram`, the newest datagram received since the last call
    /// (empty if none), at time `now`, and releases one sample with its
    /// stamp. A frame that decodes sets the rott; one newer than every frame
    /// before whose payload holds its records replaces the queue and feeds
    /// the analyzer. Anything else leaves the queue as it was.
    pub fn try_recv(&mut self, datagram: &[u8], now: u64) -> (r: Option<(u64, R)>)
        requires
            old(self).wf(),
        ensures
            final(self).wf(),
            final(self).spec_k() == old(self).spec_k(),
            final(self).pending() == old(self).pending(),
            final(self).role() == old(self).role(),
            final(self).limiter() == old(self).limiter(),
            final(self).previous_timestamp() >= old(self).previous_timestamp(),
            match r {
                Some((ts, _)) => final(self).previous_timestamp() <= ts,
                None => true,
            },
            match parse_header(datagram@) {
                Ok(h) => datagram@.len() > 0 ==> final(self).last_rott() == rott_since(
                    now,
                    h.timestamp,
                ),
                Err(_) => final(self).last_rott() == old(self).last_rott(),
            },
            ({
                let d = datagram@;
                let len = R::spec_len();
                let h = parse_header(d)->Ok_0;
                let accepted = d.len() > 0 && complete_frame(d, len) && h.timestamp
                    > old(self).previous_timestamp();
                let n = h.num_samples as int;
                let fed = (h.rott + (n - 1) * SAMPLE_PERIOD) as u32;
                let a = old(self).analyzer();
                &&& !accepted ==> final(self).analyzer() == a
                &&& accepted ==> final(self).analyzer().prev_rott() == fed
                    && final(self).analyzer().avg_rott() == next_avg(a.avg_rott(), a.weight() as int, fed)
                    && final(self).analyzer().std_rott() == next_std(
                    final(self).analyzer().avg_rott(),
                    a.weight() as int,
                    fed,
                ) && final(self).analyzer().spec_state() == a.detector().verdict(
                    fed,
                    final(self).analyzer().avg_rott() as i64,
                    final(self).analyzer().std_rott() as i64,
                    a.prev_rott(),
                )
                &&& !accepted ==> final(self).previous_timestamp() == old(self).previous_timestamp()
                    && (final(self).queue(), r) == pop_step(
                    old(self).queue(),
                    old(self).previous_timestamp(),
                )
                &&& accepted ==> final(self).previous_timestamp() == h.timestamp
                    && final(self).queue().len() == n - 1
                    && (forall|i: int| 0 <= i < n - 1 ==> (#[trigger] final(self).queue()[i]).spec_bytes()
                        == record_at(d.skip(HEADER_LEN as int), len, i))
                    && match r {
                    Some((ts, m)) => ts == release_stamp(h.timestamp, n - 1) && m.spec_bytes()
                        == record_at(d.skip(HEADER_LEN as int), len, n - 1),
                    None => false,
                }
            }),
    {
        if datagram.len() == 0 {
            return self.try_pop_msg();
        }
        let msg = match Message::from_bytes(datagram) {
            Ok(msg) => msg,
            Err(_) => {
                return self.try_pop_msg();
            },
        };
        self.rott = if now <= msg.timestamp() {
            0
        } else if now - msg.timestamp() <= u32::MAX as u64 {
            (now - msg.timestamp()) as u32
        } else {
            u32::MAX
        };
        let len = R::len();
        let n = msg.num_samples() as usize;
        let complete = msg.payload.len() / len >= n;
        proof {
            let pl = msg.payload@.len() as int;
            vstd::arithmetic::div_mod::lemma_fundamental_div_mod(pl, len as int);
            if complete {
                assert(n * len <= pl) by (nonlinear_arith)
                    requires
                        pl / (len as int) >= n,
                        len > 0,
                        pl == len * (pl / (len as int)) + pl % (len as int),
                        pl % (len as int) >= 0,
                ;
            }
            if n * len <= pl {
                vstd::arithmetic::div_mod::lemma_div_is_ordered(n * len, pl, len as int);
                vstd::arithmetic::div_mod::lemma_div_multiples_vanish(n as int, len as int);
            }
        }
        if self.previous_timestamp < msg.timestamp() && complete {
            proof {
                lemma_byte_span_values();
                lemma_be_value_bound(datagram@.subrange(3, 6));
            }
            self.msgs = split_records(msg.payload.as_slice(), n);
            self.msgs_offset = n as u64;
            self.network_analyzer.update_state(
                msg.rott() + (SAMPLE_PERIOD as u32) * (n as u32 - 1),
            );
            self.previous_timestamp = msg.timestamp();
            let ghost records = self.msgs@;
            let r = self.try_pop_msg();
            proof {
                let len = R::spec_len();
                assert(msg.payload@ == datagram@.skip(HEADER_LEN as int));
                assert forall|i: int| 0 <= i < n - 1 implies (#[trigger] self.msgs@[i]).spec_bytes()
                    == record_at(datagram@.skip(HEADER_LEN as int), len, i) by {
                    assert(self.msgs@[i] == records[i]);
                }
            }
            return r;
        }
        proof {
            let h = parse_header(datagram@)->Ok_0;
            assert(h == msg.header);
            assert(!(complete_frame(datagram@, R::spec_len()) && h.timestamp
                > old(self).previous_timestamp()));
        }
        self.try_pop_msg()
    }

    pub fn k(&self) -> (r: i8)
        ensures
            r == self.spec_k(),
    {
        self.k
    }

    /// The send rate limit in hertz.
    pub fn rate(&self) -> (r: u64)
        ensures
            r == self.limiter().spec_rate(),
    {
        self.rate_limiter.rate()
    }

    /// Sets the send rate limit in hertz; the token bucket keeps its tokens.
    pub fn set_rate(&mut self, rate: u64)
        requires
            old(self).wf(),
        ensures
            final(self).wf(),
            final(self).limiter().spec_rate() == rate,
            final(self).limiter().tokens() == old(self).limiter().tokens(),
            final(self).limiter().previous() == old(self).limiter().previous(),
            final(self).spec_k() == old(self).spec_k(),
            final(self).pending() == old(self).pending(),
            final(self).queue() == old(self).queue(),
    {
        self.rate_limiter.set_rate(rate);
    }

    /// The cool-off, in ticks, that the module was created with.
    pub fn cooloff(&self) -> (r: usize)
        ensures
            r == self.spec_cooloff(),
    {
        self.cooloff
    }
}

/// Decodes the first `n` records of `payload`.
fn split_records<R: Serializable>(payload: &[u8], n: usize) -> (r: Vec<R>)
    requires
        n * R::spec_len() <= payload@.len(),
    ensures
        r@.len() == n,
        forall|i: int| 0 <= i < n ==> (#[trigger] r@[i]).spec_bytes() == record_at(payload@, R::spec_len(), i),
{
    let len = R::len();
    let plen = payload.len();
    let mut r: Vec<R> = Vec::new();
    let mut i: usize = 0;
    while i < n
        invariant
            plen == payload@.len(),
            i <= n,
            len == R::spec_len(),
            len > 0,
            n * len <= payload@.len(),
            r@.len() == i,
            forall|j: int| 0 <= j < i ==> (#[trigger] r@[j]).spec_bytes() == record_at(payload@, len as nat, j),
        decreases n - i,
    {
        proof {
            assert((i + 1) * len <= n * len) by (nonlinear_arith)
                requires
                    i + 1 <= n,
            ;
            assert(i * len + len == (i + 1) * len) by (nonlinear_arith);
        }
        let chunk = slice_subrange(payload, i * len, i * len + len);
        let rec = R::from_bytes(chunk);
        proof {
            assert(chunk@.take(len as int) =~= chunk@);
        }
        r.push(rec);
        i += 1;
    }
    r
}

} // verus!
