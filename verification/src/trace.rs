//! Path tracing: ICMP packets and the bookkeeping of hops.
use crate::text::same_text;
use vstd::arithmetic::div_mod::lemma_mod_multiples_vanish;
use vstd::prelude::*;

verus! {

/// One step on the path toward a target.
#[derive(Clone, Debug)]
pub struct Hop {
    pub ttl: u8,
    /// The address that answered, in text form.
    pub addr: Option<String>,
    /// Round-trip time in nanoseconds.
    pub rtt: Option<u128>,
}

/// The most hops that a trace takes.
pub const MAX_HOPS: u8 = 30;

/// The longest time span that a `Duration` holds, in nanoseconds.
pub const MAX_DURATION: u128 = 18_446_744_073_709_551_615_999_999_999;

// ---------------------------------------------------------------------------
// Internet checksum
// ---------------------------------------------------------------------------

/// The sum of the big-endian 16-bit words of `data`; an odd last byte counts
/// as the high byte of a word.
pub open spec fn word_sum(data: Seq<u8>) -> nat
    decreases data.len(),
{
    if data.len() == 0 {
        0
    } else if data.len() == 1 {
        data[0] as nat * 256
    } else {
        data[0] as nat * 256 + data[1] as nat + word_sum(data.skip(2))
    }
}

/// The ones' complement sum: the representative of `sum` modulo 65535 that is
/// zero only when `sum` is.
pub open spec fn ones_fold(sum: nat) -> nat {
    if sum == 0 {
        0
    } else {
        ((sum - 1) % 65535 + 1) as nat
    }
}

/// The internet checksum of `data`.
pub open spec fn checksum(data: Seq<u8>) -> u16 {
    (65535 - ones_fold(word_sum(data))) as u16
}

proof fn lemma_fold_step(s: u32)
    ensures
        s >> 16 == s / 65536,
        s & 0xFFFF == s % 65536,
        ones_fold((s % 65536 + s / 65536) as nat) == ones_fold(s as nat),
        s >= 65536 ==> s % 65536 + s / 65536 < s,
        (s >> 16 == 0) == (s < 65536),
{
    assert(s >> 16 == s / 65536) by (bit_vector);
    assert(s & 0xFFFF == s % 65536) by (bit_vector);
    let q = (s / 65536) as int;
    let t = s % 65536 + q;
    assert(s == t + 65535 * q);
    if s > 0 {
        assert(t > 0);
        lemma_mod_multiples_vanish(q, t - 1, 65535);
        assert(65535 * q + (t - 1) == s - 1);
    }
}

/// The internet checksum (RFC 1071) of `data`.
pub fn internet_checksum(data: &[u8]) -> (res: u16)
    requires
        word_sum(data@) <= u32::MAX,
    ensures
        res == checksum(data@),
{
    let mut sum: u32 = 0;
    let mut i: usize = 0;
    assert(data@.skip(0) == data@);
    while data.len() - i > 1
        invariant
            i <= data@.len(),
            sum + word_sum(data@.skip(i as int)) == word_sum(data@),
            word_sum(data@) <= u32::MAX,
        decreases data@.len() - i,
    {
        assert(data@.skip(i as int).skip(2) == data@.skip(i + 2));
        sum = sum + (data[i] as u32 * 256 + data[i + 1] as u32);
        i += 2;
    }
    if i < data.len() {
        sum = sum + data[i] as u32 * 256;
    }
    assert(sum == word_sum(data@));
    proof {
        lemma_fold_step(sum);
    }
    while sum >> 16 != 0
        invariant
            ones_fold(sum as nat) == ones_fold(word_sum(data@)),
            (sum >> 16 == 0) == (sum < 65536),
        decreases sum,
    {
        proof {
            lemma_fold_step(sum);
        }
        sum = (sum & 0xFFFF) + (sum >> 16);
        proof {
            lemma_fold_step(sum);
        }
    }
    assert(ones_fold(sum as nat) == sum);
    let low: u16 = sum as u16;
    assert(!low == 65535 - low) by (bit_vector);
    !low
}

// ---------------------------------------------------------------------------
// Echo requests
// ---------------------------------------------------------------------------

/// The two bytes of `x`, high byte first.
pub open spec fn be_bytes(x: u16) -> Seq<u8> {
    seq![(x / 256) as u8, (x % 256) as u8]
}

/// An ICMP echo request with the given checksum field.
pub open spec fn echo_with(check: u16, ident: u16, seq: u16, payload: Seq<u8>) -> Seq<u8> {
    seq![8u8, 0u8] + be_bytes(check) + be_bytes(ident) + be_bytes(seq) + payload
}

/// An ICMP echo request: its checksum field holds the checksum of the packet
/// taken with a zero in that field.
pub open spec fn echo_packet(ident: u16, seq: u16, payload: Seq<u8>) -> Seq<u8> {
    echo_with(checksum(echo_with(0, ident, seq, payload)), ident, seq, payload)
}

fn push_be(out: &mut Vec<u8>, x: u16)
    ensures
        final(out)@ == old(out)@ + be_bytes(x),
{
    out.push((x / 256) as u8);
    out.push((x % 256) as u8);
}

fn echo_bytes(check: u16, ident: u16, seq: u16, payload: &[u8]) -> (res: Vec<u8>)
    ensures
        res@ == echo_with(check, ident, seq, payload@),
{
    let mut pkt: Vec<u8> = Vec::new();
    pkt.push(8);
    pkt.push(0);
    push_be(&mut pkt, check);
    push_be(&mut pkt, ident);
    push_be(&mut pkt, seq);
    let mut i: usize = 0;
    let ghost head = pkt@;
    assert(head == seq![8u8, 0u8] + be_bytes(check) + be_bytes(ident) + be_bytes(seq));
    assert(payload@.take(0) == Seq::<u8>::empty());
    while i < payload.len()
        invariant
            i <= payload@.len(),
            pkt@ == head + payload@.take(i as int),
        decreases payload@.len() - i,
    {
        pkt.push(payload[i]);
        assert(payload@.take(i + 1) == payload@.take(i as int).push(payload@[i as int]));
        i += 1;
    }
    assert(payload@.take(i as int) == payload@);
    pkt
}

/// Builds an ICMP echo request.
pub fn build_icmp_echo(ident: u16, seq: u16, payload: &[u8]) -> (res: Vec<u8>)
    requires
        word_sum(echo_with(0, ident, seq, payload@)) <= u32::MAX,
    ensures
        res@ == echo_packet(ident, seq, payload@),
{
    let blank = echo_bytes(0, ident, seq, payload);
    let check = internet_checksum(blank.as_slice());
    echo_bytes(check, ident, seq, payload)
}

proof fn lemma_echo_sum(check: u16, ident: u16, seq: u16, payload: Seq<u8>)
    ensures
        word_sum(echo_with(check, ident, seq, payload)) == 2048 + check + ident + seq + word_sum(
            payload,
        ),
{
    let p0 = echo_with(check, ident, seq, payload);
    let p1 = be_bytes(check) + be_bytes(ident) + be_bytes(seq) + payload;
    let p2 = be_bytes(ident) + be_bytes(seq) + payload;
    let p3 = be_bytes(seq) + payload;
    assert(p0.skip(2) == p1);
    assert(p1.skip(2) == p2);
    assert(p2.skip(2) == p3);
    assert(p3.skip(2) == payload);
    assert(p1[0] == (check / 256) as u8 && p1[1] == (check % 256) as u8);
    assert(p2[0] == (ident / 256) as u8 && p2[1] == (ident % 256) as u8);
    assert(p3[0] == (seq / 256) as u8 && p3[1] == (seq % 256) as u8);
    assert(word_sum(p3) == seq + word_sum(payload));
    assert(word_sum(p2) == ident + word_sum(p3));
    assert(word_sum(p1) == check + word_sum(p2));
    assert(p0[0] == 8 && p0[1] == 0);
}

/// A receiver that takes the checksum of an echo request, its checksum field
/// included, gets zero.
pub proof fn law_echo_checksum_verifies(ident: u16, seq: u16, payload: Seq<u8>)
    ensures
        checksum(echo_packet(ident, seq, payload)) == 0,
{
    let s = word_sum(echo_with(0, ident, seq, payload));
    let c = checksum(echo_with(0, ident, seq, payload));
    lemma_echo_sum(0, ident, seq, payload);
    lemma_echo_sum(c, ident, seq, payload);
    let f = ones_fold(s);
    assert(s > 0);
    let q = (s - 1) / 65535;
    assert(s - 1 == 65535 * q + (s - 1) % 65535);
    let total = word_sum(echo_packet(ident, seq, payload));
    assert(total == s + 65535 - f);
    assert(total - 1 == 65535 * q + 65534);
    lemma_mod_multiples_vanish(q, 65534, 65535);
}

// ---------------------------------------------------------------------------
// Replies
// ---------------------------------------------------------------------------

/// What a received packet means for the probe that is waiting.
#[derive(Clone, Copy, Debug, PartialEq, Eq, Structural)]
pub enum Reply {
    /// The sender is a router on the path: the probe's hop limit ran out there.
    TimeExceeded,
    /// The target itself answered the probe.
    Echo,
    /// Not an answer to this probe.
    Other,
    /// Too short to be read.
    Truncated,
}

/// The big-endian 16-bit value at `i`.
pub open spec fn be_at(data: Seq<u8>, i: int) -> int {
    data[i] as int * 256 + data[i + 1] as int
}

/// The header length that the first byte of an IPv4 packet states.
pub open spec fn header_len(first: u8) -> int {
    (first % 16) as int * 4
}

/// Whether an echo header at `i` carries the identifier and sequence number.
pub open spec fn echo_matches(data: Seq<u8>, i: int, ident: u16, seq: u16) -> bool {
    be_at(data, i + 4) == ident && be_at(data, i + 6) == seq
}

/// How an IPv4 packet answers the probe with the given identifier and sequence
/// number.
///
/// A time-exceeded message (type 11, code 0) quotes the packet that expired:
/// its IP header follows eight bytes into the message, and the echo header
/// follows that. An echo reply is type 0, code 0.
pub open spec fn reply_of(data: Seq<u8>, ident: u16, seq: u16) -> Reply {
    let h = header_len(data[0]);
    if data.len() == 0 {
        Reply::Truncated
    } else if h + 4 > data.len() {
        Reply::Other
    } else if data[h] == 11 && data[h + 1] == 0 {
        let e = h + 8 + header_len(data[h + 8]);
        if h + 8 < data.len() && e + 8 <= data.len() && echo_matches(data, e, ident, seq) {
            Reply::TimeExceeded
        } else {
            Reply::Other
        }
    } else if data[h] == 0 && data[h + 1] == 0 {
        if h + 8 > data.len() {
            Reply::Truncated
        } else if echo_matches(data, h, ident, seq) {
            Reply::Echo
        } else {
            Reply::Other
        }
    } else {
        Reply::Other
    }
}

fn read_be(data: &[u8], i: usize) -> (res: u16)
    requires
        i + 1 < data@.len(),
    ensures
        res == be_at(data@, i as int),
{
    data[i] as u16 * 256 + data[i + 1] as u16
}

/// Reads a received packet.
pub fn read_reply(data: &[u8], ident: u16, seq: u16) -> (res: Reply)
    ensures
        res == reply_of(data@, ident, seq),
{
    if data.len() == 0 {
        return Reply::Truncated;
    }
    let h: usize = (data[0] % 16) as usize * 4;
    if data.len() < 4 || h > data.len() - 4 {
        return Reply::Other;
    }
    let kind = data[h];
    let code = data[h + 1];
    let rest: usize = data.len() - h;
    if kind == 11 && code == 0 {
        if rest <= 8 {
            return Reply::Other;
        }
        let inner: usize = (data[h + 8] % 16) as usize * 4;
        if rest - 8 < inner + 8 {
            return Reply::Other;
        }
        let e: usize = h + 8 + inner;
        if read_be(data, e + 4) == ident && read_be(data, e + 6) == seq {
            Reply::TimeExceeded
        } else {
            Reply::Other
        }
    } else if kind == 0 && code == 0 {
        if rest < 8 {
            Reply::Truncated
        } else if read_be(data, h + 4) == ident && read_be(data, h + 6) == seq {
            Reply::Echo
        } else {
            Reply::Other
        }
    } else {
        Reply::Other
    }
}

/// Whose address a reply gives: that of the sender when the packet expired there,
/// that of the target when the target answered, and none otherwise.
pub open spec fn address_of(reply: Reply, sender: Seq<char>, target: Seq<char>) -> Option<
    Seq<char>,
> {
    match reply {
        Reply::TimeExceeded => Some(sender),
        Reply::Echo => Some(target),
        Reply::Other => None,
        Reply::Truncated => None,
    }
}

/// The address of the hop that a reply from a sender stands for; none when it
/// does not answer the probe.
pub fn answer(reply: Reply, sender: String, target: &str) -> (res: Option<String>)
    ensures
        res is Some == address_of(reply, sender@, target@) is Some,
        res matches Some(a) ==> address_of(reply, sender@, target@) == Some(a@),
{
    match reply {
        Reply::TimeExceeded => Some(sender),
        Reply::Echo => Some(target.to_owned()),
        Reply::Other => None,
        Reply::Truncated => None,
    }
}

/// Whether a received packet is a time-exceeded message, for whatever packet.
pub open spec fn expired(data: Seq<u8>) -> Reply {
    let h = header_len(data[0]);
    if data.len() == 0 {
        Reply::Truncated
    } else if h + 4 <= data.len() && data[h] == 11 && data[h + 1] == 0 {
        Reply::TimeExceeded
    } else {
        Reply::Other
    }
}

/// Reads a received packet when any time-exceeded message will do.
pub fn read_expired(data: &[u8]) -> (res: Reply)
    ensures
        res == expired(data@),
{
    if data.len() == 0 {
        return Reply::Truncated;
    }
    let h: usize = (data[0] % 16) as usize * 4;
    if data.len() >= 4 && h <= data.len() - 4 && data[h] == 11 && data[h + 1] == 0 {
        Reply::TimeExceeded
    } else {
        Reply::Other
    }
}

// ---------------------------------------------------------------------------
// The trace
// ---------------------------------------------------------------------------

/// How an attempt to connect with a limited hop count ended.
#[derive(Clone, Copy, Debug, PartialEq, Eq, Structural)]
pub enum ConnectResult {
    Connected,
    Refused,
    Reset,
    Failed,
}

/// The time budget of a whole trace: the time per hop for every hop.
pub fn trace_budget(per_hop: u128) -> (res: u128)
    ensures
        res == if per_hop * MAX_HOPS <= MAX_DURATION {
            per_hop * MAX_HOPS
        } else {
            MAX_DURATION as int
        },
{
    if per_hop <= MAX_DURATION / MAX_HOPS as u128 {
        per_hop * MAX_HOPS as u128
    } else {
        MAX_DURATION
    }
}

/// Whether an optional text is there and equal to `t`.
pub open spec fn is_text(a: Option<String>, t: Seq<char>) -> bool {
    a matches Some(s) && s@ == t
}

/// A path trace in progress.
pub struct PathTrace {
    target: String,
    hops: Vec<Hop>,
}

impl PathTrace {
    #[verifier::type_invariant]
    spec fn in_order(self) -> bool {
        PathTrace::well_formed(self.target@, self.hops@)
    }

    /// Hops are numbered from one, there are at most [`MAX_HOPS`], and only
    /// the last of them can be the target.
    pub open spec fn well_formed(target: Seq<char>, hops: Seq<Hop>) -> bool {
        &&& hops.len() <= MAX_HOPS
        &&& forall|i: int| 0 <= i < hops.len() ==> (#[trigger] hops[i]).ttl == i + 1
        &&& forall|i: int| 0 <= i < hops.len() - 1 ==> !is_text((#[trigger] hops[i]).addr, target)
    }

    /// The address that is traced.
    pub closed spec fn goal(self) -> Seq<char> {
        self.target@
    }

    /// The hops so far.
    pub closed spec fn path(self) -> Seq<Hop> {
        self.hops@
    }

    /// Whether the last hop is the target.
    pub open spec fn arrived(self) -> bool {
        self.path().len() > 0 && is_text(self.path().last().addr, self.goal())
    }

    /// Whether the trace is over: the target answered or the hops ran out.
    pub open spec fn over(self) -> bool {
        self.arrived() || self.path().len() >= MAX_HOPS
    }

    /// A trace toward `target` with no hops yet.
    pub fn new(target: String) -> (res: PathTrace)
        ensures
            res.goal() == target@,
            res.path().len() == 0,
    {
        PathTrace { target, hops: Vec::new() }
    }

    /// The hop limit of the next probe, while the trace is not over.
    pub fn next_ttl(&self) -> (res: Option<u8>)
        ensures
            res == if self.over() {
                None
            } else {
                Some((self.path().len() + 1) as u8)
            },
            PathTrace::well_formed(self.goal(), self.path()),
    {
        proof {
            use_type_invariant(self);
        }
        let n = self.hops.len();
        if n >= MAX_HOPS as usize {
            return None;
        }
        if n > 0 {
            if let Some(addr) = &self.hops[n - 1].addr {
                if same_text(addr.as_str(), self.target.as_str()) {
                    return None;
                }
            }
        }
        Some((n + 1) as u8)
    }

    /// Adds the hop that the last probe found. A trace that is over stays as
    /// it is.
    pub fn record(&mut self, addr: Option<String>, rtt: Option<u128>)
        ensures
            final(self).goal() == old(self).goal(),
            old(self).over() ==> final(self).path() == old(self).path(),
            !old(self).over() ==> final(self).path() == old(self).path().push(
                Hop { ttl: (old(self).path().len() + 1) as u8, addr, rtt },
            ),
    {
        proof {
            use_type_invariant(&*self);
        }
        if let Some(ttl) = self.next_ttl() {
            let mut hops: Vec<Hop> = Vec::new();
            std::mem::swap(&mut hops, &mut self.hops);
            let ghost before = hops@;
            hops.push(Hop { ttl, addr, rtt });
            assert(forall|i: int| 0 <= i < before.len() ==> hops@[i] == before[i]);
            self.hops = hops;
        }
    }

    /// Adds the hop that a connection attempt found. A target that refuses or
    /// resets the connection has been reached; on any other failure the hop is
    /// the router that reported the packet expired, if one did.
    pub fn record_connect(&mut self, result: ConnectResult, router: Option<String>, elapsed: u128)
        ensures
            final(self).goal() == old(self).goal(),
            old(self).over() ==> final(self).path() == old(self).path(),
            !old(self).over() ==> {
                let hop = final(self).path().last();
                &&& final(self).path() == old(self).path().push(hop)
                &&& hop.ttl == old(self).path().len() + 1
                &&& result != ConnectResult::Failed ==> is_text(hop.addr, old(self).goal())
                    && hop.rtt == Some(elapsed)
                &&& result == ConnectResult::Failed ==> hop.addr == router && hop.rtt == if router is Some {
                    Some(elapsed)
                } else {
                    None
                }
            },
    {
        match result {
            ConnectResult::Failed => {
                let rtt = if router.is_some() {
                    Some(elapsed)
                } else {
                    None
                };
                self.record(router, rtt);
            },
            _ => {
                let addr = self.target.clone();
                self.record(Some(addr), Some(elapsed));
            },
        }
    }

    /// The hops of the trace, up to the last one that answered.
    pub fn into_hops(self) -> (res: Vec<Hop>)
        ensures
            res@ == answered_part(self.path()),
            PathTrace::well_formed(self.goal(), res@),
            any_answered(self.path()) ==> res@.len() > 0 && res@.last().addr is Some,
    {
        proof {
            use_type_invariant(&self);
            law_answered_part(self.hops@);
        }
        let mut n: usize = self.hops.len();
        let ghost path = self.hops@;
        assert(path.take(n as int) == path);
        while n > 0
            invariant
                n <= self.hops@.len(),
                path == self.hops@,
                PathTrace::well_formed(self.target@, path),
                last_answer(path) == last_answer(path.take(n as int)),
            decreases n,
        {
            assert(path.take(n as int).last() == path[n - 1]);
            assert(path.take(n as int).drop_last() == path.take(n - 1));
            if self.hops[n - 1].addr.is_some() {
                let mut hops = self.hops;
                hops.truncate(n);
                assert(hops@ == path.take(n as int));
                return hops;
            }
            n -= 1;
        }
        self.hops
    }
}

/// The number of hops up to the last one that answered; zero when none did.
pub open spec fn last_answer(hops: Seq<Hop>) -> nat
    decreases hops.len(),
{
    if hops.len() == 0 {
        0
    } else if hops.last().addr is Some {
        hops.len()
    } else {
        last_answer(hops.drop_last())
    }
}

/// Whether some hop answered.
pub open spec fn any_answered(hops: Seq<Hop>) -> bool {
    exists|i: int| 0 <= i < hops.len() && (#[trigger] hops[i]).addr is Some
}

/// The hops up to the last one that answered. A path on which nothing answered
/// stays as it is.
pub open spec fn answered_part(hops: Seq<Hop>) -> Seq<Hop> {
    if last_answer(hops) == 0 {
        hops
    } else {
        hops.take(last_answer(hops) as int)
    }
}

/// When some hop answered, the last hop that is handed out is the last that
/// answered.
pub proof fn law_answered_part(hops: Seq<Hop>)
    ensures
        last_answer(hops) <= hops.len(),
        last_answer(hops) > 0 <==> any_answered(hops),
        last_answer(hops) > 0 ==> hops[last_answer(hops) - 1].addr is Some,
        forall|i: int| last_answer(hops) <= i < hops.len() ==> (#[trigger] hops[i]).addr is None,
    decreases hops.len(),
{
    if hops.len() > 0 {
        let d = hops.drop_last();
        assert(forall|i: int| 0 <= i < d.len() ==> hops[i] == d[i]);
        law_answered_part(d);
        if hops.last().addr is Some {
            assert(hops[hops.len() - 1].addr is Some);
        } else if any_answered(hops) {
            let i = choose|i: int| 0 <= i < hops.len() && (#[trigger] hops[i]).addr is Some;
            assert(d[i].addr is Some);
        } else if any_answered(d) {
            let i = choose|i: int| 0 <= i < d.len() && (#[trigger] d[i]).addr is Some;
            assert(hops[i].addr is Some);
        }
    }
}

// ---------------------------------------------------------------------------
// Laws
// ---------------------------------------------------------------------------

/// The words of a packet add up: those of two parts that meet at a whole word are
/// those of the whole, and each word counts its first byte two hundred fifty-six
/// times.
pub proof fn law_word_sum(a: Seq<u8>, b: Seq<u8>, hi: u8, lo: u8)
    requires
        a.len() % 2 == 0,
    ensures
        word_sum(a + b) == word_sum(a) + word_sum(b),
        word_sum(seq![hi, lo]) == hi * 256 + lo,
        word_sum(seq![hi]) == hi * 256,
        word_sum(Seq::<u8>::empty()) == 0,
    decreases a.len(),
{
    reveal_with_fuel(word_sum, 2);
    assert(seq![hi, lo].skip(2) == Seq::<u8>::empty());
    if a.len() == 0 {
        assert(a + b == b);
    } else {
        assert((a + b).skip(2) == a.skip(2) + b);
        law_word_sum(a.skip(2), b, hi, lo);
    }
}

/// The checksum completes the sum of the words: together they make a multiple of
/// the largest word. It is the largest word only when all words are zero.
pub proof fn law_checksum(data: Seq<u8>)
    ensures
        (word_sum(data) + checksum(data)) % 65535 == 0,
        checksum(data) == 65535 <==> word_sum(data) == 0,
{
    let s = word_sum(data) as int;
    if s > 0 {
        let q = (s - 1) / 65535;
        let r = (s - 1) % 65535;
        assert(s - 1 == 65535 * q + r);
        assert(s + checksum(data) == 65535 * (q + 1));
        lemma_mod_multiples_vanish(q + 1, 0, 65535);
    }
}

/// An echo request starts with its type and code and the checksum, and carries the
/// identifier, the sequence number and the payload.
pub proof fn law_echo_layout(ident: u16, seq: u16, payload: Seq<u8>)
    ensures
        ({
            let p = echo_packet(ident, seq, payload);
            &&& p.len() == payload.len() + 8
            &&& p[0] == 8
            &&& p[1] == 0
            &&& p[2] * 256 + p[3] == checksum(p.update(2, 0).update(3, 0))
            &&& p[4] * 256 + p[5] == ident
            &&& p[6] * 256 + p[7] == seq
            &&& p.skip(8) == payload
        }),
{
    let p = echo_packet(ident, seq, payload);
    assert(p.update(2, 0).update(3, 0) == echo_with(0, ident, seq, payload));
    assert(p.skip(8) == payload);
}

/// A packet is the echo of a probe exactly when an echo reply with the identifier
/// and the sequence number of the probe follows its header.
pub proof fn law_echo_reply(data: Seq<u8>, ident: u16, seq: u16)
    ensures
        ({
            let h = 4 * (data[0] as int % 16);
            reply_of(data, ident, seq) == Reply::Echo <==> data.len() > 0 && data.len() >= h + 8
                && data[h] == 0 && data[h + 1] == 0 && data[h + 4] * 256 + data[h + 5] == ident
                && data[h + 6] * 256 + data[h + 7] == seq
        }),
{
}

/// A packet says that a probe expired exactly when a message of that kind follows
/// its header and quotes a packet, whose own header is followed by an echo header
/// with the identifier and the sequence number of the probe.
pub proof fn law_time_exceeded(data: Seq<u8>, ident: u16, seq: u16)
    ensures
        ({
            let h = 4 * (data[0] as int % 16);
            let e = h + 8 + 4 * (data[h + 8] as int % 16);
            reply_of(data, ident, seq) == Reply::TimeExceeded <==> data.len() > h + 8 && data.len()
                >= e + 8 && data[h] == 11 && data[h + 1] == 0 && data[e + 4] * 256 + data[e + 5]
                == ident && data[e + 6] * 256 + data[e + 7] == seq
        }),
{
}

/// A packet is too short to be read exactly when it is empty or ends within the
/// header of an echo reply.
pub proof fn law_truncated(data: Seq<u8>, ident: u16, seq: u16)
    ensures
        ({
            let h = 4 * (data[0] as int % 16);
            reply_of(data, ident, seq) == Reply::Truncated <==> data.len() == 0 || (h + 4
                <= data.len() < h + 8 && data[h] == 0 && data[h + 1] == 0)
        }),
{
}

/// A probe recognises its own answers and no others: what answers a probe answers
/// no probe with another identifier or sequence number.
pub proof fn law_replies_are_told_apart(
    data: Seq<u8>,
    ident: u16,
    seq: u16,
    other_ident: u16,
    other_seq: u16,
)
    requires
        ident != other_ident || seq != other_seq,
        reply_of(data, ident, seq) == Reply::Echo || reply_of(data, ident, seq)
            == Reply::TimeExceeded,
    ensures
        reply_of(data, other_ident, other_seq) == Reply::Other,
{
}

/// A packet is a time-exceeded message exactly when one follows its header,
/// whatever it quotes; every answer of that kind to a probe is one.
pub proof fn law_expired(data: Seq<u8>, ident: u16, seq: u16)
    ensures
        ({
            let h = 4 * (data[0] as int % 16);
            &&& expired(data) == Reply::TimeExceeded <==> data.len() > 0 && data.len() >= h + 4
                && data[h] == 11 && data[h + 1] == 0
            &&& expired(data) == Reply::Truncated <==> data.len() == 0
            &&& expired(data) != Reply::Echo
        }),
        reply_of(data, ident, seq) == Reply::TimeExceeded ==> expired(data) == Reply::TimeExceeded,
{
}

/// A router answers with its own address, and the target is known by the address
/// that is traced; anything else gives no address.
pub proof fn law_address(reply: Reply, sender: Seq<char>, target: Seq<char>)
    ensures
        address_of(Reply::TimeExceeded, sender, target) == Some(sender),
        address_of(Reply::Echo, sender, target) == Some(target),
        address_of(reply, sender, target) is Some <==> reply == Reply::TimeExceeded || reply
            == Reply::Echo,
{
}

/// The hops that are handed out are the first hops of the path: all of them when
/// none answered, and else up to one that answered and after which none did.
pub proof fn law_handed_out(hops: Seq<Hop>)
    ensures
        answered_part(hops).len() <= hops.len(),
        answered_part(hops) == hops.take(answered_part(hops).len() as int),
        (forall|i: int| 0 <= i < hops.len() ==> (#[trigger] hops[i]).addr is None) ==> answered_part(
            hops,
        ) == hops,
        (exists|i: int| 0 <= i < hops.len() && (#[trigger] hops[i]).addr is Some) ==> answered_part(
            hops,
        ).len() > 0 && answered_part(hops).last().addr is Some,
        forall|i: int|
            answered_part(hops).len() <= i < hops.len() ==> (#[trigger] hops[i]).addr is None,
{
    law_answered_part(hops);
    assert(hops.take(hops.len() as int) == hops);
}

/// A trace is over exactly when its last hop has the address that is traced, or
/// there are thirty hops.
pub proof fn law_over(t: PathTrace)
    ensures
        t.over() <==> t.path().len() >= 30 || (t.path().len() > 0 && t.path()[t.path().len()
            - 1].addr is Some && (t.path()[t.path().len() - 1].addr->0)@ == t.goal()),
        t.arrived() <==> t.path().len() > 0 && t.path()[t.path().len() - 1].addr is Some && (
        t.path()[t.path().len() - 1].addr->0)@ == t.goal(),
{
}

/// The hops of a well-formed path are numbered from one, thirty at most, and only
/// the last of them can be the target.
pub proof fn law_well_formed(target: Seq<char>, hops: Seq<Hop>, i: int)
    requires
        PathTrace::well_formed(target, hops),
        0 <= i < hops.len(),
    ensures
        hops.len() <= 30,
        hops[i].ttl == i + 1,
        i < hops.len() - 1 && hops[i].addr is Some ==> (hops[i].addr->0)@ != target,
{
}

} // verus!
