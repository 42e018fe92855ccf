//! What the answers to probes mean.
use crate::text::{
    char_lists, hex_u32, lines, lines_of, parse_hex_u32, same_text, string_of, texts, words,
    words_of,
};
use crate::types::{ProbeOutcome, TargetKind, MILLISECOND};
use vstd::prelude::*;

verus! {

/// The outcome of a probe that was answered, or not, after some time.
pub open spec fn outcome(kind: TargetKind, reachable: bool, elapsed: u128) -> ProbeOutcome {
    ProbeOutcome {
        kind,
        reachable,
        rtt: if reachable {
            Some(elapsed)
        } else {
            None
        },
        loss_pct: if reachable {
            0
        } else {
            100
        },
    }
}

/// The outcome of a connection attempt or a lookup: the time that it took when
/// it succeeded, and full loss when it did not.
pub fn probe_outcome(kind: TargetKind, reachable: bool, elapsed: u128) -> (res: ProbeOutcome)
    ensures
        res == outcome(kind, reachable, elapsed),
{
    ProbeOutcome {
        kind,
        reachable,
        rtt: if reachable {
            Some(elapsed)
        } else {
            None
        },
        loss_pct: if reachable {
            0
        } else {
            100
        },
    }
}

/// The outcome of a probe that could not be made.
pub fn unreachable_outcome(kind: TargetKind) -> (res: ProbeOutcome)
    ensures
        res == outcome(kind, false, 0),
{
    probe_outcome(kind, false, 0)
}

/// The outcome of an HTTP request: the status code that came back, if any, must
/// stand for success.
pub fn http_outcome(kind: TargetKind, status: Option<u16>, elapsed: u128) -> (res: ProbeOutcome)
    ensures
        res == outcome(kind, status matches Some(code) && 200 <= code <= 299, elapsed),
{
    let reachable = match status {
        Some(code) => 200 <= code && code <= 299,
        None => false,
    };
    probe_outcome(kind, reachable, elapsed)
}

// ---------------------------------------------------------------------------
// Ping
// ---------------------------------------------------------------------------

/// How many echo requests a ping sends.
pub const PING_COUNT: usize = 3;

/// How many of the first `n` echo requests were answered.
pub open spec fn answered(replies: Seq<Option<u128>>, n: nat) -> nat
    decreases n,
{
    if n == 0 {
        0
    } else {
        answered(replies, (n - 1) as nat) + if replies[n - 1] is Some {
            1nat
        } else {
            0
        }
    }
}

/// The sum of the answer times of the first `n` echo requests, each in whole
/// milliseconds.
pub open spec fn answer_millis(replies: Seq<Option<u128>>, n: nat) -> nat
    decreases n,
{
    if n == 0 {
        0
    } else {
        answer_millis(replies, (n - 1) as nat) + match replies[n - 1] {
            Some(rtt) => (rtt / MILLISECOND) as nat,
            None => 0,
        }
    }
}

/// The mean of up to three times that sum up to `total`.
pub open spec fn mean(total: nat, n: nat) -> nat {
    if n <= 1 {
        total
    } else if n == 2 {
        total / 2
    } else {
        total / 3
    }
}

/// The outcome of a ping whose answers took these times, in nanoseconds: the
/// share of requests without an answer, and the mean of the answer times in
/// whole milliseconds.
pub open spec fn ping_result(kind: TargetKind, replies: Seq<Option<u128>>) -> ProbeOutcome {
    let n = answered(replies, 3);
    ProbeOutcome {
        kind,
        reachable: n > 0,
        rtt: if n > 0 {
            Some(((mean(answer_millis(replies, 3), n) as u64) * MILLISECOND) as u128)
        } else {
            None
        },
        loss_pct: ((3 - n) * 100 / 3) as u8,
    }
}

/// The outcome of a ping, from the time of each answer.
pub fn ping_outcome(kind: TargetKind, replies: &[Option<u128>; 3]) -> (res: ProbeOutcome)
    ensures
        res == ping_result(kind, replies@),
{
    let mut successes: usize = 0;
    let mut total_ms: u128 = 0;
    let mut i: usize = 0;
    while i < PING_COUNT
        invariant
            i <= 3,
            PING_COUNT == 3,
            replies@.len() == 3,
            successes == answered(replies@, i as nat),
            successes <= i,
            total_ms == answer_millis(replies@, i as nat),
            total_ms <= i * 400_000_000_000_000_000_000_000_000_000_000,
        decreases 3 - i,
    {
        if let Some(rtt) = replies[i] {
            total_ms = total_ms + rtt / MILLISECOND;
            successes = successes + 1;
        }
        i += 1;
    }
    let loss_pct: u8 = ((PING_COUNT - successes) * 100 / PING_COUNT) as u8;
    let rtt: Option<u128> = if successes > 0 {
        let mean_ms: u128 = if successes == 1 {
            total_ms
        } else if successes == 2 {
            total_ms / 2
        } else {
            total_ms / 3
        };
        Some(mean_ms as u64 as u128 * MILLISECOND)
    } else {
        None
    };
    ProbeOutcome { kind, reachable: successes > 0, rtt, loss_pct }
}

// ---------------------------------------------------------------------------
// Default gateway
// ---------------------------------------------------------------------------

/// The gateway of the default route in a routing table, from the line at `i`
/// on. A line has the interface, the destination and the gateway in its first
/// columns; a line with fewer columns, or a default route whose gateway is no
/// hexadecimal number, ends the search. A default route through the address
/// zero is passed over.
pub open spec fn gateway_from(table: Seq<Seq<char>>, i: nat) -> Option<u32>
    decreases table.len() - i,
{
    if i >= table.len() {
        None
    } else {
        let columns = words(table[i as int]);
        if columns.len() < 3 {
            None
        } else if columns[1] != "00000000"@ {
            gateway_from(table, i + 1)
        } else {
            match hex_u32(columns[2]) {
                Some(raw) => if raw != 0 {
                    Some(raw)
                } else {
                    gateway_from(table, i + 1)
                },
                None => None,
            }
        }
    }
}

/// The gateway of the default route, as the number in the kernel's routing
/// table, whose first line holds titles.
pub fn default_gateway(contents: &str) -> (res: Option<u32>)
    ensures
        res == gateway_from(lines(contents@), 1),
{
    let all = lines_of(contents);
    let ghost table = texts(all@);
    let mut i: usize = 1;
    while i < all.len()
        invariant
            1 <= i,
            table == texts(all@),
            table == lines(contents@),
            gateway_from(table, 1) == gateway_from(table, i as nat),
        decreases all@.len() - i,
    {
        let columns = words_of(all[i].as_str());
        let ghost cols = char_lists(columns@);
        assert(cols == words(table[i as int]));
        if columns.len() < 3 {
            return None;
        }
        let dest = string_of(&columns[1]);
        assert(cols[1] == dest@);
        assert(cols[2] == columns@[2]@);
        if same_text(dest.as_str(), "00000000") {
            match parse_hex_u32(&columns[2]) {
                Some(raw) => {
                    if raw != 0 {
                        return Some(raw);
                    }
                },
                None => {
                    return None;
                },
            }
        }
        i += 1;
    }
    None
}

// ---------------------------------------------------------------------------
// Laws
// ---------------------------------------------------------------------------

/// A probe that was answered gives the time that it took and no loss; one that was
/// not gives no time and full loss.
pub proof fn law_outcome(kind: TargetKind, elapsed: u128)
    ensures
        outcome(kind, true, elapsed) == (ProbeOutcome {
            kind,
            reachable: true,
            rtt: Some(elapsed),
            loss_pct: 0,
        }),
        outcome(kind, false, elapsed) == (ProbeOutcome {
            kind,
            reachable: false,
            rtt: None,
            loss_pct: 100,
        }),
{
}

/// A ping reaches its target when any request was answered, and loses a third, in
/// whole percent, for each that was not. Its time is a whole number of
/// milliseconds: the mean of the answer times in whole milliseconds, rounded down.
pub proof fn law_ping(kind: TargetKind, a: Option<u128>, b: Option<u128>, c: Option<u128>)
    ensures
        ({
            let out = ping_result(kind, seq![a, b, c]);
            let n = (if a is Some {
                1int
            } else {
                0
            }) + (if b is Some {
                1int
            } else {
                0
            }) + (if c is Some {
                1int
            } else {
                0
            });
            let total = (if a is Some {
                a->0 as int / 1_000_000
            } else {
                0
            }) + (if b is Some {
                b->0 as int / 1_000_000
            } else {
                0
            }) + (if c is Some {
                c->0 as int / 1_000_000
            } else {
                0
            });
            &&& out.kind == kind
            &&& out.reachable <==> a is Some || b is Some || c is Some
            &&& out.rtt is Some <==> out.reachable
            &&& n == 3 ==> out.loss_pct == 0
            &&& n == 2 ==> out.loss_pct == 33
            &&& n == 1 ==> out.loss_pct == 66
            &&& n == 0 ==> out.loss_pct == 100
            &&& out.rtt is Some && total <= u64::MAX ==> exists|mean: int|
                out.rtt->0 == #[trigger] (mean * 1_000_000) && mean * n <= total < (mean + 1) * n
        }),
{
    let replies = seq![a, b, c];
    reveal_with_fuel(answered, 4);
    reveal_with_fuel(answer_millis, 4);
    let n = answered(replies, 3);
    let total = answer_millis(replies, 3);
    assert(replies[0] == a && replies[1] == b && replies[2] == c);
    if n > 0 && total <= u64::MAX {
        let m = mean(total, n) as int;
        assert(ping_result(kind, replies).rtt->0 == m * 1_000_000);
    }
}

/// Whether a line of a routing table is passed over in the search for a gateway:
/// it is complete, and either no default route or one through the address zero.
pub open spec fn passed_over(line: Seq<char>) -> bool {
    &&& words(line).len() >= 3
    &&& words(line)[1] != "00000000"@ || hex_u32(words(line)[2]) == Some(0u32)
}

/// The gateway is that of the first complete line with a default route that is not
/// through the address zero, when all lines before it are passed over. The search
/// ends without a gateway at an incomplete line, at a default route whose gateway
/// cannot be read, and at the end of the table.
pub proof fn law_gateway(table: Seq<Seq<char>>, from: nat, k: nat)
    requires
        from <= k <= table.len(),
        forall|j: int| from <= j < k ==> passed_over(#[trigger] table[j]),
    ensures
        k == table.len() ==> gateway_from(table, from) is None,
        k < table.len() && words(table[k as int]).len() < 3 ==> gateway_from(table, from) is None,
        k < table.len() && words(table[k as int]).len() >= 3 && words(table[k as int])[1]
            == "00000000"@ && hex_u32(words(table[k as int])[2]) is None ==> gateway_from(
            table,
            from,
        ) is None,
        k < table.len() && words(table[k as int]).len() >= 3 && words(table[k as int])[1]
            == "00000000"@ && hex_u32(words(table[k as int])[2]) is Some && hex_u32(
            words(table[k as int])[2],
        )->0 != 0 ==> gateway_from(table, from) == hex_u32(words(table[k as int])[2]),
    decreases k - from,
{
    if from < k {
        assert(passed_over(table[from as int]));
        law_gateway(table, from + 1, k);
    }
}

} // verus!
