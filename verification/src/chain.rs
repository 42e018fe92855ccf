//! The hash chain that ties every line of the event log to the line before it.
use crate::digest::{hex_text, law_hex_is_unambiguous, sha256, sha256_hex};
use crate::events::OutageEvent;
use crate::json::{
    canonical, canonical_without, field, fields_view, json_document, json_text,
    law_canonical_loses_nothing, law_put, law_same_document_has_same_parts, law_strip,
    law_stripped_canonical_ignores_field_order, lemma_put_again, lemma_put_apart, marker, member, put, put_field, same_document, strip, text_member, uint_member, write_json,
    Fields, Json, JsonView,
};
use crate::quantity::Quantity;
use crate::text::same_text;
use crate::trace::Hop;
use crate::types::ProbeOutcome;
use vstd::prelude::*;
use vstd::utf8::{encode_utf8, encode_utf8_decode_utf8};

verus! {

// ---------------------------------------------------------------------------
// Records
// ---------------------------------------------------------------------------

/// The chain fields of a record.
#[derive(Clone, Debug)]
pub struct RecordChain {
    pub seq: u64,
    pub prev_hash: String,
    pub hash: String,
}

/// One entry of the event log.
#[derive(Clone, Debug)]
pub enum Record {
    /// The outcomes of one monitoring cycle.
    Sample {
        chain: RecordChain,
        ts: String,
        temp_c: Option<Quantity>,
        outcomes: Vec<ProbeOutcome>,
    },
    /// An outage, with the path to the target when it ended.
    Outage { chain: RecordChain, event: OutageEvent, hops: Vec<Hop> },
    /// The monitor was started.
    MonitorRestart { chain: RecordChain },
}

impl Record {
    /// The chain fields of the record.
    pub open spec fn chain(self) -> RecordChain {
        match self {
            Record::Sample { chain, .. } => chain,
            Record::Outage { chain, .. } => chain,
            Record::MonitorRestart { chain } => chain,
        }
    }
}

/// The sequence number of a record.
pub fn get_seq(r: &Record) -> (res: u64)
    ensures
        res == r.chain().seq,
{
    match r {
        Record::Sample { chain, .. } => chain.seq,
        Record::Outage { chain, .. } => chain.seq,
        Record::MonitorRestart { chain } => chain.seq,
    }
}

/// The hash of a record.
pub fn get_hash(r: &Record) -> (res: &str)
    ensures
        res@ == r.chain().hash@,
{
    match r {
        Record::Sample { chain, .. } => chain.hash.as_str(),
        Record::Outage { chain, .. } => chain.hash.as_str(),
        Record::MonitorRestart { chain } => chain.hash.as_str(),
    }
}

// ---------------------------------------------------------------------------
// The hash of a record
// ---------------------------------------------------------------------------

/// The text whose digest is the hash of a record: its canonical form without
/// the hash, followed by the hash of the record before it, in UTF-8.
pub open spec fn hash_input(body: JsonView, prev_hash: Seq<char>) -> Seq<u8> {
    encode_utf8(json_text(canonical(strip(body, "hash"@)))) + encode_utf8(prev_hash)
}

/// The hash of a record that follows a record with the hash `prev_hash`.
pub open spec fn chain_hash(body: JsonView, prev_hash: Seq<char>) -> Seq<char> {
    hex_text(sha256(hash_input(body, prev_hash)))
}

/// Appends the UTF-8 encoding of a text.
pub(crate) fn append_utf8(bytes: &mut Vec<u8>, s: &str)
    ensures
        final(bytes)@ == old(bytes)@ + encode_utf8(s@),
{
    let more = s.as_bytes();
    let mut i: usize = 0;
    while i < more.len()
        invariant
            i <= more@.len(),
            more@ == encode_utf8(s@),
            bytes@ == old(bytes)@ + more@.take(i as int),
        decreases more@.len() - i,
    {
        bytes.push(more[i]);
        i += 1;
        assert(bytes@ == old(bytes)@ + more@.take(i as int));
    }
    assert(more@.take(i as int) == more@);
}

/// The hexadecimal SHA-256 digest of a text followed by another.
pub fn hash_text(canonical_text: &str, prev_hash: &str) -> (res: String)
    ensures
        res@ == hex_text(sha256(encode_utf8(canonical_text@) + encode_utf8(prev_hash@))),
        res@.len() == 64,
{
    let mut bytes: Vec<u8> = Vec::new();
    append_utf8(&mut bytes, canonical_text);
    append_utf8(&mut bytes, prev_hash);
    assert(bytes@ == encode_utf8(canonical_text@) + encode_utf8(prev_hash@));
    sha256_hex(&bytes)
}

/// The hash of a record: the hexadecimal SHA-256 digest of its canonical form
/// without the member `hash`, followed by `prev_hash`.
pub fn compute_hash(body: &Json, prev_hash: &str) -> (res: String)
    ensures
        res@ == chain_hash(body@, prev_hash@),
        res@.len() == 64,
{
    let canon = canonical_without(body, "hash");
    let text = write_json(&canon);
    hash_text(text.as_str(), prev_hash)
}

// ---------------------------------------------------------------------------
// Verification
// ---------------------------------------------------------------------------

/// The result of verifying a chain.
#[derive(Clone, Copy, Debug, PartialEq, Eq, Structural)]
pub struct ChainStatus {
    /// Whether every link of the chain is valid.
    pub intact: bool,
    /// The sequence number of the first line that does not fit, when there is
    /// one.
    pub break_at: Option<u64>,
}

/// The sequence number of a line; zero when it has none.
pub open spec fn seq_of(line: JsonView) -> u64 {
    match uint_member(line, "seq"@) {
        Some(n) => n,
        None => 0,
    }
}

/// A member that is a text; empty when there is none.
pub open spec fn text_of(line: JsonView, key: Seq<char>) -> Seq<char> {
    match text_member(line, key) {
        Some(s) => s,
        None => ""@,
    }
}

/// The hash that a line carries.
pub open spec fn hash_of(line: JsonView) -> Seq<char> {
    text_of(line, "hash"@)
}

/// The hash of the line before, as a line carries it.
pub open spec fn prev_of(line: JsonView) -> Seq<char> {
    text_of(line, "prev_hash"@)
}

/// Whether a line carries its own hash.
pub open spec fn sealed(line: JsonView) -> bool {
    hash_of(line) == chain_hash(line, prev_of(line))
}

/// The hash that the line at `i` must carry as that of the line before it. There
/// is nothing before the first line.
pub open spec fn hash_before(lines: Seq<JsonView>, i: int) -> Seq<char> {
    if i > 0 {
        hash_of(lines[i - 1])
    } else {
        ""@
    }
}

/// Whether the line at `i` carries its own hash and the hash of the line
/// before it.
pub open spec fn linked(lines: Seq<JsonView>, i: int) -> bool {
    &&& prev_of(lines[i]) == hash_before(lines, i)
    &&& sealed(lines[i])
}

/// Whether every line fits.
pub open spec fn intact(lines: Seq<JsonView>) -> bool {
    forall|i: int| 0 <= i < lines.len() ==> #[trigger] linked(lines, i)
}

/// The index of the first line at or after `from` that does not fit, or the
/// number of lines.
pub open spec fn first_break(lines: Seq<JsonView>, from: int) -> int
    decreases lines.len() - from,
{
    if from >= lines.len() {
        lines.len() as int
    } else if !linked(lines, from) {
        from
    } else {
        first_break(lines, from + 1)
    }
}

/// What verifying the lines gives.
pub open spec fn status_of_chain(lines: Seq<JsonView>) -> ChainStatus {
    let k = first_break(lines, 0);
    if k < lines.len() {
        ChainStatus { intact: false, break_at: Some(seq_of(lines[k])) }
    } else {
        ChainStatus { intact: true, break_at: None }
    }
}

/// The contents of a list of documents.
pub open spec fn documents(v: Seq<Json>) -> Seq<JsonView> {
    Seq::new(v.len(), |i: int| v[i]@)
}

/// The member `key` of a line as a text; empty when there is none.
fn text_or_empty<'a>(line: &'a Json, key: &str) -> (res: &'a str)
    ensures
        res@ == text_of(line@, key@),
{
    match line.get_text(key) {
        Some(s) => s.as_str(),
        None => "",
    }
}

/// The sequence number of a line; zero when it has none.
pub fn line_seq(line: &Json) -> (res: u64)
    ensures
        res == seq_of(line@),
{
    match line.get_uint("seq") {
        Some(n) => n,
        None => 0,
    }
}

/// The hash that a line carries; empty when it has none.
pub fn line_hash(line: &Json) -> (res: &str)
    ensures
        res@ == hash_of(line@),
{
    text_or_empty(line, "hash")
}

/// Whether a line carries the hash of the line before it, or none when it is the
/// first, and a hash that is expected of it.
pub open spec fn fits(line: JsonView, before: Option<JsonView>, expected: Seq<char>) -> bool {
    &&& prev_of(line) == match before {
        Some(b) => hash_of(b),
        None => ""@,
    }
    &&& hash_of(line) == expected
}

/// Decides whether a line fits, given the hash that is expected of it.
pub fn line_fits(line: &Json, before: Option<&Json>, expected: &str) -> (res: bool)
    ensures
        res == fits(
            line@,
            match before {
                Some(b) => Some(b@),
                None => None,
            },
            expected@,
        ),
{
    let prev_hash = match before {
        Some(b) => line_hash(b),
        None => "",
    };
    same_text(text_or_empty(line, "prev_hash"), prev_hash) && same_text(line_hash(line), expected)
}

/// Verifies the lines of a log, in order.
pub fn verify_chain(lines: &[Json]) -> (res: ChainStatus)
    ensures
        res == status_of_chain(documents(lines@)),
{
    let ghost docs = documents(lines@);
    let mut i: usize = 0;
    while i < lines.len()
        invariant
            i <= lines@.len(),
            docs == documents(lines@),
            first_break(docs, 0) == first_break(docs, i as int),
        decreases lines@.len() - i,
    {
        let line = &lines[i];
        assert(docs[i as int] == line@);
        let before = if i > 0 {
            assert(docs[i - 1] == lines@[i - 1]@);
            Some(&lines[i - 1])
        } else {
            None
        };
        let expected = compute_hash(line, text_or_empty(line, "prev_hash"));
        if !line_fits(line, before, expected.as_str()) {
            return ChainStatus { intact: false, break_at: Some(line_seq(line)) };
        }
        i += 1;
    }
    ChainStatus { intact: true, break_at: None }
}

// ---------------------------------------------------------------------------
// Sealing a record
// ---------------------------------------------------------------------------

/// The fields of a record with its place in the chain, and the hash still to be
/// filled in.
pub open spec fn placed(fields: Fields, seq: u64, prev_hash: Seq<char>) -> Fields {
    put(
        put(fields, "seq"@, JsonView::Uint(seq)),
        "prev_hash"@,
        JsonView::Text(prev_hash),
    )
}

/// The document that is stored for a record at the place `seq`, after a record
/// with the hash `prev_hash`.
pub open spec fn sealed_record(fields: Fields, seq: u64, prev_hash: Seq<char>) -> JsonView {
    let p = placed(fields, seq, prev_hash);
    JsonView::Object(
        put(p, "hash"@, JsonView::Text(chain_hash(JsonView::Object(p), prev_hash))),
    )
}

/// Gives the fields of a record a place in the chain.
pub fn replace_chain(fields: &mut Vec<(String, Json)>, seq: u64, prev_hash: &str)
    ensures
        fields_view(final(fields)@) == placed(fields_view(old(fields)@), seq, prev_hash@),
{
    put_field(fields, "seq", Json::Uint(seq));
    put_field(fields, "prev_hash", Json::Text(prev_hash.to_owned()));
}

/// Sets the hash among the fields of a record.
pub fn set_hash(fields: &mut Vec<(String, Json)>, hash: &str)
    ensures
        fields_view(final(fields)@) == put(
            fields_view(old(fields)@),
            "hash"@,
            JsonView::Text(hash@),
        ),
{
    put_field(fields, "hash", Json::Text(hash.to_owned()));
}

/// The keys of the chain fields are different keys, none of which is the marker.
pub(crate) proof fn lemma_keys_differ()
    ensures
        "seq"@ != "hash"@,
        "seq"@ != "prev_hash"@,
        "prev_hash"@ != "hash"@,
        "seq"@ != marker(),
        "prev_hash"@ != marker(),
        "hash"@ != marker(),
{
    reveal_strlit("seq");
    reveal_strlit("hash");
    reveal_strlit("prev_hash");
    reveal_strlit("$serde_json::private::RawValue");
    assert("seq"@.len() == 3);
    assert("hash"@.len() == 4);
    assert("prev_hash"@.len() == 9);
    assert(marker().len() == 30);
}

// ---------------------------------------------------------------------------
// Laws
// ---------------------------------------------------------------------------

proof fn lemma_first_break(lines: Seq<JsonView>, from: int)
    requires
        0 <= from <= lines.len(),
    ensures
        from <= first_break(lines, from) <= lines.len(),
        forall|i: int| from <= i < first_break(lines, from) ==> #[trigger] linked(lines, i),
        first_break(lines, from) < lines.len() ==> !linked(lines, first_break(lines, from)),
    decreases lines.len() - from,
{
    if from < lines.len() && linked(lines, from) {
        lemma_first_break(lines, from + 1);
    }
}

/// A chain is reported as intact exactly when every line fits.
pub proof fn law_intact(lines: Seq<JsonView>)
    ensures
        status_of_chain(lines).intact == intact(lines),
        status_of_chain(lines).intact == (status_of_chain(lines).break_at is None),
{
    lemma_first_break(lines, 0);
}

/// A break is reported at the first line that does not fit.
pub proof fn law_break_is_first(lines: Seq<JsonView>, k: int)
    requires
        0 <= k < lines.len(),
        !linked(lines, k),
        forall|i: int| 0 <= i < k ==> #[trigger] linked(lines, i),
    ensures
        status_of_chain(lines) == (ChainStatus {
            intact: false,
            break_at: Some(seq_of(lines[k])),
        }),
{
    lemma_first_break(lines, 0);
    assert(first_break(lines, 0) == k) by {
        if first_break(lines, 0) < k {
            assert(linked(lines, first_break(lines, 0)));
        }
    }
}

/// The hash of a record does not depend on the order of fields, at any depth.
pub proof fn law_hash_ignores_field_order(a: JsonView, b: JsonView, prev_hash: Seq<char>)
    requires
        same_document(a, b),
    ensures
        chain_hash(a, prev_hash) == chain_hash(b, prev_hash),
{
    law_stripped_canonical_ignores_field_order(a, b, "hash"@);
}

/// The hash of a record does not depend on the hash that it carries.
pub proof fn law_hash_ignores_hash(fields: Fields, hash: JsonView, prev_hash: Seq<char>)
    ensures
        chain_hash(JsonView::Object(put(fields, "hash"@, hash)), prev_hash) == chain_hash(
            JsonView::Object(fields),
            prev_hash,
        ),
{
    law_put(fields, "hash"@, hash, "hash"@);
}

/// A sealed record carries its place, the hash of the record before it, and its
/// own hash; every other member is that of the record.
pub proof fn law_sealed_record(fields: Fields, seq: u64, prev_hash: Seq<char>, other: Seq<char>)
    ensures
        uint_member(sealed_record(fields, seq, prev_hash), "seq"@) == Some(seq),
        text_member(sealed_record(fields, seq, prev_hash), "prev_hash"@) == Some(prev_hash),
        text_member(sealed_record(fields, seq, prev_hash), "hash"@) == Some(
            chain_hash(sealed_record(fields, seq, prev_hash), prev_hash),
        ),
        sealed(sealed_record(fields, seq, prev_hash)),
        other != "seq"@ && other != "prev_hash"@ && other != "hash"@ ==> member(
            sealed_record(fields, seq, prev_hash),
            other,
        ) == member(JsonView::Object(fields), other),
{
    lemma_keys_differ();
    let a = put(fields, "seq"@, JsonView::Uint(seq));
    let p = placed(fields, seq, prev_hash);
    let h = JsonView::Text(chain_hash(JsonView::Object(p), prev_hash));
    law_hash_ignores_hash(p, h, prev_hash);
    law_put(p, "hash"@, h, "hash"@);
    law_put(p, "hash"@, h, "seq"@);
    law_put(p, "hash"@, h, "prev_hash"@);
    law_put(p, "hash"@, h, other);
    law_put(a, "prev_hash"@, JsonView::Text(prev_hash), "prev_hash"@);
    law_put(a, "prev_hash"@, JsonView::Text(prev_hash), "seq"@);
    law_put(a, "prev_hash"@, JsonView::Text(prev_hash), other);
    law_put(fields, "seq"@, JsonView::Uint(seq), "seq"@);
    law_put(fields, "seq"@, JsonView::Uint(seq), other);
}

/// The chain fields that a record carries before it is sealed make no
/// difference.
pub proof fn law_own_chain_is_replaced(
    fields: Fields,
    own_seq: JsonView,
    own_prev_hash: JsonView,
    own_hash: JsonView,
    seq: u64,
    prev_hash: Seq<char>,
)
    requires
        field(fields, "seq"@) is Some,
        field(fields, "prev_hash"@) is Some,
        field(fields, "hash"@) is Some,
    ensures
        sealed_record(
            put(
                put(put(fields, "seq"@, own_seq), "prev_hash"@, own_prev_hash),
                "hash"@,
                own_hash,
            ),
            seq,
            prev_hash,
        ) == sealed_record(fields, seq, prev_hash),
{
    lemma_keys_differ();
    let s = JsonView::Uint(seq);
    let p = JsonView::Text(prev_hash);
    let a = put(fields, "seq"@, own_seq);
    let b = put(a, "prev_hash"@, own_prev_hash);
    law_put(fields, "seq"@, own_seq, "prev_hash"@);
    law_put(fields, "seq"@, own_seq, "hash"@);
    law_put(a, "prev_hash"@, own_prev_hash, "seq"@);
    law_put(a, "prev_hash"@, own_prev_hash, "hash"@);
    law_put(fields, "seq"@, own_seq, "seq"@);
    law_put(fields, "seq"@, s, "prev_hash"@);
    law_put(fields, "seq"@, s, "hash"@);
    // The sequence number takes the place of the one that was there.
    lemma_put_apart(b, "hash"@, own_hash, "seq"@, s);
    lemma_put_apart(a, "prev_hash"@, own_prev_hash, "seq"@, s);
    lemma_put_again(fields, "seq"@, own_seq, s);
    let placed_seq = put(fields, "seq"@, s);
    let c = put(placed_seq, "prev_hash"@, own_prev_hash);
    law_put(placed_seq, "prev_hash"@, own_prev_hash, "prev_hash"@);
    law_put(placed_seq, "prev_hash"@, own_prev_hash, "hash"@);
    lemma_put_apart(c, "hash"@, own_hash, "prev_hash"@, p);
    lemma_put_again(placed_seq, "prev_hash"@, own_prev_hash, p);
    let q = placed(fields, seq, prev_hash);
    assert(placed(put(b, "hash"@, own_hash), seq, prev_hash) == put(q, "hash"@, own_hash));
    law_put(placed_seq, "prev_hash"@, p, "hash"@);
    law_hash_ignores_hash(q, own_hash, prev_hash);
    lemma_put_again(
        q,
        "hash"@,
        own_hash,
        JsonView::Text(chain_hash(JsonView::Object(q), prev_hash)),
    );
}

/// A record that is sealed after the last line keeps an intact chain intact.
pub proof fn law_append_keeps_chain(
    lines: Seq<JsonView>,
    fields: Fields,
    seq: u64,
    prev_hash: Seq<char>,
)
    requires
        intact(lines),
        prev_hash == hash_before(lines, lines.len() as int),
    ensures
        intact(lines.push(sealed_record(fields, seq, prev_hash))),
        status_of_chain(lines.push(sealed_record(fields, seq, prev_hash))).intact,
{
    let line = sealed_record(fields, seq, prev_hash);
    let all = lines.push(line);
    law_sealed_record(fields, seq, prev_hash, "hash"@);
    assert forall|i: int| 0 <= i < all.len() implies #[trigger] linked(all, i) by {
        if i < lines.len() {
            assert(linked(lines, i));
        }
    }
    law_intact(all);
}

/// A line that was changed so that it no longer carries its own hash, or no
/// longer carries the hash of the line before, breaks an intact chain at that
/// line.
pub proof fn law_tampered_line(lines: Seq<JsonView>, k: int, changed: JsonView)
    requires
        intact(lines),
        0 <= k < lines.len(),
        !sealed(changed) || prev_of(changed) != hash_before(lines, k),
    ensures
        status_of_chain(lines.update(k, changed)) == (ChainStatus {
            intact: false,
            break_at: Some(seq_of(changed)),
        }),
{
    let all = lines.update(k, changed);
    assert forall|i: int| 0 <= i < k implies #[trigger] linked(all, i) by {
        assert(linked(lines, i));
    }
    law_break_is_first(all, k);
}

/// A line that was changed and given the hash that now fits it breaks an intact
/// chain at the line after it, unless both hashes are the same.
pub proof fn law_resealed_line(lines: Seq<JsonView>, k: int, changed: JsonView)
    requires
        intact(lines),
        0 <= k < lines.len() - 1,
        sealed(changed),
        prev_of(changed) == hash_before(lines, k),
        hash_of(changed) != hash_of(lines[k]),
    ensures
        status_of_chain(lines.update(k, changed)) == (ChainStatus {
            intact: false,
            break_at: Some(seq_of(lines[k + 1])),
        }),
{
    let all = lines.update(k, changed);
    assert forall|i: int| 0 <= i < k + 1 implies #[trigger] linked(all, i) by {
        assert(linked(lines, i));
    }
    assert(linked(lines, k + 1));
    law_break_is_first(all, k + 1);
}

/// Taking out a line that others follow breaks an intact chain at the line after
/// it, unless it carried the same hash as the line before it.
pub proof fn law_missing_line(lines: Seq<JsonView>, k: int)
    requires
        intact(lines),
        0 <= k < lines.len() - 1,
        hash_of(lines[k]) != hash_before(lines, k),
    ensures
        status_of_chain(lines.remove(k)) == (ChainStatus {
            intact: false,
            break_at: Some(seq_of(lines[k + 1])),
        }),
{
    let all = lines.remove(k);
    assert forall|i: int| 0 <= i < k implies #[trigger] linked(all, i) by {
        assert(linked(lines, i));
    }
    assert(linked(lines, k + 1));
    law_break_is_first(all, k);
}

/// The text under a key of a line, or nothing when there is no text.
pub open spec fn carried(line: JsonView, key: Seq<char>) -> Seq<char> {
    match member(line, key) {
        Some(JsonView::Text(s)) => s,
        _ => ""@,
    }
}

/// A chain that is reported as intact has a hash on every line that is the digest
/// of that line together with the hash before it, and every line but the first
/// carries the hash of the line before it; the first carries none.
pub proof fn law_lines_of_an_intact_chain(lines: Seq<JsonView>, i: int)
    requires
        status_of_chain(lines).intact,
        0 <= i < lines.len(),
    ensures
        carried(lines[i], "hash"@) == hex_text(
            sha256(hash_input(lines[i], carried(lines[i], "prev_hash"@))),
        ),
        i > 0 ==> carried(lines[i], "prev_hash"@) == carried(lines[i - 1], "hash"@),
        i == 0 ==> carried(lines[i], "prev_hash"@).len() == 0,
{
    reveal_strlit("");
    law_intact(lines);
    assert(linked(lines, i));
}

/// A chain that is reported as broken has a first line that does not fit: its
/// sequence number is the one that is reported, and all lines before it make an
/// intact chain.
pub proof fn law_line_of_a_break(lines: Seq<JsonView>) -> (k: int)
    requires
        !status_of_chain(lines).intact,
    ensures
        0 <= k < lines.len(),
        status_of_chain(lines.take(k)).intact,
        !status_of_chain(lines.take(k + 1)).intact,
        member(lines[k], "seq"@) matches Some(JsonView::Uint(n)) ==> status_of_chain(lines).break_at
            == Some(n),
        !(member(lines[k], "seq"@) is Some && member(lines[k], "seq"@)->0 is Uint)
            ==> status_of_chain(lines).break_at == Some(0u64),
        carried(lines[k], "hash"@) != hex_text(
            sha256(hash_input(lines[k], carried(lines[k], "prev_hash"@))),
        ) || (k > 0 && carried(lines[k], "prev_hash"@) != carried(lines[k - 1], "hash"@)) || (k
            == 0 && carried(lines[k], "prev_hash"@).len() > 0),
{
    reveal_strlit("");
    lemma_first_break(lines, 0);
    let k = first_break(lines, 0);
    let head = lines.take(k);
    let more = lines.take(k + 1);
    assert forall|i: int| 0 <= i < head.len() implies #[trigger] linked(head, i) by {
        assert(linked(lines, i));
        assert(head[i] == lines[i]);
        if i > 0 {
            assert(head[i - 1] == lines[i - 1]);
        }
    }
    law_intact(head);
    assert(more[k] == lines[k]);
    if k > 0 {
        assert(more[k - 1] == lines[k - 1]);
    }
    assert(!linked(more, k));
    law_intact(more);
    if k == 0 {
        assert(hash_before(lines, 0) == ""@);
        if carried(lines[k], "prev_hash"@).len() == 0 {
            assert(carried(lines[k], "prev_hash"@) == ""@);
        }
    }
    k
}

/// Whether the text that is hashed for a line reads as what it was made of.
pub open spec fn hashed_text_reads(line: JsonView) -> bool {
    json_document(json_text(canonical(strip(line, "hash"@)))) == Some(
        canonical(strip(line, "hash"@)),
    )
}

/// What is hashed for a line leaves nothing out: two lines for which the same
/// bytes are hashed, after the same hash, have the same members but for the hash
/// itself, at all depths.
pub proof fn law_hash_covers_the_line(a: JsonView, b: JsonView, prev_hash: Seq<char>, key: Seq<char>)
    requires
        hashed_text_reads(a),
        hashed_text_reads(b),
        hash_input(a, prev_hash) == hash_input(b, prev_hash),
    ensures
        same_document(strip(a, "hash"@), strip(b, "hash"@)),
        key != "hash"@ ==> member(a, key) is Some == member(b, key) is Some,
        key != "hash"@ && member(a, key) is Some ==> same_document(
            member(a, key)->0,
            member(b, key)->0,
        ),
{
    let x = encode_utf8(json_text(canonical(strip(a, "hash"@))));
    let y = encode_utf8(json_text(canonical(strip(b, "hash"@))));
    let p = encode_utf8(prev_hash);
    assert((x + p).len() == (y + p).len());
    assert((x + p).take(x.len() as int) == x);
    assert((y + p).take(x.len() as int) == y);
    encode_utf8_decode_utf8(json_text(canonical(strip(a, "hash"@))));
    encode_utf8_decode_utf8(json_text(canonical(strip(b, "hash"@))));
    law_canonical_loses_nothing(strip(a, "hash"@), strip(b, "hash"@));
    law_same_document_has_same_parts(strip(a, "hash"@), strip(b, "hash"@), key, 0);
    law_strip(a, "hash"@, key);
    law_strip(b, "hash"@, key);
}

/// What is hashed for a line covers the hash before it.
pub proof fn law_hash_covers_the_hash_before(line: JsonView, p: Seq<char>, q: Seq<char>)
    requires
        hash_input(line, p) == hash_input(line, q),
    ensures
        p == q,
{
    let x = encode_utf8(json_text(canonical(strip(line, "hash"@))));
    let n = x.len() as int;
    assert((x + encode_utf8(p)).skip(n) == encode_utf8(p));
    assert((x + encode_utf8(q)).skip(n) == encode_utf8(q));
    encode_utf8_decode_utf8(p);
    encode_utf8_decode_utf8(q);
}

/// A line that was edited in any member other than its hash, at any depth, and
/// kept its hash breaks an intact chain at that line, unless two different inputs
/// have one digest.
pub proof fn law_edited_line(lines: Seq<JsonView>, k: int, changed: JsonView)
    requires
        intact(lines),
        0 <= k < lines.len(),
        carried(changed, "hash"@) == carried(lines[k], "hash"@),
        !same_document(strip(changed, "hash"@), strip(lines[k], "hash"@)),
        hashed_text_reads(lines[k]),
        hashed_text_reads(changed),
        ({
            let before = hash_input(lines[k], carried(lines[k], "prev_hash"@));
            let after = hash_input(changed, carried(changed, "prev_hash"@));
            sha256(before) == sha256(after) ==> before == after
        }),
    ensures
        status_of_chain(lines.update(k, changed)) == (ChainStatus {
            intact: false,
            break_at: Some(seq_of(changed)),
        }),
{
    let line = lines[k];
    assert(linked(lines, k));
    if sealed(changed) && prev_of(changed) == hash_before(lines, k) {
        law_hex_is_unambiguous(
            sha256(hash_input(changed, prev_of(changed))),
            sha256(hash_input(line, prev_of(line))),
        );
        law_hash_covers_the_line(changed, line, prev_of(line), ""@);
    }
    law_tampered_line(lines, k, changed);
}

/// A line fits when it carries the hash that is expected of it, and as the hash
/// before it the one that the line before carries, or none when there is no line
/// before.
pub proof fn law_fits(line: JsonView, before: JsonView, expected: Seq<char>)
    ensures
        fits(line, Some(before), expected) <==> carried(line, "hash"@) == expected && carried(
            line,
            "prev_hash"@,
        ) == carried(before, "hash"@),
        fits(line, None, expected) <==> carried(line, "hash"@) == expected && carried(
            line,
            "prev_hash"@,
        ).len() == 0,
{
    reveal_strlit("");
    if carried(line, "prev_hash"@).len() == 0 {
        assert(carried(line, "prev_hash"@) == ""@);
    }
}

/// Every kind of record carries its own chain fields, and a list of documents has
/// the contents of each, in order.
pub proof fn law_records_and_documents(r: Record, v: Seq<Json>, i: int)
    ensures
        r matches Record::Sample { chain, .. } ==> r.chain() == chain,
        r matches Record::Outage { chain, .. } ==> r.chain() == chain,
        r matches Record::MonitorRestart { chain } ==> r.chain() == chain,
        documents(v).len() == v.len(),
        0 <= i < v.len() ==> documents(v)[i] == v[i]@,
{
}

proof fn lemma_utf8_joins(a: Seq<char>, b: Seq<char>)
    ensures
        encode_utf8(a + b) == encode_utf8(a) + encode_utf8(b),
    decreases a.len(),
{
    if a.len() == 0 {
        assert(a + b == b);
        assert(encode_utf8(a) + encode_utf8(b) == encode_utf8(b));
    } else {
        assert((a + b).drop_first() == a.drop_first() + b);
        lemma_utf8_joins(a.drop_first(), b);
        assert(encode_utf8(a + b) == encode_utf8(a) + encode_utf8(b));
    }
}

/// The hash of a line is the digest of one text: the line in canonical form without
/// its hash, followed by the hash before it.
pub proof fn law_hashed_text(line: JsonView, prev_hash: Seq<char>)
    ensures
        hash_input(line, prev_hash) == encode_utf8(
            json_text(canonical(strip(line, "hash"@))) + prev_hash,
        ),
        chain_hash(line, prev_hash) == hex_text(
            sha256(encode_utf8(json_text(canonical(strip(line, "hash"@))) + prev_hash)),
        ),
{
    lemma_utf8_joins(json_text(canonical(strip(line, "hash"@))), prev_hash);
}

} // verus!
