//! The event log: reading it back, and sealing what is appended to it.
use crate::chain::{
    chain_hash, compute_hash, documents, intact, law_append_keeps_chain, law_hash_ignores_hash,
    law_intact, law_sealed_record,
    lemma_keys_differ, placed,
    replace_chain, sealed_record, seq_of, set_hash, status_of_chain,
};
use crate::json::{
    field, fields_view, json_document, json_text, lemma_put_settled, marker, member, nested_within,
    put, put_field, read_json, settled, text_member, uint_member, write_json, Fields, Json, JsonView,
    MAX_DEPTH,
};
use crate::text::{blank, is_blank, lemma_lines_append, lines, lines_of, strip_cr, texts};
use vstd::prelude::*;

verus! {

// ---------------------------------------------------------------------------
// Reading
// ---------------------------------------------------------------------------

/// The documents in a list of lines. A line that is blank or not a JSON
/// document is left out.
pub open spec fn parsed_lines(all: Seq<Seq<char>>) -> Seq<JsonView>
    decreases all.len(),
{
    if all.len() == 0 {
        seq![]
    } else {
        let before = parsed_lines(all.drop_last());
        match json_document(all.last()) {
            Some(j) => if blank(all.last()) {
                before
            } else {
                before.push(j)
            },
            None => before,
        }
    }
}

/// The documents that a log holds, in order.
pub open spec fn log_documents(contents: Seq<char>) -> Seq<JsonView> {
    parsed_lines(lines(contents))
}

/// Reads the documents of a log.
pub fn read_log(contents: &str) -> (res: Vec<Json>)
    ensures
        documents(res@) == log_documents(contents@),
{
    let all = lines_of(contents);
    let ghost spec_all = texts(all@);
    let mut res: Vec<Json> = Vec::new();
    let mut i: usize = 0;
    assert(spec_all.take(0) == Seq::<Seq<char>>::empty());
    assert(documents(res@) == parsed_lines(spec_all.take(0)));
    while i < all.len()
        invariant
            i <= all@.len(),
            spec_all == texts(all@),
            documents(res@) == parsed_lines(spec_all.take(i as int)),
        decreases all@.len() - i,
    {
        let ghost next = spec_all.take(i + 1);
        assert(next.drop_last() == spec_all.take(i as int));
        assert(next.last() == all@[i as int]@);
        if !is_blank(all[i].as_str()) {
            if let Some(j) = read_json(all[i].as_str()) {
                let ghost before = res@;
                res.push(j);
                assert(documents(res@) == documents(before).push(j@));
            }
        }
        i += 1;
    }
    assert(spec_all.take(i as int) == spec_all);
    res
}

/// The sequence number of the last document that has one.
pub open spec fn last_seq(docs: Seq<JsonView>) -> Option<u64>
    decreases docs.len(),
{
    if docs.len() == 0 {
        None
    } else if uint_member(docs.last(), "seq"@) is Some {
        uint_member(docs.last(), "seq"@)
    } else {
        last_seq(docs.drop_last())
    }
}

/// The hash of the last document that has one; empty when none has.
pub open spec fn last_hash(docs: Seq<JsonView>) -> Seq<char>
    decreases docs.len(),
{
    if docs.len() == 0 {
        ""@
    } else {
        match text_member(docs.last(), "hash"@) {
            Some(h) => h,
            None => last_hash(docs.drop_last()),
        }
    }
}

// ---------------------------------------------------------------------------
// Appending
// ---------------------------------------------------------------------------

/// The place after the last document: the sequence number that follows the last
/// one, and the last hash. Without any sequence number it is the start of a
/// log. After the largest sequence number there is no place.
pub open spec fn log_end(docs: Seq<JsonView>) -> Option<(u64, Seq<char>)> {
    match last_seq(docs) {
        None => Some((0, ""@)),
        Some(n) => if n == u64::MAX {
            None
        } else {
            Some(((n + 1) as u64, last_hash(docs)))
        },
    }
}

/// The end of a log: the sequence number that the next record gets, and the
/// hash of the record before it.
pub struct StoreWriter {
    pub seq: u64,
    pub prev_hash: String,
}

/// A line to be written, and the end of the log once it is written.
pub struct Appended {
    pub line: String,
    pub next: StoreWriter,
}

/// Whether a log is empty or ends with a line feed.
pub open spec fn ends_line(contents: Seq<char>) -> bool {
    contents.len() == 0 || contents.last() == '\n'
}

/// Whether a log is intact and goes on at a place: its last line, if it has
/// any, carries the sequence number and the hash before that place.
pub open spec fn goes_on_at(docs: Seq<JsonView>, seq: u64, prev_hash: Seq<char>) -> bool {
    &&& intact(docs)
    &&& log_end(docs) == Some((seq, prev_hash))
    &&& docs.len() > 0 ==> uint_member(docs.last(), "seq"@) is Some && text_member(
        docs.last(),
        "hash"@,
    ) is Some
}

/// What writing a line does to every log that it is written to: the log then
/// holds the sealed record after all that it held before; and if the log was
/// intact and ended where the record was sealed, it stays intact and ends after
/// the record.
pub open spec fn extends(
    seq: u64,
    prev_hash: Seq<char>,
    fields: Fields,
    appended: Appended,
) -> bool {
    forall|contents: Seq<char>| #[trigger]
        ends_line(contents) ==> {
            let longer = log_documents(contents + appended.line@.push('\n'));
            &&& longer == log_documents(contents).push(sealed_record(fields, seq, prev_hash))
            &&& goes_on_at(log_documents(contents), seq, prev_hash) ==> goes_on_at(
                longer,
                appended.next.seq,
                appended.next.prev_hash@,
            )
        }
}

/// Recovers the place after the last document of a log.
pub fn read_last_line(docs: &Vec<Json>) -> (res: Option<(u64, String)>)
    ensures
        res is Some == log_end(documents(docs@)) is Some,
        res matches Some((seq, hash)) ==> log_end(documents(docs@)) == Some((seq, hash@)),
{
    let ghost all = documents(docs@);
    let mut found: Option<u64> = None;
    let mut hash: String = "".to_owned();
    let mut i: usize = 0;
    assert(all.take(0) == Seq::<JsonView>::empty());
    while i < docs.len()
        invariant
            i <= docs@.len(),
            all == documents(docs@),
            found == last_seq(all.take(i as int)),
            hash@ == last_hash(all.take(i as int)),
        decreases docs@.len() - i,
    {
        let ghost next = all.take(i + 1);
        assert(next.drop_last() == all.take(i as int));
        assert(next.last() == docs@[i as int]@);
        if let Some(n) = docs[i].get_uint("seq") {
            found = Some(n);
        }
        if let Some(h) = docs[i].get_text("hash") {
            hash = h.clone();
        }
        i += 1;
    }
    assert(all.take(i as int) == all);
    match found {
        None => Some((0, "".to_owned())),
        Some(n) => if n == u64::MAX {
            None
        } else {
            Some((n + 1, hash))
        },
    }
}

impl StoreWriter {
    /// The end of a log with these contents; `None` when no sequence number is
    /// left.
    pub fn open(contents: &str) -> (res: Option<StoreWriter>)
        ensures
            res is Some == log_end(log_documents(contents@)) is Some,
            res matches Some(w) ==> log_end(log_documents(contents@)) == Some(
                (w.seq, w.prev_hash@),
            ),
    {
        let docs = read_log(contents);
        match read_last_line(&docs) {
            Some((seq, prev_hash)) => Some(StoreWriter { seq, prev_hash }),
            None => None,
        }
    }

    /// Seals the marker of a start at the end of a log with these contents;
    /// there is none when no sequence number is left for it and for what
    /// follows.
    pub fn start(contents: &str) -> (res: Option<Appended>)
        ensures
            res is Some == (log_end(log_documents(contents@)) matches Some((seq, _)) && seq
                < u64::MAX),
            res matches Some(a) ==> {
                let (seq, prev_hash) = log_end(log_documents(contents@))->0;
                &&& a.line@ == json_text(sealed_record(restart_fields(), seq, prev_hash))
                &&& a.next.seq == seq + 1
                &&& a.next.prev_hash@ == chain_hash(
                    sealed_record(restart_fields(), seq, prev_hash),
                    prev_hash,
                )
                &&& extends(seq, prev_hash, restart_fields(), a)
            },
    {
        match StoreWriter::open(contents) {
            Some(end) => {
                if end.seq == u64::MAX {
                    None
                } else {
                    Some(end.append_record(restart_record()))
                }
            },
            None => None,
        }
    }

    /// The sequence number that the next record gets.
    pub fn seq(&self) -> (res: u64)
        ensures
            res == self.seq,
    {
        self.seq
    }

    /// Seals a record after the end of the log. The line is the sealed record,
    /// and a log that it is written to holds that record after all the others.
    /// An intact log that ends here stays intact, and goes on after the record.
    pub fn append_record(&self, record: Vec<(String, Json)>) -> (res: Appended)
        requires
            self.seq < u64::MAX,
        ensures
            res.line@ == json_text(
                sealed_record(fields_view(record@), self.seq, self.prev_hash@),
            ),
            res.next.seq == self.seq + 1,
            res.next.prev_hash@ == chain_hash(
                sealed_record(fields_view(record@), self.seq, self.prev_hash@),
                self.prev_hash@,
            ),
            settled(JsonView::Object(fields_view(record@))) && nested_within(
                JsonView::Object(fields_view(record@)),
                MAX_DEPTH as nat,
            ) ==> extends(self.seq, self.prev_hash@, fields_view(record@), res),
    {
        let ghost fields = fields_view(record@);
        let ghost doc = sealed_record(fields, self.seq, self.prev_hash@);
        let mut record = record;
        replace_chain(&mut record, self.seq, self.prev_hash.as_str());
        let body = Json::Object(record);
        assert(body@->Object_0 == placed(fields, self.seq, self.prev_hash@));
        let hash = compute_hash(&body, self.prev_hash.as_str());
        let mut record = match body {
            Json::Object(r) => r,
            _ => Vec::new(),
        };
        set_hash(&mut record, hash.as_str());
        let line_doc = Json::Object(record);
        assert(line_doc@->Object_0 == doc->Object_0);
        let line = write_json(&line_doc);
        proof {
            let p = placed(fields, self.seq, self.prev_hash@);
            law_hash_ignores_hash(p, JsonView::Text(hash@), self.prev_hash@);
            let whole = JsonView::Object(fields);
            if settled(whole) && nested_within(whole, MAX_DEPTH as nat) {
                let a = put(fields, "seq"@, JsonView::Uint(self.seq));
                lemma_keys_differ();
                lemma_put_settled(fields, "seq"@, JsonView::Uint(self.seq), MAX_DEPTH as nat);
                lemma_put_settled(
                    a,
                    "prev_hash"@,
                    JsonView::Text(self.prev_hash@),
                    MAX_DEPTH as nat,
                );
                lemma_put_settled(p, "hash"@, JsonView::Text(hash@), MAX_DEPTH as nat);
                assert(!line@.contains('\n'));
                assert forall|contents: Seq<char>| #[trigger] ends_line(contents) implies {
                    let longer = log_documents(contents + line@.push('\n'));
                    &&& longer == log_documents(contents).push(doc)
                    &&& goes_on_at(log_documents(contents), self.seq, self.prev_hash@)
                        ==> goes_on_at(longer, (self.seq + 1) as u64, hash@)
                } by {
                    lemma_lines_append(contents, line@);
                    let before = lines(contents);
                    assert(strip_cr(line@) == line@);
                    assert(before.push(line@).drop_last() == before);
                    let docs = log_documents(contents);
                    if goes_on_at(docs, self.seq, self.prev_hash@) {
                        law_append_to_log(docs, fields);
                        law_recover_after_append(docs, fields, self.seq, self.prev_hash@);
                        law_sealed_record(fields, self.seq, self.prev_hash@, "hash"@);
                        assert(docs.push(doc).last() == doc);
                    }
                }
            }
        }
        let next = StoreWriter { seq: self.seq + 1, prev_hash: hash };
        Appended { line, next }
    }

    /// Seals a record that is given as a JSON text; there is nothing to seal
    /// when the text is not one object that can be read back.
    pub fn append_text(&self, text: &str) -> (res: Option<Appended>)
        requires
            self.seq < u64::MAX,
        ensures
            res is Some == record_of(text@) is Some,
            res matches Some(a) ==> {
                let fields = record_of(text@)->0;
                &&& a.line@ == json_text(sealed_record(fields, self.seq, self.prev_hash@))
                &&& a.next.seq == self.seq + 1
                &&& a.next.prev_hash@ == chain_hash(
                    sealed_record(fields, self.seq, self.prev_hash@),
                    self.prev_hash@,
                )
                &&& extends(self.seq, self.prev_hash@, fields, a)
            },
    {
        match read_record(text) {
            Some(fields) => Some(self.append_record(fields)),
            None => None,
        }
    }

    /// Goes on after a line that was written; a line that could not be written
    /// changes nothing.
    pub fn after_write(&mut self, appended: Appended, written: bool)
        ensures
            *final(self) == if written {
                appended.next
            } else {
                *old(self)
            },
    {
        if written {
            *self = appended.next;
        }
    }
}

/// The fields of a record that is given as a JSON text: one object, not nested
/// too deep to be read back.
pub open spec fn record_of(text: Seq<char>) -> Option<Fields> {
    match json_document(text) {
        Some(JsonView::Object(fields)) => if nested_within(
            JsonView::Object(fields),
            MAX_DEPTH as nat,
        ) {
            Some(fields)
        } else {
            None
        },
        _ => None,
    }
}

/// Reads the fields of a record from a JSON text.
pub fn read_record(text: &str) -> (res: Option<Vec<(String, Json)>>)
    ensures
        res is Some == record_of(text@) is Some,
        res matches Some(fields) ==> record_of(text@) == Some(fields_view(fields@)) && settled(
            JsonView::Object(fields_view(fields@)),
        ) && nested_within(JsonView::Object(fields_view(fields@)), MAX_DEPTH as nat),
{
    match read_json(text) {
        Some(doc) => {
            if !doc.is_nested_within(MAX_DEPTH) {
                return None;
            }
            match doc {
                Json::Object(fields) => {
                    assert(doc@->Object_0 == fields_view(fields@));
                    Some(fields)
                },
                _ => None,
            }
        },
        None => None,
    }
}

/// The fields of the record that marks a start of the monitor.
pub open spec fn restart_fields() -> Fields {
    seq![("type"@, JsonView::Text("monitor_restart"@))]
}

/// The record that marks a start of the monitor.
pub fn restart_record() -> (res: Vec<(String, Json)>)
    ensures
        fields_view(res@) == restart_fields(),
        settled(JsonView::Object(restart_fields())),
        nested_within(JsonView::Object(restart_fields()), MAX_DEPTH as nat),
{
    let mut res: Vec<(String, Json)> = Vec::new();
    put_field(&mut res, "type", Json::Text("monitor_restart".to_owned()));
    assert(fields_view(res@) == restart_fields());
    proof {
        reveal_strlit("type");
        reveal_strlit("$serde_json::private::RawValue");
        assert("type"@.len() == 4);
        assert(marker().len() == 30);
        reveal_with_fuel(settled, 2);
        reveal_with_fuel(nested_within, 2);
        let whole = JsonView::Object(restart_fields());
        assert(whole->Object_0 == restart_fields());
    }
    res
}

// ---------------------------------------------------------------------------
// Laws
// ---------------------------------------------------------------------------

/// Reading a log back after a record was sealed and written recovers the place
/// right after that record.
pub proof fn law_recover_after_append(
    docs: Seq<JsonView>,
    fields: Fields,
    seq: u64,
    prev_hash: Seq<char>,
)
    requires
        seq < u64::MAX,
    ensures
        log_end(docs.push(sealed_record(fields, seq, prev_hash))) == Some(
            (
                (seq + 1) as u64,
                chain_hash(sealed_record(fields, seq, prev_hash), prev_hash),
            ),
        ),
{
    let line = sealed_record(fields, seq, prev_hash);
    law_sealed_record(fields, seq, prev_hash, "hash"@);
    assert(docs.push(line).last() == line);
}

/// A record that is sealed at the end of an intact log, whose last line has a
/// sequence number and a hash, keeps the log intact and gets the next sequence
/// number.
pub proof fn law_append_to_log(docs: Seq<JsonView>, fields: Fields)
    requires
        log_end(docs) matches Some((seq, prev_hash)) && goes_on_at(docs, seq, prev_hash),
    ensures
        ({
            let (seq, prev_hash) = log_end(docs)->0;
            let line = sealed_record(fields, seq, prev_hash);
            &&& intact(docs.push(line))
            &&& status_of_chain(docs.push(line)).intact
            &&& seq_of(line) == if docs.len() == 0 {
                0
            } else {
                seq_of(docs.last()) + 1
            }
        }),
{
    let (seq, prev_hash) = log_end(docs)->0;
    law_append_keeps_chain(docs, fields, seq, prev_hash);
    law_sealed_record(fields, seq, prev_hash, "hash"@);
}

/// Every line that is a JSON document and not blank is read, once and in order, and
/// nothing else is: the places of the documents among the lines ascend, and each
/// line that holds a document is at one of them.
pub proof fn law_every_document_is_read(all: Seq<Seq<char>>) -> (places: Seq<int>)
    ensures
        places.len() == parsed_lines(all).len(),
        forall|a: int, b: int|
            0 <= a < b < places.len() ==> #[trigger] places[a] < #[trigger] places[b],
        forall|a: int|
            0 <= a < places.len() ==> 0 <= #[trigger] places[a] < all.len() && json_document(
                all[places[a]],
            ) == Some(parsed_lines(all)[a]) && !blank(all[places[a]]),
        forall|i: int|
            0 <= i < all.len() && json_document(#[trigger] all[i]) is Some && !blank(all[i])
                ==> places.contains(i),
    decreases all.len(),
{
    if all.len() == 0 {
        Seq::empty()
    } else {
        let head = all.drop_last();
        let before = law_every_document_is_read(head);
        let n = all.len() - 1;
        assert(forall|i: int| 0 <= i < n ==> head[i] == all[i]);
        if json_document(all.last()) is Some && !blank(all.last()) {
            let places = before.push(n);
            assert(places[places.len() - 1] == n);
            assert forall|i: int|
                0 <= i < all.len() && json_document(#[trigger] all[i]) is Some && !blank(
                    all[i],
                ) implies places.contains(i) by {
                if i < n {
                    assert(head[i] == all[i]);
                    let k = before.index_of(i);
                    assert(places[k] == i);
                }
            }
            places
        } else {
            assert forall|i: int|
                0 <= i < all.len() && json_document(#[trigger] all[i]) is Some && !blank(
                    all[i],
                ) implies before.contains(i) by {
                assert(head[i] == all[i]);
            }
            before
        }
    }
}

/// The last document with a sequence number gives the last sequence number, and the
/// last document with a hash gives the last hash; without one there is none.
pub proof fn law_last_place(docs: Seq<JsonView>, k: int)
    requires
        k < docs.len(),
    ensures
        k >= 0 && member(docs[k], "seq"@) is Some && member(docs[k], "seq"@)->0 is Uint && (
        forall|i: int|
            k < i < docs.len() ==> !(member(#[trigger] docs[i], "seq"@) is Some && member(
                docs[i],
                "seq"@,
            )->0 is Uint)) ==> last_seq(docs) == Some(member(docs[k], "seq"@)->0->Uint_0),
        k < 0 && (forall|i: int|
            0 <= i < docs.len() ==> !(member(#[trigger] docs[i], "seq"@) is Some && member(
                docs[i],
                "seq"@,
            )->0 is Uint)) ==> last_seq(docs) is None,
        k >= 0 && member(docs[k], "hash"@) is Some && member(docs[k], "hash"@)->0 is Text && (
        forall|i: int|
            k < i < docs.len() ==> !(member(#[trigger] docs[i], "hash"@) is Some && member(
                docs[i],
                "hash"@,
            )->0 is Text)) ==> last_hash(docs) == member(docs[k], "hash"@)->0->Text_0,
        k < 0 && (forall|i: int|
            0 <= i < docs.len() ==> !(member(#[trigger] docs[i], "hash"@) is Some && member(
                docs[i],
                "hash"@,
            )->0 is Text)) ==> last_hash(docs).len() == 0,
    decreases docs.len(),
{
    reveal_strlit("");
    if docs.len() > 0 {
        let head = docs.drop_last();
        let n = docs.len() - 1;
        assert(docs[n] == docs.last());
        assert(forall|i: int| 0 <= i < n ==> head[i] == docs[i]);
        if k < n {
            law_last_place(head, k);
        }
    }
}

/// A log goes on with the number after its last one and with its last hash; a log
/// without any number starts at zero with no hash, and after the largest number it
/// cannot go on.
pub proof fn law_log_end(docs: Seq<JsonView>)
    ensures
        last_seq(docs) is None ==> log_end(docs) is Some && (log_end(docs)->0).0 == 0 && (log_end(
            docs,
        )->0).1.len() == 0,
        last_seq(docs) is Some ==> (log_end(docs) is None <==> last_seq(docs)->0
            == 0xffff_ffff_ffff_ffff),
        last_seq(docs) is Some && log_end(docs) is Some ==> (log_end(docs)->0).0 == last_seq(
            docs,
        )->0 + 1 && (log_end(docs)->0).1 == last_hash(docs),
{
    reveal_strlit("");
}

/// A start is marked by a record of its type and nothing else.
pub proof fn law_restart_record(key: Seq<char>)
    ensures
        member(JsonView::Object(restart_fields()), key) == if key == "type"@ {
            Some(JsonView::Text("monitor_restart"@))
        } else {
            None
        },
{
    assert(restart_fields().drop_last() == Seq::<(Seq<char>, JsonView)>::empty());
    reveal_with_fuel(field, 2);
}

/// A text gives a record exactly when it is one JSON object that is nested at most
/// as deep as can be read back, and the record has the fields of that object.
pub proof fn law_record_of(text: Seq<char>)
    ensures
        record_of(text) is Some <==> json_document(text) is Some && json_document(text)->0 is Object
            && nested_within(json_document(text)->0, 127),
        record_of(text) is Some ==> json_document(text) == Some(
            JsonView::Object(record_of(text)->0),
        ),
{
}

/// A line that was sealed at the end of a log and is written to it leaves all that
/// the log held as it was and adds its record. When the log was intact and its last
/// line had a number and a hash, it stays intact and goes on after the record.
pub proof fn law_written_line(
    contents: Seq<char>,
    seq: u64,
    prev_hash: Seq<char>,
    fields: Fields,
    appended: Appended,
)
    requires
        contents.len() == 0 || contents.last() == '\n',
        extends(seq, prev_hash, fields, appended),
    ensures
        ({
            let before = log_documents(contents);
            let after = log_documents(contents + appended.line@.push('\n'));
            &&& after.len() == before.len() + 1
            &&& forall|i: int| 0 <= i < before.len() ==> after[i] == before[i]
            &&& after.last() == sealed_record(fields, seq, prev_hash)
            &&& status_of_chain(before).intact && log_end(before) == Some((seq, prev_hash)) && (
            before.len() > 0 ==> uint_member(before.last(), "seq"@) is Some && text_member(
                before.last(),
                "hash"@,
            ) is Some) ==> status_of_chain(after).intact && log_end(after) == Some(
                (appended.next.seq, appended.next.prev_hash@),
            )
        }),
{
    assert(ends_line(contents));
    let before = log_documents(contents);
    law_intact(before);
    law_intact(log_documents(contents + appended.line@.push('\n')));
}

} // verus!
