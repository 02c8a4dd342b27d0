use vstd::prelude::*;

use crate::digest::{hex_text, sha256_hex, sha256_of};
use crate::json::{encode_json_string, json_quoted};
use crate::span::utf8_of;
use crate::text::{decimal, push_char, push_decimal, push_str, str_equal};

verus! {

/// One append-only, hash-chained trace record.
#[derive(Clone, Debug, PartialEq, Eq)]
pub struct TraceEntry {
    /// Trace schema version.
    pub schema_version: u32,
    /// Run identity.
    pub run_id: String,
    /// Zero-based sequence.
    pub sequence: u64,
    /// Stable logical entry kind.
    pub kind: String,
    /// Canonical JSON of the non-secret payload.
    pub payload: String,
    /// Hash of the preceding complete entry.
    pub previous_entry_hash: String,
    /// Hash of this entry excluding this field.
    pub entry_hash: String,
}

/// Canonical JSON of an entry, with `entry_hash` as its hash field: the
/// fields in key order, no spacing, text fields as JSON strings and the
/// payload verbatim.
pub open spec fn entry_json(entry: TraceEntry, entry_hash: Seq<char>) -> Seq<char> {
    "{\"entry_hash\":"@ + json_quoted(entry_hash) + ",\"kind\":"@ + json_quoted(entry.kind@)
        + ",\"payload\":"@ + entry.payload@ + ",\"previous_entry_hash\":"@ + json_quoted(
        entry.previous_entry_hash@,
    ) + ",\"run_id\":"@ + json_quoted(entry.run_id@) + ",\"schema_version\":"@ + decimal(
        entry.schema_version as nat,
    ) + ",\"sequence\":"@ + decimal(entry.sequence as nat) + "}"@
}

/// The hash an entry must carry: lower-case hexadecimal SHA-256 of its
/// canonical JSON with an empty hash field.
pub open spec fn entry_digest(entry: TraceEntry) -> Seq<char> {
    hex_text(sha256_of(utf8_of(entry_json(entry, Seq::empty()))))
}

/// Hash the entry at `index` must link to: the previous entry's hash, or
/// nothing for the first entry.
pub open spec fn link_before(entries: Seq<TraceEntry>, index: int) -> Seq<char> {
    if index <= 0 {
        Seq::empty()
    } else {
        entries[index - 1].entry_hash@
    }
}

/// The divergence of the entry at `index`, checked in order: schema, run
/// identity and position; link to the previous entry; own hash.
pub open spec fn entry_fault(run_id: Seq<char>, entries: Seq<TraceEntry>, index: int) -> Option<
    TraceError,
> {
    let entry = entries[index];
    if entry.schema_version != 1 || entry.run_id@ != run_id || entry.sequence != index {
        Some(TraceError::MetadataMismatch { sequence: index as u64 })
    } else if entry.previous_entry_hash@ != link_before(entries, index) {
        Some(TraceError::LinkMismatch { sequence: index as u64 })
    } else if entry_digest(entry) != entry.entry_hash@ {
        Some(TraceError::HashMismatch { sequence: index as u64 })
    } else {
        None
    }
}

/// The verdict on the entries from `index` on: the first divergence, if any.
pub open spec fn chain_verdict(run_id: Seq<char>, entries: Seq<TraceEntry>, index: int) -> Result<
    (),
    TraceError,
>
    decreases entries.len() - index,
{
    if index < 0 || index >= entries.len() {
        Ok(())
    } else {
        match entry_fault(run_id, entries, index) {
            Some(error) => Err(error),
            None => chain_verdict(run_id, entries, index + 1),
        }
    }
}

/// In-memory append-only trace prior to persistence.
#[derive(Clone, Debug, PartialEq, Eq)]
pub struct Trace {
    /// Run identity shared by every entry.
    pub run_id: String,
    /// Ordered trace entries.
    pub entries: Vec<TraceEntry>,
}

/// Trace construction or verification failure.
#[derive(Clone, Copy, Debug, PartialEq, Eq, Structural)]
pub enum TraceError {
    /// Trace length cannot be represented.
    TooLong,
    /// Entry metadata differs from its position or trace.
    MetadataMismatch { sequence: u64 },
    /// Previous hash linkage is broken.
    LinkMismatch { sequence: u64 },
    /// Entry content differs from its claimed hash.
    HashMismatch { sequence: u64 },
    /// A JSON Lines record could not be decoded.
    MalformedLine { sequence: u64 },
    /// A trace must contain at least its run header.
    Empty,
}

/// Appends the canonical JSON of an entry with the given hash field.
fn write_entry_json(out: &mut String, entry: &TraceEntry, entry_hash: &str)
    ensures
        final(out)@ == old(out)@ + entry_json(*entry, entry_hash@),
{
    let ghost before = out@;
    push_str(out, "{\"entry_hash\":");
    write_json_text(out, entry_hash);
    push_str(out, ",\"kind\":");
    write_json_text(out, entry.kind.as_str());
    push_str(out, ",\"payload\":");
    push_str(out, entry.payload.as_str());
    push_str(out, ",\"previous_entry_hash\":");
    write_json_text(out, entry.previous_entry_hash.as_str());
    push_str(out, ",\"run_id\":");
    write_json_text(out, entry.run_id.as_str());
    push_str(out, ",\"schema_version\":");
    push_decimal(out, entry.schema_version as u64);
    push_str(out, ",\"sequence\":");
    push_decimal(out, entry.sequence);
    push_str(out, "}");
    proof {
        assert(out@ =~= before + entry_json(*entry, entry_hash@));
    }
}

/// Appends a text as a JSON string literal.
pub(crate) fn write_json_text(out: &mut String, text: &str)
    ensures
        final(out)@ == old(out)@ + json_quoted(text@),
{
    match encode_json_string(text) {
        Some(encoded) => push_str(out, encoded.as_str()),
        None => push_str(out, "\"\""),
    }
}

/// The hash an entry must carry.
fn compute_entry_hash(entry: &TraceEntry) -> (hash: String)
    ensures
        hash@ == entry_digest(*entry),
{
    let mut unhashed = String::new();
    write_entry_json(&mut unhashed, entry, "");
    proof {
        assert(Seq::<char>::empty() + entry_json(*entry, ""@) =~= entry_json(*entry, ""@));
        reveal_strlit("");
        assert(""@ =~= Seq::<char>::empty());
    }
    sha256_hex(unhashed.as_str())
}

impl Trace {
    /// Starts an empty trace for one run.
    pub fn new(run_id: &str) -> (trace: Trace)
        ensures
            trace.run_id@ == run_id@,
            trace.entries@.len() == 0,
    {
        Trace { run_id: run_id.to_owned(), entries: Vec::new() }
    }

    /// Appends and seals one logical event: the entry carries the run
    /// identity, its position, the previous entry's hash and its own.
    pub fn append(&mut self, kind: &str, payload: &str) -> (result: Result<(), TraceError>)
        ensures
            result is Ok,
            final(self).run_id == old(self).run_id,
            final(self).entries@.len() == old(self).entries@.len() + 1,
            final(self).entries@.drop_last() == old(self).entries@,
            ({
                let entry = final(self).entries@.last();
                &&& entry.schema_version == 1
                &&& entry.run_id@ == old(self).run_id@
                &&& entry.sequence == old(self).entries@.len()
                &&& entry.kind@ == kind@
                &&& entry.payload@ == payload@
                &&& entry.previous_entry_hash@ == link_before(
                    final(self).entries@,
                    old(self).entries@.len() as int,
                )
                &&& entry.entry_hash@ == entry_digest(entry)
            }),
    {
        let count = self.entries.len();
        let sequence = count as u64;
        let previous_entry_hash = if count == 0 {
            String::new()
        } else {
            self.entries[count - 1].entry_hash.clone()
        };
        let mut entry = TraceEntry {
            schema_version: 1,
            run_id: self.run_id.clone(),
            sequence,
            kind: kind.to_owned(),
            payload: payload.to_owned(),
            previous_entry_hash,
            entry_hash: String::new(),
        };
        let hash = compute_entry_hash(&entry);
        proof {
            assert(entry_json(entry, Seq::empty()) == entry_json(
                TraceEntry { entry_hash: hash, ..entry },
                Seq::empty(),
            ));
        }
        entry.entry_hash = hash;
        self.entries.push(entry);
        proof {
            assert(self.entries@.drop_last() =~= old(self).entries@);
        }
        Ok(())
    }

    /// The next sequence number and the current chain head.
    pub fn checkpoint(&self) -> (result: Result<(u64, String), TraceError>)
        ensures
            result matches Ok(point) && point.0 == self.entries@.len() && point.1@ == link_before(
                self.entries@,
                self.entries@.len() as int,
            ),
    {
        let count = self.entries.len();
        let head = if count == 0 {
            String::new()
        } else {
            self.entries[count - 1].entry_hash.clone()
        };
        Ok((count as u64, head))
    }

    /// Verifies schema, sequence, run identity, linkage, and every entry
    /// hash, reporting the first divergence.
    pub fn verify(&self) -> (result: Result<(), TraceError>)
        ensures
            result == chain_verdict(self.run_id@, self.entries@, 0),
    {
        let mut index: usize = 0;
        while index < self.entries.len()
            invariant
                index <= self.entries@.len(),
                chain_verdict(self.run_id@, self.entries@, 0) == chain_verdict(
                    self.run_id@,
                    self.entries@,
                    index as int,
                ),
            decreases self.entries@.len() - index,
        {
            let entry = &self.entries[index];
            let sequence = index as u64;
            if entry.schema_version != 1 || !str_equal(entry.run_id.as_str(), self.run_id.as_str())
                || entry.sequence != sequence {
                return Err(TraceError::MetadataMismatch { sequence });
            }
            let linked = if index == 0 {
                proof {
                    reveal_strlit("");
                }
                str_equal(entry.previous_entry_hash.as_str(), "")
            } else {
                str_equal(
                    entry.previous_entry_hash.as_str(),
                    self.entries[index - 1].entry_hash.as_str(),
                )
            };
            if !linked {
                proof {
                    reveal_strlit("");
                    assert(""@ =~= Seq::<char>::empty());
                    assert(entry.previous_entry_hash@ != link_before(self.entries@, index as int));
                    assert(entry_fault(self.run_id@, self.entries@, index as int) == Some(
                        TraceError::LinkMismatch { sequence },
                    ));
                }
                return Err(TraceError::LinkMismatch { sequence });
            }
            proof {
                reveal_strlit("");
                assert(""@ =~= Seq::<char>::empty());
                assert(entry.previous_entry_hash@ == link_before(self.entries@, index as int));
            }
            let expected = compute_entry_hash(entry);
            if !str_equal(expected.as_str(), entry.entry_hash.as_str()) {
                proof {
                    assert(entry_fault(self.run_id@, self.entries@, index as int) == Some(
                        TraceError::HashMismatch { sequence },
                    ));
                }
                return Err(TraceError::HashMismatch { sequence });
            }
            proof {
                assert(entry_fault(self.run_id@, self.entries@, index as int) is None);
            }
            index = index + 1;
        }
        Ok(())
    }

    /// Encodes the trace as canonical append-only JSON Lines, after verifying it.
    pub fn to_json_lines(&self) -> (result: Result<String, TraceError>)
        ensures
            match chain_verdict(self.run_id@, self.entries@, 0) {
                Ok(()) => result matches Ok(text) && text@ == json_lines(self.entries@),
                Err(error) => result == Err::<String, TraceError>(error),
            },
    {
        self.verify()?;
        let mut output = String::new();
        let mut index: usize = 0;
        while index < self.entries.len()
            invariant
                index <= self.entries@.len(),
                output@ == json_lines(self.entries@.take(index as int)),
            decreases self.entries@.len() - index,
        {
            let entry = &self.entries[index];
            write_entry_json(&mut output, entry, entry.entry_hash.as_str());
            push_char(&mut output, '\n');
            proof {
                let next = self.entries@.take(index + 1);
                assert(next.drop_last() =~= self.entries@.take(index as int));
                assert(next.last() == self.entries@[index as int]);
            }
            index = index + 1;
        }
        proof {
            assert(self.entries@.take(self.entries@.len() as int) =~= self.entries@);
        }
        Ok(output)
    }

    /// Assembles a trace from decoded entries: the run identity is the first
    /// entry's, and the chain must verify.
    pub fn from_entries(entries: Vec<TraceEntry>) -> (result: Result<Trace, TraceError>)
        ensures
            entries@.len() == 0 ==> result == Err::<Trace, TraceError>(TraceError::Empty),
            entries@.len() > 0 ==> match chain_verdict(entries@[0].run_id@, entries@, 0) {
                Ok(()) => result matches Ok(trace) && trace.entries@ == entries@
                    && trace.run_id@ == entries@[0].run_id@,
                Err(error) => result == Err::<Trace, TraceError>(error),
            },
    {
        if entries.len() == 0 {
            return Err(TraceError::Empty);
        }
        let run_id = entries[0].run_id.clone();
        let trace = Trace { run_id, entries };
        trace.verify()?;
        Ok(trace)
    }
}

/// Each entry's canonical JSON, with its hash, on a line of its own.
pub open spec fn json_lines(entries: Seq<TraceEntry>) -> Seq<char>
    decreases entries.len(),
{
    if entries.len() == 0 {
        Seq::empty()
    } else {
        json_lines(entries.drop_last()) + entry_json(entries.last(), entries.last().entry_hash@)
            + seq!['\n']
    }
}


proof fn lemma_verdict_push(run_id: Seq<char>, entries: Seq<TraceEntry>, entry: TraceEntry, k: int)
    requires
        0 <= k <= entries.len(),
        entry_fault(run_id, entries.push(entry), entries.len() as int) is None,
    ensures
        chain_verdict(run_id, entries.push(entry), k) == chain_verdict(run_id, entries, k),
    decreases entries.len() - k,
{
    let longer = entries.push(entry);
    if k < entries.len() {
        assert(longer[k] == entries[k]);
        assert(link_before(longer, k) == link_before(entries, k));
        assert(entry_fault(run_id, longer, k) == entry_fault(run_id, entries, k));
        lemma_verdict_push(run_id, entries, entry, k + 1);
    } else {
        assert(chain_verdict(run_id, longer, k + 1) == Ok::<(), TraceError>(()));
    }
}

/// Appending keeps a valid chain valid: an entry sealed as `append` seals
/// it (schema, run identity, position, link to the previous entry, own
/// hash) extends a verified chain to a verified chain.
pub proof fn lemma_append_keeps_chain_valid(
    run_id: Seq<char>,
    entries: Seq<TraceEntry>,
    entry: TraceEntry,
)
    requires
        chain_verdict(run_id, entries, 0) is Ok,
        entry.schema_version == 1,
        entry.run_id@ == run_id,
        entry.sequence == entries.len(),
        entry.previous_entry_hash@ == link_before(entries.push(entry), entries.len() as int),
        entry.entry_hash@ == entry_digest(entry),
    ensures
        chain_verdict(run_id, entries.push(entry), 0) is Ok,
{
    assert(entries.push(entry)[entries.len() as int] == entry);
    lemma_verdict_push(run_id, entries, entry, 0);
}

proof fn lemma_verdict_ok_from(run_id: Seq<char>, entries: Seq<TraceEntry>, k: int, i: int)
    requires
        0 <= k <= i < entries.len(),
        chain_verdict(run_id, entries, k) is Ok,
    ensures
        entry_fault(run_id, entries, i) is None,
    decreases i - k,
{
    if k < i {
        lemma_verdict_ok_from(run_id, entries, k + 1, i);
    }
}

/// A verified chain is what appends produce: every entry has schema 1, the
/// trace's run identity and its own position, links to the previous
/// entry's hash, and carries the hash of its own content.
pub proof fn lemma_verified_chain_is_sealed(run_id: Seq<char>, entries: Seq<TraceEntry>)
    requires
        chain_verdict(run_id, entries, 0) is Ok,
    ensures
        forall|i: int|
            0 <= i < entries.len() ==> {
                &&& (#[trigger] entries[i]).schema_version == 1
                &&& entries[i].run_id@ == run_id
                &&& entries[i].sequence == i
                &&& entries[i].previous_entry_hash@ == link_before(entries, i)
                &&& entries[i].entry_hash@ == entry_digest(entries[i])
            },
{
    assert forall|i: int| 0 <= i < entries.len() implies {
        &&& (#[trigger] entries[i]).schema_version == 1
        &&& entries[i].run_id@ == run_id
        &&& entries[i].sequence == i
        &&& entries[i].previous_entry_hash@ == link_before(entries, i)
        &&& entries[i].entry_hash@ == entry_digest(entries[i])
    } by {
        lemma_verdict_ok_from(run_id, entries, 0, i);
    }
}

} // verus!
