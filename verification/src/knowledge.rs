//! The knowledge log: what the agent has learned about itself.

use std::time::UNIX_EPOCH;

use chrono::{DateTime, Utc};
use vstd::prelude::*;

use crate::text::{chars_of, contains, decimal, lines, push_decimal, push_str, split_lines, str_contains, string_of_str};

verus! {

broadcast use vstd::string::group_string_axioms;

/// `UNIX_EPOCH.elapsed()` (std `SystemTime::elapsed`): the system clock's
/// reading as whole seconds and nanoseconds since the Unix epoch, or `None`
/// when the clock reads before the epoch. Of a reading only what
/// `Duration::subsec_nanos` documents is stated: the nanoseconds are less
/// than one second; the value itself is the clock's.
#[verifier::external_body]
fn clock_since_epoch() -> (r: Option<(u64, u32)>)
    ensures
        r matches Some((_s, n)) ==> n < 1_000_000_000,
{
    match UNIX_EPOCH.elapsed() {
        Ok(d) => Some((d.as_secs(), d.subsec_nanos())),
        Err(_) => None,
    }
}

/// The RFC 3339 text (with `+00:00` as offset) of the UTC time `secs`
/// seconds and `nanos` nanoseconds after the Unix epoch, or `None` where
/// chrono has no date for it.
pub uninterp spec fn rfc3339_of(secs: i64, nanos: u32) -> Option<Seq<char>>;

/// `chrono::DateTime::<Utc>::from_timestamp`, then `DateTime::to_rfc3339`:
/// the result is `rfc3339_of` of the arguments. Neither panics: the first
/// returns `None` out of chrono's range, and the second only writes to a
/// `String`.
#[verifier::external_body]
fn rfc3339_at(secs: i64, nanos: u32) -> (r: Option<String>)
    ensures
        match r {
            Some(t) => rfc3339_of(secs, nanos) == Some(t@),
            None => rfc3339_of(secs, nanos) is None,
        },
{
    match DateTime::<Utc>::from_timestamp(secs, nanos) {
        Some(t) => Some(t.to_rfc3339()),
        None => None,
    }
}

/// The most entries the knowledge log keeps.
pub const KNOWLEDGE_CAPACITY: usize = 1000;

/// One entry of the knowledge log.
#[derive(Debug)]
pub struct KnowledgeEntry {
    pub timestamp: String,
    pub description: String,
    pub diff: String,
    pub model_used: String,
    pub success: bool,
}

/// How many entries record a success.
pub open spec fn success_count(entries: Seq<KnowledgeEntry>) -> nat
    decreases entries.len(),
{
    if entries.len() == 0 {
        0
    } else {
        success_count(entries.drop_last()) + if entries.last().success {
            1nat
        } else {
            0nat
        }
    }
}

/// The one-line summary of the knowledge log.
pub open spec fn summary_text(entries: Seq<KnowledgeEntry>) -> Seq<char> {
    if entries.len() == 0 {
        "No improvements learned yet."@
    } else {
        "Learned "@ + decimal(entries.len()) + " improvements ("@ + decimal(success_count(entries))
            + " successful). Latest: "@ + entries.last().description@
    }
}

/// Summarises the knowledge log: how many entries, how many successful, and
/// the description of the latest.
pub fn learned_summary(entries: &Vec<KnowledgeEntry>) -> (s: String)
    ensures
        s@ == summary_text(entries@),
{
    if entries.len() == 0 {
        return string_of_str("No improvements learned yet.");
    }
    let mut successes: usize = 0;
    let mut i: usize = 0;
    while i < entries.len()
        invariant
            i <= entries@.len(),
            successes == success_count(entries@.subrange(0, i as int)),
            successes <= i,
        decreases entries.len() - i,
    {
        assert(entries@.subrange(0, i + 1).drop_last() =~= entries@.subrange(0, i as int));
        if entries[i].success {
            successes = successes + 1;
        }
        i = i + 1;
    }
    assert(entries@.subrange(0, entries@.len() as int) =~= entries@);
    let mut s = String::new();
    push_str(&mut s, "Learned ");
    push_decimal(&mut s, entries.len() as u128);
    push_str(&mut s, " improvements (");
    push_decimal(&mut s, successes as u128);
    push_str(&mut s, " successful). Latest: ");
    push_str(&mut s, entries[entries.len() - 1].description.as_str());
    s
}

/// Adds an entry to the log; beyond capacity the oldest entry goes.
pub fn append_knowledge(entries: &mut Vec<KnowledgeEntry>, entry: KnowledgeEntry)
    ensures
        old(entries)@.len() + 1 <= KNOWLEDGE_CAPACITY ==> final(entries)@ == old(entries)@.push(
            entry,
        ),
        old(entries)@.len() + 1 > KNOWLEDGE_CAPACITY ==> final(entries)@ == old(entries)@.push(
            entry,
        ).drop_first(),
{
    entries.push(entry);
    if entries.len() > KNOWLEDGE_CAPACITY {
        entries.remove(0);
        assert(entries@ =~= old(entries)@.push(entry).drop_first());
    }
}

/// The entry that records a self-reflection at the given time.
pub fn reflection_entry_at(timestamp: String, self_state: &str) -> (e: KnowledgeEntry)
    ensures
        e.timestamp == timestamp,
        e.description@ == "Internal reflection: "@ + self_state@,
        e.diff@ == Seq::<char>::empty(),
        e.model_used@ == "mindkernel::self"@,
        e.success,
{
    let mut description = String::new();
    push_str(&mut description, "Internal reflection: ");
    push_str(&mut description, self_state);
    KnowledgeEntry {
        timestamp,
        description,
        diff: String::new(),
        model_used: string_of_str("mindkernel::self"),
        success: true,
    }
}

/// The timestamp text of a clock reading (seconds and nanoseconds since the
/// Unix epoch): its RFC 3339 form, the seconds taken as an `i64` as
/// `u64 as i64` does, or empty when there is no reading or chrono has no
/// date for it.
pub open spec fn reading_text(reading: Option<(u64, u32)>) -> Seq<char> {
    match reading {
        Some((s, n)) => match rfc3339_of(s as i64, n) {
            Some(t) => t,
            None => seq![],
        },
        None => seq![],
    }
}

/// The timestamp text of a clock reading.
pub fn timestamp_text(reading: Option<(u64, u32)>) -> (r: String)
    ensures
        r@ == reading_text(reading),
{
    match reading {
        Some((s, n)) => match rfc3339_at(s as i64, n) {
            Some(t) => t,
            None => String::new(),
        },
        None => String::new(),
    }
}

/// The entry that records a self-reflection now; its timestamp is the
/// current time in RFC 3339 form, or empty when the clock reads before the
/// Unix epoch or beyond chrono's range.
pub fn reflection_entry(self_state: &str) -> (e: KnowledgeEntry)
    ensures
        exists|reading: Option<(u64, u32)>| e.timestamp@ == #[trigger] reading_text(reading),
        e.description@ == "Internal reflection: "@ + self_state@,
        e.diff@ == Seq::<char>::empty(),
        e.model_used@ == "mindkernel::self"@,
        e.success,
{
    let reading = clock_since_epoch();
    let timestamp = timestamp_text(reading);
    let e = reflection_entry_at(timestamp, self_state);
    assert(e.timestamp@ == reading_text(reading));
    e
}

/// A learning summary reports an applied improvement unless it mentions a
/// failure, a skip or low energy.
pub open spec fn applied_text(summary: Seq<char>) -> bool {
    !contains(summary, "Failed"@) && !contains(summary, "skipping"@) && !contains(summary, "low"@)
}

/// Whether a learning summary reports an applied improvement.
pub fn learn_applied(summary: &str) -> (b: bool)
    ensures
        b == applied_text(summary@),
{
    !str_contains(summary, "Failed") && !str_contains(summary, "skipping") && !str_contains(
        summary,
        "low",
    )
}

/// One file of the listing: `name(nL)`, `n` being its number of lines.
pub open spec fn listing_item(name: Seq<char>, content: Seq<char>) -> Seq<char> {
    name + seq!['('] + decimal(lines(content).len()) + seq!['L', ')']
}

/// The listing of the files `(name, content)`, items separated by `", "`.
pub open spec fn listing_text(files: Seq<(String, String)>) -> Seq<char>
    decreases files.len(),
{
    if files.len() == 0 {
        seq![]
    } else if files.len() == 1 {
        listing_item(files[0].0@, files[0].1@)
    } else {
        listing_text(files.drop_last()) + seq![',', ' '] + listing_item(
            files.last().0@,
            files.last().1@,
        )
    }
}

/// Lists source files with their line counts, in the order given (the
/// content of an unreadable file is passed as empty).
pub fn source_listing(files: &Vec<(String, String)>) -> (s: String)
    ensures
        s@ == listing_text(files@),
{
    let mut s = String::new();
    let mut i: usize = 0;
    while i < files.len()
        invariant
            i <= files@.len(),
            s@ == listing_text(files@.subrange(0, i as int)),
        decreases files.len() - i,
    {
        let ghost pre = files@.subrange(0, i as int);
        let ghost nxt = files@.subrange(0, i + 1);
        assert(nxt.drop_last() =~= pre);
        if i > 0 {
            push_str(&mut s, ", ");
        }
        push_str(&mut s, files[i].0.as_str());
        push_str(&mut s, "(");
        let content = chars_of(files[i].1.as_str());
        let ls = split_lines(content.as_slice());
        proof {
            assert(ls@.len() == lines(files@[i as int].1@).len()) by {
                assert(crate::text::views(ls@).len() == ls@.len());
            }
        }
        push_decimal(&mut s, ls.len() as u128);
        push_str(&mut s, "L)");
        proof {
            reveal_strlit(", ");
            reveal_strlit("(");
            reveal_strlit("L)");
            assert(s@ =~= listing_text(nxt));
        }
        i = i + 1;
    }
    assert(files@.subrange(0, files@.len() as int) =~= files@);
    s
}

} // verus!
