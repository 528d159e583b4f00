//! The replication slot: its name, the commands that manage it, and the
//! client clock that standby status updates carry.

use vstd::prelude::*;
use crate::text::{split_spec, join_spec, split_text, join_text};

verus! {

/// What `str::to_lowercase` gives for a text.
pub uninterp spec fn lowercase_of(s: Seq<char>) -> Seq<char>;

/// Relies on `str::to_lowercase`: the result depends on the characters alone.
#[verifier::external_body]
fn lowercase(s: &str) -> (r: String)
    ensures
        r@ == lowercase_of(s@),
{
    s.to_lowercase()
}

/// Relies on `uuid_readable_rs::short`: a few random words separated by
/// spaces; nothing is promised of them.
#[verifier::external_body]
fn random_words() -> (r: String) {
    uuid_readable_rs::short()
}

/// The slot name made from words: spaces become underscores, then the text
/// is lowercased.
pub open spec fn slot_name_spec(words: Seq<char>) -> Seq<char> {
    lowercase_of(join_spec(split_spec(words, ' '), '_'))
}

/// Makes a slot name from words.
pub fn slot_name_from(words: &str) -> (r: String)
    ensures
        r@ == slot_name_spec(words@),
{
    proof {
        reveal_strlit("_");
    }
    let pieces = split_text(words, ' ');
    let joined = join_text(&pieces, "_");
    lowercase(joined.as_str())
}

/// A fresh slot name for this process.
pub fn new_slot_name() -> (r: String)
    ensures
        exists|w: Seq<char>| r@ == slot_name_spec(w),
{
    let words = random_words();
    slot_name_from(words.as_str())
}

/// `CREATE_REPLICATION_SLOT <name> TEMPORARY LOGICAL wal2json NOEXPORT_SNAPSHOT`.
pub fn create_slot_command(slot_name: &str) -> (r: String)
    ensures
        r@ == "CREATE_REPLICATION_SLOT "@ + slot_name@ + " TEMPORARY LOGICAL wal2json NOEXPORT_SNAPSHOT"@,
{
    let mut out = String::from_str("CREATE_REPLICATION_SLOT ");
    out.append(slot_name);
    out.append(" TEMPORARY LOGICAL wal2json NOEXPORT_SNAPSHOT");
    out
}

/// `START_REPLICATION SLOT <name> LOGICAL <lsn>`.
pub fn start_replication_command(slot_name: &str, start_lsn: &str) -> (r: String)
    ensures
        r@ == "START_REPLICATION SLOT "@ + slot_name@ + " LOGICAL "@ + start_lsn@,
{
    let mut out = String::from_str("START_REPLICATION SLOT ");
    out.append(slot_name);
    out.append(" LOGICAL ");
    out.append(start_lsn);
    out
}

/// `DROP_REPLICATION_SLOT <name> WAIT`.
pub fn drop_slot_command(slot_name: &str) -> (r: String)
    ensures
        r@ == "DROP_REPLICATION_SLOT "@ + slot_name@ + " WAIT"@,
{
    let mut out = String::from_str("DROP_REPLICATION_SLOT ");
    out.append(slot_name);
    out.append(" WAIT");
    out
}

/// Microseconds from the Unix epoch to 2000-01-01 00:00:00 UTC.
pub const PG_EPOCH_OFFSET_MICROS: u128 = 946_684_800_000_000;

/// The time since 2000-01-01 in microseconds for a time since the Unix
/// epoch: 0 before 2000, and the largest `u64` past its range.
pub open spec fn pg_micros_spec(unix_micros: u128) -> u64 {
    if unix_micros <= PG_EPOCH_OFFSET_MICROS {
        0
    } else if unix_micros - PG_EPOCH_OFFSET_MICROS > u64::MAX as u128 {
        u64::MAX
    } else {
        (unix_micros - PG_EPOCH_OFFSET_MICROS) as u64
    }
}

/// Converts a time since the Unix epoch into one since 2000-01-01.
pub fn pg_micros(unix_micros: u128) -> (r: u64)
    ensures
        r == pg_micros_spec(unix_micros),
{
    if unix_micros <= PG_EPOCH_OFFSET_MICROS {
        0
    } else if unix_micros - PG_EPOCH_OFFSET_MICROS > u64::MAX as u128 {
        u64::MAX
    } else {
        (unix_micros - PG_EPOCH_OFFSET_MICROS) as u64
    }
}

/// Relies on `SystemTime::elapsed` from the Unix epoch: the clock now, in
/// microseconds, or `None` for a clock set before 1970.
#[verifier::external_body]
fn unix_time_micros() -> (r: Option<u128>) {
    std::time::UNIX_EPOCH.elapsed().ok().map(|d| d.as_micros())
}

/// The client clock in microseconds since 2000-01-01, as standby status
/// updates carry it.
pub fn current_time() -> (r: u64)
    ensures
        exists|t: u128| r == pg_micros_spec(t),
{
    match unix_time_micros() {
        Some(t) => pg_micros(t),
        None => {
            assert(pg_micros_spec(0) == 0);
            0
        },
    }
}

} // verus!
