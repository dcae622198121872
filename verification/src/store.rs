//! The layout of the snapshot store: one blob of bytes for each channel,
//! kept under a name that is derived from the channel's number.

use crate::text::{decimal, decimal_string, lemma_decimal_injective};
use vstd::prelude::*;
use vstd::string::StringExecFns;

verus! {

/// The name under which the snapshot of `channel` is kept: the decimal
/// numeral of the channel's number, followed by `.data`.
pub open spec fn snapshot_name(channel: u64) -> Seq<char> {
    decimal(channel as nat) + ".data"@
}

/// The name under which the snapshot of `channel` is kept.
pub fn snapshot_file_name(channel: u64) -> (name: String)
    ensures
        name@ == snapshot_name(channel),
{
    let mut name = decimal_string(channel);
    name.append(".data");
    name
}

/// The directory that holds the snapshots.
pub fn snapshot_dir() -> (dir: &'static str)
    ensures
        dir@ == "save_data"@,
{
    "save_data"
}

/// The name under which a game played on the terminal keeps its snapshot.
pub fn local_snapshot_file_name() -> (name: &'static str)
    ensures
        name@ == "local_save.data"@,
{
    "local_save.data"
}

/// No two channels share a snapshot: different channels have different
/// names.
pub proof fn lemma_snapshot_names_differ(a: u64, b: u64)
    requires
        snapshot_name(a) == snapshot_name(b),
    ensures
        a == b,
{
    let suffix = ".data"@;
    let da = decimal(a as nat);
    let db = decimal(b as nat);
    assert(da.len() == db.len()) by {
        assert((da + suffix).len() == (db + suffix).len());
    }
    assert(da =~= db) by {
        assert forall|i: int| 0 <= i < da.len() implies da[i] == db[i] by {
            assert((da + suffix)[i] == (db + suffix)[i]);
        }
    }
    lemma_decimal_injective(a as nat, b as nat);
}

} // verus!
