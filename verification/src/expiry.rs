//! What holds of entries and their time to live.

use vstd::prelude::*;
use crate::kvstore::{read_ttl, read_value, swept, visible, written, Entry, NANOS_PER_SECOND};

verus! {

/// An entry written with a time to live is read back until that time has
/// passed, and no longer from then on: a read at `later` gives the value
/// exactly when less than `ttl` seconds lie between the write and the read.
/// The time to live that is reported is the one that was set.
pub proof fn lemma_lives_until_ttl(
    entries: Map<Seq<char>, Entry>,
    key: Seq<char>,
    value: Seq<char>,
    ttl: u64,
    now: nat,
    later: nat,
)
    requires
        now <= later,
    ensures
        ({
            let after = entries.insert(key, written(value, Some(ttl), now));
            if later - now < ttl * NANOS_PER_SECOND {
                read_value(after, key, later) == Some(value) && read_ttl(after, key, later) == Some(
                    ttl,
                )
            } else {
                read_value(after, key, later) is None && read_ttl(after, key, later) is None
            }
        }),
{
}

/// An entry written without a time to live is read back at every later time.
pub proof fn lemma_set_stays(
    entries: Map<Seq<char>, Entry>,
    key: Seq<char>,
    value: Seq<char>,
    now: nat,
    later: nat,
)
    ensures
        read_value(entries.insert(key, written(value, None, now)), key, later) == Some(value),
        read_ttl(entries.insert(key, written(value, None, now)), key, later) is None,
{
}

/// A sweep removes exactly the entries that have expired: a key is left
/// after it precisely when a read at that time would still see it, and with
/// the same entry.
pub proof fn lemma_sweep_keeps_visible(entries: Map<Seq<char>, Entry>, key: Seq<char>, now: nat)
    ensures
        swept(entries, now).contains_key(key) <==> visible(entries, key, now) is Some,
        visible(swept(entries, now), key, now) == visible(entries, key, now),
{
}

/// A sweep removes an entry once its time to live has passed.
pub proof fn lemma_sweep_removes_expired(
    entries: Map<Seq<char>, Entry>,
    key: Seq<char>,
    value: Seq<char>,
    ttl: u64,
    now: nat,
    later: nat,
)
    requires
        later >= now + ttl * NANOS_PER_SECOND,
    ensures
        !swept(entries.insert(key, written(value, Some(ttl), now)), later).contains_key(key),
{
}

/// A second sweep at the same time removes nothing further.
pub proof fn lemma_sweep_idempotent(entries: Map<Seq<char>, Entry>, now: nat)
    ensures
        swept(swept(entries, now), now) == swept(entries, now),
{
    assert(swept(swept(entries, now), now) =~= swept(entries, now));
}

/// A sweep never brings an entry in, and leaves what it keeps unchanged.
pub proof fn lemma_sweep_shrinks(entries: Map<Seq<char>, Entry>, now: nat)
    ensures
        swept(entries, now).submap_of(entries),
{
}

/// No read ever reports a time to live of zero seconds: an entry with none
/// to live has expired as soon as it is written.
pub proof fn lemma_ttl_zero_unseen(entries: Map<Seq<char>, Entry>, key: Seq<char>, now: nat)
    ensures
        read_ttl(entries, key, now) != Some(0u64),
{
}

} // verus!
