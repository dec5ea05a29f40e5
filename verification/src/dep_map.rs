//! Small association lists keyed by peer: a point's `includes` and
//! `witness` dependency maps and a proof's `evidence` map. Key uniqueness
//! is an explicit well-formedness condition checked where the maps enter
//! the system.

use vstd::prelude::*;

use crate::models::{Digest, PeerId, Signature};

verus! {

/// Whether some entry of `entries` carries the key `key`.
pub open spec fn deps_has_key(entries: Seq<(PeerId, Digest)>, key: Seq<u8>) -> bool {
    exists|i: int| 0 <= i < entries.len() && entries[i].0@ == key
}

/// Whether no two entries of `entries` share a key.
pub open spec fn deps_keys_distinct(entries: Seq<(PeerId, Digest)>) -> bool {
    forall|i: int, j: int|
        0 <= i < j < entries.len() ==> entries[i].0@ != entries[j].0@
}

/// The digest stored under `key`; meaningful only when `deps_has_key`.
pub open spec fn spec_deps_get(entries: Seq<(PeerId, Digest)>, key: Seq<u8>) -> Digest {
    entries[choose|i: int| 0 <= i < entries.len() && entries[i].0@ == key].1
}

/// Looks a peer's digest up by linear scan.
pub fn deps_find(entries: &Vec<(PeerId, Digest)>, key: &PeerId) -> (r: Option<Digest>)
    requires
        deps_keys_distinct(entries@),
    ensures
        r is Some <==> deps_has_key(entries@, key@),
        r is Some ==> r->0 == spec_deps_get(entries@, key@),
{
    let mut i: usize = 0;
    while i < entries.len()
        invariant
            0 <= i <= entries@.len(),
            deps_keys_distinct(entries@),
            forall|j: int| 0 <= j < i ==> entries@[j].0@ != key@,
        decreases entries@.len() - i,
    {
        if entries[i].0 == *key {
            proof {
                let w = choose|k: int| 0 <= k < entries@.len() && entries@[k].0@ == key@;
                assert(entries@[i as int].0@ == key@);
                assert(w == i as int);
            }
            return Some(entries[i].1);
        }
        i = i + 1;
    }
    None
}

/// Whether the dependency map holds an entry for `key`; unlike
/// `deps_find` this asks nothing of the keys.
pub fn deps_contains_key(entries: &Vec<(PeerId, Digest)>, key: &PeerId) -> (r: bool)
    ensures
        r == deps_has_key(entries@, key@),
{
    let mut i: usize = 0;
    while i < entries.len()
        invariant
            0 <= i <= entries@.len(),
            forall|j: int| 0 <= j < i ==> entries@[j].0@ != key@,
        decreases entries@.len() - i,
    {
        if entries[i].0 == *key {
            return true;
        }
        i = i + 1;
    }
    false
}

/// Whether some entry of the evidence map carries the key `key`.
pub open spec fn evidence_has_key(entries: Seq<(PeerId, Signature)>, key: Seq<u8>) -> bool {
    exists|i: int| 0 <= i < entries.len() && entries[i].0@ == key
}

/// Whether no two evidence entries share a key.
pub open spec fn evidence_keys_distinct(entries: Seq<(PeerId, Signature)>) -> bool {
    forall|i: int, j: int|
        0 <= i < j < entries.len() ==> entries[i].0@ != entries[j].0@
}

/// Whether the evidence map holds an entry for `key`.
pub fn evidence_contains_key(entries: &Vec<(PeerId, Signature)>, key: &PeerId) -> (r: bool)
    ensures
        r == evidence_has_key(entries@, key@),
{
    let mut i: usize = 0;
    while i < entries.len()
        invariant
            0 <= i <= entries@.len(),
            forall|j: int| 0 <= j < i ==> entries@[j].0@ != key@,
        decreases entries@.len() - i,
    {
        if entries[i].0 == *key {
            return true;
        }
        i = i + 1;
    }
    false
}

/// Whether the keys of `entries` are pairwise distinct, by quadratic scan.
pub fn deps_check_distinct(entries: &Vec<(PeerId, Digest)>) -> (r: bool)
    ensures
        r == deps_keys_distinct(entries@),
{
    let mut i: usize = 0;
    while i < entries.len()
        invariant
            0 <= i <= entries@.len(),
            forall|a: int, b: int| 0 <= a < b < i ==> entries@[a].0@ != entries@[b].0@,
        decreases entries@.len() - i,
    {
        let mut j: usize = 0;
        while j < i
            invariant
                0 <= j <= i < entries@.len(),
                forall|a: int, b: int| 0 <= a < b < i ==> entries@[a].0@ != entries@[b].0@,
                forall|a: int| 0 <= a < j ==> entries@[a].0@ != entries@[i as int].0@,
            decreases i - j,
        {
            if entries[j].0 == entries[i].0 {
                proof {
                    assert(entries@[j as int].0@ == entries@[i as int].0@);
                }
                return false;
            }
            j = j + 1;
        }
        i = i + 1;
    }
    true
}

/// Whether the keys of the evidence map are pairwise distinct.
pub fn evidence_check_distinct(entries: &Vec<(PeerId, Signature)>) -> (r: bool)
    ensures
        r == evidence_keys_distinct(entries@),
{
    let mut i: usize = 0;
    while i < entries.len()
        invariant
            0 <= i <= entries@.len(),
            forall|a: int, b: int| 0 <= a < b < i ==> entries@[a].0@ != entries@[b].0@,
        decreases entries@.len() - i,
    {
        let mut j: usize = 0;
        while j < i
            invariant
                0 <= j <= i < entries@.len(),
                forall|a: int, b: int| 0 <= a < b < i ==> entries@[a].0@ != entries@[b].0@,
                forall|a: int| 0 <= a < j ==> entries@[a].0@ != entries@[i as int].0@,
            decreases i - j,
        {
            if entries[j].0 == entries[i].0 {
                proof {
                    assert(entries@[j as int].0@ == entries@[i as int].0@);
                }
                return false;
            }
            j = j + 1;
        }
        i = i + 1;
    }
    true
}

} // verus!
