//! The alias resolver: follows "alias index leads to source index" links to
//! the canonical source instance, with a fixed hop ceiling as loop protection
//! against malformed alias cycles.

use std::collections::HashMap;
use vstd::prelude::*;

verus! {

broadcast use vstd::std_specs::hash::group_hash_axioms;

/// The hop ceiling of the resolver.
pub const ALIAS_HOP_LIMIT: u32 = 100;

/// Resolution with at most `n` hops: follow the map while an entry exists,
/// then stop; when the budget runs out, the last index reached is returned.
pub open spec fn spec_resolve_n(m: Map<u32, u32>, idx: u32, n: nat) -> u32
    decreases n,
{
    if n == 0 {
        idx
    } else if m.contains_key(idx) {
        spec_resolve_n(m, m[idx], (n - 1) as nat)
    } else {
        idx
    }
}

/// Resolution with the resolver's hop ceiling.
pub open spec fn spec_resolve(m: Map<u32, u32>, idx: u32) -> u32 {
    spec_resolve_n(m, idx, ALIAS_HOP_LIMIT as nat)
}

/// Resolve an alias chain to find the ultimate source instance. An index
/// with no map entry resolves to itself; on a malformed cycle the walk stops
/// at the hop ceiling and the last index reached is returned.
pub fn resolve_alias(idx: u32, alias_to_source: &HashMap<u32, u32>) -> (r: u32)
    ensures
        r == spec_resolve(alias_to_source@, idx),
        !alias_to_source@.contains_key(idx) ==> r == idx,
{
    let ghost m = alias_to_source@;
    let mut current = idx;
    let mut i: u32 = 0;
    while i < ALIAS_HOP_LIMIT
        invariant
            m == alias_to_source@,
            i <= ALIAS_HOP_LIMIT,
            spec_resolve(m, idx) == spec_resolve_n(m, current, (ALIAS_HOP_LIMIT - i) as nat),
        decreases ALIAS_HOP_LIMIT - i,
    {
        match alias_to_source.get(&current) {
            Some(source) => {
                current = *source;
            },
            None => {
                proof {
                    assert(spec_resolve_n(m, current, (ALIAS_HOP_LIMIT - i) as nat) == current);
                }
                return current;
            },
        }
        i = i + 1;
    }
    proof {
        assert(spec_resolve_n(m, current, 0) == current);
    }
    current
}

/// Resolution is left incomplete when, at the hop ceiling, the index reached
/// still has an alias entry: the walk was cut short by the ceiling and the
/// returned index is not guaranteed canonical.
pub open spec fn spec_resolve_truncated(m: Map<u32, u32>, idx: u32) -> bool {
    m.contains_key(spec_resolve(m, idx))
}

/// Resolve an alias chain and report whether the hop ceiling cut the walk
/// short. The first component is exactly what `resolve_alias` returns; the
/// second is true exactly when that index still has an alias entry, the
/// non-fatal diagnostic condition: the build goes on, but the resolution is
/// not guaranteed canonical and callers should log the flag.
pub fn resolve_alias_traced(idx: u32, alias_to_source: &HashMap<u32, u32>) -> (r: (u32, bool))
    ensures
        r.0 == spec_resolve(alias_to_source@, idx),
        r.1 == spec_resolve_truncated(alias_to_source@, idx),
{
    let resolved = resolve_alias(idx, alias_to_source);
    let truncated = alias_to_source.contains_key(&resolved);
    (resolved, truncated)
}

/// Resolution is idempotent where it completes: an index with no alias entry
/// resolves to itself, and when the resolved index has no further entry,
/// resolving it again changes nothing. (Resolution of a fixed index in a
/// fixed map is a single value, so two calls always agree.)
pub proof fn lemma_resolve_idempotent(m: Map<u32, u32>, idx: u32)
    ensures
        !m.contains_key(idx) ==> spec_resolve(m, idx) == idx,
        !m.contains_key(spec_resolve(m, idx)) ==> spec_resolve(m, spec_resolve(m, idx))
            == spec_resolve(m, idx),
{
    assert(!m.contains_key(idx) ==> spec_resolve(m, idx) == idx);
    let r = spec_resolve(m, idx);
    if !m.contains_key(r) {
        assert(spec_resolve(m, r) == r);
    }
}

} // verus!
