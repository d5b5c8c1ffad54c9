//! Cursor arithmetic over a list of `len` entries: wrapping moves and
//! re-clamping after the list is replaced.
use vstd::prelude::*;

verus! {

/// The entry after `current`; past the last entry it wraps to the first.
/// With no entry selected, the first is taken; an empty list selects nothing.
pub open spec fn advanced(current: Option<usize>, len: nat) -> Option<usize> {
    if len == 0 {
        None
    } else {
        match current {
            Some(i) => if i + 1 < len { Some((i + 1) as usize) } else { Some(0) },
            None => Some(0),
        }
    }
}

/// The entry before `current`; before the first entry it wraps to the last.
/// With no entry selected, the first is taken; an empty list selects nothing.
pub open spec fn retreated(current: Option<usize>, len: nat) -> Option<usize> {
    if len == 0 {
        None
    } else {
        match current {
            Some(i) => if i == 0 || i >= len { Some((len - 1) as usize) } else { Some((i - 1) as usize) },
            None => Some(0),
        }
    }
}

/// `current` kept within a list of `len` entries: an index in bounds stays,
/// one past the end becomes the last entry, and an empty list selects nothing.
pub open spec fn clamped(current: Option<usize>, len: nat) -> Option<usize> {
    if len == 0 {
        None
    } else {
        match current {
            Some(i) => if i < len { Some(i) } else { Some((len - 1) as usize) },
            None => Some(0),
        }
    }
}

/// The cursor after `n` calls of `advance`.
pub open spec fn advanced_times(current: Option<usize>, len: nat, n: nat) -> Option<usize>
    decreases n,
{
    if n == 0 {
        current
    } else {
        advanced(advanced_times(current, len, (n - 1) as nat), len)
    }
}

/// Selection that cannot point past the end of its list.
pub open spec fn in_bounds(current: Option<usize>, len: nat) -> bool {
    match current {
        Some(i) => i < len,
        None => true,
    }
}

/// Moves the cursor one entry forward, wrapping from the last entry to the first.
pub fn advance(current: Option<usize>, len: usize) -> (r: Option<usize>)
    ensures
        r == advanced(current, len as nat),
        in_bounds(r, len as nat),
{
    if len == 0 {
        return None;
    }
    match current {
        Some(i) => if i < len - 1 { Some(i + 1) } else { Some(0) },
        None => Some(0),
    }
}

/// Moves the cursor one entry back, wrapping from the first entry to the last.
pub fn retreat(current: Option<usize>, len: usize) -> (r: Option<usize>)
    ensures
        r == retreated(current, len as nat),
        in_bounds(r, len as nat),
{
    if len == 0 {
        return None;
    }
    match current {
        Some(i) => if i == 0 || i >= len { Some(len - 1) } else { Some(i - 1) },
        None => Some(0),
    }
}

/// Re-anchors the cursor after its list was replaced by one of `len` entries.
pub fn clamp(current: Option<usize>, len: usize) -> (r: Option<usize>)
    ensures
        r == clamped(current, len as nat),
        in_bounds(r, len as nat),
{
    if len == 0 {
        return None;
    }
    match current {
        Some(i) => if i < len { Some(i) } else { Some(len - 1) },
        None => Some(0),
    }
}

/// The cursor of a full reset: the first entry, or nothing in an empty list.
pub fn first_of(len: usize) -> (r: Option<usize>)
    ensures
        r == (if len == 0 { None::<usize> } else { Some(0usize) }),
        in_bounds(r, len as nat),
{
    if len == 0 {
        None
    } else {
        Some(0)
    }
}

/// Replacing a list of `old_len` entries, with the cursor at `i`, by a shorter
/// one puts the cursor at `min(i, new_len - 1)`, or at nothing if the new list
/// is empty.
pub proof fn lemma_clamp_shrink(i: usize, old_len: nat, new_len: nat)
    requires
        i < old_len,
        new_len < old_len,
    ensures
        new_len == 0 ==> clamped(Some(i), new_len) is None,
        new_len > 0 ==> clamped(Some(i), new_len) == Some(
            (if i < new_len - 1 { i as int } else { new_len - 1 }) as usize,
        ),
{
}

proof fn lemma_advanced_steps(i: usize, len: nat, k: nat)
    requires
        i < len,
        k <= len,
        len <= usize::MAX,
    ensures
        advanced_times(Some(i), len, k) == Some(
            (if i + k < len { i + k } else { i + k - len }) as usize,
        ),
    decreases k,
{
    if k > 0 {
        lemma_advanced_steps(i, len, (k - 1) as nat);
    }
}

/// Advancing `len` times from any entry of a list of `len` entries comes back
/// to that entry.
pub proof fn lemma_advance_full_turn(i: usize, len: nat)
    requires
        i < len,
        len <= usize::MAX,
    ensures
        advanced_times(Some(i), len, len) == Some(i),
{
    lemma_advanced_steps(i, len, len);
}

/// Retreating undoes advancing, and advancing undoes retreating, for every
/// cursor in bounds of a non-empty list.
pub proof fn lemma_retreat_inverts_advance(i: usize, len: nat)
    requires
        i < len,
        len <= usize::MAX,
    ensures
        retreated(advanced(Some(i), len), len) == Some(i),
        advanced(retreated(Some(i), len), len) == Some(i),
{
}

} // verus!
