//! Finding lumps in a directory, and the rule that picks the lumps to
//! convert.

use vstd::prelude::*;
use vstd::utf8::*;
use crate::directory::{records, LumpRecord, Record};
use crate::name::name_bytes;

verus! {

/// The record's name reads `name`. Upper and lower case differ.
pub open spec fn is_named(r: Record, name: Seq<char>) -> bool {
    decode_utf8(name_bytes(r.name)) == name
}

/// The record's name begins with `prefix`, byte for byte.
pub open spec fn begins_with(r: Record, prefix: Seq<char>) -> bool {
    encode_utf8(prefix).is_prefix_of(name_bytes(r.name))
}

/// The least index at or after `from` whose record is named `name`; the
/// length of the directory where there is none.
pub open spec fn index_of_name(dir: Seq<Record>, name: Seq<char>, from: int) -> int
    decreases dir.len() - from,
{
    if from >= dir.len() {
        dir.len() as int
    } else if from >= 0 && is_named(dir[from], name) {
        from
    } else {
        index_of_name(dir, name, from + 1)
    }
}

/// `index_of_name` is at or after `from`, no record between the two has
/// the name, and the record at it has.
pub proof fn lemma_index_of_name(dir: Seq<Record>, name: Seq<char>, from: int)
    requires
        0 <= from <= dir.len(),
    ensures
        from <= index_of_name(dir, name, from) <= dir.len(),
        forall|j: int| from <= j < index_of_name(dir, name, from) ==> !is_named(dir[j], name),
        index_of_name(dir, name, from) < dir.len() ==> is_named(
            dir[index_of_name(dir, name, from)],
            name,
        ),
    decreases dir.len() - from,
{
    if from < dir.len() && !is_named(dir[from], name) {
        lemma_index_of_name(dir, name, from + 1);
    }
}

/// The index of the first lump at or after `from` that is named `name`,
/// or the length of the directory.
pub fn find_from(lumps: &[LumpRecord], name: &str, from: usize) -> (r: usize)
    ensures
        r == index_of_name(records(lumps@), name@, from as int),
        r <= lumps@.len(),
{
    let ghost dir = records(lumps@);
    let mut i: usize = from;
    while i < lumps.len()
        invariant
            from <= i,
            dir == records(lumps@),
            index_of_name(dir, name@, from as int) == index_of_name(dir, name@, i as int),
        decreases lumps@.len() - i,
    {
        if lumps[i].name.eq_str(name) {
            return i;
        }
        i = i + 1;
    }
    lumps.len()
}

/// The index of the first lump named `name`.
pub fn find_lump(lumps: &[LumpRecord], name: &str) -> (r: Option<usize>)
    ensures
        match r {
            Some(i) => i < lumps@.len() && i == index_of_name(records(lumps@), name@, 0),
            None => index_of_name(records(lumps@), name@, 0) == lumps@.len(),
        },
{
    let i: usize = find_from(lumps, name, 0);
    if i < lumps.len() {
        Some(i)
    } else {
        None
    }
}

/// The bounds of the lumps that lie strictly between the first lump named
/// `start` and the next lump named `end`: the first index of the range and
/// the index after its last. Without a lump named `start` the range is
/// empty; without one named `end` after it the range runs to the end of
/// the directory.
pub open spec fn range_between(dir: Seq<Record>, start: Seq<char>, end: Seq<char>) -> (int, int) {
    let first = index_of_name(dir, start, 0);
    if first >= dir.len() {
        (dir.len() as int, dir.len() as int)
    } else {
        (first + 1, index_of_name(dir, end, first + 1))
    }
}

/// The range begins after the first lump named `start` and ends before
/// the next lump named `end`: the lump before the range is named `start`
/// and no lump before that one is; no lump of the range is named `end`;
/// and the lump after the range, where there is one, is named `end`.
pub proof fn lemma_range_between(dir: Seq<Record>, start: Seq<char>, end: Seq<char>)
    ensures
        0 <= range_between(dir, start, end).0 <= range_between(dir, start, end).1 <= dir.len(),
        forall|i: int|
            0 <= i < range_between(dir, start, end).0 - 1 ==> !is_named(#[trigger] dir[i], start),
        0 < range_between(dir, start, end).0 <= dir.len() && index_of_name(dir, start, 0)
            < dir.len() ==> is_named(dir[range_between(dir, start, end).0 - 1], start),
        forall|i: int|
            range_between(dir, start, end).0 <= i < range_between(dir, start, end).1 ==> !is_named(
                #[trigger] dir[i],
                end,
            ),
        range_between(dir, start, end).1 < dir.len() ==> is_named(
            dir[range_between(dir, start, end).1],
            end,
        ),
        index_of_name(dir, start, 0) >= dir.len() ==> range_between(dir, start, end).0
            == range_between(dir, start, end).1,
{
    lemma_index_of_name(dir, start, 0);
    let first = index_of_name(dir, start, 0);
    if first < dir.len() {
        lemma_index_of_name(dir, end, first + 1);
    }
}

/// The bounds of the lumps strictly between the markers `start` and `end`.
pub fn between_markers(lumps: &[LumpRecord], start: &str, end: &str) -> (r: (usize, usize))
    ensures
        (r.0 as int, r.1 as int) == range_between(records(lumps@), start@, end@),
        r.0 <= r.1 <= lumps@.len(),
{
    let first: usize = find_from(lumps, start, 0);
    if first >= lumps.len() {
        (lumps.len(), lumps.len())
    } else {
        proof {
            lemma_index_of_name(records(lumps@), end@, first + 1);
        }
        (first + 1, find_from(lumps, end, first + 1))
    }
}

/// The indices below `upto` of the records whose names begin with
/// `prefix`, in ascending order.
pub open spec fn indices_with_prefix(dir: Seq<Record>, prefix: Seq<char>, upto: int) -> Seq<int>
    decreases upto,
{
    if upto <= 0 {
        Seq::empty()
    } else if begins_with(dir[upto - 1], prefix) {
        indices_with_prefix(dir, prefix, upto - 1).push(upto - 1)
    } else {
        indices_with_prefix(dir, prefix, upto - 1)
    }
}

/// `indices_with_prefix` holds each index below `upto` whose record begins
/// with `prefix`, holds nothing else, and ascends.
pub proof fn lemma_indices_with_prefix(dir: Seq<Record>, prefix: Seq<char>, upto: int)
    requires
        0 <= upto <= dir.len(),
    ensures
        forall|k: int|
            0 <= k < indices_with_prefix(dir, prefix, upto).len() ==> {
                let i = #[trigger] indices_with_prefix(dir, prefix, upto)[k];
                0 <= i < upto && begins_with(dir[i], prefix)
            },
        forall|i: int|
            0 <= i < upto && begins_with(dir[i], prefix) ==> indices_with_prefix(
                dir,
                prefix,
                upto,
            ).contains(i),
        forall|k: int, l: int|
            0 <= k < l < indices_with_prefix(dir, prefix, upto).len() ==> indices_with_prefix(
                dir,
                prefix,
                upto,
            )[k] < indices_with_prefix(dir, prefix, upto)[l],
    decreases upto,
{
    if upto > 0 {
        let rest = indices_with_prefix(dir, prefix, upto - 1);
        let all = indices_with_prefix(dir, prefix, upto);
        lemma_indices_with_prefix(dir, prefix, upto - 1);
        assert forall|i: int| 0 <= i < upto && begins_with(dir[i], prefix) implies all.contains(
            i,
        ) by {
            if i < upto - 1 {
                assert(rest.contains(i));
                let k = choose|k: int| 0 <= k < rest.len() && rest[k] == i;
                assert(all[k] == i);
            } else {
                assert(all[all.len() - 1] == i);
            }
        }
    }
}

/// The indices as mathematical integers.
pub open spec fn as_ints(indices: Seq<usize>) -> Seq<int> {
    indices.map_values(|i: usize| i as int)
}

/// The indices of the lumps whose names begin with `prefix`, in the order
/// of the directory.
pub fn with_prefix(lumps: &[LumpRecord], prefix: &str) -> (r: Vec<usize>)
    ensures
        as_ints(r@) == indices_with_prefix(records(lumps@), prefix@, lumps@.len() as int),
{
    let ghost dir = records(lumps@);
    let mut found: Vec<usize> = Vec::new();
    let mut i: usize = 0;
    while i < lumps.len()
        invariant
            0 <= i <= lumps@.len(),
            dir == records(lumps@),
            as_ints(found@) == indices_with_prefix(dir, prefix@, i as int),
        decreases lumps@.len() - i,
    {
        if lumps[i].name.starts_with(prefix) {
            found.push(i);
        }
        i = i + 1;
    }
    found
}

/// The name of the marker before the sprites.
pub open spec fn sprites_start() -> Seq<char> {
    "S_START"@
}

/// The name of the marker after the sprites.
pub open spec fn sprites_end() -> Seq<char> {
    "S_END"@
}

/// What the names of the face graphics begin with.
pub open spec fn face_prefix() -> Seq<char> {
    "STF"@
}

/// The lumps to convert, by index: those strictly between the sprite
/// markers, then those whose names begin with the face prefix. Both are
/// taken from the whole directory, so a face between the markers is listed
/// twice.
pub open spec fn selection(dir: Seq<Record>) -> Seq<int> {
    let (lo, hi) = range_between(dir, sprites_start(), sprites_end());
    Seq::new((hi - lo) as nat, |k: int| lo + k) + indices_with_prefix(
        dir,
        face_prefix(),
        dir.len() as int,
    )
}

/// The indices of the lumps to convert, sprites first, then faces.
pub fn select_lumps(lumps: &[LumpRecord]) -> (r: Vec<usize>)
    ensures
        as_ints(r@) == selection(records(lumps@)),
        forall|k: int| 0 <= k < r@.len() ==> r@[k] < lumps@.len(),
{
    let ghost dir = records(lumps@);
    let (lo, hi) = between_markers(lumps, "S_START", "S_END");
    let mut chosen: Vec<usize> = Vec::new();
    let mut i: usize = lo;
    while i < hi
        invariant
            lo <= i <= hi <= lumps@.len(),
            chosen@.len() == i - lo,
            forall|k: int| 0 <= k < chosen@.len() ==> chosen@[k] == lo + k,
        decreases hi - i,
    {
        chosen.push(i);
        i = i + 1;
    }
    let mut faces: Vec<usize> = with_prefix(lumps, "STF");
    proof {
        lemma_indices_with_prefix(dir, face_prefix(), dir.len() as int);
        assert forall|k: int| 0 <= k < faces@.len() implies #[trigger] faces@[k] < lumps@.len() by {
            assert(faces@[k] as int == as_ints(faces@)[k]);
        }
    }
    chosen.append(&mut faces);
    chosen
}

} // verus!
