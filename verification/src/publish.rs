//! Publishing a pointer: the temporary name under which it is prepared.
//!
//! A pointer is made under a temporary name and then renamed over its final
//! name, so that a reader sees the old pointer or the new one and nothing
//! in between.

use vstd::prelude::*;
use crate::hash::{decimal, to_decimal};
use crate::text::chars_of;

verus! {

/// An entry of the directory that holds the pointers of a store.
#[derive(Clone, Debug, PartialEq, Eq)]
pub struct TempEntry {
    /// The name of the entry.
    pub name: String,
    /// When it was last modified, in nanoseconds since the epoch; `None` where that is not known.
    pub modified: Option<u128>,
}

/// A directory entry as a value.
pub struct TempEntryView {
    pub name: Seq<char>,
    pub modified: Option<u128>,
}

impl View for TempEntry {
    type V = TempEntryView;

    open spec fn view(&self) -> TempEntryView {
        TempEntryView { name: self.name@, modified: self.modified }
    }
}

impl DeepView for TempEntry {
    type V = TempEntryView;

    open spec fn deep_view(&self) -> TempEntryView {
        self@
    }
}

/// The name under which a pointer is prepared before it is published.
#[derive(Clone, Debug, PartialEq, Eq)]
pub struct TempFile {
    /// The name, inside the directory of the pointers.
    pub name: String,
    /// Whether an entry of that name exists and has to be removed first.
    pub evict: bool,
}

/// A temporary name as a value.
pub struct TempFileView {
    pub name: Seq<char>,
    pub evict: bool,
}

impl View for TempFile {
    type V = TempFileView;

    open spec fn view(&self) -> TempFileView {
        TempFileView { name: self.name@, evict: self.evict }
    }
}

/// The temporary name with the number `k`.
pub open spec fn temp_name(k: nat) -> Seq<char> {
    ".tmp_"@ + decimal(k)
}

/// Whether a name is that of a temporary entry.
pub open spec fn is_temp(name: Seq<char>) -> bool {
    ".tmp_"@.is_prefix_of(name)
}

/// Whether the directory has an entry of the given name.
pub open spec fn taken(entries: Seq<TempEntryView>, name: Seq<char>) -> bool {
    exists|i: int| 0 <= i < entries.len() && (#[trigger] entries[i]).name == name
}

/// The first number from `from` on whose temporary name is free, or 255
/// where every name below that number is taken.
pub open spec fn first_free(entries: Seq<TempEntryView>, from: nat) -> nat
    decreases 255 - from,
{
    if from >= 255 {
        255
    } else if !taken(entries, temp_name(from)) {
        from
    } else {
        first_free(entries, from + 1)
    }
}

/// Whether the time `a` is not after the time `b`. A time that is not known
/// counts as before every other.
pub open spec fn not_after(a: Option<u128>, b: Option<u128>) -> bool {
    match (a, b) {
        (None, _) => true,
        (Some(_), None) => false,
        (Some(x), Some(y)) => x <= y,
    }
}

/// Whether entry `i` is the oldest temporary entry: no temporary entry was
/// modified before it, and those listed before it were modified after it.
pub open spec fn is_oldest(entries: Seq<TempEntryView>, i: int) -> bool {
    &&& 0 <= i < entries.len()
    &&& is_temp(entries[i].name)
    &&& forall|j: int|
        0 <= j < entries.len() && is_temp((#[trigger] entries[j]).name) ==> not_after(
            entries[i].modified,
            entries[j].modified,
        )
    &&& forall|j: int|
        0 <= j < i && is_temp((#[trigger] entries[j]).name) ==> !not_after(
            entries[j].modified,
            entries[i].modified,
        )
}

/// Whether the directory has a temporary entry.
pub open spec fn has_temp(entries: Seq<TempEntryView>) -> bool {
    exists|i: int| 0 <= i < entries.len() && is_temp((#[trigger] entries[i]).name)
}

/// The number to start from: 0 where none is given.
pub open spec fn start_of(potential: Option<u8>) -> nat {
    match potential {
        Some(k) => k as nat,
        None => 0,
    }
}

/// The oldest temporary entry.
pub open spec fn oldest(entries: Seq<TempEntryView>) -> int {
    choose|i: int| is_oldest(entries, i)
}

/// Only one entry is the oldest temporary entry.
pub proof fn lemma_oldest(entries: Seq<TempEntryView>, i: int)
    requires
        is_oldest(entries, i),
    ensures
        has_temp(entries),
        oldest(entries) == i,
{
}

/// The temporary name to use in a directory with the given entries,
/// counting from `from`.
pub open spec fn temp_choice(entries: Seq<TempEntryView>, from: nat) -> TempFileView {
    let k = first_free(entries, from);
    if k < 255 {
        TempFileView { name: temp_name(k), evict: false }
    } else if has_temp(entries) {
        TempFileView { name: entries[oldest(entries)].name, evict: true }
    } else {
        TempFileView { name: temp_name(255), evict: false }
    }
}

fn temp_name_of(k: u8) -> (name: String)
    ensures
        name@ == temp_name(k as nat),
{
    let mut name = ".tmp_".to_owned();
    let digits = to_decimal(k as u64);
    name.append(digits.as_str());
    name
}

fn name_taken(entries: &Vec<TempEntry>, name: &String) -> (r: bool)
    ensures
        r == taken(entries.deep_view(), name@),
{
    let mut i: usize = 0;
    while i < entries.len()
        invariant
            i <= entries.len(),
            forall|j: int| 0 <= j < i ==> (#[trigger] entries.deep_view()[j]).name != name@,
        decreases entries.len() - i,
    {
        if entries[i].name == *name {
            assert(entries.deep_view()[i as int].name == name@);
            return true;
        }
        i += 1;
    }
    false
}

fn name_is_temp(name: &String) -> (r: bool)
    ensures
        r == is_temp(name@),
{
    let v = chars_of(name.as_str());
    proof {
        reveal_strlit(".tmp_");
    }
    if v.len() < 5 {
        return false;
    }
    let r = v[0] == '.' && v[1] == 't' && v[2] == 'm' && v[3] == 'p' && v[4] == '_';
    proof {
        let p = ".tmp_"@;
        if !r {
            assert(p[0] == v@.subrange(0, 5)[0] ==> v[0] == '.');
            assert(p[1] == v@.subrange(0, 5)[1] ==> v[1] == 't');
            assert(p[2] == v@.subrange(0, 5)[2] ==> v[2] == 'm');
            assert(p[3] == v@.subrange(0, 5)[3] ==> v[3] == 'p');
            assert(p[4] == v@.subrange(0, 5)[4] ==> v[4] == '_');
        }
    }
    r
}

fn before(a: Option<u128>, b: Option<u128>) -> (r: bool)
    ensures
        r == !not_after(b, a),
{
    match (a, b) {
        (None, None) => false,
        (None, Some(_)) => true,
        (Some(_), None) => false,
        (Some(x), Some(y)) => x < y,
    }
}

fn oldest_temp(entries: &Vec<TempEntry>) -> (r: Option<usize>)
    ensures
        r matches Some(i) ==> is_oldest(entries.deep_view(), i as int),
        r is None ==> !has_temp(entries.deep_view()),
{
    let ghost es = entries.deep_view();
    let mut best: Option<usize> = None;
    let mut i: usize = 0;
    while i < entries.len()
        invariant
            i <= entries.len(),
            es == entries.deep_view(),
            best matches Some(b) ==> b < i && is_oldest(es.take(i as int), b as int),
            best is None ==> !has_temp(es.take(i as int)),
        decreases entries.len() - i,
    {
        if name_is_temp(&entries[i].name) {
            match best {
                None => {
                    best = Some(i);
                },
                Some(b) => {
                    if before(entries[i].modified, entries[b].modified) {
                        best = Some(i);
                    }
                },
            }
        }
        i += 1;
    }
    assert(es.take(i as int) == es);
    best
}

/// The temporary name under which to prepare a pointer, in a directory
/// with the given entries. The names `.tmp_0`, `.tmp_1`, and so on are
/// tried from the number `potential` (from 0 where it is `None`), and the
/// first that is free is taken. Where all of them up to `.tmp_254` are
/// taken, the oldest temporary entry gives up its name.
pub fn get_temp_file(potential: Option<u8>, entries: &Vec<TempEntry>) -> (file: TempFile)
    ensures
        file@ == temp_choice(entries.deep_view(), start_of(potential)),
{
    let start: u8 = match potential {
        Some(k) => k,
        None => 0,
    };
    let mut k: u8 = start;
    while k < 255
        invariant
            start <= k <= 255,
            start == start_of(potential),
            first_free(entries.deep_view(), start as nat) == first_free(
                entries.deep_view(),
                k as nat,
            ),
        decreases 255 - k,
    {
        let name = temp_name_of(k);
        if !name_taken(entries, &name) {
            return TempFile { name, evict: false };
        }
        k += 1;
    }
    match oldest_temp(entries) {
        Some(i) => {
            proof {
                lemma_oldest(entries.deep_view(), i as int);
            }
            TempFile { name: entries[i].name.clone(), evict: true }
        },
        None => TempFile { name: temp_name_of(255), evict: false },
    }
}

} // verus!
