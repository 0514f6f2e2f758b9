//! Picking a process by the name of its program, from the list of processes
//! that the operating system gave.

use vstd::prelude::*;

verus! {

/// One running process, as the operating system lists it.
pub struct ProcessEntry {
    /// The number of the process.
    pub process_id: u32,
    /// The name of its program in a field of fixed size: the name ends at the
    /// first unit that is zero, or with the field.
    pub exe_file: Vec<u16>,
}

/// The number of units before the first that is zero.
pub open spec fn name_len(field: Seq<u16>) -> nat
    decreases field.len(),
{
    if field.len() == 0 || field[0] == 0 {
        0
    } else {
        1 + name_len(field.skip(1))
    }
}

/// The name that a field holds.
pub open spec fn name_of(field: Seq<u16>) -> Seq<u16> {
    field.take(name_len(field) as int)
}

/// The process is one of the program `name`: the names are the same, unit by
/// unit.
pub open spec fn is_named(entry: ProcessEntry, name: Seq<u16>) -> bool {
    name_of(entry.exe_file@) == name
}

/// The number of the first process of `entries` that is one of the program
/// `name`.
pub open spec fn first_named(entries: Seq<ProcessEntry>, name: Seq<u16>) -> Option<u32>
    decreases entries.len(),
{
    if entries.len() == 0 {
        None
    } else if is_named(entries[0], name) {
        Some(entries[0].process_id)
    } else {
        first_named(entries.skip(1), name)
    }
}

/// The first zero in a field is where its name ends.
pub proof fn lemma_name_ends(field: Seq<u16>, n: int)
    requires
        0 <= n <= field.len(),
        forall|i: int| 0 <= i < n ==> field[i] != 0,
        n < field.len() ==> field[n] == 0,
    ensures
        name_len(field) == n,
    decreases field.len(),
{
    if field.len() == 0 || field[0] == 0 {
    } else {
        let rest = field.skip(1);
        assert forall|i: int| 0 <= i < n - 1 implies rest[i] != 0 by {
            assert(rest[i] == field[i + 1]);
        }
        lemma_name_ends(rest, n - 1);
    }
}

/// Whether the field holds the name `name`.
pub fn field_holds(field: &[u16], name: &[u16]) -> (same: bool)
    ensures
        same == (name_of(field@) == name@),
{
    let mut n: usize = 0;
    while n < field.len() && field[n] != 0
        invariant
            n <= field@.len(),
            forall|i: int| 0 <= i < n ==> field@[i] != 0,
        decreases field@.len() - n,
    {
        n = n + 1;
    }
    proof {
        lemma_name_ends(field@, n as int);
    }
    if n != name.len() {
        return false;
    }
    let mut i: usize = 0;
    while i < n
        invariant
            i <= n,
            n == name@.len(),
            n == name_len(field@),
            n <= field@.len(),
            forall|j: int| 0 <= j < i ==> field@[j] == name@[j],
        decreases n - i,
    {
        if field[i] != name[i] {
            return false;
        }
        i = i + 1;
    }
    assert(name_of(field@) =~= name@);
    true
}

/// The number of the first process of `entries` that is one of the program
/// `name`; `None` if there is none.
pub fn find_first_named(entries: &[ProcessEntry], name: &[u16]) -> (found: Option<u32>)
    ensures
        found == first_named(entries@, name@),
{
    let mut i: usize = 0;
    proof {
        assert(entries@.skip(0) =~= entries@);
    }
    while i < entries.len()
        invariant
            i <= entries@.len(),
            first_named(entries@, name@) == first_named(entries@.skip(i as int), name@),
        decreases entries@.len() - i,
    {
        proof {
            assert(entries@.skip(i as int).skip(1) =~= entries@.skip(i as int + 1));
        }
        if field_holds(entries[i].exe_file.as_slice(), name) {
            return Some(entries[i].process_id);
        }
        i = i + 1;
    }
    None
}

} // verus!
