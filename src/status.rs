//! Short names for the working-tree and index status of a file.
//!
//! A status is the bitset that libgit2 reports for a path (git2's `Status`
//! holds the same bits).
use vstd::prelude::*;

verus! {

/// The number of flags that have a name.
pub const FLAG_COUNT: usize = 12;

/// The bit of the `i`-th named flag, in the order the names are listed.
pub open spec fn flag_bit(i: nat) -> u32 {
    if i == 0 {
        0x1
    } else if i == 1 {
        0x2
    } else if i == 2 {
        0x4
    } else if i == 3 {
        0x10
    } else if i == 4 {
        0x8
    } else if i == 5 {
        0x80
    } else if i == 6 {
        0x100
    } else if i == 7 {
        0x200
    } else if i == 8 {
        0x400
    } else if i == 9 {
        0x800
    } else if i == 10 {
        0x4000
    } else {
        0x8000
    }
}

/// The name of the `i`-th flag.
pub open spec fn flag_label(i: nat) -> Seq<char> {
    if i == 0 {
        "idx-new"@
    } else if i == 1 {
        "idx-modified"@
    } else if i == 2 {
        "idx-deleted"@
    } else if i == 3 {
        "idx-typechange"@
    } else if i == 4 {
        "idx-renamed"@
    } else if i == 5 {
        "wt-new"@
    } else if i == 6 {
        "wt-modified"@
    } else if i == 7 {
        "wt-deleted"@
    } else if i == 8 {
        "wt-typechange"@
    } else if i == 9 {
        "wt-renamed"@
    } else if i == 10 {
        "ignored"@
    } else {
        "conflicted"@
    }
}

/// The names of the flags among the first `k` that `bits` sets, in order.
pub open spec fn set_labels(bits: u32, k: nat) -> Seq<Seq<char>>
    decreases k,
{
    if k == 0 {
        Seq::empty()
    } else if bits & flag_bit((k - 1) as nat) != 0 {
        set_labels(bits, (k - 1) as nat).push(flag_label((k - 1) as nat))
    } else {
        set_labels(bits, (k - 1) as nat)
    }
}

/// Names joined with a comma and a space between each two.
pub open spec fn joined(names: Seq<Seq<char>>) -> Seq<char>
    decreases names.len(),
{
    if names.len() == 0 {
        Seq::empty()
    } else if names.len() == 1 {
        names[0]
    } else {
        joined(names.drop_last()) + ", "@ + names.last()
    }
}

/// The bit and name of the `i`-th flag.
fn flag(i: usize) -> (r: (u32, &'static str))
    requires
        i < FLAG_COUNT,
    ensures
        r.0 == flag_bit(i as nat),
        r.1@ == flag_label(i as nat),
{
    match i {
        0 => (0x1, "idx-new"),
        1 => (0x2, "idx-modified"),
        2 => (0x4, "idx-deleted"),
        3 => (0x10, "idx-typechange"),
        4 => (0x8, "idx-renamed"),
        5 => (0x80, "wt-new"),
        6 => (0x100, "wt-modified"),
        7 => (0x200, "wt-deleted"),
        8 => (0x400, "wt-typechange"),
        9 => (0x800, "wt-renamed"),
        10 => (0x4000, "ignored"),
        _ => (0x8000, "conflicted"),
    }
}

/// Appends to `out` the names of the flags that `status` sets, separated by
/// a comma and a space.
pub fn status_out(status: u32, out: &mut String)
    ensures
        final(out)@ == old(out)@ + joined(set_labels(status, FLAG_COUNT as nat)),
{
    let ghost start = out@;
    let mut any = false;
    let mut i: usize = 0;
    while i < FLAG_COUNT
        invariant
            i <= FLAG_COUNT,
            out@ == start + joined(set_labels(status, i as nat)),
            any == (set_labels(status, i as nat).len() > 0),
        decreases FLAG_COUNT - i,
    {
        let (bit, name) = flag(i);
        let ghost prev = set_labels(status, i as nat);
        if status & bit != 0 {
            if any {
                out.append(", ");
            }
            out.append(name);
            proof {
                let next = prev.push(flag_label(i as nat));
                assert(next.drop_last() =~= prev);
                assert(out@ =~= start + joined(next));
            }
            any = true;
        }
        i = i + 1;
    }
}

} // verus!
