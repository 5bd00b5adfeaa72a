//! Rotation of the numbered output files: every retained file moves up one index, the oldest
//! falls out of the window, and a fresh empty file takes index 0.
use vstd::prelude::*;

verus! {

/// The output-file slots: slot `i` holds the bytes of the file with index `i`, or `None` when
/// no such file exists.
pub type Slots = Seq<Option<Seq<u8>>>;

/// The bytes of a slot; an absent file reads as empty.
pub open spec fn contents(slot: Option<Seq<u8>>) -> Seq<u8> {
    match slot {
        Some(b) => b,
        None => Seq::empty(),
    }
}

/// Renames the file at `from` to `to`, replacing whatever `to` held; nothing happens when
/// `from` does not exist.
pub open spec fn rename_slot(d: Slots, from: int, to: int) -> Slots {
    if d[from] is Some {
        d.update(to, d[from]).update(from, None)
    } else {
        d
    }
}

/// The indices `top, top - 1, ..., 0`.
pub open spec fn descending(top: int) -> Seq<int> {
    Seq::new((top + 1) as nat, |k: int| top - k)
}

/// The sources of the renames of a rotation over `n` slots, in the order they are made:
/// `n - 2` down to `0`. Each source moves to the index above it. Going from the highest index
/// down means no file is overwritten before it has itself been moved out of the way.
pub open spec fn rename_sources(n: nat) -> Seq<int> {
    descending(n - 2)
}

/// Makes the renames `src -> src + 1` for each source in turn.
pub open spec fn apply_renames(d: Slots, srcs: Seq<int>) -> Slots
    decreases srcs.len(),
{
    if srcs.len() == 0 {
        d
    } else {
        apply_renames(rename_slot(d, srcs[0], srcs[0] + 1), srcs.drop_first())
    }
}

/// The slots after a rotation: the renames, then a new empty file at index 0.
pub open spec fn rotated(d: Slots) -> Slots {
    apply_renames(d, rename_sources(d.len())).update(0, Some(Seq::empty()))
}

/// No file is missing below an existing one.
pub open spec fn contiguous(d: Slots) -> bool {
    forall|i: int, j: int| 0 <= i < j < d.len() && #[trigger] d[j] is Some ==> #[trigger] d[i] is Some
}

proof fn lemma_shift_down(t: Slots, i: int)
    requires
        0 <= i < t.len() - 1,
        t[i] is None ==> t[i + 1] is None,
    ensures
        apply_renames(t, descending(i)).len() == t.len(),
        apply_renames(t, descending(i))[0] is None,
        forall|j: int| 1 <= j <= i + 1 ==> #[trigger] apply_renames(t, descending(i))[j] == t[j - 1],
        forall|j: int| i + 1 < j < t.len() ==> #[trigger] apply_renames(t, descending(i))[j] == t[j],
    decreases i,
{
    let u = rename_slot(t, i, i + 1);
    assert(descending(i)[0] == i);
    assert(descending(i).drop_first() =~= descending(i - 1));
    assert(apply_renames(t, descending(i)) == apply_renames(u, descending(i - 1)));
    if i == 0 {
        assert(descending(-1) =~= Seq::<int>::empty());
    } else {
        lemma_shift_down(u, i - 1);
    }
}

/// Rotating keeps the number of slots, always leaves an empty file at index 0, and moves
/// each file up one index; the file that held the last index is gone. With a single slot
/// the file at index 0 is simply replaced.
pub proof fn lemma_rotated(d: Slots)
    requires
        d.len() >= 1,
        contiguous(d),
    ensures
        rotated(d).len() == d.len(),
        rotated(d)[0] == Some(Seq::<u8>::empty()),
        forall|j: int| 1 <= j < d.len() ==> #[trigger] rotated(d)[j] == d[j - 1],
{
    let n = d.len() as int;
    if n == 1 {
        assert(rename_sources(1) =~= Seq::<int>::empty());
    } else {
        lemma_shift_down(d, n - 2);
    }
}

/// One rename of a rotation: the file at index `from` moves to index `to`.
#[derive(Clone, Copy, Debug, PartialEq, Eq, Structural)]
pub struct Rename {
    pub from: usize,
    pub to: usize,
}

/// The renames of a rotation over `num_files` slots, in the order they must be made: the file
/// at `num_files - 2` moves to `num_files - 1` first, the file at `0` moves to `1` last. A
/// rename whose source does not exist is skipped.
pub fn rotation_plan(num_files: usize) -> (r: Vec<Rename>)
    requires
        num_files >= 1,
    ensures
        r@.len() == num_files - 1,
        forall|k: int|
            0 <= k < r@.len() ==> #[trigger] r@[k].from == rename_sources(num_files as nat)[k]
                && r@[k].to == r@[k].from + 1,
{
    let mut r: Vec<Rename> = Vec::new();
    let mut i: usize = num_files - 1;
    while i > 0
        invariant
            i < num_files,
            r@.len() == num_files - 1 - i,
            forall|k: int|
                0 <= k < r@.len() ==> #[trigger] r@[k].from == num_files - 2 - k && r@[k].to
                    == r@[k].from + 1,
        decreases i,
    {
        r.push(Rename { from: i - 1, to: i });
        i = i - 1;
    }
    r
}

} // verus!
