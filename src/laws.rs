//! What holds of the output files at every point of a run, stated over the files that the
//! steps of `Splitter::on_chunk` produce from the input consumed so far.
use crate::rotation::{contents, Slots};
use crate::splitter::{block, expected_slots, rotations};
use vstd::prelude::*;

verus! {

/// The files with index below `m`, read from the highest index down to 0, concatenated.
pub open spec fn concat_from(d: Slots, m: nat) -> Seq<u8>
    decreases m,
{
    if m == 0 {
        Seq::empty()
    } else {
        contents(d[m - 1]) + concat_from(d, (m - 1) as nat)
    }
}

/// Where the retained input begins: the files that left the window held the bytes before it.
pub open spec fn retained_start(s: Seq<u8>, size: nat, n: nat) -> nat {
    let k = rotations(s, size);
    let kept = if k < n { k } else { (n - 1) as nat };
    ((k - kept) * size) as nat
}

proof fn lemma_rotation_bounds(s: Seq<u8>, size: nat)
    requires
        size > 0,
    ensures
        rotations(s, size) * size <= s.len(),
        s.len() < (rotations(s, size) + 1) * size,
{
    let k = rotations(s, size) as int;
    vstd::arithmetic::div_mod::lemma_fundamental_div_mod(s.len() as int, size as int);
    assert(s.len() == size * k + s.len() % size);
    assert(size * k == k * size) by (nonlinear_arith);
    assert((k + 1) * size == k * size + size) by (nonlinear_arith);
}

proof fn lemma_block_steps(b: int, k: int, size: int)
    requires
        0 <= b <= k,
        size > 0,
    ensures
        b * size <= k * size,
        (b + 1) * size == b * size + size,
{
    assert(b * size <= k * size) by (nonlinear_arith)
        requires
            0 <= b <= k,
            size > 0,
    ;
    assert((b + 1) * size == b * size + size) by (nonlinear_arith);
}

proof fn lemma_concat_prefix(s: Seq<u8>, size: nat, n: nat, m: nat)
    requires
        size > 0,
        1 <= m <= n,
    ensures
        ({
            let k = rotations(s, size);
            let kept = if m - 1 <= k { (m - 1) as nat } else { k };
            concat_from(expected_slots(s, size, n), m) == s.subrange(((k - kept) * size) as int, s.len() as int)
        }),
    decreases m,
{
    let e = expected_slots(s, size, n);
    let k = rotations(s, size);
    lemma_rotation_bounds(s, size);
    if m == 1 {
        assert(concat_from(e, 0) =~= Seq::<u8>::empty());
        assert(block(s, size, k) + Seq::<u8>::empty() =~= s.subrange((k * size) as int, s.len() as int));
    } else {
        lemma_concat_prefix(s, size, n, (m - 1) as nat);
        let j = (m - 1) as int;
        if j <= k {
            let b = (k - j) as nat;
            lemma_block_steps(b as int, k as int, size as int);
            lemma_block_steps((b + 1) as int, k as int, size as int);
            assert(contents(e[j]) == block(s, size, b));
            assert(block(s, size, b) + s.subrange(((b + 1) * size) as int, s.len() as int)
                =~= s.subrange((b * size) as int, s.len() as int));
        } else {
            assert(contents(e[j]) == Seq::<u8>::empty());
            assert(concat_from(e, m) =~= concat_from(e, (m - 1) as nat));
        }
    }
}

/// Reading the output files from the highest index down to 0 gives back the input in order,
/// with no gap, duplicate or reordering: all of it while no file has left the window, and
/// otherwise all of it from the first byte of the oldest retained file on.
pub proof fn lemma_ordering(s: Seq<u8>, size: nat, n: nat)
    requires
        size > 0,
        n > 0,
    ensures
        concat_from(expected_slots(s, size, n), n) == s.subrange(
            retained_start(s, size, n) as int,
            s.len() as int,
        ),
        rotations(s, size) < n ==> concat_from(expected_slots(s, size, n), n) == s,
{
    lemma_concat_prefix(s, size, n, n);
    if rotations(s, size) < n {
        assert(s.subrange(0, s.len() as int) =~= s);
    }
}

/// Every file but the one at index 0 holds exactly `size` bytes; the file at index 0, the
/// one still being written, always exists and holds fewer than `size` bytes.
pub proof fn lemma_size_bound(s: Seq<u8>, size: nat, n: nat)
    requires
        size > 0,
        n > 0,
    ensures
        expected_slots(s, size, n)[0] is Some,
        contents(expected_slots(s, size, n)[0]).len() < size,
        forall|j: int|
            1 <= j < n && (#[trigger] expected_slots(s, size, n)[j]) is Some ==> contents(
                expected_slots(s, size, n)[j],
            ).len() == size,
{
    let e = expected_slots(s, size, n);
    let k = rotations(s, size);
    lemma_rotation_bounds(s, size);
    lemma_block_steps(k as int, k as int, size as int);
    assert forall|j: int| 1 <= j < n && (#[trigger] e[j]) is Some implies contents(e[j]).len()
        == size by {
        let b = (k - j) as nat;
        lemma_block_steps(b as int, k as int, size as int);
        lemma_block_steps(b as int + 1, k as int, size as int);
    }
}

/// At most `n` files exist: those with index `0` up to the number of rotations made, within
/// the window of `n` indices. The file at index `j` is the one created `j` rotations ago, so
/// older files have been overwritten.
pub proof fn lemma_retention(s: Seq<u8>, size: nat, n: nat)
    requires
        size > 0,
        n > 0,
    ensures
        expected_slots(s, size, n).len() == n,
        forall|j: int|
            0 <= j < n ==> ((#[trigger] expected_slots(s, size, n)[j]) is Some <==> j <= rotations(
                s,
                size,
            )),
        forall|j: int|
            0 <= j < n && j <= rotations(s, size) ==> contents(
                #[trigger] expected_slots(s, size, n)[j],
            ) == block(s, size, (rotations(s, size) - j) as nat),
{
}

/// When the input so far fills a whole number of files, the file at index 0 exists and is
/// empty, and the files before it are all full.
pub proof fn lemma_boundary(s: Seq<u8>, size: nat, n: nat)
    requires
        size > 0,
        n > 0,
        s.len() > 0,
        s.len() % size == 0,
    ensures
        expected_slots(s, size, n)[0] == Some(Seq::<u8>::empty()),
        rotations(s, size) >= 1,
        n > 1 ==> contents(expected_slots(s, size, n)[1]).len() == size,
{
    let k = rotations(s, size);
    vstd::arithmetic::div_mod::lemma_fundamental_div_mod(s.len() as int, size as int);
    assert(s.len() == size * k);
    assert(size * k == k * size) by (nonlinear_arith);
    assert(k >= 1) by (nonlinear_arith)
        requires
            s.len() == size * k,
            s.len() > 0,
    ;
    lemma_block_steps(k as int - 1, k as int, size as int);
    lemma_block_steps(k as int, k as int, size as int);
    assert(block(s, size, k) =~= Seq::<u8>::empty());
}

} // verus!
