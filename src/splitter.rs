//! The read loop's decisions: how each chunk of input is cut into writes to the current
//! output file, copies to the mirror stream and rotations.
use crate::config::Config;
use crate::rotation::{contents, contiguous, lemma_rotated, rotated, Slots};
use vstd::prelude::*;

verus! {

/// One action on the outputs, over the chunk of input being processed.
#[derive(Clone, Copy, Debug, PartialEq, Eq, Structural)]
pub enum Step {
    /// Append `chunk[start..end]` to the current output file.
    Write { start: usize, end: usize },
    /// Copy `chunk[start..end]` to the mirror stream.
    Echo { start: usize, end: usize },
    /// Close the current file and rotate the output files.
    Rotate,
}

/// The slots after appending `x` to the file at index 0.
pub open spec fn appended(d: Slots, x: Seq<u8>) -> Slots {
    d.update(0, Some(contents(d[0]) + x))
}

/// The slots after one step.
pub open spec fn apply_step(d: Slots, step: Step, chunk: Seq<u8>) -> Slots {
    match step {
        Step::Write { start, end } => appended(d, chunk.subrange(start as int, end as int)),
        Step::Echo { .. } => d,
        Step::Rotate => rotated(d),
    }
}

/// The slots after the steps, in order.
pub open spec fn apply_steps(d: Slots, steps: Seq<Step>, chunk: Seq<u8>) -> Slots
    decreases steps.len(),
{
    if steps.len() == 0 {
        d
    } else {
        apply_step(apply_steps(d, steps.drop_last(), chunk), steps.last(), chunk)
    }
}

/// What the steps send to the mirror stream, in order.
pub open spec fn echoed(steps: Seq<Step>, chunk: Seq<u8>) -> Seq<u8>
    decreases steps.len(),
{
    if steps.len() == 0 {
        Seq::empty()
    } else {
        echoed(steps.drop_last(), chunk) + match steps.last() {
            Step::Echo { start, end } => chunk.subrange(start as int, end as int),
            _ => Seq::empty(),
        }
    }
}

/// The step's range lies within a chunk of `len` bytes.
pub open spec fn step_fits(step: Step, len: nat) -> bool {
    match step {
        Step::Write { start, end } => start <= end <= len,
        Step::Echo { start, end } => start <= end <= len,
        Step::Rotate => true,
    }
}

/// The number of rotations made once `s` has been consumed.
pub open spec fn rotations(s: Seq<u8>, size: nat) -> nat {
    s.len() / size
}

/// The bytes of `s` that go to the `b`-th file created: `size` bytes from `b * size`, fewer
/// where `s` ends first.
pub open spec fn block(s: Seq<u8>, size: nat, b: nat) -> Seq<u8> {
    let end = (b + 1) * size;
    s.subrange((b * size) as int, if end <= s.len() { end as int } else { s.len() as int })
}

/// The output files once `s` has been consumed with file size limit `size` and `n` slots:
/// index `j` holds the file created `j` rotations ago, while that is within the window.
pub open spec fn expected_slots(s: Seq<u8>, size: nat, n: nat) -> Slots {
    Seq::new(
        n,
        |j: int|
            if j <= rotations(s, size) {
                Some(block(s, size, (rotations(s, size) - j) as nat))
            } else {
                None
            },
    )
}

/// The output files when a run starts: an empty file at index 0 and nothing else.
pub open spec fn initial_slots(n: nat) -> Slots {
    Seq::new(n, |j: int| if j == 0 { Some(Seq::<u8>::empty()) } else { None })
}

proof fn lemma_mul_facts(b: int, k: int, size: int)
    requires
        0 <= b <= k,
        size > 0,
    ensures
        b * size <= k * size,
        (b + 1) * size == b * size + size,
        b < k ==> (b + 1) * size <= k * size,
{
    assert(b * size <= k * size) by (nonlinear_arith)
        requires
            0 <= b <= k,
            size > 0,
    ;
    assert((b + 1) * size == b * size + size) by (nonlinear_arith);
    assert(b < k ==> (b + 1) * size <= k * size) by (nonlinear_arith)
        requires
            0 <= b <= k,
            size > 0,
    ;
}

/// `rotations` and the length of the current file, from a decomposition of the length.
proof fn lemma_split_len(s: Seq<u8>, size: nat, k: nat, cur: nat)
    requires
        size > 0,
        cur < size,
        s.len() == k * size + cur,
    ensures
        rotations(s, size) == k,
        s.len() % size == cur,
{
    vstd::arithmetic::div_mod::lemma_fundamental_div_mod_converse(
        s.len() as int,
        size as int,
        k as int,
        cur as int,
    );
}

proof fn lemma_expected_contiguous(s: Seq<u8>, size: nat, n: nat)
    ensures
        contiguous(expected_slots(s, size, n)),
{
}

/// Appending bytes that leave the current file short of the limit extends file 0.
proof fn lemma_write_within(s: Seq<u8>, x: Seq<u8>, size: nat, n: nat, k: nat, cur: nat)
    requires
        size > 0,
        n > 0,
        s.len() == k * size + cur,
        cur + x.len() < size,
    ensures
        appended(expected_slots(s, size, n), x) == expected_slots(s + x, size, n),
{
    let t = s + x;
    lemma_split_len(s, size, k, cur);
    lemma_split_len(t, size, k, (cur + x.len()) as nat);
    let d = appended(expected_slots(s, size, n), x);
    let e = expected_slots(t, size, n);
    assert forall|j: int| 0 <= j < n implies d[j] == e[j] by {
        if j <= k {
            let b = (k - j) as nat;
            lemma_mul_facts(b as int, k as int, size as int);
            if j == 0 {
                assert(block(t, size, k) =~= block(s, size, k) + x);
            } else {
                assert(block(t, size, b) =~= block(s, size, b));
            }
        }
    }
    assert(d =~= e);
}

/// Appending the bytes that fill the current file, then rotating, gives the files of the
/// longer input.
proof fn lemma_write_fill(s: Seq<u8>, x: Seq<u8>, size: nat, n: nat, k: nat, cur: nat)
    requires
        size > 0,
        n > 0,
        s.len() == k * size + cur,
        cur < size,
        cur + x.len() == size,
    ensures
        rotated(appended(expected_slots(s, size, n), x)) == expected_slots(s + x, size, n),
{
    let t = s + x;
    lemma_split_len(s, size, k, cur);
    lemma_mul_facts(k as int, k as int, size as int);
    lemma_split_len(t, size, k + 1, 0);
    let a = appended(expected_slots(s, size, n), x);
    lemma_expected_contiguous(s, size, n);
    assert(contiguous(a));
    lemma_rotated(a);
    let d = rotated(a);
    let e = expected_slots(t, size, n);
    assert forall|j: int| 0 <= j < n implies d[j] == e[j] by {
        if j == 0 {
            lemma_mul_facts(k as int + 1, k as int + 1, size as int);
            assert(block(t, size, k + 1) =~= Seq::<u8>::empty());
        } else if j == 1 {
            assert(block(t, size, k) =~= block(s, size, k) + x);
        } else if j <= k + 1 {
            let b = (k + 1 - j) as nat;
            lemma_mul_facts(b as int, k as int, size as int);
            assert(block(t, size, b) =~= block(s, size, b));
        }
    }
    assert(d =~= e);
}

/// The state of the read loop between chunks.
pub struct Splitter {
    file_size: usize,
    num_files: usize,
    echo: bool,
    cur_size: usize,
    consumed: Ghost<Seq<u8>>,
    completed: Ghost<nat>,
}

impl Splitter {
    /// The file size limit.
    pub closed spec fn size_limit(&self) -> nat {
        self.file_size as nat
    }

    /// The number of output file slots.
    pub closed spec fn slots(&self) -> nat {
        self.num_files as nat
    }

    /// Whether input is copied to the mirror stream.
    pub closed spec fn echoes(&self) -> bool {
        self.echo
    }

    /// All input consumed so far.
    pub closed spec fn consumed(&self) -> Seq<u8> {
        self.consumed@
    }

    /// The output files as they stand after the steps handed out so far.
    pub open spec fn files(&self) -> Slots {
        expected_slots(self.consumed(), self.size_limit(), self.slots())
    }

    pub closed spec fn wf(&self) -> bool {
        &&& self.file_size > 0
        &&& self.num_files > 0
        &&& self.cur_size < self.file_size
        &&& self.consumed@.len() == self.completed@ * self.file_size + self.cur_size
    }

    /// A splitter for a run with the given settings; the run starts by creating an empty file
    /// at index 0.
    pub fn new(config: &Config) -> (r: Splitter)
        requires
            config.valid(),
        ensures
            r.wf(),
            r.size_limit() == config.file_size,
            r.slots() == config.num_files,
            r.echoes() == !config.no_echo,
            r.consumed() == Seq::<u8>::empty(),
            r.files() == initial_slots(config.num_files as nat),
    {
        let r = Splitter {
            file_size: config.file_size,
            num_files: config.num_files,
            echo: !config.no_echo,
            cur_size: 0,
            consumed: Ghost(Seq::empty()),
            completed: Ghost(0),
        };
        proof {
            lemma_split_len(r.consumed@, r.file_size as nat, 0, 0);
            assert(block(Seq::<u8>::empty(), r.file_size as nat, 0) =~= Seq::<u8>::empty());
            assert(r.files() =~= initial_slots(config.num_files as nat));
        }
        r
    }

    /// The number of bytes written to the current file so far.
    pub fn current_size(&self) -> (r: usize)
        requires
            self.wf(),
        ensures
            r == self.consumed().len() % self.size_limit(),
            r < self.size_limit(),
    {
        proof {
            lemma_split_len(self.consumed@, self.file_size as nat, self.completed@, self.cur_size as nat);
        }
        self.cur_size
    }

    /// The steps for the next chunk of input. Each write is as long as the rest of the chunk
    /// or the room left in the current file, whichever is less; a rotation follows the write
    /// that fills the file. Applied to the output files, the steps give the files of the input
    /// extended by the chunk, and the mirror stream receives the chunk unchanged when echoing.
    pub fn on_chunk(&mut self, chunk: &[u8]) -> (steps: Vec<Step>)
        requires
            old(self).wf(),
        ensures
            final(self).wf(),
            final(self).size_limit() == old(self).size_limit(),
            final(self).slots() == old(self).slots(),
            final(self).echoes() == old(self).echoes(),
            final(self).consumed() == old(self).consumed() + chunk@,
            apply_steps(old(self).files(), steps@, chunk@) == final(self).files(),
            echoed(steps@, chunk@) == (if old(self).echoes() {
                chunk@
            } else {
                Seq::<u8>::empty()
            }),
            forall|k: int| 0 <= k < steps@.len() ==> step_fits(#[trigger] steps@[k], chunk@.len()),
    {
        let ghost d0 = self.files();
        let ghost s0 = self.consumed@;
        let mut steps: Vec<Step> = Vec::new();
        let mut idx: usize = 0;
        while idx < chunk.len()
            invariant
                self.wf(),
                self.file_size == old(self).file_size,
                self.num_files == old(self).num_files,
                self.echo == old(self).echo,
                d0 == old(self).files(),
                s0 == old(self).consumed(),
                idx <= chunk@.len(),
                self.consumed@ == s0 + chunk@.subrange(0, idx as int),
                apply_steps(d0, steps@, chunk@) == self.files(),
                echoed(steps@, chunk@) == (if self.echo {
                    chunk@.subrange(0, idx as int)
                } else {
                    Seq::<u8>::empty()
                }),
                forall|k: int| 0 <= k < steps@.len() ==> step_fits(#[trigger] steps@[k], chunk@.len()),
            decreases chunk.len() - idx,
        {
            let room = self.file_size - self.cur_size;
            let rest = chunk.len() - idx;
            let write_size = if rest < room {
                rest
            } else {
                room
            };
            let end = idx + write_size;
            let ghost s = self.consumed@;
            let ghost x = chunk@.subrange(idx as int, end as int);
            let ghost before = steps@;
            let ghost fs = self.file_size as nat;
            let ghost n = self.num_files as nat;
            steps.push(Step::Write { start: idx, end });
            proof {
                assert(steps@.drop_last() =~= before);
                assert(apply_steps(d0, steps@, chunk@) == appended(expected_slots(s, fs, n), x));
                assert(echoed(steps@, chunk@) == echoed(before, chunk@));
            }
            if self.echo {
                let ghost written = steps@;
                steps.push(Step::Echo { start: idx, end });
                proof {
                    assert(steps@.drop_last() =~= written);
                }
            }
            proof {
                assert(apply_steps(d0, steps@, chunk@) == appended(expected_slots(s, fs, n), x));
                assert(chunk@.subrange(0, idx as int) + x =~= chunk@.subrange(0, end as int));
                assert(echoed(steps@, chunk@) == (if self.echo {
                    chunk@.subrange(0, end as int)
                } else {
                    Seq::<u8>::empty()
                }));
                assert(s0 + chunk@.subrange(0, end as int) =~= s + x);
            }
            self.consumed = Ghost(s + x);
            if self.cur_size + write_size == self.file_size {
                let ghost filled = steps@;
                steps.push(Step::Rotate);
                proof {
                    assert(steps@.drop_last() =~= filled);
                    lemma_write_fill(s, x, fs, n, self.completed@, self.cur_size as nat);
                    lemma_mul_facts(self.completed@ as int, self.completed@ as int, self.file_size as int);
                }
                self.completed = Ghost(self.completed@ + 1);
                self.cur_size = 0;
            } else {
                proof {
                    lemma_write_within(s, x, fs, n, self.completed@, self.cur_size as nat);
                }
                self.cur_size = self.cur_size + write_size;
            }
            idx = end;
        }
        proof {
            assert(chunk@.subrange(0, chunk@.len() as int) =~= chunk@);
        }
        steps
    }
}

} // verus!
