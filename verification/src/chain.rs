//! The chain of cases that a cross-boundary slot grows into, one case for
//! each caller that has trapped there, and how a call runs through it.
//!
//! Memory is a function from addresses to bytes. Binding a caller writes
//! twice: the trapping body to its new place, then the caller's case over
//! its old one.

use crate::dynamic::{
    body_func_entry, body_static_base, bound_case, branch_distance, case_block, dispatch, in_reach,
    lemma_case_goes_on, lemma_case_len, lemma_case_runs, lemma_fresh_slot, moved_bytes, Dispatch,
};
use crate::instr::{halfword_at, svc_hw};
use crate::plt::cross_slot;
use crate::registry::{base_for, Range};
use crate::word::word_bytes;
use vstd::prelude::*;

verus! {

/// The `len` bytes of memory from `at` on.
pub open spec fn read(mem: spec_fn(int) -> u8, at: int, len: int) -> Seq<u8> {
    Seq::new(len as nat, |i: int| mem(at + i))
}

/// Memory after `bytes` have been written at `at`.
pub open spec fn write(mem: spec_fn(int) -> u8, at: int, bytes: Seq<u8>) -> spec_fn(int) -> u8 {
    |a: int|
        if at <= a < at + bytes.len() {
            bytes[a - at]
        } else {
            mem(a)
        }
}

/// Memory after the handler has bound the caller returning to `lr`, who
/// trapped in the body at `pc`; the body moves to `next_default`.
pub open spec fn rebound(
    mem: spec_fn(int) -> u8,
    lr: u32,
    pc: u32,
    ranges: Seq<Range>,
    next_default: u32,
) -> spec_fn(int) -> u8 {
    let body = read(mem, pc as int, 58);
    write(
        write(mem, next_default as int, moved_bytes(body)),
        pc as int,
        bound_case(lr, pc, body, ranges, next_default),
    )
}

/// Whether two blocks of the chain, at `a` and at `b`, do not overlap.
pub open spec fn blocks_apart(a: u32, b: u32) -> bool {
    a + 58 <= b || b + 58 <= a
}

/// A chain: the blocks at `places`, of which all but the last are the
/// cases of `callers`, in the order in which they were bound, and the last
/// is the trapping body. Case `i` restores the static base `bases[i]`.
pub struct Chain {
    pub places: Seq<u32>,
    pub callers: Seq<u32>,
    pub bases: Seq<u32>,
    /// The static base of the module that holds the function.
    pub static_base: u32,
    /// The entry of the function.
    pub entry: u32,
}

impl Chain {
    /// Whether block `i` of memory is the case of caller `i`, branching on
    /// to block `i + 1`.
    pub open spec fn case_in_place(self, mem: spec_fn(int) -> u8, i: int) -> bool {
        &&& in_reach(self.places[i], self.places[i + 1])
        &&& read(mem, self.places[i] as int, 58) == case_block(
            self.callers[i],
            self.static_base,
            self.entry,
            self.bases[i],
            branch_distance(self.places[i], self.places[i + 1]),
        )
    }

    /// Whether the last block of memory is the trapping body.
    pub open spec fn body_in_place(self, mem: spec_fn(int) -> u8) -> bool {
        let body = read(mem, self.places.last() as int, 58);
        &&& halfword_at(body, 0) == svc_hw()
        &&& body_static_base(body) == self.static_base
        &&& body_func_entry(body) == self.entry
    }

    /// Whether memory holds the chain.
    pub open spec fn holds(self, mem: spec_fn(int) -> u8) -> bool {
        &&& self.places.len() == self.callers.len() + 1
        &&& self.bases.len() == self.callers.len()
        &&& forall|i: int| 0 <= i < self.callers.len() ==> #[trigger] self.case_in_place(mem, i)
        &&& self.body_in_place(mem)
        &&& forall|i: int, j: int|
            0 <= i < j < self.places.len() ==> blocks_apart(
                #[trigger] self.places[i],
                #[trigger] self.places[j],
            )
    }

    /// The chain after one more caller has been bound.
    pub open spec fn grown(self, lr: u32, base: u32, next_default: u32) -> Chain {
        Chain {
            places: self.places.push(next_default),
            callers: self.callers.push(lr),
            bases: self.bases.push(base),
            ..self
        }
    }
}

/// How a call that enters the chain at block `k` with the return address
/// `lr` ends, following at most `fuel` long branches.
pub open spec fn run(mem: spec_fn(int) -> u8, at: int, lr: u32, fuel: nat) -> Dispatch
    decreases fuel,
{
    match dispatch(read(mem, at, 58), at as u32, lr) {
        Dispatch::Next { at: next } => if fuel == 0 {
            Dispatch::Next { at: next }
        } else {
            run(mem, next, lr, (fuel - 1) as nat)
        },
        d => d,
    }
}

/// A block that no write touches reads as before.
proof fn lemma_read_apart(mem: spec_fn(int) -> u8, at: int, bytes: Seq<u8>, other: int)
    requires
        other + 58 <= at || at + bytes.len() <= other,
    ensures
        read(write(mem, at, bytes), other, 58) == read(mem, other, 58),
{
    assert(read(write(mem, at, bytes), other, 58) =~= read(mem, other, 58));
}

/// A block reads as what was written there.
proof fn lemma_read_written(mem: spec_fn(int) -> u8, at: int, bytes: Seq<u8>)
    requires
        bytes.len() == 58,
    ensures
        read(write(mem, at, bytes), at, 58) == bytes,
{
    assert(read(write(mem, at, bytes), at, 58) =~= bytes);
}

/// A slot as the loader writes it is a chain without cases.
pub proof fn lemma_fresh_chain(mem: spec_fn(int) -> u8, at: u32, entry: u32, got: u32)
    requires
        read(mem, at as int, 58) == cross_slot(word_bytes(entry), got, 60).take(58),
    ensures
        (Chain {
            places: seq![at],
            callers: Seq::empty(),
            bases: Seq::empty(),
            static_base: got,
            entry,
        }).holds(mem),
{
    let slot = cross_slot(word_bytes(entry), got, 60);
    let body = read(mem, at as int, 58);
    lemma_fresh_slot(entry, got, 60, at, 0);
    assert(halfword_at(body, 0) == halfword_at(slot, 0));
    assert(body_static_base(body) == body_static_base(slot));
    assert(body_func_entry(body) == body_func_entry(slot));
}

/// Binding one more caller makes the chain one case longer: the body that
/// trapped becomes the case of the caller, and the body, in its new place,
/// is the end of the chain. The new place must lie apart from the blocks of
/// the chain and within reach of the place of the body.
#[verifier::rlimit(40)]
pub proof fn lemma_chain_grows(
    chain: Chain,
    mem: spec_fn(int) -> u8,
    lr: u32,
    ranges: Seq<Range>,
    next_default: u32,
)
    requires
        chain.holds(mem),
        in_reach(chain.places.last(), next_default),
        forall|i: int|
            0 <= i < chain.places.len() ==> blocks_apart(#[trigger] chain.places[i], next_default),
    ensures
        chain.grown(lr, base_for(ranges, lr), next_default).holds(
            rebound(mem, lr, chain.places.last(), ranges, next_default),
        ),
{
    let n = chain.callers.len() as int;
    let pc = chain.places.last();
    let body = read(mem, pc as int, 58);
    let case = bound_case(lr, pc, body, ranges, next_default);
    let mid = write(mem, next_default as int, moved_bytes(body));
    let after = rebound(mem, lr, pc, ranges, next_default);
    let grown = chain.grown(lr, base_for(ranges, lr), next_default);
    assert(moved_bytes(body) == body);
    lemma_case_len(
        lr,
        body_static_base(body),
        body_func_entry(body),
        base_for(ranges, lr),
        branch_distance(pc, next_default),
    );
    assert(blocks_apart(chain.places[n], next_default));
    assert forall|i: int| 0 <= i < grown.callers.len() implies #[trigger] grown.case_in_place(
        after,
        i,
    ) by {
        if i < n {
            assert(chain.case_in_place(mem, i));
            assert(blocks_apart(chain.places[i], next_default));
            assert(blocks_apart(chain.places[i], chain.places[n]));
            lemma_read_apart(mem, next_default as int, body, chain.places[i] as int);
            lemma_read_apart(mid, pc as int, case, chain.places[i] as int);
            assert(grown.places[i] == chain.places[i]);
            assert(grown.places[i + 1] == chain.places[i + 1]);
        } else {
            lemma_read_written(mid, pc as int, case);
            assert(grown.places[i] == pc);
            assert(grown.places[i + 1] == next_default);
        }
    }
    assert(grown.body_in_place(after)) by {
        lemma_read_written(mem, next_default as int, body);
        lemma_read_apart(mid, pc as int, case, next_default as int);
        assert(grown.places.last() == next_default);
    }
    assert forall|i: int, j: int| 0 <= i < j < grown.places.len() implies blocks_apart(
        #[trigger] grown.places[i],
        #[trigger] grown.places[j],
    ) by {
        if j < chain.places.len() {
            assert(blocks_apart(chain.places[i], chain.places[j]));
        } else {
            assert(blocks_apart(chain.places[i], next_default));
        }
    }
}

/// A call that enters a chain at block `k` with the return address of the
/// first caller from `k` on that has this return address runs the body of
/// that caller's case, and traps nowhere on the way.
pub proof fn lemma_bound_call_runs(chain: Chain, mem: spec_fn(int) -> u8, k: int, i: int)
    requires
        chain.holds(mem),
        0 <= k <= i < chain.callers.len(),
        forall|j: int| k <= j < i ==> chain.callers[j] != chain.callers[i],
    ensures
        run(mem, chain.places[k] as int, chain.callers[i], (i - k) as nat) == (Dispatch::Call {
            static_base: chain.static_base,
            entry: chain.entry,
            restore_base: chain.bases[i],
            return_to: chain.callers[i],
        }),
    decreases i - k,
{
    let lr = chain.callers[i];
    assert(chain.case_in_place(mem, k));
    if k == i {
        lemma_case_runs(
            lr,
            chain.static_base,
            chain.entry,
            chain.bases[i],
            branch_distance(chain.places[k], chain.places[k + 1]),
            chain.places[k],
        );
    } else {
        lemma_case_goes_on(
            chain.callers[k],
            chain.static_base,
            chain.entry,
            chain.bases[k],
            chain.places[k],
            chain.places[k + 1],
            lr,
        );
        lemma_bound_call_runs(chain, mem, k + 1, i);
    }
}

/// A call with a return address that has not been bound traps in the body
/// at the end of the chain.
pub proof fn lemma_new_call_traps(chain: Chain, mem: spec_fn(int) -> u8, k: int, lr: u32)
    requires
        chain.holds(mem),
        0 <= k <= chain.callers.len(),
        forall|j: int| k <= j < chain.callers.len() ==> chain.callers[j] != lr,
    ensures
        run(mem, chain.places[k] as int, lr, (chain.callers.len() - k) as nat) == Dispatch::Trap,
    decreases chain.callers.len() - k,
{
    if k == chain.callers.len() {
        assert(chain.places[k] == chain.places.last());
    } else {
        assert(chain.case_in_place(mem, k));
        lemma_case_goes_on(
            chain.callers[k],
            chain.static_base,
            chain.entry,
            chain.bases[k],
            chain.places[k],
            chain.places[k + 1],
            lr,
        );
        lemma_new_call_traps(chain, mem, k + 1, lr);
    }
}

} // verus!
