//! The registry that tells which module a return address belongs to.
//!
//! Every loaded module contributes the range of addresses its code occupies
//! together with the base of its offset table. The handler of the lazy
//! binding looks a caller's return address up here to learn which static
//! base to restore when the callee returns.

use vstd::prelude::*;

verus! {

/// The code of one module, `start..end`, and the base of its offset table.
#[derive(Debug, Clone, Copy, PartialEq, Eq, Structural)]
pub struct Range {
    pub start: u32,
    pub end: u32,
    pub base: u32,
}

impl Range {
    /// Whether `addr` lies in the range.
    pub open spec fn spec_contains(&self, addr: u32) -> bool {
        self.start <= addr < self.end
    }

    /// Whether `addr` lies in the range.
    #[verifier::when_used_as_spec(spec_contains)]
    pub fn contains(&self, addr: u32) -> (b: bool)
        ensures
            b == self.spec_contains(addr),
    {
        self.start <= addr && addr < self.end
    }

    /// The base of the offset table of the module that owns the range.
    pub fn base(&self) -> (b: u32)
        ensures
            b == self.base,
    {
        self.base
    }

    /// Whether no address lies in both ranges.
    pub open spec fn apart(&self, other: Range) -> bool {
        self.end <= self.start || other.end <= other.start || self.end <= other.start || other.end
            <= self.start
    }
}

/// The index of the first range of `ranges` that contains `addr`.
pub open spec fn first_owner(ranges: Seq<Range>, addr: u32) -> Option<int>
    decreases ranges.len(),
{
    if ranges.len() == 0 {
        None
    } else {
        match first_owner(ranges.drop_last(), addr) {
            Some(i) => Some(i),
            None => if ranges.last().spec_contains(addr) {
                Some(ranges.len() - 1)
            } else {
                None
            },
        }
    }
}

/// The static base that goes with `addr`: the base of the first range that
/// contains it, and zero where none does.
pub open spec fn base_for(ranges: Seq<Range>, addr: u32) -> u32 {
    match first_owner(ranges, addr) {
        Some(i) => ranges[i].base,
        None => 0,
    }
}

/// Whether no address lies in two of the ranges.
pub open spec fn all_apart(ranges: Seq<Range>) -> bool {
    forall|i: int, j: int|
        0 <= i < j < ranges.len() ==> (#[trigger] ranges[i]).apart(#[trigger] ranges[j])
}

/// `first_owner` finds a range that contains the address, the first such,
/// and finds one whenever there is one.
pub proof fn lemma_first_owner(ranges: Seq<Range>, addr: u32)
    ensures
        match first_owner(ranges, addr) {
            Some(i) => 0 <= i < ranges.len() && ranges[i].spec_contains(addr) && forall|j: int|
                0 <= j < i ==> !(#[trigger] ranges[j]).spec_contains(addr),
            None => forall|j: int| 0 <= j < ranges.len() ==> !(#[trigger] ranges[j]).spec_contains(addr),
        },
    decreases ranges.len(),
{
    if ranges.len() > 0 {
        let front = ranges.drop_last();
        lemma_first_owner(front, addr);
        assert forall|j: int| 0 <= j < front.len() implies front[j] == ranges[j] by {}
        match first_owner(front, addr) {
            Some(i) => {
                assert forall|j: int| 0 <= j < i implies !(#[trigger] ranges[j]).spec_contains(addr) by {
                    assert(front[j] == ranges[j]);
                }
            },
            None => {
                assert forall|j: int| 0 <= j < ranges.len() - 1 implies !(
                #[trigger] ranges[j]).spec_contains(addr) by {
                    assert(front[j] == ranges[j]);
                }
            },
        }
    }
}

/// Where the code ranges of the loaded modules lie apart, at most one of
/// them contains a given return address.
pub proof fn lemma_owner_unique(ranges: Seq<Range>, addr: u32, i: int, j: int)
    requires
        all_apart(ranges),
        0 <= i < ranges.len(),
        0 <= j < ranges.len(),
        ranges[i].spec_contains(addr),
        ranges[j].spec_contains(addr),
    ensures
        i == j,
{
    if i < j {
        assert(ranges[i].apart(ranges[j]));
    } else if j < i {
        assert(ranges[j].apart(ranges[i]));
    }
}

/// The ranges of all loaded modules, in the order of loading.
#[derive(Debug)]
pub struct Registry {
    pub ranges: Vec<Range>,
}

impl View for Registry {
    type V = Seq<Range>;

    open spec fn view(&self) -> Seq<Range> {
        self.ranges@
    }
}

impl Registry {
    /// A registry without modules.
    pub fn new() -> (r: Registry)
        ensures
            r@ == Seq::<Range>::empty(),
    {
        Registry { ranges: Vec::new() }
    }

    /// Appends the range of a module that has just been laid out.
    pub fn push(&mut self, range: Range)
        ensures
            final(self)@ == old(self)@.push(range),
    {
        self.ranges.push(range);
    }

    /// Whether `range` lies apart from every range already registered.
    pub fn is_apart(&self, range: Range) -> (b: bool)
        ensures
            b == forall|i: int| 0 <= i < self@.len() ==> (#[trigger] self@[i]).apart(range),
    {
        let mut i: usize = 0;
        while i < self.ranges.len()
            invariant
                0 <= i <= self.ranges@.len(),
                forall|j: int| 0 <= j < i ==> (#[trigger] self@[j]).apart(range),
            decreases self.ranges@.len() - i,
        {
            let r = self.ranges[i];
            if !(r.end <= r.start || range.end <= range.start || r.end <= range.start || range.end
                <= r.start) {
                assert(!self@[i as int].apart(range));
                return false;
            }
            i += 1;
        }
        true
    }

    /// The static base of the module whose code contains `lr`; zero where
    /// `lr` lies in no registered range.
    pub fn base_of(&self, lr: u32) -> (base: u32)
        ensures
            base == base_for(self@, lr),
    {
        let mut i: usize = 0;
        while i < self.ranges.len()
            invariant
                0 <= i <= self.ranges@.len(),
                first_owner(self@.take(i as int), lr) is None,
            decreases self.ranges@.len() - i,
        {
            let m = self.ranges[i];
            proof {
                assert(self@.take(i + 1).drop_last() =~= self@.take(i as int));
                assert(self@.take(i + 1).last() == m);
            }
            if m.contains(lr) {
                proof {
                    lemma_first_owner_extends(self@, lr, i + 1);
                }
                return m.base();
            }
            i += 1;
        }
        assert(self@.take(i as int) =~= self@);
        0
    }
}

/// An owner found among the first `n` ranges is the owner among all.
pub proof fn lemma_first_owner_extends(ranges: Seq<Range>, addr: u32, n: int)
    requires
        0 <= n <= ranges.len(),
        first_owner(ranges.take(n), addr) is Some,
    ensures
        first_owner(ranges, addr) == first_owner(ranges.take(n), addr),
    decreases ranges.len() - n,
{
    if n < ranges.len() {
        assert(ranges.take(n + 1).drop_last() =~= ranges.take(n));
        lemma_first_owner_extends(ranges, addr, n + 1);
    } else {
        assert(ranges.take(n) =~= ranges);
    }
}

/// Pushing a range that lies apart from all others keeps the ranges apart.
pub proof fn lemma_push_apart(ranges: Seq<Range>, range: Range)
    requires
        all_apart(ranges),
        forall|i: int| 0 <= i < ranges.len() ==> (#[trigger] ranges[i]).apart(range),
    ensures
        all_apart(ranges.push(range)),
{
    let after = ranges.push(range);
    assert forall|i: int, j: int| 0 <= i < j < after.len() implies (#[trigger] after[i]).apart(
        #[trigger] after[j],
    ) by {
        if j < ranges.len() {
            assert(ranges[i].apart(ranges[j]));
        } else {
            assert(ranges[i].apart(range));
        }
    }
}

/// Where the code ranges lie apart, the static base that goes with an
/// address is that of the one module whose code holds the address.
pub proof fn lemma_base_of_owner(ranges: Seq<Range>, addr: u32, i: int)
    requires
        all_apart(ranges),
        0 <= i < ranges.len(),
        ranges[i].spec_contains(addr),
    ensures
        base_for(ranges, addr) == ranges[i].base,
{
    lemma_first_owner(ranges, addr);
    let j = first_owner(ranges, addr).unwrap();
    lemma_owner_unique(ranges, addr, i, j);
}

} // verus!
