//! The allocation context: the fixed pool of scratch registers, the map
//! from live temporaries to their physical locations, and the running count
//! of bytes pushed onto the hardware stack. Offsets of stack-resident
//! temporaries are kept relative to the current stack pointer: every push
//! shifts them up, every pop shifts them down and evicts any temporary
//! whose slot was reclaimed. The global variable table lives here too.

use vstd::prelude::*;
use vstd::string::*;
use crate::text::str_eq;

verus! {

/// A general-purpose register. The first seven form the allocation pool,
/// in this order; the accumulator `rax` and `rdx` are reserved for
/// computation.
#[derive(Debug, Clone, Copy, PartialEq, Eq, Structural)]
pub enum Reg {
    R8,
    R9,
    R10,
    R11,
    RDI,
    RSI,
    RCX,
    RDX,
    RAX,
}

/// The position of a register in the allocation pool order.
pub open spec fn reg_index(r: Reg) -> int {
    match r {
        Reg::R8 => 0,
        Reg::R9 => 1,
        Reg::R10 => 2,
        Reg::R11 => 3,
        Reg::RDI => 4,
        Reg::RSI => 5,
        Reg::RCX => 6,
        Reg::RDX => 7,
        Reg::RAX => 8,
    }
}

/// The pool register with index `i`.
pub open spec fn pool_reg(i: int) -> Reg {
    if i == 0 {
        Reg::R8
    } else if i == 1 {
        Reg::R9
    } else if i == 2 {
        Reg::R10
    } else if i == 3 {
        Reg::R11
    } else if i == 4 {
        Reg::RDI
    } else if i == 5 {
        Reg::RSI
    } else {
        Reg::RCX
    }
}

/// The pool register with index `i`.
pub fn pool_reg_at(i: usize) -> (r: Reg)
    requires
        i < 7,
    ensures
        r == pool_reg(i as int),
        reg_index(r) == i,
{
    match i {
        0 => Reg::R8,
        1 => Reg::R9,
        2 => Reg::R10,
        3 => Reg::R11,
        4 => Reg::RDI,
        5 => Reg::RSI,
        _ => Reg::RCX,
    }
}

/// The physical storage of a temporary: a register, or a byte offset from
/// the current stack pointer.
#[derive(Debug, Clone, Copy, PartialEq, Eq, Structural)]
pub enum Location {
    Reg(Reg),
    Stack(usize),
}

/// The mathematical value of a `Location`.
pub enum LocV {
    Reg(Reg),
    Stack(int),
}

impl View for Location {
    type V = LocV;

    open spec fn view(&self) -> LocV {
        match self {
            Location::Reg(r) => LocV::Reg(*r),
            Location::Stack(s) => LocV::Stack(*s as int),
        }
    }
}

/// A location after `d` more bytes are pushed: stack offsets grow, register
/// locations stand.
pub open spec fn loc_shift(l: LocV, d: int) -> LocV {
    match l {
        LocV::Reg(r) => LocV::Reg(r),
        LocV::Stack(o) => LocV::Stack(o + d),
    }
}

/// The temp map after `d` more bytes are pushed.
pub open spec fn map_shift(m: Map<Seq<char>, LocV>, d: int) -> Map<Seq<char>, LocV> {
    Map::new(|k: Seq<char>| m.dom().contains(k), |k: Seq<char>| loc_shift(m[k], d))
}

/// The temp map after `d` bytes are popped: stack offsets shrink, and a
/// temporary whose slot lay inside the popped bytes is evicted.
pub open spec fn map_drop(m: Map<Seq<char>, LocV>, d: int) -> Map<Seq<char>, LocV> {
    Map::new(
        |k: Seq<char>|
            m.dom().contains(k) && match m[k] {
                LocV::Reg(_) => true,
                LocV::Stack(o) => o >= d,
            },
        |k: Seq<char>|
            match m[k] {
                LocV::Reg(r) => LocV::Reg(r),
                LocV::Stack(o) => LocV::Stack(o - d),
            },
    )
}

/// Whether the entry list binds each name at most once.
pub open spec fn distinct_keys(s: Seq<(Seq<char>, LocV)>) -> bool {
    forall|i: int, j: int| 0 <= i < j < s.len() ==> (#[trigger] s[i]).0 != (#[trigger] s[j]).0
}

/// Whether some entry binds `k`.
pub open spec fn has_key(s: Seq<(Seq<char>, LocV)>, k: Seq<char>) -> bool {
    exists|i: int| 0 <= i < s.len() && (#[trigger] s[i]).0 == k
}

/// The location bound to `k`, where one is.
pub open spec fn value_at(s: Seq<(Seq<char>, LocV)>, k: Seq<char>) -> LocV {
    s[choose|i: int| 0 <= i < s.len() && (#[trigger] s[i]).0 == k].1
}

/// The map an entry list denotes.
pub open spec fn model_of(s: Seq<(Seq<char>, LocV)>) -> Map<Seq<char>, LocV> {
    Map::new(|k: Seq<char>| has_key(s, k), |k: Seq<char>| value_at(s, k))
}

/// Appending a fresh binding inserts it into the denoted map.
pub proof fn lemma_model_push(s: Seq<(Seq<char>, LocV)>, e: (Seq<char>, LocV))
    requires
        distinct_keys(s.push(e)),
    ensures
        model_of(s.push(e)) =~= model_of(s).insert(e.0, e.1),
{
    let t = s.push(e);
    assert forall|k: Seq<char>| #[trigger] model_of(t).dom().contains(k) <==> model_of(s).insert(
        e.0,
        e.1,
    ).dom().contains(k) by {
        if k == e.0 {
            assert(t[s.len() as int].0 == k);
        } else {
            if has_key(t, k) {
                let i = choose|i: int| 0 <= i < t.len() && (#[trigger] t[i]).0 == k;
                assert(i < s.len() && s[i].0 == k);
            }
            if has_key(s, k) {
                let i = choose|i: int| 0 <= i < s.len() && (#[trigger] s[i]).0 == k;
                assert(t[i].0 == k);
            }
        }
    }
    assert forall|k: Seq<char>| model_of(t).dom().contains(k) implies #[trigger] model_of(t)[k]
        == model_of(s).insert(e.0, e.1)[k] by {
        let i = choose|i: int| 0 <= i < t.len() && (#[trigger] t[i]).0 == k;
        if k == e.0 {
            if i < s.len() {
                assert(t[i].0 == t[s.len() as int].0);
                assert(false);
            }
        } else {
            assert(i < s.len() && s[i].0 == k);
            let j = choose|j: int| 0 <= j < s.len() && (#[trigger] s[j]).0 == k;
            if i != j {
                assert(t[i].0 == t[j].0);
                assert(false);
            }
        }
    }
}

/// Each entry of a duplicate-free list is what the denoted map binds.
pub proof fn lemma_model_index(s: Seq<(Seq<char>, LocV)>, i: int)
    requires
        distinct_keys(s),
        0 <= i < s.len(),
    ensures
        model_of(s).dom().contains(s[i].0),
        model_of(s)[s[i].0] == s[i].1,
{
    assert(has_key(s, s[i].0));
    let j = choose|j: int| 0 <= j < s.len() && (#[trigger] s[j]).0 == s[i].0;
    if i != j {
        assert(s[i].0 != s[j].0);
        assert(false);
    }
}

/// The allocation context: live temporaries and their locations, the pool
/// occupancy flags, and the bytes currently pushed since emission began.
#[derive(Debug)]
pub struct TempVarTrack {
    pub inner: Vec<(String, Location)>,
    pub usage: Vec<bool>,
    pub stack_pushes: usize,
}

impl TempVarTrack {
    /// The entries as mathematical values, in insertion order.
    pub open spec fn entries(&self) -> Seq<(Seq<char>, LocV)> {
        self.inner@.map(|i: int, p: (String, Location)| (p.0@, p.1@))
    }

    /// The live-temp-to-location map.
    pub open spec fn model(&self) -> Map<Seq<char>, LocV> {
        model_of(self.entries())
    }

    /// The pool occupancy flags.
    pub open spec fn used(&self) -> Seq<bool> {
        self.usage@
    }

    /// The bytes currently pushed onto the stack.
    pub open spec fn pushes(&self) -> int {
        self.stack_pushes as int
    }

    /// Well-formedness: one flag per pool register; names bound at most
    /// once; a register location is a pool register, marked occupied, and
    /// owned by exactly one temporary; an occupied flag has an owner; a
    /// stack slot lies wholly inside the pushed bytes.
    pub open spec fn wf(&self) -> bool {
        &&& self.used().len() == 7
        &&& distinct_keys(self.entries())
        &&& forall|i: int|
            0 <= i < self.entries().len() ==> match (#[trigger] self.entries()[i]).1 {
                LocV::Reg(r) => 0 <= reg_index(r) < 7 && self.used()[reg_index(r)],
                LocV::Stack(o) => 0 <= o && o + 8 <= self.pushes(),
            }
        &&& forall|i: int, j: int|
            0 <= i < j < self.entries().len() ==> match (
                (#[trigger] self.entries()[i]).1,
                (#[trigger] self.entries()[j]).1,
            ) {
                (LocV::Reg(r1), LocV::Reg(r2)) => r1 != r2,
                _ => true,
            }
        &&& forall|k: int|
            0 <= k < 7 && self.used()[k] ==> exists|i: int|
                0 <= i < self.entries().len() && (#[trigger] self.entries()[i]).1 == LocV::Reg(
                    pool_reg(k),
                )
    }

    /// Whether every pool register is occupied.
    pub open spec fn all_used(&self) -> bool {
        forall|k: int| 0 <= k < 7 ==> self.used()[k]
    }

    /// True exactly when the tracked byte counter meets the 16-byte
    /// alignment the call ABI demands.
    pub fn stack_aligned(&self) -> (r: bool)
        ensures
            r == (self.pushes() % 16 == 0),
    {
        self.stack_pushes % 16 == 0
    }

    /// The location of a temporary, if it is live.
    pub fn get(&self, k: &str) -> (r: Option<Location>)
        requires
            self.wf(),
        ensures
            match r {
                Some(loc) => self.model().dom().contains(k@) && self.model()[k@] == loc@,
                None => !self.model().dom().contains(k@),
            },
    {
        let n = self.inner.len();
        let mut i: usize = 0;
        while i < n
            invariant
                n == self.inner@.len(),
                i <= n,
                self.wf(),
                forall|j: int| 0 <= j < i ==> (#[trigger] self.entries()[j]).0 != k@,
            decreases n - i,
        {
            let e = &self.inner[i];
            if str_eq(e.0.as_str(), k) {
                proof {
                    lemma_model_index(self.entries(), i as int);
                }
                return Some(e.1);
            }
            i += 1;
        }
        proof {
            if has_key(self.entries(), k@) {
                let j = choose|j: int|
                    0 <= j < self.entries().len() && (#[trigger] self.entries()[j]).0 == k@;
                assert(self.entries()[j].0 != k@);
            }
        }
        None
    }
}


/// The first free pool index at or after `i`, or 7 when the pool is full.
pub open spec fn first_free(u: Seq<bool>, i: int) -> int
    decreases u.len() - i when 0 <= i <= u.len()
{
    if i >= u.len() {
        u.len() as int
    } else if !u[i] {
        i
    } else {
        first_free(u, i + 1)
    }
}

pub proof fn lemma_first_free_bounds(u: Seq<bool>, i: int)
    requires
        0 <= i <= u.len(),
    ensures
        i <= first_free(u, i) <= u.len(),
        first_free(u, i) < u.len() ==> !u[first_free(u, i)],
        forall|j: int| i <= j < first_free(u, i) ==> u[j],
    decreases u.len() - i,
{
    if i < u.len() && u[i] {
        lemma_first_free_bounds(u, i + 1);
    }
}

impl TempVarTrack {
    /// Whether every pool register is occupied.
    #[verifier::loop_isolation(false)]
    pub fn all_in_use(&self) -> (r: bool)
        requires
            self.wf(),
        ensures
            r == self.all_used(),
    {
        let mut i: usize = 0;
        while i < 7
            invariant
                i <= 7,
                self.wf(),
                forall|k: int| 0 <= k < i ==> self.used()[k],
            decreases 7 - i,
        {
            if !self.usage[i] {
                return false;
            }
            i += 1;
        }
        true
    }

    /// Whether a pool register is occupied.
    pub fn is_used(&self, r: Reg) -> (b: bool)
        requires
            self.wf(),
            reg_index(r) < 7,
    ensures
            b == self.used()[reg_index(r)],
    {
        let i: usize = match r {
            Reg::R8 => 0,
            Reg::R9 => 1,
            Reg::R10 => 2,
            Reg::R11 => 3,
            Reg::RDI => 4,
            Reg::RSI => 5,
            _ => 6,
        };
        self.usage[i]
    }

    /// Gives a first-seen temporary its place: the first free pool register
    /// (deterministic first fit), or, when the pool is exhausted, the stack
    /// slot at the top of the pushed bytes. The caller must have reserved
    /// those 8 bytes before a spill.
    #[verifier::loop_isolation(false)]
    pub fn add(&mut self, k: String)
        requires
            old(self).wf(),
            !old(self).model().dom().contains(k@),
            old(self).all_used() ==> old(self).pushes() >= 8,
        ensures
            final(self).wf(),
            final(self).pushes() == old(self).pushes(),
            ({
                let f = first_free(old(self).used(), 0);
                if f < 7 {
                    &&& final(self).model() =~= old(self).model().insert(
                        k@,
                        LocV::Reg(pool_reg(f)),
                    )
                    &&& final(self).used() =~= old(self).used().update(f, true)
                } else {
                    &&& old(self).all_used()
                    &&& final(self).model() =~= old(self).model().insert(k@, LocV::Stack(0))
                    &&& final(self).used() == old(self).used()
                }
            }),
    {
        proof {
            lemma_first_free_bounds(old(self).used(), 0);
            if has_key(old(self).entries(), k@) {
                let j = choose|j: int|
                    0 <= j < old(self).entries().len() && (#[trigger] old(self).entries()[j]).0
                        == k@;
                lemma_model_index(old(self).entries(), j);
            }
        }
        let mut i: usize = 0;
        while i < 7
            invariant
                i <= 7,
                *self == *old(self),
                forall|k2: int| 0 <= k2 < i ==> self.used()[k2],
            decreases 7 - i,
        {
            if !self.usage[i] {
                let r = pool_reg_at(i);
                proof {
                    assert(first_free(old(self).used(), 0) == i) by {
                        let f = first_free(old(self).used(), 0);
                        if f < i {
                            assert(self.used()[f]);
                        } else if f > i {
                            assert(self.used()[i as int]);
                        }
                    }
                    assert(self.entries().push((k@, LocV::Reg(r))) =~= old(self).entries().push(
                        (k@, LocV::Reg(r)),
                    ));
                    lemma_model_push(self.entries(), (k@, LocV::Reg(r)));
                }
                self.usage[i] = true;
                self.inner.push((k, Location::Reg(r)));
                proof {
                    assert(self.entries() =~= old(self).entries().push((k@, LocV::Reg(r))));
                    assert forall|k2: int| 0 <= k2 < 7 && self.used()[k2] implies exists|m: int|
                        0 <= m < self.entries().len() && (#[trigger] self.entries()[m]).1
                            == LocV::Reg(pool_reg(k2)) by {
                        if k2 == i {
                            assert(self.entries()[self.entries().len() - 1].1 == LocV::Reg(
                                pool_reg(k2),
                            ));
                        } else {
                            let m = choose|m: int|
                                0 <= m < old(self).entries().len() && (#[trigger] old(
                                    self,
                                ).entries()[m]).1 == LocV::Reg(pool_reg(k2));
                            assert(self.entries()[m].1 == LocV::Reg(pool_reg(k2)));
                        }
                    }
                }
                return ;
            }
            i += 1;
        }
        proof {
            lemma_model_push(self.entries(), (k@, LocV::Stack(0)));
        }
        self.inner.push((k, Location::Stack(0)));
        proof {
            assert(self.entries() =~= old(self).entries().push((k@, LocV::Stack(0))));
            assert forall|k2: int| 0 <= k2 < 7 && self.used()[k2] implies exists|m: int|
                0 <= m < self.entries().len() && (#[trigger] self.entries()[m]).1 == LocV::Reg(
                    pool_reg(k2),
                ) by {
                let m = choose|m: int|
                    0 <= m < old(self).entries().len() && (#[trigger] old(self).entries()[m]).1
                        == LocV::Reg(pool_reg(k2));
                assert(self.entries()[m].1 == LocV::Reg(pool_reg(k2)));
            }
        }
    }
}


/// Shifting every stack location of a duplicate-free entry list shifts the
/// denoted map.
pub proof fn lemma_model_shift(s: Seq<(Seq<char>, LocV)>, t: Seq<(Seq<char>, LocV)>, d: int)
    requires
        distinct_keys(s),
        t.len() == s.len(),
        forall|j: int| 0 <= j < s.len() ==> (#[trigger] t[j]) == (s[j].0, loc_shift(s[j].1, d)),
    ensures
        distinct_keys(t),
        model_of(t) =~= map_shift(model_of(s), d),
{
    assert forall|k: Seq<char>| #[trigger] has_key(t, k) <==> has_key(s, k) by {
        if has_key(t, k) {
            let i = choose|i: int| 0 <= i < t.len() && (#[trigger] t[i]).0 == k;
            assert(s[i].0 == k);
        }
        if has_key(s, k) {
            let i = choose|i: int| 0 <= i < s.len() && (#[trigger] s[i]).0 == k;
            assert(t[i].0 == k);
        }
    }
    assert forall|k: Seq<char>| has_key(t, k) implies #[trigger] value_at(t, k) == loc_shift(
        value_at(s, k),
        d,
    ) by {
        let i = choose|i: int| 0 <= i < t.len() && (#[trigger] t[i]).0 == k;
        let j = choose|j: int| 0 <= j < s.len() && (#[trigger] s[j]).0 == k;
        if i != j {
            assert(s[i].0 == k);
            assert(false);
        }
    }
}

impl TempVarTrack {
    /// Notes `increase` bytes just pushed onto the stack: the tracked
    /// counter grows and every stack-resident temporary's offset grows by
    /// exactly that count, its data now lying further from the stack
    /// pointer.
    #[verifier::loop_isolation(false)]
    pub fn inc_stack(&mut self, increase: usize)
        requires
            old(self).wf(),
            old(self).pushes() + increase <= usize::MAX,
        ensures
            final(self).wf(),
            final(self).pushes() == old(self).pushes() + increase,
            final(self).used() == old(self).used(),
            final(self).model() =~= map_shift(old(self).model(), increase as int),
    {
        let ghost s = old(self).entries();
        let ghost d = increase as int;
        let n = self.inner.len();
        let mut shifted: Vec<(String, Location)> = Vec::new();
        let mut i: usize = 0;
        while i < n
            invariant
                n == self.inner@.len(),
                *self == *old(self),
                i <= n,
                shifted@.len() == i,
                forall|m: int|
                    0 <= m < i ==> (#[trigger] shifted@[m]).0@ == s[m].0 && shifted@[m].1@
                        == loc_shift(s[m].1, d),
            decreases n - i,
        {
            let name = self.inner[i].0.clone();
            let loc = self.inner[i].1;
            match loc {
                Location::Reg(_) => {
                    shifted.push((name, loc));
                },
                Location::Stack(pos) => {
                    proof {
                        assert(s[i as int].1 == LocV::Stack(pos as int));
                        assert(pos + 8 <= old(self).pushes());
                    }
                    shifted.push((name, Location::Stack(pos + increase)));
                },
            }
            i += 1;
        }
        self.inner = shifted;
        self.stack_pushes = self.stack_pushes + increase;
        proof {
            let t = self.entries();
            assert(forall|j: int|
                0 <= j < t.len() ==> (#[trigger] t[j]) == (s[j].0, loc_shift(s[j].1, d)));
            lemma_model_shift(s, t, d);
            assert forall|k2: int| 0 <= k2 < 7 && self.used()[k2] implies exists|m: int|
                0 <= m < t.len() && (#[trigger] t[m]).1 == LocV::Reg(pool_reg(k2)) by {
                let m = choose|m: int|
                    0 <= m < s.len() && (#[trigger] s[m]).1 == LocV::Reg(pool_reg(k2));
                assert(t[m].1 == LocV::Reg(pool_reg(k2)));
            }
        }
    }

    /// Notes `decrease` bytes just popped off the stack: the tracked
    /// counter shrinks and every stack-resident temporary's offset shrinks
    /// by that count; one whose slot lay inside the popped bytes has had
    /// its storage reclaimed and is evicted.
    #[verifier::loop_isolation(false)]
    pub fn dec_stack(&mut self, decrease: usize)
        requires
            old(self).wf(),
            decrease <= old(self).pushes(),
        ensures
            final(self).wf(),
            final(self).pushes() == old(self).pushes() - decrease,
            final(self).used() == old(self).used(),
            final(self).model() =~= map_drop(old(self).model(), decrease as int),
    {
        let ghost s = old(self).entries();
        let ghost d = decrease as int;
        let n = self.inner.len();
        let mut kept: Vec<(String, Location)> = Vec::new();
        proof {
            assert(s.take(0) =~= Seq::<(Seq<char>, LocV)>::empty());
            assert(model_of(kept@.map(|m: int, p: (String, Location)| (p.0@, p.1@))) =~= map_drop(
                model_of(s.take(0)),
                d,
            ));
        }
        let mut i: usize = 0;
        while i < n
            invariant
                n == self.inner@.len(),
                *self == *old(self),
                i <= n,
                distinct_keys(kept@.map(|m: int, p: (String, Location)| (p.0@, p.1@))),
                model_of(kept@.map(|m: int, p: (String, Location)| (p.0@, p.1@))) =~= map_drop(
                    model_of(s.take(i as int)),
                    d,
                ),
                forall|m: int|
                    0 <= m < kept@.len() ==> exists|j: int|
                        0 <= j < i && (#[trigger] kept@[m]).0@ == s[j].0,
            decreases n - i,
        {
            let ghost keptE = kept@.map(|m: int, p: (String, Location)| (p.0@, p.1@));
            proof {
                assert(s.take(i + 1) =~= s.take(i as int).push(s[i as int]));
                lemma_model_push(s.take(i as int), s[i as int]);
                assert(!has_key(keptE, s[i as int].0)) by {
                    if has_key(keptE, s[i as int].0) {
                        let m = choose|m: int|
                            0 <= m < keptE.len() && (#[trigger] keptE[m]).0 == s[i as int].0;
                        assert(kept@[m].0@ == s[i as int].0);
                        let j = choose|j: int| 0 <= j < i && (#[trigger] kept@[m]).0@ == s[j].0;
                        assert(s[j].0 == s[i as int].0);
                        assert(false);
                    }
                };
            }
            let name = self.inner[i].0.clone();
            let loc = self.inner[i].1;
            match loc {
                Location::Reg(_) => {
                    proof {
                        lemma_model_push(keptE, s[i as int]);
                    }
                    kept.push((name, loc));
                    proof {
                        assert(kept@.map(|m: int, p: (String, Location)| (p.0@, p.1@))
                            =~= keptE.push(s[i as int]));
                    }
                },
                Location::Stack(pos) => {
                    if pos >= decrease {
                        let e2 = (name, Location::Stack(pos - decrease));
                        proof {
                            lemma_model_push(keptE, (s[i as int].0, LocV::Stack(pos - d)));
                        }
                        kept.push(e2);
                        proof {
                            assert(kept@.map(|m: int, p: (String, Location)| (p.0@, p.1@))
                                =~= keptE.push((s[i as int].0, LocV::Stack(pos - d))));
                        }
                    }
                },
            }
            i += 1;
        }
        proof {
            assert(s.take(n as int) =~= s);
        }
        self.inner = kept;
        self.stack_pushes = self.stack_pushes - decrease;
        proof {
            let t = self.entries();
            let mfin = self.model();
            assert forall|m: int| 0 <= m < t.len() implies match (#[trigger] t[m]).1 {
                LocV::Reg(r) => 0 <= reg_index(r) < 7 && self.used()[reg_index(r)],
                LocV::Stack(o) => 0 <= o && o + 8 <= self.pushes(),
            } by {
                lemma_model_index(t, m);
                let j = choose|j: int| 0 <= j < s.len() && (#[trigger] s[j]).0 == t[m].0;
                lemma_model_index(s, j);
            }
            assert forall|m1: int, m2: int| 0 <= m1 < m2 < t.len() implies match (
                (#[trigger] t[m1]).1,
                (#[trigger] t[m2]).1,
            ) {
                (LocV::Reg(r1), LocV::Reg(r2)) => r1 != r2,
                _ => true,
            } by {
                lemma_model_index(t, m1);
                lemma_model_index(t, m2);
                let j1 = choose|j: int| 0 <= j < s.len() && (#[trigger] s[j]).0 == t[m1].0;
                let j2 = choose|j: int| 0 <= j < s.len() && (#[trigger] s[j]).0 == t[m2].0;
                lemma_model_index(s, j1);
                lemma_model_index(s, j2);
                assert(j1 != j2);
            }
            assert forall|k2: int| 0 <= k2 < 7 && self.used()[k2] implies exists|m: int|
                0 <= m < t.len() && (#[trigger] t[m]).1 == LocV::Reg(pool_reg(k2)) by {
                let i0 = choose|i0: int|
                    0 <= i0 < s.len() && (#[trigger] s[i0]).1 == LocV::Reg(pool_reg(k2));
                lemma_model_index(s, i0);
                assert(mfin.dom().contains(s[i0].0));
                assert(mfin[s[i0].0] == LocV::Reg(pool_reg(k2)));
                let m = choose|m: int| 0 <= m < t.len() && (#[trigger] t[m]).0 == s[i0].0;
                lemma_model_index(t, m);
                assert(t[m].1 == LocV::Reg(pool_reg(k2)));
            }
        }
    }

    /// Releases a register-resident temporary back to the free pool. A
    /// stack-resident temporary is never released this way: it leaves only
    /// by pop-triggered eviction.
    #[verifier::loop_isolation(false)]
    #[verifier::rlimit(60)]
    pub fn drop(&mut self, k: &str)
        requires
            old(self).wf(),
        ensures
            final(self).wf(),
            final(self).pushes() == old(self).pushes(),
            ({
                let m = old(self).model();
                if m.dom().contains(k@) && m[k@] is Reg {
                    &&& final(self).model() =~= m.remove(k@)
                    &&& final(self).used() =~= old(self).used().update(
                        reg_index(m[k@]->Reg_0),
                        false,
                    )
                } else {
                    *final(self) == *old(self)
                }
            }),
    {
        let ghost s = old(self).entries();
        let n = self.inner.len();
        let mut i: usize = 0;
        while i < n
            invariant
                n == self.inner@.len(),
                *self == *old(self),
                i <= n,
                forall|j: int| 0 <= j < i ==> (#[trigger] s[j]).0 != k@,
            decreases n - i,
        {
            let hit = str_eq(self.inner[i].0.as_str(), k);
            if hit {
                proof {
                    lemma_model_index(s, i as int);
                }
                let loc = self.inner[i].1;
                match loc {
                    Location::Reg(r) => {
                        let ri: usize = match r {
                            Reg::R8 => 0,
                            Reg::R9 => 1,
                            Reg::R10 => 2,
                            Reg::R11 => 3,
                            Reg::RDI => 4,
                            Reg::RSI => 5,
                            Reg::RCX => 6,
                            Reg::RDX => 7,
                            _ => 8,
                        };
                        self.usage[ri] = false;
                        self.inner.remove(i);
                        proof {
                            let t = self.entries();
                            assert(t =~= s.subrange(0, i as int) + s.subrange(
                                i + 1,
                                s.len() as int,
                            ));
                            assert forall|m: int| 0 <= m < t.len() implies (#[trigger] t[m]) == (
                                if m < i {
                                    s[m]
                                } else {
                                    s[m + 1]
                                }
                            ) by {}
                            assert forall|kk: Seq<char>| #[trigger]
                                has_key(t, kk) <==> has_key(s, kk) && kk != k@ by {
                                if has_key(t, kk) {
                                    let m = choose|m: int|
                                        0 <= m < t.len() && (#[trigger] t[m]).0 == kk;
                                    if m < i {
                                        assert(s[m].0 == kk);
                                        assert(kk != k@);
                                    } else {
                                        assert(s[m + 1].0 == kk);
                                        assert(kk != k@);
                                    }
                                }
                                if has_key(s, kk) && kk != k@ {
                                    let j = choose|j: int|
                                        0 <= j < s.len() && (#[trigger] s[j]).0 == kk;
                                    assert(j != i);
                                    if j < i {
                                        assert(t[j].0 == kk);
                                    } else {
                                        assert(t[j - 1].0 == kk);
                                    }
                                }
                            }
                            assert forall|kk: Seq<char>| has_key(t, kk) implies #[trigger]
                                value_at(t, kk) == value_at(s, kk) by {
                                let m = choose|m: int|
                                    0 <= m < t.len() && (#[trigger] t[m]).0 == kk;
                                let j = choose|j: int|
                                    0 <= j < s.len() && (#[trigger] s[j]).0 == kk;
                                if m < i {
                                    assert(s[m].0 == kk);
                                    assert(j == m);
                                } else {
                                    assert(s[m + 1].0 == kk);
                                    assert(j == m + 1);
                                }
                            }
                            assert(self.model() =~= old(self).model().remove(k@));
                            assert forall|k2: int| 0 <= k2 < 7 && self.used()[k2] implies exists|
                                m: int,
                            |
                                0 <= m < t.len() && (#[trigger] t[m]).1 == LocV::Reg(
                                    pool_reg(k2),
                                ) by {
                                let i0 = choose|i0: int|
                                    0 <= i0 < s.len() && (#[trigger] s[i0]).1 == LocV::Reg(
                                        pool_reg(k2),
                                    );
                                assert(i0 != i);
                                if i0 < i {
                                    assert(t[i0].1 == LocV::Reg(pool_reg(k2)));
                                } else {
                                    assert(t[i0 - 1].1 == LocV::Reg(pool_reg(k2)));
                                }
                            }
                        }
                    },
                    Location::Stack(_) => {},
                }
                return ;
            }
            i += 1;
        }
        proof {
            if has_key(s, k@) {
                let j = choose|j: int| 0 <= j < s.len() && (#[trigger] s[j]).0 == k@;
                assert(s[j].0 != k@);
            }
        }
    }
}

impl Default for TempVarTrack {
    /// A fresh allocation context: no live temporaries, every pool register
    /// free, nothing pushed.
    fn default() -> (r: Self)
        ensures
            r.wf(),
            r.pushes() == 0,
            r.used().len() == 7,
            forall|k: int| 0 <= k < 7 ==> !r.used()[k],
            r.entries() =~= Seq::<(Seq<char>, LocV)>::empty(),
            r.model() =~= Map::<Seq<char>, LocV>::empty(),
    {
        let mut usage: Vec<bool> = Vec::new();
        usage.push(false);
        usage.push(false);
        usage.push(false);
        usage.push(false);
        usage.push(false);
        usage.push(false);
        usage.push(false);
        let r = TempVarTrack { inner: Vec::new(), usage, stack_pushes: 0 };
        proof {
            assert forall|kk: Seq<char>| !(#[trigger] has_key(r.entries(), kk)) by {
                if has_key(r.entries(), kk) {
                    let m = choose|m: int|
                        0 <= m < r.entries().len() && (#[trigger] r.entries()[m]).0 == kk;
                }
            }
        }
        r
    }
}

/// The global variable table: distinct statically stored names, first-seen
/// order preserved.
#[derive(Debug)]
pub struct Vars {
    pub inner: Vec<String>,
}

impl View for Vars {
    type V = Seq<Seq<char>>;

    open spec fn view(&self) -> Seq<Seq<char>> {
        self.inner@.map(|i: int, s: String| s@)
    }
}

/// Registering a name: a new name is appended, a known one changes
/// nothing.
pub open spec fn sp_vars_add(vs: Seq<Seq<char>>, v: Seq<char>) -> Seq<Seq<char>> {
    if vs.contains(v) {
        vs
    } else {
        vs.push(v)
    }
}

impl Default for Vars {
    /// An empty variable table.
    fn default() -> (r: Self)
        ensures
            r@ =~= Seq::<Seq<char>>::empty(),
    {
        Vars { inner: Vec::new() }
    }
}

impl Vars {
    /// Registers a variable name: idempotent, first-seen order preserved.
    #[verifier::loop_isolation(false)]
    pub fn add(&mut self, var: String)
        ensures
            final(self)@ =~= sp_vars_add(old(self)@, var@),
    {
        let n = self.inner.len();
        let mut i: usize = 0;
        while i < n
            invariant
                n == self.inner@.len(),
                i <= n,
                *self == *old(self),
                forall|j: int| 0 <= j < i ==> self@[j] != var@,
            decreases n - i,
        {
            if str_eq(self.inner[i].as_str(), var.as_str()) {
                proof {
                    assert(old(self)@.contains(var@)) by {
                        assert(old(self)@[i as int] == var@);
                    }
                }
                return ;
            }
            i += 1;
        }
        proof {
            assert(!old(self)@.contains(var@)) by {
                if old(self)@.contains(var@) {
                    let j = choose|j: int|
                        0 <= j < old(self)@.len() && old(self)@[j] == var@;
                    assert(self@[j] != var@);
                }
            }
            assert(self.inner@.push(var).map(|i2: int, s: String| s@) =~= self@.push(var@));
        }
        self.inner.push(var);
    }
}

/// Register exhaustion: a temporary spilled with the pool full sits at
/// offset zero of the reserved slot; `a` further pushed bytes move it to
/// offset `a`, and popping `b` of them back moves it to `a - b`.
pub proof fn lemma_spill_offset_tracking(m: Map<Seq<char>, LocV>, t: Seq<char>, a: int, b: int)
    requires
        0 <= b <= a,
    ensures
        ({
            let m1 = m.insert(t, LocV::Stack(0));
            let m2 = map_shift(m1, a);
            let m3 = map_drop(m2, b);
            &&& m2.dom().contains(t) && m2[t] == LocV::Stack(a)
            &&& m3.dom().contains(t) && m3[t] == LocV::Stack(a - b)
        }),
{
}

/// Eviction: a pop that reclaims more bytes than a stack-resident
/// temporary's offset leaves that temporary absent from the context.
pub proof fn lemma_pop_evicts(m: Map<Seq<char>, LocV>, t: Seq<char>, d: int)
    requires
        m.dom().contains(t),
        match m[t] {
            LocV::Stack(o) => o < d,
            LocV::Reg(_) => false,
        },
    ensures
        !map_drop(m, d).dom().contains(t),
{
}

/// Variable idempotence: registering a name twice is registering it once.
pub proof fn lemma_vars_add_idempotent(vs: Seq<Seq<char>>, v: Seq<char>)
    ensures
        sp_vars_add(sp_vars_add(vs, v), v) == sp_vars_add(vs, v),
{
    if !vs.contains(v) {
        assert(vs.push(v).contains(v)) by {
            assert(vs.push(v)[vs.len() as int] == v);
        }
    }
}

} // verus!
