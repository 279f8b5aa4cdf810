//! The board: coordinates, the 2D-to-1D indexer, cards, and the random
//! pairing that deals each symbol onto exactly two cells.

use vstd::prelude::*;
use vstd::arithmetic::div_mod::{
    lemma_div_pos_is_pos, lemma_fundamental_div_mod, lemma_fundamental_div_mod_converse,
    lemma_mod_division_less_than_divisor,
};
use vstd::arithmetic::mul::lemma_mul_inequality;
use vstd::seq_lib::lemma_multiset_commutative;
use crate::error::GameError;

verus! {

/// Most cells a board may have: two for each symbol of the alphabet.
pub const MAX_CELLS: i32 = 110;

/// Distinct symbols in the card alphabet.
pub const NUM_SYMBOLS: i32 = 55;

/// A cell position: zero-indexed internally, one-indexed at the prompt.
#[derive(Clone, Copy, PartialEq, Eq, Structural, Debug)]
pub struct Vec2 {
    pub x: i32,
    pub y: i32,
}

/// A card symbol; two cells match exactly when their cards are equal.
#[derive(Clone, Copy, PartialEq, Eq, Structural, Debug)]
pub struct Card(pub u32);

/// Converts coordinates (2D index) into an array (1D) index.
#[derive(Clone, Copy, PartialEq, Eq, Structural, Debug)]
pub struct Idx2d {
    pub size_x: i32,
    pub size_y: i32,
}

impl Idx2d {
    /// Whether a zero-indexed coordinate lies on the board.
    pub open spec fn in_bounds(self, c: Vec2) -> bool {
        0 <= c.x < self.size_x && 0 <= c.y < self.size_y
    }

    /// The linear cell index of a coordinate: `y * width + x`.
    pub open spec fn lin(self, c: Vec2) -> int {
        c.y * self.size_x + c.x
    }

    /// How many cells the board has.
    pub open spec fn area(self) -> int {
        self.size_x * self.size_y
    }

    /// The checked conversion's exact result: an underflow or overflow
    /// error naming the first offending axis, else the linear index.
    pub open spec fn spec_of(self, c: Vec2) -> Result<usize, GameError> {
        if c.x < 0 {
            Err(GameError::CoordinateUnderflow { axis: 'x' })
        } else if c.y < 0 {
            Err(GameError::CoordinateUnderflow { axis: 'y' })
        } else if c.x >= self.size_x {
            Err(GameError::CoordinateOverflow { axis: 'x', max: self.size_x })
        } else if c.y >= self.size_y {
            Err(GameError::CoordinateOverflow { axis: 'y', max: self.size_y })
        } else {
            Ok(self.lin(c) as usize)
        }
    }

    /// Create a new indexer object with the given column/row counts.
    pub fn new(size_x: i32, size_y: i32) -> (r: Idx2d)
        ensures
            r == (Idx2d { size_x, size_y }),
    {
        Idx2d { size_x, size_y }
    }

    /// Convert coordinates into an array index with bounds checking;
    /// coordinates outside the stored sizes give a typed error.
    pub fn of(&self, coords: Vec2) -> (r: Result<usize, GameError>)
        requires
            self.size_x * self.size_y <= usize::MAX,
        ensures
            r == self.spec_of(coords),
            r is Ok <==> self.in_bounds(coords),
            r matches Ok(i) ==> i == self.lin(coords),
    {
        if coords.x < 0 {
            return Err(GameError::CoordinateUnderflow { axis: 'x' });
        }
        if coords.y < 0 {
            return Err(GameError::CoordinateUnderflow { axis: 'y' });
        }
        if coords.x >= self.size_x {
            return Err(GameError::CoordinateOverflow { axis: 'x', max: self.size_x });
        }
        if coords.y >= self.size_y {
            return Err(GameError::CoordinateOverflow { axis: 'y', max: self.size_y });
        }
        Ok(self.unchecked(coords))
    }

    /// Convert coordinates into an array index without bounds checking.
    pub fn unchecked(&self, coords: Vec2) -> (r: usize)
        requires
            self.in_bounds(coords),
            self.size_x * self.size_y <= usize::MAX,
        ensures
            r == self.lin(coords),
    {
        proof {
            lemma_lin_bounds(*self, coords);
            assert((coords.y as int) * (self.size_x as int) + (coords.x as int)
                < 0x4000000000000000) by (nonlinear_arith)
                requires
                    0 <= coords.x < 0x80000000,
                    0 <= coords.y < 0x80000000,
                    0 <= self.size_x < 0x80000000,
            ;
        }
        let i: u64 = (coords.y as u64) * (self.size_x as u64) + (coords.x as u64);
        i as usize
    }

    /// All the coordinates of the board, in row major order.
    #[verifier::loop_isolation(false)]
    pub fn iter_all(&self) -> (r: Vec<Vec2>)
        requires
            self.size_x * self.size_y <= usize::MAX,
        ensures
            r@.len() == if self.size_x > 0 && self.size_y > 0 {
                self.area()
            } else {
                0
            },
            forall|k: int|
                0 <= k < r@.len() ==> #[trigger] r@[k] == (Vec2 {
                    x: (k % (self.size_x as int)) as i32,
                    y: (k / (self.size_x as int)) as i32,
                }),
            forall|k: int|
                0 <= k < r@.len() ==> self.in_bounds(#[trigger] r@[k]) && self.lin(r@[k]) == k,
    {
        let mut r: Vec<Vec2> = Vec::new();
        if self.size_x <= 0 || self.size_y <= 0 {
            return r;
        }
        let w = self.size_x as usize;
        proof {
            assert((self.size_x as int) * (self.size_y as int) < 0x4000000000000000)
                by (nonlinear_arith)
                requires
                    0 < self.size_x < 0x80000000,
                    0 < self.size_y < 0x80000000,
            ;
        }
        let n64: u64 = (self.size_x as u64) * (self.size_y as u64);
        let n: usize = n64 as usize;
        let mut k: usize = 0;
        while k < n
            invariant
                0 < self.size_x,
                0 < self.size_y,
                w == self.size_x,
                n == self.area() <= usize::MAX,
                0 <= k <= n,
                r@.len() == k,
                forall|t: int|
                    0 <= t < k ==> #[trigger] r@[t] == (Vec2 {
                        x: (t % (self.size_x as int)) as i32,
                        y: (t / (self.size_x as int)) as i32,
                    }),
                forall|t: int|
                    0 <= t < k ==> self.in_bounds(#[trigger] r@[t]) && self.lin(r@[t]) == t,
            decreases n - k,
        {
            let x = k % w;
            let y = k / w;
            proof {
                let ki = k as int;
                let wi = w as int;
                lemma_fundamental_div_mod(ki, wi);
                lemma_mod_division_less_than_divisor(ki, wi);
                lemma_div_pos_is_pos(ki, wi);
                assert((ki / wi) * wi == wi * (ki / wi)) by (nonlinear_arith);
                if ki / wi >= self.size_y {
                    lemma_mul_inequality(self.size_y as int, ki / wi, wi);
                    assert((self.size_y as int) * wi == wi * (self.size_y as int))
                        by (nonlinear_arith);
                    assert(false);
                }
                assert((ki / wi) * (self.size_x as int) + ki % wi == ki);
            }
            r.push(Vec2 { x: x as i32, y: y as i32 });
            k = k + 1;
        }
        r
    }
}

/// A valid coordinate's linear index lies within the board's area.
pub proof fn lemma_lin_bounds(idx: Idx2d, c: Vec2)
    requires
        idx.in_bounds(c),
    ensures
        0 <= idx.lin(c) < idx.area(),
    {
    assert(0 <= c.y * idx.size_x + c.x < idx.size_x * idx.size_y) by (nonlinear_arith)
        requires
            0 <= c.x < idx.size_x,
            0 <= c.y < idx.size_y,
    ;
}

/// Round trip of the indexer: taking the linear index of a valid
/// coordinate and un-indexing it by remainder and quotient gives the same
/// coordinate back.
pub proof fn lemma_index_roundtrip(idx: Idx2d, c: Vec2)
    requires
        idx.in_bounds(c),
    ensures
        idx.lin(c) % (idx.size_x as int) == c.x,
        idx.lin(c) / (idx.size_x as int) == c.y,
{
    lemma_fundamental_div_mod_converse(idx.lin(c), idx.size_x as int, c.y as int, c.x as int);
}

/// Positions `j1` and `j2` are the two cells showing symbol `sym`, and no
/// other cell shows it.
pub open spec fn pair_positions(cards: Seq<Card>, sym: u32, j1: int, j2: int) -> bool {
    &&& 0 <= j1 < cards.len()
    &&& 0 <= j2 < cards.len()
    &&& j1 != j2
    &&& cards[j1].0 == sym
    &&& cards[j2].0 == sym
    &&& forall|j: int| 0 <= j < cards.len() && (#[trigger] cards[j]).0 == sym ==> j == j1 || j == j2
}

/// Symbol `sym` appears on exactly two cells.
pub open spec fn appears_exactly_twice(cards: Seq<Card>, sym: u32) -> bool {
    exists|j1: int, j2: int| pair_positions(cards, sym, j1, j2)
}

/// The dealt cards use all and only the first `len / 2` alphabet symbols,
/// each on exactly two cells.
pub open spec fn cards_paired(cards: Seq<Card>) -> bool {
    &&& forall|j: int| 0 <= j < cards.len() ==> (#[trigger] cards[j]).0 < cards.len() / 2
    &&& forall|sym: u32| sym < cards.len() / 2 ==> #[trigger] appears_exactly_twice(cards, sym)
}

/// A board of playing cards.
pub struct Board {
    /// 2D-to-1D index converter matching the board's sizes.
    pub idx: Idx2d,
    /// The dealt cards, one per cell, addressed through `idx`.
    pub cards: Vec<Card>,
}

impl Board {
    /// A board is well formed when its card vector covers exactly its even
    /// area and the cards come properly paired; the empty board qualifies.
    pub open spec fn wf(self) -> bool {
        &&& self.idx.size_x >= 0
        &&& self.idx.size_y >= 0
        &&& self.cards@.len() == self.idx.area()
        &&& self.idx.area() % 2 == 0
        &&& cards_paired(self.cards@)
    }

    /// Create an empty board with 0 size.
    pub fn default() -> (r: Board)
        ensures
            r.wf(),
            r.idx == (Idx2d { size_x: 0, size_y: 0 }),
            r.cards@.len() == 0,
    {
        Board { idx: Idx2d::new(0, 0), cards: Vec::new() }
    }

    /// The card at a valid coordinate.
    pub fn card_at(&self, c: Vec2) -> (r: Card)
        requires
            self.wf(),
            self.idx.in_bounds(c),
        ensures
            r == self.cards@[self.idx.lin(c)],
    {
        let len = self.cards.len();
        let i = self.idx.unchecked(c);
        proof {
            lemma_lin_bounds(self.idx, c);
        }
        self.cards[i]
    }

    /// Create a new board with the given sizes and fill it randomly with
    /// cards: the cell positions are shuffled, the shuffled list is split
    /// in two halves, and the i-th cell of each half receives symbol i.
    #[verifier::loop_isolation(false)]
    pub fn new(size_x: i32, size_y: i32) -> (r: Result<Board, GameError>)
        requires
            size_x > 0,
            size_y > 0,
            size_x * size_y <= MAX_CELLS,
            (size_x * size_y) % 2 == 0,
        ensures
            r matches Ok(b) && b.wf() && b.idx == (Idx2d { size_x, size_y }),
    {
        let n64: i64 = (size_x as i64) * (size_y as i64);
        let n: usize = n64 as usize;
        let h: usize = n / 2;
        let mut cards: Vec<Card> = Vec::new();
        while cards.len() < n
            invariant
                cards@.len() <= n,
            decreases n - cards@.len(),
        {
            cards.push(Card(0));
        }
        let mut perm: Vec<usize> = Vec::new();
        let mut k: usize = 0;
        while k < n
            invariant
                0 <= k <= n,
                perm@ == range_seq(k as nat),
            decreases n - k,
        {
            perm.push(k);
            proof {
                assert(range_seq(k as nat).push(k) =~= range_seq((k + 1) as nat));
            }
            k = k + 1;
        }
        shuffle_indices(&mut perm);
        proof {
            lemma_perm_from_multiset(perm@, n as nat);
        }
        let mut i: usize = 0;
        while i < h
            invariant
                n == size_x * size_y,
                n <= 110,
                h == n / 2,
                0 <= i <= h,
                perm@.len() == n,
                cards@.len() == n,
                forall|a: int| 0 <= a < n ==> (#[trigger] perm@[a]) < n,
                forall|a: int, b: int|
                    0 <= a < n && 0 <= b < n && a != b ==> perm@[a] != perm@[b],
                forall|v: usize| (v as int) < n ==> perm@.contains(v),
                forall|t: int| 0 <= t < i ==> (#[trigger] cards@[perm@[t] as int]).0 == t,
                forall|t: int| 0 <= t < i ==> (#[trigger] cards@[perm@[t + h] as int]).0 == t,
            decreases h - i,
        {
            let ghost before = cards@;
            let j1 = perm[i];
            let j2 = perm[i + h];
            let c = Card(i as u32);
            cards[j1] = c;
            cards[j2] = c;
            proof {
                assert(cards@ =~= before.update(j1 as int, c).update(j2 as int, c));
                assert(j1 != j2);
                assert forall|t: int| 0 <= t < i + 1 implies (#[trigger] cards@[perm@[t] as int]).0
                    == t by {
                    if t < i {
                        assert(perm@[t] != perm@[i as int]);
                        assert(perm@[t] != perm@[i + h]);
                        assert(cards@[perm@[t] as int] == before[perm@[t] as int]);
                    }
                }
                assert forall|t: int| 0 <= t < i + 1 implies (#[trigger] cards@[perm@[t + h] as int]).0
                    == t by {
                    if t < i {
                        assert(perm@[t + h] != perm@[i as int]);
                        assert(perm@[t + h] != perm@[i + h]);
                        assert(cards@[perm@[t + h] as int] == before[perm@[t + h] as int]);
                    }
                }
            }
            i = i + 1;
        }
        proof {
            assert forall|j: int| 0 <= j < n implies (#[trigger] cards@[j]).0 < n / 2 by {
                assert(perm@.contains(j as usize));
                let t = choose|t: int| 0 <= t < perm@.len() && perm@[t] == j as usize;
                if t < h {
                    assert(cards@[perm@[t] as int].0 == t);
                } else {
                    assert(cards@[perm@[(t - h) + h] as int].0 == t - h);
                }
            }
            assert forall|sym: u32| sym < n / 2 implies #[trigger] appears_exactly_twice(
                cards@,
                sym,
            ) by {
                let j1 = perm@[sym as int] as int;
                let j2 = perm@[sym + h] as int;
                assert(cards@[j1].0 == sym);
                assert(cards@[j2].0 == sym);
                assert forall|j: int|
                    0 <= j < cards@.len() && (#[trigger] cards@[j]).0 == sym implies j == j1 || j
                    == j2 by {
                    assert(perm@.contains(j as usize));
                    let t = choose|t: int| 0 <= t < perm@.len() && perm@[t] == j as usize;
                    if t < h {
                        assert(cards@[perm@[t] as int].0 == t);
                        assert(t == sym);
                    } else {
                        assert(cards@[perm@[(t - h) + h] as int].0 == t - h);
                        assert(t - h == sym);
                    }
                }
                assert(pair_positions(cards@, sym, j1, j2));
            }
        }
        let board = Board { idx: Idx2d::new(size_x, size_y), cards };
        Ok(board)
    }
}

/// Every well-formed board deals each of the first `area / 2` alphabet
/// symbols onto exactly two cells and no other symbol onto any; a board of
/// area zero is valid and holds no cards at all.
pub proof fn lemma_board_pairing(b: Board)
    requires
        b.wf(),
    ensures
        forall|sym: u32|
            sym < b.cards@.len() / 2 ==> #[trigger] appears_exactly_twice(b.cards@, sym),
        forall|j: int| 0 <= j < b.cards@.len() ==> (#[trigger] b.cards@[j]).0 < b.cards@.len() / 2,
        b.idx.area() == 0 ==> b.cards@.len() == 0,
{
}

/// The sequence `0, 1, ..., n - 1`.
pub open spec fn range_seq(n: nat) -> Seq<usize> {
    Seq::new(n, |i: int| i as usize)
}

/// Relies on rand's `SliceRandom::shuffle`, driven by `rand::thread_rng`:
/// it reorders the slice in place by swapping elements, so the result holds
/// the same elements as a multiset; their order is random.
#[verifier::external_body]
fn shuffle_indices(v: &mut Vec<usize>)
    ensures
        final(v)@.to_multiset() == old(v)@.to_multiset(),
{
    let mut rng = rand::thread_rng();
    rand::seq::SliceRandom::shuffle(v.as_mut_slice(), &mut rng);
}

/// Each value below `n` occurs exactly once in `0, 1, ..., n - 1`.
proof fn lemma_range_seq_count(n: nat, v: usize)
    requires
        n <= usize::MAX,
    ensures
        range_seq(n).to_multiset().count(v) == if (v as int) < n {
            1nat
        } else {
            0nat
        },
    decreases n,
{
    broadcast use vstd::seq_lib::group_to_multiset_ensures;
    broadcast use vstd::multiset::group_multiset_axioms;

    if n == 0 {
        assert(range_seq(0) =~= Seq::<usize>::empty());
        assert(range_seq(0).to_multiset().len() == 0);
    } else {
        lemma_range_seq_count((n - 1) as nat, v);
        assert(range_seq((n - 1) as nat).push((n - 1) as usize) =~= range_seq(n));
    }
}

/// A sequence with a repeated element counts it at least twice.
proof fn lemma_dup_count(s: Seq<usize>, i: int, j: int)
    requires
        0 <= i < j < s.len(),
        s[i] == s[j],
    ensures
        s.to_multiset().count(s[i]) >= 2,
{
    broadcast use vstd::seq_lib::group_to_multiset_ensures;
    broadcast use vstd::multiset::group_multiset_axioms;

    let s0 = s.subrange(0, j);
    let s1 = s.subrange(j, s.len() as int);
    assert(s =~= s0 + s1);
    lemma_multiset_commutative(s0, s1);
    assert(s0[i] == s[i]);
    assert(s0.contains(s[i]));
    assert(s1[0] == s[j]);
    assert(s1.contains(s[i]));
}

/// A sequence holding the same multiset as `0, 1, ..., n - 1` is a
/// permutation of it: it has length `n`, stays below `n`, repeats nothing,
/// and reaches every value below `n`.
pub proof fn lemma_perm_from_multiset(p: Seq<usize>, n: nat)
    requires
        n <= usize::MAX,
        p.to_multiset() == range_seq(n).to_multiset(),
    ensures
        p.len() == n,
        forall|a: int| 0 <= a < p.len() ==> (#[trigger] p[a]) < n,
        forall|a: int, b: int| 0 <= a < p.len() && 0 <= b < p.len() && a != b ==> p[a] != p[b],
        forall|v: usize| (v as int) < n ==> p.contains(v),
{
    broadcast use vstd::seq_lib::group_to_multiset_ensures;
    broadcast use vstd::multiset::group_multiset_axioms;

    assert(range_seq(n).len() == n);
    assert(p.to_multiset().len() == p.len());
    assert(range_seq(n).to_multiset().len() == range_seq(n).len());
    assert(p.len() == n);
    assert forall|a: int| 0 <= a < p.len() implies (#[trigger] p[a]) < n by {
        assert(p.contains(p[a]));
        lemma_range_seq_count(n, p[a]);
    }
    assert forall|a: int, b: int|
        0 <= a < p.len() && 0 <= b < p.len() && a != b implies p[a] != p[b] by {
        if p[a] == p[b] {
            if a < b {
                lemma_dup_count(p, a, b);
            } else {
                lemma_dup_count(p, b, a);
            }
            lemma_range_seq_count(n, p[a]);
        }
    }
    assert forall|v: usize| (v as int) < n implies p.contains(v) by {
        lemma_range_seq_count(n, v);
        assert(p.to_multiset().count(v) == 1nat);
        assert(p.to_multiset().count(v) > 0);
        assert(p.contains(v));
    }
}

} // verus!
