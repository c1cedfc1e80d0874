//! The bag randomizer: the seven kinds are dealt in shuffled rounds of
//! seven, so every aligned block of seven consecutive pieces holds each
//! kind exactly once.
use crate::piece::{all_kinds, Tetromino};
use rand::rngs::StdRng;
use rand::seq::SliceRandom;
use vstd::prelude::*;
use vstd::seq_lib::lemma_multiset_commutative;

verus! {

/// rand's `StdRng`, the generator that shuffles each round; the bag only
/// carries it and hands it to `shuffle`.
#[verifier::external_type_specification]
#[verifier::external_body]
pub struct ExStdRng(StdRng);

/// Relies on rand's `SliceRandom::shuffle` for slices: it only swaps
/// elements in place, so the result is a permutation of the input.
#[verifier::external_body]
fn shuffle_kinds(kinds: &mut [Tetromino; 7], rng: &mut StdRng)
    ensures
        final(kinds)@.to_multiset() == old(kinds)@.to_multiset(),
{
    kinds.shuffle(rng);
}

/// `s` holds each of the seven kinds exactly once.
pub open spec fn is_bag(s: Seq<Tetromino>) -> bool {
    s.to_multiset() == all_kinds().to_multiset()
}

/// The `b`-th aligned block of seven of `s`.
pub open spec fn block(s: Seq<Tetromino>, b: int) -> Seq<Tetromino> {
    s.subrange(7 * b, 7 * b + 7)
}

/// Every complete aligned block of seven of `s` is a bag.
pub open spec fn blocks_are_bags(s: Seq<Tetromino>) -> bool {
    forall|b: int| 0 <= b < s.len() / 7 ==> is_bag(#[trigger] block(s, b))
}

/// Source of piece kinds: a pending round, dealt from its end, and the
/// random generator that shuffles the next round.
pub struct TetrominoIterator {
    pieces: Vec<Tetromino>,
    rng: StdRng,
    dealt: Ghost<Seq<Tetromino>>,
}

impl TetrominoIterator {
    /// Every kind dealt so far, in order.
    pub closed spec fn history(&self) -> Seq<Tetromino> {
        self.dealt@
    }

    pub closed spec fn wf(&self) -> bool {
        let n = self.dealt@.len();
        &&& self.pieces@.len() <= 7
        &&& (n + self.pieces@.len()) % 7 == 0
        &&& blocks_are_bags(self.dealt@)
        &&& self.pieces@.len() > 0 ==> is_bag(
            self.dealt@.subrange(n - n % 7, n as int) + self.pieces@.reverse(),
        )
    }

    /// A source that has dealt nothing yet, with a first round shuffled.
    pub fn new(rng: StdRng) -> (r: TetrominoIterator)
        ensures
            r.wf(),
            r.history() == Seq::<Tetromino>::empty(),
    {
        let mut rng = rng;
        let pieces = Self::get_new_seven(&mut rng);
        let r = TetrominoIterator { pieces, rng, dealt: Ghost(Seq::empty()) };
        proof {
            pieces@.lemma_reverse_to_multiset();
            assert(r.dealt@.subrange(0, 0) + pieces@.reverse() =~= pieces@.reverse());
        }
        r
    }

    /// A freshly shuffled round of all seven kinds.
    fn get_new_seven(rng: &mut StdRng) -> (r: Vec<Tetromino>)
        ensures
            r@.len() == 7,
            is_bag(r@),
    {
        let mut kinds = Tetromino::all_tetromino_array();
        shuffle_kinds(&mut kinds, rng);
        let mut r: Vec<Tetromino> = Vec::new();
        let mut i: usize = 0;
        while i < 7
            invariant
                0 <= i <= 7,
                r@ == kinds@.subrange(0, i as int),
            decreases 7 - i,
        {
            r.push(kinds[i]);
            i = i + 1;
            assert(r@ =~= kinds@.subrange(0, i as int));
        }
        assert(r@ =~= kinds@);
        proof {
            broadcast use vstd::seq_lib::group_to_multiset_ensures;
            assert(kinds@.len() == 7);
        }
        r
    }

    /// Deals the next kind, shuffling a new round when the pending one is
    /// used up.
    pub fn next(&mut self) -> (r: Tetromino)
        requires
            old(self).wf(),
        ensures
            final(self).wf(),
            final(self).history() == old(self).history().push(r),
    {
        if self.pieces.len() == 0 {
            self.pieces = Self::get_new_seven(&mut self.rng);
            proof {
                let n = self.dealt@.len();
                assert(n % 7 == 0);
                assert(self.dealt@.subrange(n - n % 7, n as int) + self.pieces@.reverse()
                    =~= self.pieces@.reverse());
                self.pieces@.lemma_reverse_to_multiset();
            }
        }
        let ghost d0 = self.dealt@;
        let ghost p0 = self.pieces@;
        let r = self.pieces.pop().unwrap();
        self.dealt = Ghost(self.dealt@.push(r));
        proof {
            let n = d0.len() as int;
            let m = n - n % 7;
            let d1 = self.dealt@;
            assert(d0.subrange(m, n) + p0.reverse() =~= d1.subrange(m, n + 1)
                + self.pieces@.reverse());
            assert forall|b: int| 0 <= b < d1.len() / 7 implies is_bag(#[trigger] block(d1, b)) by {
                if b < n / 7 {
                    assert(block(d1, b) =~= block(d0, b));
                } else {
                    assert(block(d1, b) =~= d1.subrange(m, n + 1));
                    assert(self.pieces@.len() == 0);
                    assert(d1.subrange(m, n + 1) + self.pieces@.reverse() =~= d1.subrange(m, n + 1));
                }
            }
            let n1 = d1.len();
            if self.pieces@.len() > 0 {
                assert(n1 - n1 % 7 == m);
            }
        }
        r
    }
}

/// Each kind occurs exactly once in the reference round.
proof fn lemma_all_kinds_once(k: Tetromino)
    ensures
        all_kinds().to_multiset().count(k) == 1,
{
    broadcast use vstd::seq_lib::group_to_multiset_ensures;

    let s = all_kinds();
    assert(s.no_duplicates());
    s.lemma_multiset_has_no_duplicates();
    assert(s.contains(k)) by {
        match k {
            Tetromino::Line => assert(s[0] == k),
            Tetromino::O => assert(s[1] == k),
            Tetromino::L => assert(s[2] == k),
            Tetromino::J => assert(s[3] == k),
            Tetromino::Z => assert(s[4] == k),
            Tetromino::S => assert(s[5] == k),
            Tetromino::T => assert(s[6] == k),
        }
    }
}

/// Bag fairness: in the kinds a source has dealt, every aligned block of
/// seven holds each kind exactly once, and the first `7 * m` kinds hold
/// each kind exactly `m` times.
pub proof fn lemma_bag_fairness(it: &TetrominoIterator, k: Tetromino, m: int)
    requires
        it.wf(),
        0 <= m <= it.history().len() / 7,
    ensures
        forall|b: int|
            0 <= b < it.history().len() / 7 ==> (#[trigger] block(it.history(), b)).to_multiset().count(k)
                == 1,
        it.history().subrange(0, 7 * m).to_multiset().count(k) == m,
{
    let h = it.history();
    assert forall|b: int| 0 <= b < h.len() / 7 implies (#[trigger] block(h, b)).to_multiset().count(
        k,
    ) == 1 by {
        lemma_all_kinds_once(k);
    }
    lemma_prefix_counts(h, k, m);
}

proof fn lemma_prefix_counts(h: Seq<Tetromino>, k: Tetromino, m: int)
    requires
        blocks_are_bags(h),
        0 <= m <= h.len() / 7,
    ensures
        h.subrange(0, 7 * m).to_multiset().count(k) == m,
    decreases m,
{
    broadcast use vstd::multiset::group_multiset_axioms;
    broadcast use vstd::seq_lib::group_to_multiset_ensures;

    if m == 0 {
        assert(h.subrange(0, 0) =~= Seq::<Tetromino>::empty());
        assert(h.subrange(0, 0).to_multiset().len() == 0);
    } else {
        lemma_prefix_counts(h, k, m - 1);
        let a = h.subrange(0, 7 * (m - 1));
        let b = block(h, m - 1);
        assert(h.subrange(0, 7 * m) =~= a + b);
        lemma_multiset_commutative(a, b);
        lemma_all_kinds_once(k);
        assert(is_bag(b));
        assert(b.to_multiset().count(k) == 1);
        assert((a + b).to_multiset() == a.to_multiset().add(b.to_multiset()));
        assert(a.to_multiset().add(b.to_multiset()).count(k) == a.to_multiset().count(k) + 1);
    }
}

} // verus!
