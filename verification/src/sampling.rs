//! Random numbers: uniform draws and rejection sampling of the unit ball and disk.
//!
//! All randomness comes from one generator, made from a seed and handed to whoever
//! draws. The generator yields 32-bit words; the top 24 bits of a word, over `2^24`,
//! are a number uniformly distributed over the 2^24 evenly spaced values of `[0, 1)`
//! that single precision holds exactly.
//!
//! A point of the unit ball is found by rejection: a point is drawn uniformly from the
//! enclosing cube and kept if it lies strictly inside the ball; otherwise another is
//! drawn. About half of the draws are kept, so the loop is short, but nothing bounds it
//! against a generator gone wrong. The number of draws is therefore capped, and a
//! sampler that reaches the cap returns the centre. The disk is sampled the same way in
//! the plane `z = 0`.

use vstd::prelude::*;
use vstd::arithmetic::power2::pow2;
use vstd::arithmetic::power2::lemma2_to64;
use crate::scalar::lemma_fraction_scales;
use crate::scalar::lemma_fractions_in_order;
use crate::scalar::lemma_one_and_zero;
use crate::scalar::Scalar;
use crate::scalar::ONE_BITS;
use crate::vector::Vector3;

verus! {

/// The generator: the standard generator of the `rand` crate.
#[verifier::external_type_specification]
#[verifier::external_body]
pub struct ExStdRng(rand::rngs::StdRng);

/// The word that the generator yields at its `n`-th draw from now, counted from 0.
pub uninterp spec fn upcoming(rng: rand::rngs::StdRng, n: nat) -> u32;

/// The word that a generator made from `seed` yields at its `n`-th draw, counted from 0.
pub uninterp spec fn seeded_word(seed: u64, n: nat) -> u32;

/// Calls `rand::SeedableRng::seed_from_u64` for `rand::rngs::StdRng`. The claim is that
/// the words a generator yields are a function of the seed it was made from.
#[verifier::external_body]
fn generator(seed: u64) -> (rng: rand::rngs::StdRng)
    ensures
        forall|n: nat| upcoming(rng, n) == seeded_word(seed, n),
{
    rand::SeedableRng::seed_from_u64(seed)
}

/// Calls `rand::RngCore::next_u32` on the generator. The claim is that the word handed
/// out is the one that was upcoming first and that the generator moves on by one word.
#[verifier::external_body]
fn next_word(rng: &mut rand::rngs::StdRng) -> (word: u32)
    ensures
        word == upcoming(*old(rng), 0),
        forall|n: nat| upcoming(*final(rng), n) == upcoming(*old(rng), n + 1),
{
    rand::RngCore::next_u32(rng)
}

/// The most points a sampler draws before it gives up.
pub const MAX_DRAWS: u32 = 1_000_000;

/// Two to the twenty-third: the side of the cube, in lattice steps, is twice this.
pub const HALF_SIDE: i64 = 0x0080_0000;

/// The top 24 bits of a word: the numerator, over `2^24`, of the uniform number that
/// the word stands for.
pub open spec fn top_bits(word: u32) -> int {
    word as int / 256
}

/// The numerator, over `2^23`, of the coordinate `2 u - 1` that a word stands for,
/// where `u` is its uniform number. It runs from `-2^23` up to, but not including,
/// `2^23`.
pub open spec fn coordinate(word: u32) -> int {
    top_bits(word) - HALF_SIDE
}

/// Whether the point with the given numerators over `2^23` lies strictly inside the
/// unit ball: the squares of its coordinates sum to less than one.
pub open spec fn inside_ball(x: int, y: int, z: int) -> bool {
    x * x + y * y + z * z < HALF_SIDE * HALF_SIDE
}

/// The centre of the ball: the zero vector.
pub open spec fn spec_centre() -> Vector3 {
    Vector3 { x: Scalar { bits: 0 }, y: Scalar { bits: 0 }, z: Scalar { bits: 0 } }
}

/// The centre of the ball: the zero vector.
#[verifier::when_used_as_spec(spec_centre)]
pub fn centre() -> (c: Vector3)
    ensures
        c == centre(),
{
    Vector3::new(Scalar::zero(), Scalar::zero(), Scalar::zero())
}

/// A source of random numbers.
pub struct Sampler {
    rng: rand::rngs::StdRng,
}

impl Sampler {
    /// The word that the sampler draws `n` draws from now, counted from 0.
    pub closed spec fn word(&self, n: nat) -> u32 {
        upcoming(self.rng, n)
    }

    /// Whether `self` is `earlier` after `count` draws.
    pub open spec fn follows(&self, earlier: &Sampler, count: nat) -> bool {
        forall|n: nat| self.word(n) == earlier.word(n + count)
    }

    /// Whether point number `j`, counted from 0, of the points of the cube that are
    /// made from three words each from draw `at` on lies strictly inside the unit ball.
    pub open spec fn ball_at(&self, at: nat, j: nat) -> bool {
        inside_ball(
            coordinate(self.word(at + 3 * j)),
            coordinate(self.word(at + 3 * j + 1)),
            coordinate(self.word(at + 3 * j + 2)),
        )
    }

    /// Whether point number `j`, counted from 0, of the points of the square that are
    /// made from two words each from draw `at` on lies strictly inside the unit disk.
    pub open spec fn disk_at(&self, at: nat, j: nat) -> bool {
        inside_ball(coordinate(self.word(at + 2 * j)), coordinate(self.word(at + 2 * j + 1)), 0)
    }

    /// Of the next `budget` points of the cube, made from three words each from draw
    /// `at` on, the number of the first that lies inside the ball, counted from 0; none
    /// if none does.
    pub open spec fn first_in_ball(&self, at: nat, budget: nat) -> Option<nat>
        decreases budget,
    {
        if budget == 0 {
            None
        } else if self.ball_at(at, 0) {
            Some(0)
        } else {
            match self.first_in_ball(at + 3, (budget - 1) as nat) {
                Some(k) => Some((k + 1) as nat),
                None => None,
            }
        }
    }

    /// Of the next `budget` points of the square, made from two words each from draw
    /// `at` on, the number of the first that lies inside the disk, counted from 0; none
    /// if none does.
    pub open spec fn first_in_disk(&self, at: nat, budget: nat) -> Option<nat>
        decreases budget,
    {
        if budget == 0 {
            None
        } else if self.disk_at(at, 0) {
            Some(0)
        } else {
            match self.first_in_disk(at + 2, (budget - 1) as nat) {
                Some(k) => Some((k + 1) as nat),
                None => None,
            }
        }
    }

    /// A sampler whose draws are determined by the seed.
    pub fn seeded(seed: u64) -> (sampler: Sampler)
        ensures
            forall|n: nat| sampler.word(n) == seeded_word(seed, n),
    {
        Sampler { rng: generator(seed) }
    }

    fn draw(&mut self) -> (word: u32)
        ensures
            word == old(self).word(0),
            final(self).follows(old(self), 1),
    {
        next_word(&mut self.rng)
    }

    /// A number drawn uniformly from `[0, 1)`: the top 24 bits of the next word, over
    /// `2^24`.
    pub fn uniform(&mut self) -> (u: Scalar)
        ensures
            u.encodes(top_bits(old(self).word(0)), 24),
            (Scalar { bits: 0 }).le(u),
            u.lt(Scalar { bits: ONE_BITS }),
            final(self).follows(old(self), 1),
    {
        let word = self.draw();
        let u = Scalar::fraction((word / 256) as i32, 24);
        proof {
            lemma_one_and_zero();
            lemma2_to64();
            lemma_fraction_scales(Scalar { bits: ONE_BITS }, 1, 0, 24);
            lemma_fraction_scales(Scalar { bits: 0 }, 0, 0, 24);
            lemma_fractions_in_order(
                u,
                top_bits(word),
                Scalar { bits: ONE_BITS },
                pow2(24) as int,
                24,
            );
            lemma_fractions_in_order(Scalar { bits: 0 }, 0, u, top_bits(word), 24);
        }
        u
    }

    fn next_coordinate(&mut self) -> (q: i64)
        ensures
            q == coordinate(old(self).word(0)),
            -HALF_SIDE <= q < HALF_SIDE,
            final(self).follows(old(self), 1),
    {
        let word = self.draw();
        (word / 256) as i64 - HALF_SIDE
    }
}

/// The number `numerator / 2^23`.
fn coordinate_value(numerator: i64) -> (x: Scalar)
    requires
        -HALF_SIDE <= numerator < HALF_SIDE,
    ensures
        x.encodes(numerator as int, 23),
{
    Scalar::fraction(numerator as i32, 23)
}

/// Whether the point with the given numerators over `2^23` lies strictly inside the
/// unit ball.
fn is_inside(x: i64, y: i64, z: i64) -> (b: bool)
    requires
        -HALF_SIDE <= x < HALF_SIDE,
        -HALF_SIDE <= y < HALF_SIDE,
        -HALF_SIDE <= z < HALF_SIDE,
    ensures
        b == inside_ball(x as int, y as int, z as int),
{
    proof {
        lemma_square_is_bounded(x as int);
        lemma_square_is_bounded(y as int);
        lemma_square_is_bounded(z as int);
    }
    x * x + y * y + z * z < HALF_SIDE * HALF_SIDE
}

/// The square of a coordinate is at most the square of half the side.
proof fn lemma_square_is_bounded(x: int)
    requires
        -HALF_SIDE <= x <= HALF_SIDE,
    ensures
        0 <= x * x <= HALF_SIDE * HALF_SIDE,
        HALF_SIDE * HALF_SIDE == 0x4000_0000_0000,
{
    assert(0 <= x * x <= 0x0080_0000 * 0x0080_0000) by (nonlinear_arith)
        requires
            -0x0080_0000 <= x <= 0x0080_0000,
    ;
}

/// Whether `p` is the point of the unit ball that `before` draws, and `after` the
/// sampler after the draw: `p` is the first of the next `MAX_DRAWS` points of the cube
/// that lies inside the ball, its coordinates the numerators of that point over `2^23`,
/// and the sampler has moved past the words of that point; or none of those points lies
/// inside, `p` is the centre, and the sampler has moved past them all.
pub open spec fn draws_from_ball(before: Sampler, after: Sampler, p: Vector3) -> bool {
    match before.first_in_ball(0, MAX_DRAWS as nat) {
        Some(k) => {
            &&& p.x.encodes(coordinate(before.word(3 * k)), 23)
            &&& p.y.encodes(coordinate(before.word(3 * k + 1)), 23)
            &&& p.z.encodes(coordinate(before.word(3 * k + 2)), 23)
            &&& after.follows(&before, 3 * (k + 1))
        },
        None => p == centre() && after.follows(&before, 3 * (MAX_DRAWS as nat)),
    }
}

/// Whether `p` is the point of the unit disk that `before` draws, and `after` the
/// sampler after the draw: as `draws_from_ball`, with points of the square made from
/// two words each, and `z` zero.
pub open spec fn draws_from_disk(before: Sampler, after: Sampler, p: Vector3) -> bool {
    &&& p.z == (Scalar { bits: 0 })
    &&& match before.first_in_disk(0, MAX_DRAWS as nat) {
        Some(k) => {
            &&& p.x.encodes(coordinate(before.word(2 * k)), 23)
            &&& p.y.encodes(coordinate(before.word(2 * k + 1)), 23)
            &&& after.follows(&before, 2 * (k + 1))
        },
        None => p == centre() && after.follows(&before, 2 * (MAX_DRAWS as nat)),
    }
}

/// A point drawn uniformly from the lattice points strictly inside the unit ball: the
/// first among the next `MAX_DRAWS` points of the cube, each made from three words,
/// that lies inside; or the centre, if none does. The coordinates are whole multiples
/// of `2^-23`.
pub fn random_in_unit_sphere(sampler: &mut Sampler) -> (p: Vector3)
    ensures
        draws_from_ball(*old(sampler), *final(sampler), p),
{
    let mut draws: u32 = 0;
    while draws < MAX_DRAWS
        invariant
            draws <= MAX_DRAWS,
            sampler.follows(old(sampler), 3 * (draws as nat)),
            old(sampler).first_in_ball(0, MAX_DRAWS as nat) == match old(sampler).first_in_ball(
                3 * (draws as nat),
                (MAX_DRAWS - draws) as nat,
            ) {
                Some(k) => Some((k + draws) as nat),
                None => None,
            },
        decreases MAX_DRAWS - draws,
    {
        let ghost before = *sampler;
        let x = sampler.next_coordinate();
        let y = sampler.next_coordinate();
        let z = sampler.next_coordinate();
        proof {
            let at = 3 * (draws as nat);
            assert(before.word(0) == old(sampler).word(at));
            assert(before.word(1) == old(sampler).word(at + 1));
            assert(before.word(2) == old(sampler).word(at + 2));
            assert(sampler.follows(old(sampler), 3 * ((draws + 1) as nat))) by {
                assert forall|n: nat| sampler.word(n) == old(sampler).word(
                    n + 3 * ((draws + 1) as nat),
                ) by {
                    assert(before.word(n + 3) == old(sampler).word(n + 3 + at));
                }
            }
        }
        if is_inside(x, y, z) {
            return Vector3::new(coordinate_value(x), coordinate_value(y), coordinate_value(z));
        }
        draws = draws + 1;
    }
    centre()
}

/// A point drawn uniformly from the lattice points strictly inside the unit disk of the
/// plane `z = 0`: the first among the next `MAX_DRAWS` points of the square, each made
/// from two words, that lies inside; or the centre, if none does.
pub fn random_in_unit_disk(sampler: &mut Sampler) -> (p: Vector3)
    ensures
        draws_from_disk(*old(sampler), *final(sampler), p),
{
    let mut draws: u32 = 0;
    while draws < MAX_DRAWS
        invariant
            draws <= MAX_DRAWS,
            sampler.follows(old(sampler), 2 * (draws as nat)),
            old(sampler).first_in_disk(0, MAX_DRAWS as nat) == match old(sampler).first_in_disk(
                2 * (draws as nat),
                (MAX_DRAWS - draws) as nat,
            ) {
                Some(k) => Some((k + draws) as nat),
                None => None,
            },
        decreases MAX_DRAWS - draws,
    {
        let ghost before = *sampler;
        let x = sampler.next_coordinate();
        let y = sampler.next_coordinate();
        proof {
            let at = 2 * (draws as nat);
            assert(before.word(0) == old(sampler).word(at));
            assert(before.word(1) == old(sampler).word(at + 1));
            assert(sampler.follows(old(sampler), 2 * ((draws + 1) as nat))) by {
                assert forall|n: nat| sampler.word(n) == old(sampler).word(
                    n + 2 * ((draws + 1) as nat),
                ) by {
                    assert(before.word(n + 2) == old(sampler).word(n + 2 + at));
                }
            }
        }
        if is_inside(x, y, 0) {
            return Vector3::new(coordinate_value(x), coordinate_value(y), Scalar::zero());
        }
        draws = draws + 1;
    }
    centre()
}

/// What `first_in_ball` finds lies inside the ball, and nothing before it does; and
/// where it finds nothing, nothing does.
pub proof fn lemma_first_in_ball(sampler: Sampler, at: nat, budget: nat)
    ensures
        match sampler.first_in_ball(at, budget) {
            Some(k) => {
                &&& k < budget
                &&& sampler.ball_at(at, k)
                &&& forall|j: nat| j < k ==> !#[trigger] sampler.ball_at(at, j)
            },
            None => forall|j: nat| j < budget ==> !#[trigger] sampler.ball_at(at, j),
        },
    decreases budget,
{
    if budget > 0 && !sampler.ball_at(at, 0) {
        lemma_first_in_ball(sampler, at + 3, (budget - 1) as nat);
        assert forall|j: nat| j > 0 implies sampler.ball_at(at + 3, (j - 1) as nat)
            == #[trigger] sampler.ball_at(at, j) by {
            assert(at + 3 + 3 * ((j - 1) as nat) == at + 3 * j);
        }
        match sampler.first_in_ball(at + 3, (budget - 1) as nat) {
            Some(k) => {
                assert(sampler.ball_at(at + 3, k) == sampler.ball_at(at, k + 1));
                assert forall|j: nat| j < k + 1 implies !#[trigger] sampler.ball_at(at, j) by {
                    if j > 0 {
                        assert(!sampler.ball_at(at + 3, (j - 1) as nat));
                    }
                }
            },
            None => {
                assert forall|j: nat| j < budget implies !#[trigger] sampler.ball_at(at, j) by {
                    if j > 0 {
                        assert(!sampler.ball_at(at + 3, (j - 1) as nat));
                    }
                }
            },
        }
    }
}

/// What `first_in_disk` finds lies inside the disk, and nothing before it does; and
/// where it finds nothing, nothing does.
pub proof fn lemma_first_in_disk(sampler: Sampler, at: nat, budget: nat)
    ensures
        match sampler.first_in_disk(at, budget) {
            Some(k) => {
                &&& k < budget
                &&& sampler.disk_at(at, k)
                &&& forall|j: nat| j < k ==> !#[trigger] sampler.disk_at(at, j)
            },
            None => forall|j: nat| j < budget ==> !#[trigger] sampler.disk_at(at, j),
        },
    decreases budget,
{
    if budget > 0 && !sampler.disk_at(at, 0) {
        lemma_first_in_disk(sampler, at + 2, (budget - 1) as nat);
        assert forall|j: nat| j > 0 implies sampler.disk_at(at + 2, (j - 1) as nat)
            == #[trigger] sampler.disk_at(at, j) by {
            assert(at + 2 + 2 * ((j - 1) as nat) == at + 2 * j);
        }
        match sampler.first_in_disk(at + 2, (budget - 1) as nat) {
            Some(k) => {
                assert(sampler.disk_at(at + 2, k) == sampler.disk_at(at, k + 1));
                assert forall|j: nat| j < k + 1 implies !#[trigger] sampler.disk_at(at, j) by {
                    if j > 0 {
                        assert(!sampler.disk_at(at + 2, (j - 1) as nat));
                    }
                }
            },
            None => {
                assert forall|j: nat| j < budget implies !#[trigger] sampler.disk_at(at, j) by {
                    if j > 0 {
                        assert(!sampler.disk_at(at + 2, (j - 1) as nat));
                    }
                }
            },
        }
    }
}

/// Samplers that draw the same words find the same points: in particular two samplers
/// made from the same seed.
pub proof fn lemma_same_draws_same_points(a: Sampler, b: Sampler, at: nat, budget: nat)
    requires
        a.follows(&b, 0),
    ensures
        a.first_in_ball(at, budget) == b.first_in_ball(at, budget),
        a.first_in_disk(at, budget) == b.first_in_disk(at, budget),
    decreases budget,
{
    assert forall|n: nat| a.word(n) == b.word(n) by {
        assert(a.word(n) == b.word(n + 0));
    }
    if budget > 0 {
        lemma_same_draws_same_points(a, b, at + 3, (budget - 1) as nat);
        lemma_same_draws_same_points(a, b, at + 2, (budget - 1) as nat);
    }
}

} // verus!
