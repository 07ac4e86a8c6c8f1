//! Random fill of leaves: where the random words come from, and what a leaf
//! is made of once they are drawn.

use vstd::prelude::*;
use vstd::arithmetic::div_mod::{lemma_fundamental_div_mod, lemma_fundamental_div_mod_converse};
use vstd::arithmetic::power2::{
    lemma2_to64, lemma_pow2_adds, lemma_pow2_pos, lemma_pow2_unfold, pow2,
};
use crate::shared::{Material, Voxel, ONE_BITS};
use crate::svo::Node;
use crate::tree::Tree;

verus! {

/// Number of distinct values that a unit sample can take: `2^24`.
pub const UNIT_STEPS: u32 = 0x100_0000;

/// Weight of the exponent field in a single-precision bit pattern: `2^23`.
pub const FRACTION_STEPS: u32 = 0x80_0000;

/// Draws one uniformly distributed 32-bit word from the thread-local
/// generator of the `rand` crate, by `rand::random::<u32>()`.
///
/// Nothing is claimed of the word. The call panics only where the operating
/// system fails the generator: when it gives no entropy to seed the
/// generator on first use or to reseed it later, or when it refuses to
/// register the handler that reseeds after a fork.
#[verifier::external_body]
fn random_word() -> (word: u32) {
    rand::random::<u32>()
}

/// The numerator over `2^24` of the unit sample that a random word stands
/// for: its upper 24 bits.
pub open spec fn unit_numerator(sample: u32) -> nat {
    (sample / 256) as nat
}

/// For the bit pattern of a finite, non-negative single-precision number:
/// that number times `2^149`, which is an integer.
pub open spec fn float_scaled(bits: u32) -> nat {
    let exponent = (bits / FRACTION_STEPS) as nat;
    let fraction = (bits % FRACTION_STEPS) as nat;
    if exponent == 0 {
        fraction
    } else {
        (FRACTION_STEPS as nat + fraction) * pow2((exponent - 1) as nat)
    }
}

/// `bits` is the single-precision bit pattern of `unit_numerator(sample) /
/// 2^24`, a number in `[0, 1)`.
pub open spec fn encodes_unit(bits: u32, sample: u32) -> bool {
    &&& bits < ONE_BITS
    &&& float_scaled(bits) == unit_numerator(sample) * pow2(125)
}

/// Bit patterns of finite, non-negative single-precision numbers: those
/// below the pattern of infinity.
pub const INFINITY_BITS: u32 = 0x7F80_0000;

/// Among the finite, non-negative numbers, the next bit pattern is the next
/// larger number.
pub proof fn lemma_float_scaled_step(bits: u32)
    requires
        bits + 1 < INFINITY_BITS,
    ensures
        float_scaled(bits) < float_scaled((bits + 1) as u32),
{
    let exponent = (bits / FRACTION_STEPS) as nat;
    let fraction = (bits % FRACTION_STEPS) as nat;
    let next = (bits + 1) as u32;
    lemma2_to64();
    lemma_fundamental_div_mod(bits as int, FRACTION_STEPS as int);
    if fraction + 1 < FRACTION_STEPS {
        lemma_fundamental_div_mod_converse(
            bits + 1,
            FRACTION_STEPS as int,
            exponent as int,
            (fraction + 1) as int,
        );
        assert(next / FRACTION_STEPS == exponent);
        assert(next % FRACTION_STEPS == fraction + 1);
        if exponent > 0 {
            let weight = pow2((exponent - 1) as nat);
            lemma_pow2_pos((exponent - 1) as nat);
            assert((FRACTION_STEPS + fraction) * weight < (FRACTION_STEPS + fraction + 1) * weight)
                by (nonlinear_arith)
                requires
                    weight > 0,
            ;
            assert(float_scaled(bits) == (FRACTION_STEPS + fraction) * weight);
            assert(float_scaled(next) == (FRACTION_STEPS + fraction + 1) * weight);
        }
    } else {
        lemma_fundamental_div_mod_converse(
            bits + 1,
            FRACTION_STEPS as int,
            (exponent + 1) as int,
            0,
        );
        assert(next / FRACTION_STEPS == exponent + 1);
        assert(next % FRACTION_STEPS == 0);
        if exponent > 0 {
            let weight = pow2((exponent - 1) as nat);
            lemma_pow2_pos((exponent - 1) as nat);
            lemma_pow2_unfold(exponent);
            assert((FRACTION_STEPS + fraction) * weight < FRACTION_STEPS * (2 * weight))
                by (nonlinear_arith)
                requires
                    weight > 0,
                    fraction < FRACTION_STEPS,
            ;
            assert(float_scaled(bits) == (FRACTION_STEPS + fraction) * weight);
            assert(float_scaled(next) == (FRACTION_STEPS + 0) * pow2(exponent));
        } else {
            assert(float_scaled(bits) == fraction);
            assert(float_scaled(next) == (FRACTION_STEPS + 0) * pow2(0));
            assert(FRACTION_STEPS * 1 == FRACTION_STEPS);
        }
    }
}

/// Among the finite, non-negative numbers, bit patterns are ordered as the
/// numbers are.
pub proof fn lemma_float_scaled_increases(low: u32, high: u32)
    requires
        low < high < INFINITY_BITS,
    ensures
        float_scaled(low) < float_scaled(high),
    decreases high - low,
{
    lemma_float_scaled_step((high - 1) as u32);
    if low + 1 < high {
        lemma_float_scaled_increases(low, (high - 1) as u32);
    }
}

/// A unit sample has one bit pattern only.
pub proof fn lemma_unit_encoding_unique(first: u32, second: u32, sample: u32)
    requires
        encodes_unit(first, sample),
        encodes_unit(second, sample),
    ensures
        first == second,
{
    if first < second {
        lemma_float_scaled_increases(first, second);
    } else if second < first {
        lemma_float_scaled_increases(second, first);
    }
}

/// The single-precision bit pattern of the number in `[0, 1)` that the upper
/// 24 bits of `sample` give as a multiple of `2^-24`. Every such number is
/// exactly representable.
pub fn unit_bits(sample: u32) -> (bits: u32)
    ensures
        encodes_unit(bits, sample),
{
    let numerator: u32 = sample / 256;
    proof {
        lemma2_to64();
    }
    if numerator == 0 {
        assert(0nat * pow2(125) == 0) by (nonlinear_arith);
        return 0;
    }
    let mut significand: u32 = numerator;
    let mut exponent: u32 = 126;
    while significand < FRACTION_STEPS
        invariant
            1 <= significand < UNIT_STEPS,
            103 <= exponent <= 126,
            significand * pow2((exponent - 103) as nat) == numerator * pow2(23),
            numerator >= 1,
            pow2(23) == 0x80_0000,
            pow2(0) == 1,
        decreases exponent,
    {
        proof {
            if exponent == 103 {
                let scaled = numerator * pow2(23);
                assert(scaled >= 0x80_0000) by (nonlinear_arith)
                    requires
                        numerator >= 1,
                        scaled == numerator * pow2(23),
                        pow2(23) == 0x80_0000,
                ;
                assert(significand * pow2(0) == significand) by (nonlinear_arith)
                    requires
                        pow2(0) == 1,
                ;
                assert(false);
            }
            lemma_pow2_unfold((exponent - 103) as nat);
            let p = pow2((exponent - 104) as nat);
            assert((significand * 2) * p == significand * (2 * p)) by (nonlinear_arith);
        }
        significand = significand * 2;
        exponent = exponent - 1;
    }
    let bits: u32 = exponent * FRACTION_STEPS + (significand - FRACTION_STEPS);
    proof {
        assert(bits / FRACTION_STEPS == exponent && bits % FRACTION_STEPS == significand
            - FRACTION_STEPS) by {
            vstd::arithmetic::div_mod::lemma_fundamental_div_mod_converse(
                bits as int,
                FRACTION_STEPS as int,
                exponent as int,
                (significand - FRACTION_STEPS) as int,
            );
        }
        let low = pow2((exponent - 103) as nat);
        lemma_pow2_adds((exponent - 103) as nat, 102);
        lemma_pow2_adds(23, 102);
        assert(significand * (low * pow2(102)) == (numerator * pow2(23)) * pow2(102))
            by (nonlinear_arith)
            requires
                significand * low == numerator * pow2(23),
        ;
        assert((numerator * pow2(23)) * pow2(102) == numerator * (pow2(23) * pow2(102)))
            by (nonlinear_arith);
    }
    bits
}

/// The leaf that four random words give under a fill threshold: populated
/// when the unit sample of `fill` is at least `threshold / 2^24`, empty
/// otherwise. A populated leaf has roughness one and the unit samples of
/// `red`, `green` and `blue` as its albedo.
pub open spec fn sampled_leaf(tree: Tree, fill: u32, red: u32, green: u32, blue: u32, threshold: u32)
    -> bool {
    if unit_numerator(fill) >= threshold {
        &&& tree matches Tree::Leaf(Some(voxel))
        &&& voxel.material.roughness == ONE_BITS
        &&& encodes_unit(voxel.material.albedo[0], red)
        &&& encodes_unit(voxel.material.albedo[1], green)
        &&& encodes_unit(voxel.material.albedo[2], blue)
    } else {
        tree == Tree::Leaf(None)
    }
}

/// Builds the leaf that the four words stand for under `threshold`.
pub fn leaf_from_samples(fill: u32, red: u32, green: u32, blue: u32, threshold: u32) -> (r: Node)
    ensures
        sampled_leaf(r@, fill, red, green, blue, threshold),
{
    if populates(fill, threshold) {
        Node::Leaf(
            Some(
                Voxel {
                    material: Material {
                        albedo: [unit_bits(red), unit_bits(green), unit_bits(blue)],
                        roughness: ONE_BITS,
                    },
                },
            ),
        )
    } else {
        Node::Leaf(None)
    }
}

/// Every leaf of the tree is one that four random words give under
/// `threshold`.
pub open spec fn sampled(tree: Tree, threshold: u32) -> bool
    decreases tree,
{
    match tree {
        Tree::Leaf(_) => exists|fill: u32, red: u32, green: u32, blue: u32|
            sampled_leaf(tree, fill, red, green, blue, threshold),
        Tree::Branch(children) => forall|i: int|
            0 <= i < children.len() ==> sampled(#[trigger] children[i], threshold),
    }
}

/// A randomly filled tree under a threshold of zero has no empty leaf, and
/// one under a threshold that no draw reaches has no populated leaf. Every
/// populated leaf has roughness one and an albedo whose components lie in
/// `[0, 1)`.
pub proof fn lemma_sampled(tree: Tree, threshold: u32)
    requires
        sampled(tree, threshold),
    ensures
        threshold == 0 ==> tree.populated(),
        threshold >= UNIT_STEPS ==> tree.vacant(),
        plausible(tree),
    decreases tree,
{
    match tree {
        Tree::Leaf(_) => {},
        Tree::Branch(children) => {
            assert forall|i: int| 0 <= i < children.len() implies {
                &&& (threshold == 0 ==> (#[trigger] children[i]).populated())
                &&& (threshold >= UNIT_STEPS ==> children[i].vacant())
                &&& plausible(children[i])
            } by {
                lemma_sampled(children[i], threshold);
            }
        },
    }
}

/// Every populated leaf of the tree has roughness one and an albedo whose
/// components lie in `[0, 1)`.
pub open spec fn plausible(tree: Tree) -> bool
    decreases tree,
{
    match tree {
        Tree::Leaf(Some(voxel)) => {
            &&& voxel.material.roughness == ONE_BITS
            &&& voxel.material.albedo[0] < ONE_BITS
            &&& voxel.material.albedo[1] < ONE_BITS
            &&& voxel.material.albedo[2] < ONE_BITS
        },
        Tree::Leaf(None) => true,
        Tree::Branch(children) => forall|i: int|
            0 <= i < children.len() ==> plausible(#[trigger] children[i]),
    }
}

/// Whether a fill draw populates a leaf under `threshold`.
pub fn populates(fill: u32, threshold: u32) -> (r: bool)
    ensures
        r == (unit_numerator(fill) >= threshold),
{
    fill / 256 >= threshold
}

/// Draws a leaf: one word decides whether it is populated, and three more
/// give the albedo of a populated one.
pub fn random_leaf(threshold: u32) -> (r: Node)
    ensures
        r@ is Leaf,
        sampled(r@, threshold),
{
    let fill = random_word();
    if populates(fill, threshold) {
        let red = random_word();
        let green = random_word();
        let blue = random_word();
        leaf_from_samples(fill, red, green, blue, threshold)
    } else {
        assert(sampled_leaf(Tree::Leaf(None), fill, 0, 0, 0, threshold));
        Node::Leaf(None)
    }
}

} // verus!
