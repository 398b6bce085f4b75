//! Key pairs that are the same in every run of a test.

use vstd::prelude::*;
use crate::clock::le_u64;
use crate::keypair::{Keypair, keypair_accepted, public_half};

verus! {

/// The lowest 64 bits of a number.
pub open spec fn low_bits(n: int) -> int {
    n % 0x1_0000_0000_0000_0000
}

/// A generator of numbers that counts up in steps of a fixed size, starting over at the top.
#[derive(Clone, Copy, Debug, PartialEq, Eq, Structural)]
pub struct MockRng {
    /// The next number.
    pub value: u64,
    /// The size of a step.
    pub step: u64,
}

impl MockRng {
    /// The number that comes after `n` others.
    pub open spec fn nth(self, n: int) -> u64 {
        low_bits(self.value + n * self.step) as u64
    }

    /// The generator once `n` numbers have been drawn.
    pub open spec fn after(self, n: int) -> MockRng {
        MockRng { value: self.nth(n), step: self.step }
    }

    /// The `i`th byte of what the generator fills: the numbers one after the other, eight bytes
    /// each, the lowest first.
    pub open spec fn byte(self, i: int) -> u8 {
        (self.nth(i / 8) >> ((8 * (i % 8)) as u64)) as u8
    }

    /// The bytes that the generator fills.
    pub open spec fn bytes(self, length: nat) -> Seq<u8> {
        Seq::new(length, |i: int| self.byte(i))
    }

    /// How many numbers are drawn for so many bytes.
    pub open spec fn draws(length: int) -> int {
        (length + 7) / 8
    }
}

/// Drawing one number and then others is drawing all of them.
proof fn lemma_after(rng: MockRng, n: int)
    requires
        0 <= n,
    ensures
        rng.after(n).after(1) == rng.after(n + 1),
        rng.after(0) == rng,
{
    let a = rng.value + n * rng.step;
    let m = 0x1_0000_0000_0000_0000int;
    assert(rng.value + (n + 1) * rng.step == a + rng.step) by (nonlinear_arith)
        requires
            a == rng.value + n * rng.step,
    ;
    assert(0 * rng.step == 0);
    vstd::arithmetic::div_mod::lemma_add_mod_noop(a, rng.step as int, m);
    vstd::arithmetic::div_mod::lemma_small_mod(rng.step as nat, m as nat);
    vstd::arithmetic::div_mod::lemma_small_mod(rng.value as nat, m as nat);
}

impl MockRng {
    /// A generator that starts with a number and goes up in steps of a fixed size.
    pub fn new(initial: u64, increment: u64) -> (rng: MockRng)
        ensures
            rng == (MockRng { value: initial, step: increment }),
    {
        MockRng { value: initial, step: increment }
    }

    /// The next number.
    pub fn next_u64(&mut self) -> (number: u64)
        ensures
            number == old(self).value,
            *final(self) == old(self).after(1),
    {
        let number = self.value;
        self.value = self.value.wrapping_add(self.step);
        proof {
            lemma_after(*old(self), 0);
            assert(1 * old(self).step == old(self).step);
        }
        number
    }

    /// The lowest 32 bits of the next number.
    pub fn next_u32(&mut self) -> (number: u32)
        ensures
            number == old(self).value % 0x1_0000_0000,
            *final(self) == old(self).after(1),
    {
        let number: u64 = self.next_u64();
        assert(number as u32 == number % 0x1_0000_0000) by (bit_vector);
        number as u32
    }

    /// Fills a list with the bytes of the next numbers.
    pub fn fill_bytes(&mut self, dest: &mut [u8])
        ensures
            final(dest)@ == old(self).bytes(old(dest)@.len()),
            *final(self) == old(self).after(MockRng::draws(old(dest)@.len() as int)),
    {
        let ghost rng = *self;
        let length = dest.len();
        let mut i: usize = 0;
        let mut chunk: u64 = 0;
        proof {
            lemma_after(rng, 0);
        }
        while i < length
            invariant
                i <= length,
                length == dest@.len(),
                *self == rng.after(MockRng::draws(i as int)),
                i % 8 != 0 ==> chunk == rng.nth(i as int / 8),
                forall|j: int| 0 <= j < i ==> #[trigger] dest@[j] == rng.byte(j),
            decreases length - i,
        {
            if i % 8 == 0 {
                proof {
                    lemma_after(rng, MockRng::draws(i as int));
                }
                chunk = self.next_u64();
            }
            let shift: u64 = 8 * (i % 8) as u64;
            dest[i] = (chunk >> shift) as u8;
            i = i + 1;
        }
        assert(dest@ =~= rng.bytes(length as nat));
    }

    /// Fills a list with the bytes of the next numbers, which never fails.
    pub fn try_fill_bytes(&mut self, dest: &mut [u8]) -> (outcome: Result<(), ()>)
        ensures
            outcome == Ok::<(), ()>(()),
            final(dest)@ == old(self).bytes(old(dest)@.len()),
            *final(self) == old(self).after(MockRng::draws(old(dest)@.len() as int)),
    {
        self.fill_bytes(dest);
        Ok(())
    }
}

/// The generator that test key pairs come from.
pub fn test_rng() -> (rng: MockRng)
    ensures
        rng == (MockRng { value: 1, step: 1 }),
{
    MockRng::new(1, 1)
}

/// The next test key pair. Its secret half is what the generator fills.
pub fn generate_test_keypair(rng: &mut MockRng) -> (keypair: Keypair)
    ensures
        keypair@ == old(rng).bytes(32) + public_half(old(rng).bytes(32)),
        keypair_accepted(keypair@),
        *final(rng) == old(rng).after(4),
{
    let mut seed: [u8; 32] = [0; 32];
    rng.fill_bytes(&mut seed);
    Keypair::from_seed(&seed)
}

/// Drawing some numbers and then others is drawing all of them.
pub proof fn law_draws_add_up(rng: MockRng, a: int, b: int)
    requires
        0 <= a,
        0 <= b,
    ensures
        rng.after(a).after(b) == rng.after(a + b),
    decreases b,
{
    if b == 0 {
        lemma_after(rng.after(a), 0);
    } else {
        law_draws_add_up(rng, a, b - 1);
        lemma_after(rng.after(a), b - 1);
        lemma_after(rng, a + b - 1);
    }
}

/// Two numbers are the same if their bytes are.
proof fn lemma_bytes_determine(one: MockRng, other: MockRng)
    requires
        one.bytes(32) == other.bytes(32),
    ensures
        one.nth(0) == other.nth(0),
{
    let v = one.nth(0);
    let w = other.nth(0);
    assert forall|i: int| 0 <= i < 8 implies (v >> (#[trigger] (8 * i) as u64)) as u8 == (w >> (8
        * i) as u64) as u8 by {
        assert(one.bytes(32)[i] == one.byte(i));
        assert(other.bytes(32)[i] == other.byte(i));
    }
    assert((v >> (8 * 0) as u64) as u8 == (w >> (8 * 0) as u64) as u8);
    assert((v >> (8 * 1) as u64) as u8 == (w >> (8 * 1) as u64) as u8);
    assert((v >> (8 * 2) as u64) as u8 == (w >> (8 * 2) as u64) as u8);
    assert((v >> (8 * 3) as u64) as u8 == (w >> (8 * 3) as u64) as u8);
    assert((v >> (8 * 4) as u64) as u8 == (w >> (8 * 4) as u64) as u8);
    assert((v >> (8 * 5) as u64) as u8 == (w >> (8 * 5) as u64) as u8);
    assert((v >> (8 * 6) as u64) as u8 == (w >> (8 * 6) as u64) as u8);
    assert((v >> (8 * 7) as u64) as u8 == (w >> (8 * 7) as u64) as u8);
    assert(v == w) by (bit_vector)
        requires
            (v >> 0u64) as u8 == (w >> 0u64) as u8,
            (v >> 8u64) as u8 == (w >> 8u64) as u8,
            (v >> 16u64) as u8 == (w >> 16u64) as u8,
            (v >> 24u64) as u8 == (w >> 24u64) as u8,
            (v >> 32u64) as u8 == (w >> 32u64) as u8,
            (v >> 40u64) as u8 == (w >> 40u64) as u8,
            (v >> 48u64) as u8 == (w >> 48u64) as u8,
            (v >> 56u64) as u8 == (w >> 56u64) as u8,
    ;
}

/// No two test key pairs are the same, up to the 62nd power of two of them: their secret halves,
/// which are four numbers of the generator each, all differ.
pub proof fn law_test_keypairs_differ(k: int, l: int)
    requires
        0 <= k < l < 0x4000_0000_0000_0000,
    ensures
        ({
            let rng = MockRng { value: 1, step: 1 };
            rng.after(4 * k).bytes(32) != rng.after(4 * l).bytes(32)
        }),
{
    let rng = MockRng { value: 1, step: 1 };
    if rng.after(4 * k).bytes(32) == rng.after(4 * l).bytes(32) {
        lemma_bytes_determine(rng.after(4 * k), rng.after(4 * l));
        lemma_after(rng.after(4 * k), 0);
        lemma_after(rng.after(4 * l), 0);
        assert(rng.after(4 * k).value == low_bits(1 + 4 * k));
        assert(rng.after(4 * l).value == low_bits(1 + 4 * l));
    }
}

/// The numbers start with the value of the generator, and each is the one before it and a step
/// more, without what exceeds 64 bits.
pub proof fn law_numbers_go_up(rng: MockRng, n: int)
    requires
        0 <= n,
    ensures
        rng.nth(0) == rng.value,
        rng.nth(n + 1) == (rng.nth(n) + rng.step) % 0x1_0000_0000_0000_0000,
        rng.after(n).value == rng.nth(n),
        rng.after(n).step == rng.step,
{
    lemma_after(rng, n);
    lemma_after(rng.after(n), 0);
    let value = rng.after(n);
    assert(value.after(1).value == rng.nth(n + 1));
    assert(value.value + 1 * value.step == value.value + value.step);
}

/// The bytes that are filled are those of the numbers, eight each, the lowest first: put together
/// again they are the numbers. As many numbers are drawn as the bytes need.
pub proof fn law_bytes_are_those_of_the_numbers(rng: MockRng, length: nat, k: int)
    requires
        0 <= k,
        8 * k + 8 <= length,
    ensures
        rng.bytes(length).len() == length,
        le_u64(rng.bytes(length), 8 * k) == rng.nth(k),
        8 * MockRng::draws(length as int) >= length,
        8 * MockRng::draws(length as int) < length + 8,
{
    let v = rng.nth(k);
    let bytes = rng.bytes(length);
    assert forall|b: int| 0 <= b < 8 implies #[trigger] bytes[8 * k + b] == (v >> ((8 * b) as u64))
        as u8 by {
        assert((8 * k + b) / 8 == k);
        assert((8 * k + b) % 8 == b);
    }
    assert(bytes[8 * k + 0] == (v >> 0u64) as u8);
    assert(bytes[8 * k + 1] == (v >> 8u64) as u8);
    assert(bytes[8 * k + 2] == (v >> 16u64) as u8);
    assert(bytes[8 * k + 3] == (v >> 24u64) as u8);
    assert(bytes[8 * k + 4] == (v >> 32u64) as u8);
    assert(bytes[8 * k + 5] == (v >> 40u64) as u8);
    assert(bytes[8 * k + 6] == (v >> 48u64) as u8);
    assert(bytes[8 * k + 7] == (v >> 56u64) as u8);
    assert((v >> 0u64) as u8 + 0x100 * ((v >> 8u64) as u8) + 0x1_0000 * ((v >> 16u64) as u8)
        + 0x100_0000 * ((v >> 24u64) as u8) + 0x1_0000_0000 * ((v >> 32u64) as u8)
        + 0x100_0000_0000 * ((v >> 40u64) as u8) + 0x1_0000_0000_0000 * ((v >> 48u64) as u8)
        + 0x100_0000_0000_0000 * ((v >> 56u64) as u8) == v) by (bit_vector);
}

} // verus!
