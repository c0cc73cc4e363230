//! A deterministic stream of bits, drawn from the SHA-512 digest of a seed.

use vstd::prelude::*;
use vstd::string::StringSliceAdditionalSpecFns;
use sha2::{Digest, Sha512};
use std::time::{SystemTime, UNIX_EPOCH};

verus! {

/// The SHA-512 digest of a message.
pub uninterp spec fn sha512(message: Seq<u8>) -> Seq<u8>;

/// Calls `Sha512::new`, `update` and `finalize` of the `sha2` crate on the
/// message. Trusted: the result is the SHA-512 digest of the message, which
/// has 64 bytes.
#[verifier::external_body]
fn digest(message: &[u8]) -> (res: Vec<u8>)
    ensures
        res@ == sha512(message@),
        res@.len() == 64,
{
    let mut hasher = Sha512::new();
    hasher.update(message);
    hasher.finalize().to_vec()
}

/// Calls `SystemTime::now` and `duration_since(UNIX_EPOCH)` of std: the
/// whole seconds since the start of 1970, or `None` where the clock stands
/// before it. Nothing is claimed of the number.
#[verifier::external_body]
fn unix_seconds() -> (res: Option<u64>) {
    match SystemTime::now().duration_since(UNIX_EPOCH) {
        Ok(unix) => Some(unix.as_secs()),
        Err(_) => None,
    }
}

/// The decimal digits of `n` in ASCII, without leading zeros.
pub open spec fn digits(n: nat) -> Seq<u8>
    decreases n,
{
    if n < 10 {
        seq![(48 + n) as u8]
    } else {
        digits(n / 10).push((48 + n % 10) as u8)
    }
}

/// The decimal digits of every byte, one number after another with nothing
/// between them.
pub open spec fn digits_of_all(bytes: Seq<u8>) -> Seq<u8>
    decreases bytes.len(),
{
    if bytes.len() == 0 {
        Seq::empty()
    } else {
        digits_of_all(bytes.drop_last()) + digits(bytes.last() as nat)
    }
}

/// What a seed is: 64 bytes and the place of the next bit in them.
pub struct SeedView {
    pub bytes: Seq<u8>,
    pub index: nat,
    pub bit: nat,
}

impl SeedView {
    /// The seed moved to the place from which the next bit is read: past a
    /// byte that is used up, and on to the digest of the bytes' digits once
    /// all 64 are used up.
    pub open spec fn settled(self) -> SeedView {
        let index = if self.bit > 7 {
            self.index + 1
        } else {
            self.index
        };
        let bit = if self.bit > 7 {
            0
        } else {
            self.bit
        };
        if index > 63 {
            SeedView { bytes: sha512(digits_of_all(self.bytes)), index: 0, bit }
        } else {
            SeedView { bytes: self.bytes, index, bit }
        }
    }

    /// The next bit of the stream.
    pub open spec fn next_bit(self) -> bool {
        let at = self.settled();
        ((at.bytes[at.index as int] >> (at.bit as u8)) & 1u8) == 1u8
    }

    /// The seed after one bit was taken.
    pub open spec fn after_bit(self) -> SeedView {
        let at = self.settled();
        SeedView { bit: at.bit + 1, ..at }
    }

    /// The seed after `n` bits were taken.
    pub open spec fn after_bits(self, n: nat) -> SeedView
        decreases n,
    {
        if n == 0 {
            self
        } else {
            self.after_bits((n - 1) as nat).after_bit()
        }
    }

    /// The next `n` bits read as one number, the first bit counting most.
    pub open spec fn number(self, n: nat) -> nat
        decreases n,
    {
        if n == 0 {
            0
        } else {
            let bit: nat = if self.after_bits((n - 1) as nat).next_bit() {
                1
            } else {
                0
            };
            2 * self.number((n - 1) as nat) + bit
        }
    }
}

/// A seed: the digest of what it was made from, and how far it is used up.
pub struct Seed {
    bytes: Vec<u8>,
    index: usize,
    bit: u8,
}

/// What a roll came to, with the number that was rolled.
#[derive(Clone, Copy, Debug, PartialEq, Eq, Structural)]
pub enum Roll {
    HIT(u8),
    MISS(u8),
}

impl View for Seed {
    type V = SeedView;

    closed spec fn view(&self) -> SeedView {
        SeedView { bytes: self.bytes@, index: self.index as nat, bit: self.bit as nat }
    }
}

impl Seed {
    /// A seed holds 64 bytes, and its place lies within them.
    pub open spec fn wf(&self) -> bool {
        &&& self@.bytes.len() == 64
        &&& self@.index < 64
        &&& self@.bit <= 8
    }

    /// The fresh seed of a message.
    pub open spec fn fresh(message: Seq<u8>) -> SeedView {
        SeedView { bytes: sha512(message), index: 0, bit: 0 }
    }

    /// A seed from a string: the digest of its bytes, nothing used up.
    pub fn from_str(seed: &str) -> (res: Seed)
        ensures
            res.wf(),
            res@ == Seed::fresh(seed.spec_bytes()),
    {
        let bytes = digest(seed.as_bytes());
        Seed { bytes, index: 0, bit: 0 }
    }

    /// A seed from a number of seconds: the seed of its decimal digits.
    pub fn from_secs(secs: u64) -> (res: Seed)
        ensures
            res.wf(),
            res@ == Seed::fresh(digits(secs as nat)),
    {
        let mut text: Vec<u8> = Vec::new();
        push_digits(secs, &mut text);
        let bytes = digest(text.as_slice());
        Seed { bytes, index: 0, bit: 0 }
    }

    /// A seed from the clock: that of the seconds since the start of 1970.
    /// Fails where the clock cannot be read as such.
    pub fn from_time() -> (res: Result<Seed, String>)
        ensures
            match res {
                Ok(seed) => seed.wf() && exists|secs: u64|
                    seed@ == Seed::fresh(#[trigger] digits(secs as nat)),
                Err(message) => message@ == "Could not read system time."@,
            },
    {
        match unix_seconds() {
            Some(secs) => Ok(Seed::from_secs(secs)),
            None => Err("Could not read system time.".to_owned()),
        }
    }

    /// Takes the next bit of the stream.
    pub fn next_bool(&mut self) -> (res: bool)
        requires
            old(self).wf(),
        ensures
            final(self).wf(),
            res == old(self)@.next_bit(),
            final(self)@ == old(self)@.after_bit(),
    {
        if 7 < self.bit {
            self.bit = 0;
            self.index += 1;
        }
        if self.bytes.len() - 1 < self.index {
            self.index = 0;
            self.next_hash_iteration();
        }
        let byte = self.bytes[self.index];
        let shifted = byte >> self.bit;
        let new_byte = shifted & 1;
        self.bit += 1;
        new_byte == 1
    }

    /// Takes the next eight bits as a number, the first bit counting most.
    pub fn next_u8(&mut self) -> (res: u8)
        requires
            old(self).wf(),
        ensures
            final(self).wf(),
            res == old(self)@.number(8),
            final(self)@ == old(self)@.after_bits(8),
    {
        let mut num: u8 = 0;
        let mut taken: u8 = 0;
        proof {
            lemma_number_bound(old(self)@, 0);
        }
        while taken < 8
            invariant
                taken <= 8,
                self.wf(),
                self@ == old(self)@.after_bits(taken as nat),
                num == old(self)@.number(taken as nat),
                (num as int) < pow2(taken as nat),
            decreases 8 - taken,
        {
            proof {
                lemma_number_bound(old(self)@, taken as nat);
                lemma_number_bound(old(self)@, (taken + 1) as nat);
                lemma_pow2_values();
            }
            let bit: u8 = if self.next_bool() {
                1
            } else {
                0
            };
            num = num * 2 + bit;
            taken = taken + 1;
        }
        num
    }

    /// Rolls a number from 0 to 255: a hit where it lies below `max`. The
    /// closer `max` is to 255, the likelier a hit.
    pub fn roll(&mut self, max: u8) -> (res: Roll)
        requires
            old(self).wf(),
        ensures
            final(self).wf(),
            final(self)@ == old(self)@.after_bits(8),
            res == if old(self)@.number(8) < max {
                Roll::HIT(old(self)@.number(8) as u8)
            } else {
                Roll::MISS(old(self)@.number(8) as u8)
            },
    {
        let roll = self.next_u8();
        if roll < max {
            Roll::HIT(roll)
        } else {
            Roll::MISS(roll)
        }
    }

    /// Replaces the bytes by the digest of their decimal digits.
    fn next_hash_iteration(&mut self)
        ensures
            final(self).bytes@ == sha512(digits_of_all(old(self).bytes@)),
            final(self).bytes@.len() == 64,
            final(self).index == old(self).index,
            final(self).bit == old(self).bit,
    {
        let mut iteration: Vec<u8> = Vec::new();
        let mut k: usize = 0;
        while k < self.bytes.len()
            invariant
                k <= self.bytes.len(),
                iteration@ == digits_of_all(self.bytes@.take(k as int)),
            decreases self.bytes.len() - k,
        {
            assert(self.bytes@.take(k + 1).drop_last() == self.bytes@.take(k as int));
            push_digits(self.bytes[k] as u64, &mut iteration);
            k = k + 1;
        }
        assert(self.bytes@.take(k as int) == self.bytes@);
        self.bytes = digest(iteration.as_slice());
    }
}

/// Two to the power of `n`.
pub open spec fn pow2(n: nat) -> int
    decreases n,
{
    if n == 0 {
        1
    } else {
        2 * pow2((n - 1) as nat)
    }
}

proof fn lemma_pow2_values()
    ensures
        pow2(0) == 1,
        pow2(1) == 2,
        pow2(2) == 4,
        pow2(3) == 8,
        pow2(4) == 16,
        pow2(5) == 32,
        pow2(6) == 64,
        pow2(7) == 128,
        pow2(8) == 256,
{
    reveal_with_fuel(pow2, 10);
}

/// A number read from `n` bits lies below two to the power of `n`.
pub proof fn lemma_number_bound(seed: SeedView, n: nat)
    ensures
        seed.number(n) < pow2(n),
    decreases n,
{
    if n > 0 {
        lemma_number_bound(seed, (n - 1) as nat);
    }
}

/// Appends the decimal digits of `n`.
fn push_digits(n: u64, out: &mut Vec<u8>)
    ensures
        final(out)@ == old(out)@ + digits(n as nat),
    decreases n,
{
    if n >= 10 {
        push_digits(n / 10, out);
    }
    let last: u8 = (n % 10) as u8;
    out.push(48 + last);
    assert(out@ =~= old(out)@ + digits(n as nat));
}

} // verus!
