//! Logical timestamps: a clock reading and the identifier of the clock that
//! produced it, ordered by the reading first and the identifier second.

use vstd::prelude::*;

verus! {

/// A logical timestamp attached to every write and delete.
#[derive(Clone, Copy, Debug, PartialEq, Eq, Structural)]
pub struct Timestamp {
    pub time: u64,
    pub id: u128,
}

impl Timestamp {
    /// Strict order on timestamps: earlier reading first, and among equal
    /// readings the smaller clock identifier first.
    pub open spec fn before(self, other: Timestamp) -> bool {
        self.time < other.time || (self.time == other.time && self.id < other.id)
    }

    /// The timestamp with the given reading and clock identifier.
    pub fn new(time: u64, id: u128) -> (t: Timestamp)
        ensures
            t == (Timestamp { time, id }),
    {
        Timestamp { time, id }
    }

    /// Whether `self` is strictly older than `other`.
    pub fn is_before(&self, other: &Timestamp) -> (b: bool)
        ensures
            b == self.before(*other),
    {
        self.time < other.time || (self.time == other.time && self.id < other.id)
    }

    /// The timestamp of the reading `time` of the clock whose identifier is
    /// `id`. Identifiers are ordered byte-wise, and so are the numbers that
    /// stand for them here.
    pub fn from_clock(time: u64, id: &[u8; 16]) -> (timestamp: Timestamp)
        ensures
            timestamp.time == time,
            timestamp.id == be_value(id@),
    {
        let mut value: u128 = 0;
        let mut i: usize = 0;
        while i < 16
            invariant
                i <= 16,
                value == be_value(id@.subrange(0, i as int)),
            decreases 16 - i,
        {
            proof {
                lemma_be_value_bound(id@.subrange(0, i as int));
                lemma_radix_power_grows(i as nat, 15);
                lemma_radix_power_16();
                assert(radix_power(16) == 256 * radix_power(15));
                assert(id@.subrange(0, i + 1).drop_last() =~= id@.subrange(0, i as int));
            }
            value = value * 256 + id[i] as u128;
            i += 1;
        }
        assert(id@.subrange(0, 16) =~= id@);
        Timestamp { time, id: value }
    }

    /// The bytes of the identifier of the clock that made this timestamp:
    /// for a timestamp made by `from_clock`, the bytes it was made from.
    pub fn clock_id(&self) -> (id: [u8; 16])
        ensures
            be_value(id@) == self.id,
    {
        let mut id: [u8; 16] = [0u8; 16];
        let mut rest: u128 = self.id;
        let ghost mut rests: Seq<nat> = seq![self.id as nat];
        let mut i: usize = 16;
        proof {
            lemma_radix_power_16();
        }
        while i > 0
            invariant
                i <= 16,
                rests.len() == 17 - i,
                rests[0] == self.id,
                rests[16 - i] == rest,
                rest < radix_power(i as nat),
                forall|k: int|
                    0 <= k < 16 - i ==> #[trigger] rests[k] == rests[k + 1] * 256 + id@[15 - k],
            decreases i,
        {
            let digit: u8 = (rest % 256) as u8;
            i -= 1;
            id[i] = digit;
            rest = rest / 256;
            proof {
                rests = rests.push(rest as nat);
            }
        }
        proof {
            lemma_remainders_are_digits(id@, rests, 16);
            assert(id@.subrange(0, 16) =~= id@);
        }
        id
    }
}

/// The number that `bytes` stand for, the first byte being the most
/// significant.
pub open spec fn be_value(bytes: Seq<u8>) -> nat
    decreases bytes.len(),
{
    if bytes.len() == 0 {
        0
    } else {
        be_value(bytes.drop_last()) * 256 + bytes.last() as nat
    }
}

/// Byte-wise order: at the first place where the two differ, `a` has the
/// smaller byte.
pub open spec fn bytes_before(a: Seq<u8>, b: Seq<u8>) -> bool {
    exists|i: int|
        0 <= i < a.len() && i < b.len() && a[i] < b[i] && #[trigger] a.subrange(0, i)
            == b.subrange(0, i)
}

/// 256 to the power of `n`.
pub open spec fn radix_power(n: nat) -> nat
    decreases n,
{
    if n == 0 {
        1
    } else {
        256 * radix_power((n - 1) as nat)
    }
}

/// `before` is a strict total order: irreflexive, transitive, and any two
/// distinct timestamps are ordered one way or the other.
pub proof fn lemma_before_is_strict_total_order(a: Timestamp, b: Timestamp, c: Timestamp)
    ensures
        !a.before(a),
        a.before(b) && b.before(c) ==> a.before(c),
        a != b ==> a.before(b) || b.before(a),
        !(a.before(b) && b.before(a)),
{
}

/// The number that `n` bytes stand for is below 256 to the power of `n`.
pub proof fn lemma_be_value_bound(bytes: Seq<u8>)
    ensures
        be_value(bytes) < radix_power(bytes.len()),
    decreases bytes.len(),
{
    if bytes.len() > 0 {
        lemma_be_value_bound(bytes.drop_last());
    }
}

/// Byte sequences of one length are ordered byte-wise as the numbers they
/// stand for, and stand for the same number only when they are equal.
pub proof fn lemma_be_value_keeps_order(a: Seq<u8>, b: Seq<u8>)
    requires
        a.len() == b.len(),
    ensures
        bytes_before(a, b) <==> be_value(a) < be_value(b),
        a == b <==> be_value(a) == be_value(b),
    decreases a.len(),
{
    if a.len() == 0 {
        assert(a =~= b);
    } else {
        let n = a.len() - 1;
        let front_a = a.drop_last();
        let front_b = b.drop_last();
        lemma_be_value_keeps_order(front_a, front_b);
        if be_value(a) == be_value(b) {
            assert(be_value(front_a) == be_value(front_b));
            assert(a =~= front_a.push(a.last()));
            assert(b =~= front_b.push(b.last()));
        }
        if bytes_before(a, b) {
            let i = choose|i: int|
                0 <= i < a.len() && i < b.len() && a[i] < b[i] && #[trigger] a.subrange(0, i)
                    == b.subrange(0, i);
            if i < n {
                assert(front_a.subrange(0, i) =~= a.subrange(0, i));
                assert(front_b.subrange(0, i) =~= b.subrange(0, i));
                assert(front_a[i] < front_b[i]);
                assert(bytes_before(front_a, front_b));
            } else {
                assert(front_a =~= a.subrange(0, i));
                assert(front_b =~= b.subrange(0, i));
            }
        }
        if be_value(a) < be_value(b) {
            if be_value(front_a) < be_value(front_b) {
                let i = choose|i: int|
                    0 <= i < front_a.len() && i < front_b.len() && front_a[i] < front_b[i]
                        && #[trigger] front_a.subrange(0, i) == front_b.subrange(0, i);
                assert(a.subrange(0, i) =~= front_a.subrange(0, i));
                assert(b.subrange(0, i) =~= front_b.subrange(0, i));
                assert(a[i] < b[i]);
            } else {
                assert(a.subrange(0, n) =~= front_a);
                assert(b.subrange(0, n) =~= front_b);
                assert(a[n] < b[n]);
            }
        }
    }
}

/// Sixteen bytes stand for a number that fits in 128 bits.
proof fn lemma_radix_power_16()
    ensures
        radix_power(16) == 0x1_0000_0000_0000_0000_0000_0000_0000_0000,
{
    reveal_with_fuel(radix_power, 17);
}

/// Powers of 256 grow with the exponent.
proof fn lemma_radix_power_grows(low: nat, high: nat)
    requires
        low <= high,
    ensures
        0 < radix_power(low) <= radix_power(high),
    decreases high,
{
    if low < high {
        lemma_radix_power_grows(low, (high - 1) as nat);
    } else if high > 0 {
        lemma_radix_power_grows((low - 1) as nat, (high - 1) as nat);
    }
}

/// Bytes taken off a number from its low end, one remainder of a division
/// by 256 at a time, stand for that number.
proof fn lemma_remainders_are_digits(bytes: Seq<u8>, rests: Seq<nat>, taken: nat)
    requires
        bytes.len() == 16,
        rests.len() == 17,
        rests[16] == 0,
        forall|k: int| 0 <= k < 16 ==> #[trigger] rests[k] == rests[k + 1] * 256 + bytes[15 - k],
        taken <= 16,
    ensures
        be_value(bytes.subrange(0, taken as int)) == rests[16 - taken],
    decreases taken,
{
    if taken > 0 {
        lemma_remainders_are_digits(bytes, rests, (taken - 1) as nat);
        assert(bytes.subrange(0, taken as int).drop_last() =~= bytes.subrange(0, taken - 1));
        assert(rests[16 - taken] == rests[16 - taken + 1] * 256 + bytes[15 - (16 - taken)]);
    }
}

/// Timestamps made from clock readings are ordered as the readings are:
/// by time first, and among equal times by the bytes of the identifier.
/// Two of them are equal only when both time and identifier are.
pub proof fn lemma_from_clock_keeps_order(
    first: Timestamp,
    first_id: Seq<u8>,
    second: Timestamp,
    second_id: Seq<u8>,
)
    requires
        first_id.len() == 16,
        second_id.len() == 16,
        first.id == be_value(first_id),
        second.id == be_value(second_id),
    ensures
        first.before(second) <==> first.time < second.time || (first.time == second.time
            && bytes_before(first_id, second_id)),
        first == second <==> first.time == second.time && first_id == second_id,
{
    lemma_be_value_keeps_order(first_id, second_id);
}

} // verus!
