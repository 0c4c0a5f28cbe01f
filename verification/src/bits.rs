//! Bits into bytes and bytes into bits.
//!
//! The output takes bits most significant first and gives a byte for every
//! eight of them. The input takes a byte and gives its bits least
//! significant first.

use vstd::prelude::*;
use vstd::arithmetic::div_mod::lemma_div_denominator;
use vstd::arithmetic::power2::{lemma2_to64, lemma_pow2_pos, lemma_pow2_unfold, pow2};

verus! {

/// The number that `bits` spell, most significant bit first.
pub open spec fn bits_value(bits: Seq<bool>) -> nat
    decreases bits.len(),
{
    if bits.len() == 0 {
        0
    } else {
        2 * bits_value(bits.drop_last()) + if bits.last() {
            1nat
        } else {
            0nat
        }
    }
}

/// The `i`-th run of eight among `bits`.
pub open spec fn octet(bits: Seq<bool>, i: int) -> Seq<bool> {
    bits.subrange(8 * i, 8 * i + 8)
}

/// The bytes that `bits` fill: one for each full run of eight, in order.
/// What is left over after the last full run fills no byte.
pub open spec fn packed(bits: Seq<bool>) -> Seq<u8> {
    Seq::new(bits.len() / 8, |i: int| bits_value(octet(bits, i)) as u8)
}

/// The bits after the last full run of eight: those that wait for a byte.
pub open spec fn pending(bits: Seq<bool>) -> Seq<bool> {
    bits.skip(8 * (bits.len() as int / 8))
}

/// The `count` lowest bits of `value`, least significant first.
pub open spec fn low_bits(value: nat, count: nat) -> Seq<bool>
    decreases count,
{
    if count == 0 {
        Seq::empty()
    } else {
        seq![value % 2 == 1] + low_bits(value / 2, (count - 1) as nat)
    }
}

/// The eight bits of `byte`, least significant first.
pub open spec fn byte_bits(byte: u8) -> Seq<bool> {
    low_bits(byte as nat, 8)
}

/// `n` bits spell a number below 2 to the `n`.
pub proof fn lemma_bits_value_bound(bits: Seq<bool>)
    ensures
        bits_value(bits) < pow2(bits.len()),
    decreases bits.len(),
{
    if bits.len() == 0 {
        lemma2_to64();
    } else {
        lemma_bits_value_bound(bits.drop_last());
        lemma_pow2_unfold(bits.len());
    }
}

/// `low_bits` gives as many bits as it is asked for.
pub proof fn lemma_low_bits_len(value: nat, count: nat)
    ensures
        low_bits(value, count).len() == count,
    decreases count,
{
    if count > 0 {
        lemma_low_bits_len(value / 2, (count - 1) as nat);
    }
}

/// One more bit fills a byte when it is the eighth of its run, and then the
/// byte is spelled by it and the seven that waited; the bytes before it stay.
pub proof fn lemma_packed_push(bits: Seq<bool>, bit: bool)
    ensures
        bits.push(bit).len() % 8 != 0 ==> packed(bits.push(bit)) == packed(bits) && pending(
            bits.push(bit),
        ) == pending(bits).push(bit),
        bits.push(bit).len() % 8 == 0 ==> packed(bits.push(bit)) == packed(bits).push(
            bits_value(pending(bits).push(bit)) as u8,
        ) && pending(bits.push(bit)) == Seq::<bool>::empty(),
        pending(bits).len() == bits.len() % 8,
{
    let more = bits.push(bit);
    assert forall|i: int| 0 <= i < bits.len() / 8 implies #[trigger] octet(more, i) == octet(
        bits,
        i,
    ) by {
        assert(octet(more, i) =~= octet(bits, i));
    }
    if more.len() % 8 != 0 {
        assert(packed(more) =~= packed(bits));
        assert(pending(more) =~= pending(bits).push(bit));
    } else {
        let k = (bits.len() / 8) as int;
        assert(octet(more, k) =~= pending(bits).push(bit));
        assert(packed(more) =~= packed(bits).push(bits_value(pending(bits).push(bit)) as u8));
        assert(pending(more) =~= Seq::<bool>::empty());
    }
}

/// The bits that could fill no byte are not in the bytes: the bytes are
/// those of the full runs alone, one for every eight bits.
pub proof fn lemma_packed_drops_remainder(bits: Seq<bool>)
    ensures
        packed(bits).len() == bits.len() / 8,
        packed(bits) == packed(bits.take(8 * (bits.len() as int / 8))),
{
    let full = bits.take(8 * (bits.len() as int / 8));
    assert forall|i: int| 0 <= i < bits.len() / 8 implies #[trigger] octet(full, i) == octet(
        bits,
        i,
    ) by {
        assert(octet(full, i) =~= octet(bits, i));
    }
    assert(packed(bits) =~= packed(full));
}

/// The lowest bits of a number, read back from the highest of them down,
/// spell what the number has below 2 to their count.
pub proof fn lemma_low_bits_spell(value: nat, count: nat)
    ensures
        bits_value(low_bits(value, count).reverse()) + pow2(count) * (value / pow2(count)) == value,
    decreases count,
{
    lemma_low_bits_len(value, count);
    if count == 0 {
        lemma2_to64();
        assert(low_bits(value, count).reverse() =~= Seq::<bool>::empty());
    } else {
        let half = value / 2;
        let less = (count - 1) as nat;
        let rest = low_bits(half, less);
        lemma_low_bits_len(half, less);
        lemma_low_bits_spell(half, less);
        lemma_pow2_unfold(count);
        lemma_pow2_pos(less);
        let turned = low_bits(value, count).reverse();
        assert(turned.drop_last() =~= rest.reverse());
        assert(turned.last() == (value % 2 == 1));
        lemma_div_denominator(value as int, 2, pow2(less) as int);
        assert(half / pow2(less) == value / pow2(count));
        let q = value / pow2(count);
        assert(2 * (pow2(less) * q) == pow2(count) * q) by (nonlinear_arith)
            requires
                pow2(count) == 2 * pow2(less),
        ;
    }
}

/// The bits of a byte as the input hands them out, written to the output in
/// the opposite order, give the byte back.
pub proof fn lemma_byte_round_trip(byte: u8)
    ensures
        byte_bits(byte).len() == 8,
        bits_value(byte_bits(byte).reverse()) == byte,
        packed(byte_bits(byte).reverse()) == seq![byte],
{
    lemma_low_bits_len(byte as nat, 8);
    lemma_low_bits_spell(byte as nat, 8);
    lemma2_to64();
    let turned = byte_bits(byte).reverse();
    assert(byte as nat / pow2(8) == 0);
    assert(pow2(8) * (byte as nat / pow2(8)) == 0);
    assert(octet(turned, 0) =~= turned);
    assert(packed(turned) =~= seq![byte]);
}

/// Collects output bits into bytes, most significant bit first.
pub struct BitWriter {
    acc: u8,
    count: u8,
    history: Ghost<Seq<bool>>,
}

impl View for BitWriter {
    type V = Seq<bool>;

    /// Every bit that was pushed, in order.
    closed spec fn view(&self) -> Seq<bool> {
        self.history@
    }
}

impl BitWriter {
    #[verifier::type_invariant]
    spec fn well_formed(&self) -> bool {
        &&& self.count == self.history@.len() % 8
        &&& self.acc == bits_value(pending(self.history@))
    }

    /// A writer that has taken no bit yet.
    pub fn new() -> (writer: BitWriter)
        ensures
            writer@ == Seq::<bool>::empty(),
    {
        assert(pending(Seq::<bool>::empty()) =~= Seq::<bool>::empty());
        BitWriter { acc: 0, count: 0, history: Ghost(Seq::empty()) }
    }

    /// How many bits wait for their byte to fill.
    pub fn waiting(&self) -> (n: u8)
        ensures
            n == self@.len() % 8,
    {
        proof {
            use_type_invariant(self);
        }
        self.count
    }

    /// Takes one more bit. With the eighth bit of a run the byte is full and
    /// is returned, and the next run starts empty.
    pub fn push(&mut self, bit: bool) -> (byte: Option<u8>)
        ensures
            final(self)@ == old(self)@.push(bit),
            byte is Some <==> final(self)@.len() % 8 == 0,
            packed(final(self)@) == (match byte {
                Some(b) => packed(old(self)@).push(b),
                None => packed(old(self)@),
            }),
        no_unwind
    {
        proof {
            use_type_invariant(&*self);
            lemma_packed_push(self.history@, bit);
            lemma_bits_value_bound(pending(self.history@));
            lemma_bits_value_bound(pending(self.history@).push(bit));
            lemma2_to64();
            assert(pending(self.history@).push(bit).drop_last() =~= pending(self.history@));
        }
        let low: u8 = if bit {
            1
        } else {
            0
        };
        let value: u8 = self.acc * 2 + low;
        let ghost history = self.history@.push(bit);
        if self.count == 7 {
            *self = BitWriter { acc: 0, count: 0, history: Ghost(history) };
            Some(value)
        } else {
            *self = BitWriter { acc: value, count: self.count + 1, history: Ghost(history) };
            None
        }
    }
}

/// Hands out the bits of one input byte at a time, least significant first.
pub struct BitReader {
    byte: u8,
    left: u8,
}

impl View for BitReader {
    type V = Seq<bool>;

    /// The bits that are still to be handed out, in order.
    closed spec fn view(&self) -> Seq<bool> {
        low_bits(self.byte as nat, self.left as nat)
    }
}

impl BitReader {
    #[verifier::type_invariant]
    spec fn well_formed(&self) -> bool {
        self.left <= 8
    }

    /// A reader that holds no bit.
    pub fn new() -> (reader: BitReader)
        ensures
            reader@ == Seq::<bool>::empty(),
    {
        BitReader { byte: 0, left: 0 }
    }

    /// Whether every bit has been handed out.
    pub fn is_empty(&self) -> (empty: bool)
        ensures
            empty == (self@.len() == 0),
    {
        proof {
            lemma_low_bits_len(self.byte as nat, self.left as nat);
        }
        self.left == 0
    }

    /// Takes `byte` in place of what the reader held.
    pub fn refill(&mut self, byte: u8)
        ensures
            final(self)@ == byte_bits(byte),
        no_unwind
    {
        *self = BitReader { byte, left: 8 };
    }

    /// Hands out the next bit, if one is left.
    pub fn take(&mut self) -> (bit: Option<bool>)
        ensures
            old(self)@.len() == 0 ==> bit is None && final(self)@ == old(self)@,
            old(self)@.len() > 0 ==> bit == Some(old(self)@[0]) && final(self)@ == old(
                self,
            )@.drop_first(),
        no_unwind
    {
        proof {
            use_type_invariant(&*self);
            lemma_low_bits_len(self.byte as nat, self.left as nat);
        }
        if self.left == 0 {
            None
        } else {
            let bit = self.byte % 2 == 1;
            proof {
                let rest = low_bits((self.byte / 2) as nat, (self.left - 1) as nat);
                assert((seq![bit] + rest).drop_first() =~= rest);
            }
            *self = BitReader { byte: self.byte / 2, left: self.left - 1 };
            Some(bit)
        }
    }
}

} // verus!
