//! The wire form of an address: the bytes by which a host hands an address
//! over. First come the tags, four bytes each: the kind of value (18, an
//! address), the kind of address (0 for an account, 1 for a contract) and,
//! for an account, the kind of key (0). Then comes the key, 32 bytes, most
//! significant byte first.

use vstd::prelude::*;
use vstd::arithmetic::div_mod::lemma_div_denominator;
use crate::address::{Address, AddressKind};

verus! {

/// The number of numbers that `width` bytes can hold: 256 to the power of
/// `width`.
pub open spec fn limit(width: nat) -> nat
    decreases width,
{
    if width == 0 {
        1
    } else {
        256 * limit((width - 1) as nat)
    }
}

/// The lowest `width` bytes of `value`, most significant byte first.
pub open spec fn be_bytes(value: nat, width: nat) -> Seq<u8>
    decreases width,
{
    if width == 0 {
        Seq::empty()
    } else {
        be_bytes(value / 256, (width - 1) as nat).push((value % 256) as u8)
    }
}

/// The number that `bytes` spell, most significant byte first.
pub open spec fn be_value(bytes: Seq<u8>) -> nat
    decreases bytes.len(),
{
    if bytes.len() == 0 {
        0
    } else {
        be_value(bytes.drop_last()) * 256 + bytes.last() as nat
    }
}

/// How many tag bytes stand before the key.
pub open spec fn tag_count(kind: AddressKind) -> nat {
    match kind {
        AddressKind::Account => 12,
        AddressKind::Contract => 8,
    }
}

/// The tag byte at `index`.
pub open spec fn tag_at(kind: AddressKind, index: int) -> u8 {
    if index == 3 {
        18
    } else if index == 7 && kind == AddressKind::Contract {
        1
    } else {
        0
    }
}

/// The tags that stand before the key.
pub open spec fn wire_tags(kind: AddressKind) -> Seq<u8> {
    Seq::new(tag_count(kind), |index: int| tag_at(kind, index))
}

/// The wire form of an address: its tags, then the two halves of its key.
pub open spec fn wire_form(address: Address) -> Seq<u8> {
    wire_tags(address.kind) + be_bytes(address.hi as nat, 16) + be_bytes(address.lo as nat, 16)
}

/// Sixteen bytes hold the numbers below two to the power of 128.
pub proof fn lemma_limit_16()
    ensures
        limit(15) == 0x100_0000_0000_0000_0000_0000_0000_0000,
        limit(16) == 0x1_0000_0000_0000_0000_0000_0000_0000_0000,
{
    reveal_with_fuel(limit, 17);
}

/// More bytes hold more numbers.
pub proof fn lemma_limit_grows(narrow: nat, wide: nat)
    requires
        narrow <= wide,
    ensures
        0 < limit(narrow) <= limit(wide),
    decreases wide,
{
    if narrow < wide {
        lemma_limit_grows(narrow, (wide - 1) as nat);
    } else if wide > 0 {
        lemma_limit_grows((narrow - 1) as nat, (wide - 1) as nat);
    }
}

/// `width` bytes are `width` bytes.
pub proof fn lemma_be_bytes_len(value: nat, width: nat)
    ensures
        be_bytes(value, width).len() == width,
    decreases width,
{
    if width > 0 {
        lemma_be_bytes_len(value / 256, (width - 1) as nat);
    }
}

/// Bytes spell a number that fits in as many bytes, and that number is
/// written with just those bytes.
pub proof fn lemma_bytes_of_value(bytes: Seq<u8>)
    ensures
        be_value(bytes) < limit(bytes.len()),
        be_bytes(be_value(bytes), bytes.len()) == bytes,
    decreases bytes.len(),
{
    if bytes.len() > 0 {
        let front = bytes.drop_last();
        lemma_bytes_of_value(front);
        let value = be_value(bytes);
        assert(value / 256 == be_value(front));
        assert(value % 256 == bytes.last() as nat);
        assert(be_bytes(value, bytes.len()) =~= bytes);
    } else {
        assert(be_bytes(0, 0) =~= bytes);
    }
}

/// A number that fits in `width` bytes is the number that its `width` bytes
/// spell.
pub proof fn lemma_value_of_bytes(value: nat, width: nat)
    requires
        value < limit(width),
    ensures
        be_value(be_bytes(value, width)) == value,
    decreases width,
{
    if width > 0 {
        lemma_value_of_bytes(value / 256, (width - 1) as nat);
        let bytes = be_bytes(value, width);
        assert(bytes.drop_last() =~= be_bytes(value / 256, (width - 1) as nat));
    }
}

/// The shape of every wire form: the tags of its kind, and 32 bytes of key.
pub proof fn lemma_wire_form_shape(address: Address)
    ensures
        wire_form(address).len() == tag_count(address.kind) + 32,
        forall|index: int|
            0 <= index < tag_count(address.kind) ==> #[trigger] wire_form(address)[index]
                == tag_at(address.kind, index),
        wire_form(address).subrange(
            tag_count(address.kind) as int,
            tag_count(address.kind) as int + 16,
        ) =~= be_bytes(address.hi as nat, 16),
        wire_form(address).subrange(
            tag_count(address.kind) as int + 16,
            tag_count(address.kind) as int + 32,
        ) =~= be_bytes(address.lo as nat, 16),
{
    lemma_be_bytes_len(address.hi as nat, 16);
    lemma_be_bytes_len(address.lo as nat, 16);
}

/// Different addresses have different wire forms.
pub proof fn lemma_wire_form_injective(one: Address, other: Address)
    requires
        wire_form(one) == wire_form(other),
    ensures
        one == other,
{
    lemma_wire_form_shape(one);
    lemma_wire_form_shape(other);
    lemma_limit_16();
    lemma_value_of_bytes(one.hi as nat, 16);
    lemma_value_of_bytes(other.hi as nat, 16);
    lemma_value_of_bytes(one.lo as nat, 16);
    lemma_value_of_bytes(other.lo as nat, 16);
}

/// The tag byte at `index`.
fn tag(kind: AddressKind, index: usize) -> (byte: u8)
    ensures
        byte == tag_at(kind, index as int),
{
    if index == 3 {
        18
    } else if index == 7 {
        match kind {
            AddressKind::Account => 0,
            AddressKind::Contract => 1,
        }
    } else {
        0
    }
}

/// Appends the sixteen bytes of `value`, most significant byte first.
fn push_be(out: &mut Vec<u8>, value: u128)
    ensures
        final(out)@ == old(out)@ + be_bytes(value as nat, 16),
{
    let ghost base = out@;
    let mut divisor: u128 = 0x100_0000_0000_0000_0000_0000_0000_0000;
    let mut done: usize = 0;
    proof {
        lemma_limit_16();
        assert(base + be_bytes(value as nat / limit(16), 0) =~= base);
    }
    while done < 16
        invariant
            done <= 16,
            done < 16 ==> divisor == limit((15 - done) as nat),
            out@ == base + be_bytes(value as nat / limit((16 - done) as nat), done as nat),
        decreases 16 - done,
    {
        let ghost place = limit((15 - done) as nat);
        let ghost before = be_bytes(value as nat / limit((16 - done) as nat), done as nat);
        proof {
            lemma_limit_grows((15 - done) as nat, 15);
            lemma_div_denominator(value as int, place as int, 256);
            assert(limit((16 - done) as nat) == 256 * place);
            assert(place * 256 == 256 * place);
        }
        let byte: u8 = ((value / divisor) % 256) as u8;
        out.push(byte);
        proof {
            let shifted = value as nat / place;
            assert(shifted / 256 == value as nat / limit((16 - done) as nat));
            assert(be_bytes(shifted, (done + 1) as nat) == before.push(byte));
            assert(out@ =~= base + before.push(byte));
        }
        done += 1;
        if done < 16 {
            divisor = divisor / 256;
        }
    }
    proof {
        assert(done == 16);
        assert(limit(0) == 1);
        assert(value as nat / limit(0) == value as nat);
    }
}

/// Reads the number that the sixteen bytes from `start` on spell.
fn read_be(bytes: &[u8], start: usize) -> (value: u128)
    requires
        start + 16 <= bytes@.len(),
    ensures
        value == be_value(bytes@.subrange(start as int, start + 16)),
{
    let length: usize = bytes.len();
    let mut value: u128 = 0;
    let mut read: usize = 0;
    proof {
        lemma_limit_16();
    }
    while read < 16
        invariant
            read <= 16,
            start + 16 <= bytes@.len() == length,
            value == be_value(bytes@.subrange(start as int, start + read)),
            value < limit(read as nat),
            limit(16) == 0x1_0000_0000_0000_0000_0000_0000_0000_0000,
        decreases 16 - read,
    {
        let ghost seen = bytes@.subrange(start as int, start + read);
        let ghost next = bytes@.subrange(start as int, start + read + 1);
        proof {
            lemma_limit_grows((read + 1) as nat, 16);
            assert(next.drop_last() =~= seen);
        }
        let byte: u8 = bytes[start + read];
        value = value * 256 + byte as u128;
        read += 1;
    }
    value
}

impl Address {
    /// The wire form of the address.
    pub fn to_wire(&self) -> (bytes: Vec<u8>)
        ensures
            bytes@ == wire_form(*self),
    {
        let count: usize = match self.kind {
            AddressKind::Account => 12,
            AddressKind::Contract => 8,
        };
        let mut bytes: Vec<u8> = Vec::new();
        let mut index: usize = 0;
        while index < count
            invariant
                index <= count == tag_count(self.kind),
                bytes@.len() == index,
                forall|i: int| 0 <= i < index ==> bytes@[i] == tag_at(self.kind, i),
            decreases count - index,
        {
            bytes.push(tag(self.kind, index));
            index += 1;
        }
        assert(bytes@ =~= wire_tags(self.kind));
        push_be(&mut bytes, self.hi);
        push_be(&mut bytes, self.lo);
        bytes
    }

    /// The one address that `bytes` are the wire form of, if they are one.
    pub fn from_wire(bytes: &[u8]) -> (address: Option<Address>)
        ensures
            (match address {
                Some(address) => bytes@ == wire_form(address) && forall|any: Address|
                    bytes@ == #[trigger] wire_form(any) ==> any == address,
                None => forall|any: Address| bytes@ != #[trigger] wire_form(any),
            }),
    {
        let kind = if bytes.len() == 44 {
            AddressKind::Account
        } else if bytes.len() == 40 {
            AddressKind::Contract
        } else {
            proof {
                assert forall|any: Address| bytes@ != #[trigger] wire_form(any) by {
                    lemma_wire_form_shape(any);
                }
            }
            return None;
        };
        let count: usize = bytes.len() - 32;
        let mut index: usize = 0;
        while index < count
            invariant
                index <= count == tag_count(kind),
                bytes@.len() == count + 32,
                forall|i: int| 0 <= i < index ==> bytes@[i] == tag_at(kind, i),
            decreases count - index,
        {
            if bytes[index] != tag(kind, index) {
                proof {
                    assert forall|any: Address| bytes@ != #[trigger] wire_form(any) by {
                        lemma_wire_form_shape(any);
                        if any.kind == kind {
                            assert(wire_form(any)[index as int] == tag_at(kind, index as int));
                        }
                    }
                }
                return None;
            }
            index += 1;
        }
        let hi = read_be(bytes, count);
        let lo = read_be(bytes, count + 16);
        let address = Address { kind, hi, lo };
        proof {
            lemma_bytes_of_value(bytes@.subrange(count as int, count + 16));
            lemma_bytes_of_value(bytes@.subrange(count + 16, count + 32));
            lemma_wire_form_shape(address);
            assert(bytes@ =~= wire_form(address));
            assert forall|any: Address| bytes@ == #[trigger] wire_form(any) implies any
                == address by {
                lemma_wire_form_injective(any, address);
            }
        }
        Some(address)
    }
}

} // verus!
