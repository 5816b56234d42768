//! The encoding of configuration changes, and the encoded size of entries.
//!
//! A change travels as the data of an entry, in the wire format of protocol buffers.
//! A field that holds its default value is left out.
use crate::eraftpb::{
    ConfChange, ConfChangeType, ConfChangeView, ConfState, ConfStateView, Entry, EntryType,
    EntryView,
};
use vstd::prelude::*;

verus! {

/// The base 128 encoding of `n`: seven bits a byte, the low ones first, and the high
/// bit set on every byte but the last.
pub open spec fn varint(n: nat) -> Seq<u8>
    decreases n,
{
    if n < 128 {
        seq![n as u8]
    } else {
        seq![(n % 128 + 128) as u8] + varint(n / 128)
    }
}

/// A field that holds a number: the tag, then the number.
pub open spec fn number_field(field: nat, value: nat) -> Seq<u8> {
    varint(field * 8) + varint(value)
}

/// A field that holds bytes: the tag, the length as 32 bits, then the bytes.
pub open spec fn bytes_field(field: nat, value: Seq<u8>) -> Seq<u8> {
    varint(field * 8 + 2) + varint(value.len() % 0x1_0000_0000) + value
}

/// Calls `CodedOutputStream::write_uint64` on a stream over `buf`, and flushes it: the
/// tag of the field with wire type 0 and the value are appended, each in base 128.
#[verifier::external_body]
fn write_uint64(buf: &mut Vec<u8>, field: u32, value: u64)
    requires
        1 <= field <= 0x1fff_ffff,
    ensures
        final(buf)@ == old(buf)@ + number_field(field as nat, value as nat),
{
    let mut os = protobuf::CodedOutputStream::vec(buf);
    os.write_uint64(field, value).unwrap();
    os.flush().unwrap();
}

/// Calls `CodedOutputStream::write_enum` on a stream over `buf`, and flushes it: the
/// tag of the field with wire type 0 and the number of the variant are appended, each
/// in base 128.
#[verifier::external_body]
fn write_enum(buf: &mut Vec<u8>, field: u32, value: i32)
    requires
        1 <= field <= 0x1fff_ffff,
        0 <= value,
    ensures
        final(buf)@ == old(buf)@ + number_field(field as nat, value as nat),
{
    let mut os = protobuf::CodedOutputStream::vec(buf);
    os.write_enum(field, value).unwrap();
    os.flush().unwrap();
}

/// Calls `CodedOutputStream::write_bytes` on a stream over `buf`, and flushes it: the
/// tag of the field with wire type 2, the length cut to 32 bits, each in base 128, and
/// the bytes are appended.
#[verifier::external_body]
fn write_bytes(buf: &mut Vec<u8>, field: u32, value: &Vec<u8>)
    requires
        1 <= field <= 0x1fff_ffff,
    ensures
        final(buf)@ == old(buf)@ + bytes_field(field as nat, value@),
{
    let mut os = protobuf::CodedOutputStream::vec(buf);
    os.write_bytes(field, value).unwrap();
    os.flush().unwrap();
}

/// Calls `protobuf::rt::compute_raw_varint64_size`: the number of bytes that the base
/// 128 encoding of `value` takes.
#[verifier::external_body]
fn varint_size(value: u64) -> (r: u32)
    ensures
        r == varint(value as nat).len(),
        1 <= r <= 10,
{
    protobuf::rt::compute_raw_varint64_size(value)
}

/// The number of a kind of change in the encoding.
pub open spec fn change_number(t: ConfChangeType) -> nat {
    match t {
        ConfChangeType::AddNode => 0,
        ConfChangeType::RemoveNode => 1,
        ConfChangeType::AddLearnerNode => 2,
        ConfChangeType::BeginMembershipChange => 3,
        ConfChangeType::FinalizeMembershipChange => 4,
    }
}

/// A number field, left out when it is 0.
pub open spec fn opt_number_field(field: nat, value: nat) -> Seq<u8> {
    if value == 0 {
        Seq::empty()
    } else {
        number_field(field, value)
    }
}

/// A bytes field, left out when it is empty.
pub open spec fn opt_bytes_field(field: nat, value: Seq<u8>) -> Seq<u8> {
    if value.len() == 0 {
        Seq::empty()
    } else {
        bytes_field(field, value)
    }
}

/// One number field for each of `ids`.
pub open spec fn repeated_field(field: nat, ids: Seq<u64>) -> Seq<u8>
    decreases ids.len(),
{
    if ids.len() == 0 {
        Seq::empty()
    } else {
        repeated_field(field, ids.drop_last()) + number_field(field, ids.last() as nat)
    }
}

/// The encoding of a configuration.
pub open spec fn conf_state_bytes(c: ConfStateView) -> Seq<u8> {
    repeated_field(1, c.nodes) + repeated_field(2, c.learners)
}

/// The encoding of a configuration change.
pub open spec fn conf_change_bytes(c: ConfChangeView) -> Seq<u8> {
    opt_number_field(1, c.id as nat) + opt_number_field(2, change_number(c.change_type))
        + opt_number_field(3, c.node_id as nat) + opt_bytes_field(4, c.context) + (
    match c.configuration {
        Some(conf) => bytes_field(5, conf_state_bytes(conf)),
        None => Seq::empty(),
    }) + opt_number_field(6, c.start_index as nat)
}

fn write_ids(buf: &mut Vec<u8>, field: u32, ids: &Vec<u64>)
    requires
        1 <= field <= 0x1fff_ffff,
    ensures
        final(buf)@ == old(buf)@ + repeated_field(field as nat, ids@),
{
    let ghost start = buf@;
    let mut i: usize = 0;
    assert(ids@.take(0) =~= Seq::<u64>::empty());
    assert(buf@ =~= start + repeated_field(field as nat, ids@.take(0)));
    while i < ids.len()
        invariant
            1 <= field <= 0x1fff_ffff,
            i <= ids.len(),
            buf@ == start + repeated_field(field as nat, ids@.take(i as int)),
        decreases ids.len() - i,
    {
        write_uint64(buf, field, ids[i]);
        proof {
            let next = ids@.take(i + 1);
            assert(next.drop_last() =~= ids@.take(i as int));
            assert(next.last() == ids@[i as int]);
            assert(buf@ =~= start + repeated_field(field as nat, next));
        }
        i += 1;
    }
    assert(ids@.take(ids.len() as int) =~= ids@);
}

fn encode_conf_state(c: &ConfState) -> (r: Vec<u8>)
    ensures
        r@ == conf_state_bytes(c@),
{
    let mut buf: Vec<u8> = Vec::new();
    write_ids(&mut buf, 1, &c.nodes);
    write_ids(&mut buf, 2, &c.learners);
    assert(buf@ =~= conf_state_bytes(c@));
    buf
}

/// Encodes a configuration change.
pub fn encode_conf_change(c: &ConfChange) -> (r: Vec<u8>)
    ensures
        r@ == conf_change_bytes(c@),
{
    let mut buf: Vec<u8> = Vec::new();
    if c.id != 0 {
        write_uint64(&mut buf, 1, c.id);
    }
    match c.change_type {
        ConfChangeType::AddNode => {},
        ConfChangeType::RemoveNode => write_enum(&mut buf, 2, 1),
        ConfChangeType::AddLearnerNode => write_enum(&mut buf, 2, 2),
        ConfChangeType::BeginMembershipChange => write_enum(&mut buf, 2, 3),
        ConfChangeType::FinalizeMembershipChange => write_enum(&mut buf, 2, 4),
    }
    assert(buf@ =~= opt_number_field(1, c.id as nat) + opt_number_field(
        2,
        change_number(c.change_type),
    ));
    if c.node_id != 0 {
        write_uint64(&mut buf, 3, c.node_id);
    }
    if c.context.len() != 0 {
        write_bytes(&mut buf, 4, &c.context);
    }
    assert(buf@ =~= opt_number_field(1, c.id as nat) + opt_number_field(
        2,
        change_number(c.change_type),
    ) + opt_number_field(3, c.node_id as nat) + opt_bytes_field(4, c.context@));
    match &c.configuration {
        Some(conf) => {
            let inner = encode_conf_state(conf);
            write_bytes(&mut buf, 5, &inner);
        },
        None => {},
    }
    if c.start_index != 0 {
        write_uint64(&mut buf, 6, c.start_index);
    }
    assert(buf@ =~= conf_change_bytes(c@));
    buf
}

/// The bytes that a number field of the first fifteen takes.
pub open spec fn number_size(value: nat) -> nat {
    if value == 0 {
        0
    } else {
        1 + varint(value).len()
    }
}

/// The bytes that a bytes field of the first fifteen takes.
pub open spec fn bytes_size(value: Seq<u8>) -> nat {
    if value.len() == 0 {
        0
    } else {
        1 + varint(value.len()).len() + value.len()
    }
}

/// The number of a kind of entry in the encoding.
pub open spec fn entry_type_number(t: EntryType) -> nat {
    match t {
        EntryType::EntryNormal => 0,
        EntryType::EntryConfChange => 1,
    }
}

/// The bytes that the encoding of an entry takes.
pub open spec fn entry_size(e: EntryView) -> nat {
    number_size(entry_type_number(e.entry_type)) + number_size(e.term as nat) + number_size(
        e.index as nat,
    ) + bytes_size(e.data) + bytes_size(e.context)
}

fn size_of_number(value: u64) -> (r: u128)
    ensures
        r == number_size(value as nat),
        r <= 11,
{
    if value == 0 {
        0
    } else {
        1 + varint_size(value) as u128
    }
}

fn size_of_bytes(value: &Vec<u8>) -> (r: u128)
    ensures
        r == bytes_size(value@),
        r <= usize::MAX + 11,
{
    if value.len() == 0 {
        0
    } else {
        1 + varint_size(value.len() as u64) as u128 + value.len() as u128
    }
}

/// Returns the bytes that the encoding of an entry takes.
pub fn size_of_entry(e: &Entry) -> (r: u128)
    ensures
        r == entry_size(e@),
        r <= 2 * usize::MAX + 100,
{
    let kind: u64 = match e.entry_type {
        EntryType::EntryNormal => 0,
        EntryType::EntryConfChange => 1,
    };
    size_of_number(kind) + size_of_number(e.term) + size_of_number(e.index) + size_of_bytes(
        &e.data,
    ) + size_of_bytes(&e.context)
}

} // verus!
