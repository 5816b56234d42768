//! What can be read back from the encodings.
use crate::codec::{
    bytes_field, bytes_size, change_number, conf_change_bytes, conf_state_bytes, entry_size,
    entry_type_number, number_field, number_size, opt_bytes_field, opt_number_field,
    repeated_field, varint,
};
use crate::eraftpb::{ConfChangeView, ConfStateView, EntryView};
use crate::text::{decimal, digit};
use vstd::prelude::*;

verus! {

/// The number that base 128 digits stand for, the low ones first; a digit is a byte without its
/// high bit.
pub open spec fn base_128(bytes: Seq<u8>) -> nat
    decreases bytes.len(),
{
    if bytes.len() == 0 {
        0
    } else {
        (bytes[0] % 128) as nat + 128 * base_128(bytes.skip(1))
    }
}

/// The encoding of a number stands for that number, in base 128. Its bytes have the high bit set,
/// all but the last.
pub proof fn law_varint_is_base_128(n: nat)
    ensures
        varint(n).len() > 0,
        base_128(varint(n)) == n,
        varint(n).last() < 128,
        forall|i: int| 0 <= i < varint(n).len() - 1 ==> #[trigger] varint(n)[i] >= 128,
    decreases n,
{
    let v = varint(n);
    if n < 128 {
        assert(v.skip(1) =~= Seq::<u8>::empty());
        assert(base_128(v.skip(1)) == 0);
    } else {
        let rest = varint(n / 128);
        law_varint_is_base_128(n / 128);
        assert(v.skip(1) =~= rest);
        assert(v[0] == (n % 128 + 128) as u8);
        assert forall|i: int| 0 <= i < v.len() - 1 implies #[trigger] v[i] >= 128 by {
            if i > 0 {
                assert(v[i] == rest[i - 1]);
            }
        }
        assert(v.last() == rest.last());
    }
}

proof fn lemma_varint_prefix(a: nat, x: Seq<u8>, b: nat, y: Seq<u8>)
    requires
        varint(a) + x == varint(b) + y,
    ensures
        a == b,
        x == y,
    decreases a,
{
    let s = varint(a) + x;
    let t = varint(b) + y;
    assert(s[0] == t[0]);
    assert(s[0] == varint(a)[0]);
    assert(t[0] == varint(b)[0]);
    if a < 128 || b < 128 {
        assert(a < 128 && b < 128);
        assert(a as u8 == b as u8);
        assert(s.skip(1) =~= x);
        assert(t.skip(1) =~= y);
    } else {
        assert(s.skip(1) =~= varint(a / 128) + x);
        assert(t.skip(1) =~= varint(b / 128) + y);
        lemma_varint_prefix(a / 128, x, b / 128, y);
    }
}

// Fields.
/// Whether bytes begin with a field of a greater number than `field`, or are none at all.
spec fn begins_after(bytes: Seq<u8>, field: nat) -> bool {
    bytes.len() > 0 ==> bytes[0] >= 8 * (field + 1)
}

proof fn lemma_tag(field: nat, kind: nat)
    requires
        1 <= field < 16,
        kind < 8,
    ensures
        varint(field * 8 + kind) == seq![(field * 8 + kind) as u8],
{
}

proof fn lemma_number_field(field: nat, a: nat, x: Seq<u8>, b: nat, y: Seq<u8>)
    requires
        1 <= field < 16,
        begins_after(x, field),
        begins_after(y, field),
        opt_number_field(field, a) + x == opt_number_field(field, b) + y,
    ensures
        a == b,
        x == y,
{
    lemma_tag(field, 0);
    let tag = seq![(field * 8) as u8];
    let s = opt_number_field(field, a) + x;
    let t = opt_number_field(field, b) + y;
    if a == 0 {
        assert(s =~= x);
    } else {
        assert(s =~= tag + (varint(a) + x));
        assert(s[0] == (field * 8) as u8);
        assert(s.skip(1) =~= varint(a) + x);
    }
    if b == 0 {
        assert(t =~= y);
    } else {
        assert(t =~= tag + (varint(b) + y));
        assert(t[0] == (field * 8) as u8);
        assert(t.skip(1) =~= varint(b) + y);
    }
    if a != 0 && b != 0 {
        lemma_varint_prefix(a, x, b, y);
    }
}

proof fn lemma_bytes_content(a: Seq<u8>, x: Seq<u8>, b: Seq<u8>, y: Seq<u8>, field: nat)
    requires
        1 <= field < 16,
        a.len() < 0x1_0000_0000,
        b.len() < 0x1_0000_0000,
        bytes_field(field, a) + x == bytes_field(field, b) + y,
    ensures
        a == b,
        x == y,
{
    lemma_tag(field, 2);
    let s = bytes_field(field, a) + x;
    let t = bytes_field(field, b) + y;
    assert(s.skip(1) =~= varint(a.len()) + (a + x));
    assert(t.skip(1) =~= varint(b.len()) + (b + y));
    lemma_varint_prefix(a.len(), a + x, b.len(), b + y);
    assert(a =~= (a + x).take(a.len() as int));
    assert(b =~= (b + y).take(b.len() as int));
    assert(x =~= (a + x).skip(a.len() as int));
    assert(y =~= (b + y).skip(b.len() as int));
}

proof fn lemma_bytes_field(field: nat, a: Seq<u8>, x: Seq<u8>, b: Seq<u8>, y: Seq<u8>)
    requires
        1 <= field < 16,
        a.len() < 0x1_0000_0000,
        b.len() < 0x1_0000_0000,
        begins_after(x, field),
        begins_after(y, field),
        opt_bytes_field(field, a) + x == opt_bytes_field(field, b) + y,
    ensures
        a == b,
        x == y,
{
    lemma_tag(field, 2);
    let s = opt_bytes_field(field, a) + x;
    let t = opt_bytes_field(field, b) + y;
    if a.len() == 0 {
        assert(s =~= x);
    } else {
        assert(s[0] == bytes_field(field, a)[0]);
        assert(s[0] == (field * 8 + 2) as u8);
    }
    if b.len() == 0 {
        assert(t =~= y);
    } else {
        assert(t[0] == bytes_field(field, b)[0]);
        assert(t[0] == (field * 8 + 2) as u8);
    }
    if a.len() > 0 && b.len() > 0 {
        lemma_bytes_content(a, x, b, y, field);
    }
    if a.len() == 0 && b.len() == 0 {
        assert(a =~= b);
    }
}

proof fn lemma_repeated_front(field: nat, ids: Seq<u64>)
    requires
        ids.len() > 0,
    ensures
        repeated_field(field, ids) == number_field(field, ids[0] as nat) + repeated_field(
            field,
            ids.skip(1),
        ),
    decreases ids.len(),
{
    let rest = ids.drop_last();
    if rest.len() == 0 {
        assert(ids.skip(1) =~= Seq::<u64>::empty());
        assert(repeated_field(field, rest) =~= Seq::<u8>::empty());
        assert(repeated_field(field, ids) =~= number_field(field, ids[0] as nat)
            + repeated_field(field, ids.skip(1)));
    } else {
        lemma_repeated_front(field, rest);
        assert(rest.skip(1) =~= ids.skip(1).drop_last());
        assert(ids.skip(1).last() == ids.last());
        assert(repeated_field(field, ids) =~= number_field(field, ids[0] as nat)
            + repeated_field(field, ids.skip(1)));
    }
}

proof fn lemma_repeated_field(field: nat, a: Seq<u64>, x: Seq<u8>, b: Seq<u64>, y: Seq<u8>)
    requires
        1 <= field < 16,
        begins_after(x, field),
        begins_after(y, field),
        repeated_field(field, a) + x == repeated_field(field, b) + y,
    ensures
        a == b,
        x == y,
    decreases a.len(),
{
    lemma_tag(field, 0);
    let s = repeated_field(field, a) + x;
    let t = repeated_field(field, b) + y;
    if a.len() == 0 {
        assert(s =~= x);
    } else {
        lemma_repeated_front(field, a);
        let more = repeated_field(field, a.skip(1));
        assert(s =~= seq![(field * 8) as u8] + (varint(a[0] as nat) + (more + x)));
        assert(s[0] == (field * 8) as u8);
        assert(s.skip(1) =~= varint(a[0] as nat) + (more + x));
    }
    if b.len() == 0 {
        assert(t =~= y);
    } else {
        lemma_repeated_front(field, b);
        let more = repeated_field(field, b.skip(1));
        assert(t =~= seq![(field * 8) as u8] + (varint(b[0] as nat) + (more + y)));
        assert(t[0] == (field * 8) as u8);
        assert(t.skip(1) =~= varint(b[0] as nat) + (more + y));
    }
    if a.len() > 0 && b.len() > 0 {
        let u = repeated_field(field, a.skip(1)) + x;
        let v = repeated_field(field, b.skip(1)) + y;
        lemma_varint_prefix(a[0] as nat, u, b[0] as nat, v);
        lemma_repeated_field(field, a.skip(1), x, b.skip(1), y);
        assert(a =~= seq![a[0]] + a.skip(1));
        assert(b =~= seq![b[0]] + b.skip(1));
    } else if a.len() == 0 && b.len() == 0 {
        assert(a =~= b);
    }
}

proof fn lemma_repeated_begins(field: nat, ids: Seq<u64>, before: nat)
    requires
        1 <= field < 16,
        before < field,
    ensures
        begins_after(repeated_field(field, ids), before),
{
    if ids.len() > 0 {
        lemma_repeated_front(field, ids);
        lemma_tag(field, 0);
    }
}

/// Configurations that are encoded alike are the same.
pub proof fn law_configuration_is_read_back(a: ConfStateView, b: ConfStateView)
    requires
        conf_state_bytes(a) == conf_state_bytes(b),
    ensures
        a == b,
{
    let none = Seq::<u8>::empty();
    let x = repeated_field(2, a.learners);
    let y = repeated_field(2, b.learners);
    lemma_repeated_begins(2, a.learners, 1);
    lemma_repeated_begins(2, b.learners, 1);
    lemma_repeated_field(1, a.nodes, x, b.nodes, y);
    assert(x + none =~= x);
    assert(y + none =~= y);
    lemma_repeated_field(2, a.learners, none, b.learners, none);
}

proof fn lemma_number_begins(field: nat, value: nat, rest: Seq<u8>, before: nat)
    requires
        1 <= field < 16,
        before < field,
        begins_after(rest, before),
    ensures
        begins_after(opt_number_field(field, value) + rest, before),
{
    lemma_tag(field, 0);
    if value == 0 {
        assert(opt_number_field(field, value) + rest =~= rest);
    } else {
        assert((opt_number_field(field, value) + rest)[0] == (field * 8) as u8);
    }
}

proof fn lemma_bytes_begin(field: nat, value: Seq<u8>, rest: Seq<u8>, before: nat)
    requires
        1 <= field < 16,
        before < field,
        begins_after(rest, before),
    ensures
        begins_after(opt_bytes_field(field, value) + rest, before),
        begins_after(bytes_field(field, value) + rest, before),
{
    lemma_tag(field, 2);
    if value.len() == 0 {
        assert(opt_bytes_field(field, value) + rest =~= rest);
    }
    assert((bytes_field(field, value) + rest)[0] == (field * 8 + 2) as u8);
}

/// The part of an encoded change that holds the configuration.
spec fn configuration_part(c: ConfChangeView) -> Seq<u8> {
    match c.configuration {
        Some(conf) => bytes_field(5, conf_state_bytes(conf)),
        None => Seq::empty(),
    }
}

/// The parts of an encoded change from the given one on.
spec fn from_part(c: ConfChangeView, part: nat) -> Seq<u8> {
    let last = opt_number_field(6, c.start_index as nat) + Seq::empty();
    let fifth = configuration_part(c) + last;
    let fourth = opt_bytes_field(4, c.context) + fifth;
    let third = opt_number_field(3, c.node_id as nat) + fourth;
    let second = opt_number_field(2, change_number(c.change_type)) + third;
    if part == 6 {
        last
    } else if part == 5 {
        fifth
    } else if part == 4 {
        fourth
    } else if part == 3 {
        third
    } else if part == 2 {
        second
    } else {
        opt_number_field(1, c.id as nat) + second
    }
}

proof fn lemma_six_parts(
    a: Seq<u8>,
    b: Seq<u8>,
    c: Seq<u8>,
    d: Seq<u8>,
    e: Seq<u8>,
    f: Seq<u8>,
)
    ensures
        a + b + c + d + e + f == a + (b + (c + (d + (e + (f + Seq::empty()))))),
{
    assert(a + b + c + d + e + f =~= a + (b + (c + (d + (e + (f + Seq::empty()))))));
}

proof fn lemma_parts_join(c: ConfChangeView)
    ensures
        conf_change_bytes(c) == from_part(c, 1),
{
    lemma_six_parts(
        opt_number_field(1, c.id as nat),
        opt_number_field(2, change_number(c.change_type)),
        opt_number_field(3, c.node_id as nat),
        opt_bytes_field(4, c.context),
        configuration_part(c),
        opt_number_field(6, c.start_index as nat),
    );
}

proof fn lemma_parts(c: ConfChangeView)
    ensures
        conf_change_bytes(c) == from_part(c, 1),
        begins_after(from_part(c, 2), 1),
        begins_after(from_part(c, 3), 2),
        begins_after(from_part(c, 4), 3),
        begins_after(from_part(c, 5), 4),
        begins_after(from_part(c, 6), 5),
{
    let none = Seq::<u8>::empty();
    lemma_number_begins(6, c.start_index as nat, none, 5);
    let last = from_part(c, 6);
    if let Some(conf) = c.configuration {
        lemma_bytes_begin(5, conf_state_bytes(conf), last, 4);
    } else {
        assert(from_part(c, 5) =~= last);
    }
    let fifth = from_part(c, 5);
    lemma_bytes_begin(4, c.context, fifth, 3);
    lemma_number_begins(3, c.node_id as nat, from_part(c, 4), 2);
    lemma_number_begins(2, change_number(c.change_type), from_part(c, 3), 1);
    lemma_parts_join(c);
}

/// Configuration changes that are encoded alike are the same: whoever applies an entry gets the
/// change that was proposed. That is of contexts and configurations whose length fits the encoding.
pub proof fn law_change_is_read_back(a: ConfChangeView, b: ConfChangeView)
    requires
        conf_change_bytes(a) == conf_change_bytes(b),
        a.context.len() < 0x1_0000_0000,
        b.context.len() < 0x1_0000_0000,
        a.configuration matches Some(conf) ==> conf_state_bytes(conf).len() < 0x1_0000_0000,
        b.configuration matches Some(conf) ==> conf_state_bytes(conf).len() < 0x1_0000_0000,
    ensures
        a == b,
{
    let none = Seq::<u8>::empty();
    lemma_parts(a);
    lemma_parts(b);
    lemma_number_field(1, a.id as nat, from_part(a, 2), b.id as nat, from_part(b, 2));
    lemma_number_field(
        2,
        change_number(a.change_type),
        from_part(a, 3),
        change_number(b.change_type),
        from_part(b, 3),
    );
    lemma_number_field(3, a.node_id as nat, from_part(a, 4), b.node_id as nat, from_part(b, 4));
    lemma_bytes_field(4, a.context, from_part(a, 5), b.context, from_part(b, 5));
    lemma_tag(5, 2);
    let x = from_part(a, 6);
    let y = from_part(b, 6);
    if a.configuration is Some && b.configuration is Some {
        let p = a.configuration->0;
        let q = b.configuration->0;
        lemma_bytes_content(conf_state_bytes(p), x, conf_state_bytes(q), y, 5);
        law_configuration_is_read_back(p, q);
    } else {
        lemma_number_begins(6, a.start_index as nat, none, 5);
        lemma_number_begins(6, b.start_index as nat, none, 5);
        if a.configuration is Some {
            assert(from_part(a, 5)[0] == 42);
            assert(from_part(b, 5) =~= y);
        }
        if b.configuration is Some {
            assert(from_part(b, 5)[0] == 42);
            assert(from_part(a, 5) =~= x);
        }
        assert(from_part(a, 5) =~= x);
        assert(from_part(b, 5) =~= y);
    }
    lemma_number_field(6, a.start_index as nat, none, b.start_index as nat, none);
}

/// The size of an entry is the length of its encoding: its type, term, index, data and context, as
/// fields that are left out if they have their default.
pub proof fn law_entry_size_is_the_encoded_length(e: EntryView)
    requires
        e.data.len() < 0x1_0000_0000,
        e.context.len() < 0x1_0000_0000,
    ensures
        entry_size(e) == (opt_number_field(1, entry_type_number(e.entry_type))
            + opt_number_field(2, e.term as nat) + opt_number_field(3, e.index as nat)
            + opt_bytes_field(4, e.data) + opt_bytes_field(6, e.context)).len(),
{
    lemma_tag(1, 0);
    lemma_tag(2, 0);
    lemma_tag(3, 0);
    lemma_tag(4, 2);
    lemma_tag(6, 2);
    assert(number_size(e.term as nat) == opt_number_field(2, e.term as nat).len());
    assert(number_size(e.index as nat) == opt_number_field(3, e.index as nat).len());
    assert(bytes_size(e.data) == opt_bytes_field(4, e.data).len());
    assert(bytes_size(e.context) == opt_bytes_field(6, e.context).len());
}

// Texts.
/// The number that decimal digits stand for.
pub open spec fn base_10(text: Seq<char>) -> nat
    decreases text.len(),
{
    if text.len() == 0 {
        0
    } else {
        10 * base_10(text.drop_last()) + (text.last() as int - '0' as int) as nat
    }
}

/// The decimal text of a number is made of digits, has no leading zero, and stands for that number.
pub proof fn law_decimal_is_base_10(n: nat)
    ensures
        decimal(n).len() > 0,
        base_10(decimal(n)) == n,
        n > 0 ==> decimal(n)[0] != '0',
        forall|i: int| 0 <= i < decimal(n).len() ==> '0' <= #[trigger] decimal(n)[i] <= '9',
    decreases n,
{
    let t = decimal(n);
    if n < 10 {
        assert(t.drop_last() =~= Seq::<char>::empty());
        assert(base_10(Seq::<char>::empty()) == 0);
        assert(t.last() == digit(n));
    } else {
        law_decimal_is_base_10(n / 10);
        assert(t.drop_last() =~= decimal(n / 10));
        assert(t.last() == digit(n % 10));
        assert(t[0] == decimal(n / 10)[0]);
    }
}

} // verus!
