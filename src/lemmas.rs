//! Properties of class file decoding, proved over the spec functions that
//! the decoder's contracts use.
use vstd::prelude::*;

use crate::bytes::{be16, be32, utf8_text};
use crate::classfile_parser::{
    decode_spec, end_of_input, entry_spec, has_magic, header_spec, index_pair_spec, pool_spec,
    ErrorKind, Header,
};
use crate::constant_pool::{
    Constant, CP_CLASS, CP_FIELDREF, CP_FLOAT, CP_INTEGER, CP_INTERFACE_METHODREF, CP_METHODREF,
    CP_NAME_AND_TYPE, CP_STRING, CP_UTF8,
};

verus! {

/// The slot holds a Long or Double entry.
pub open spec fn is_wide_slot(o: Option<Constant>) -> bool {
    o matches Some(c) && c.is_wide()
}

/// Slot 0 is empty, and every later slot is empty exactly when the slot
/// before it holds a wide entry.
pub open spec fn slot_layout(t: Seq<Option<Constant>>) -> bool {
    &&& t.len() >= 1
    &&& t[0] is None
    &&& forall|i: int| 1 <= i < t.len() ==> (#[trigger] t[i] is None <==> is_wide_slot(t[i - 1]))
}

/// A file that starts with the magic number and holds a whole header has, as
/// its versions, the big-endian words at bytes 4 and 6; a successful decode
/// reports exactly those.
pub proof fn lemma_header_versions(b: Seq<u8>)
    requires
        has_magic(b),
        b.len() >= 10,
    ensures
        header_spec(b) == Ok::<Header, ErrorKind>(
            Header {
                minor_version: be16(b, 4) as u16,
                major_version: be16(b, 6) as u16,
                constant_pool_count: be16(b, 8) as u16,
            },
        ),
        decode_spec(b) matches Ok((h, _, _)) ==> h.minor_version as nat == b[4] as nat * 256
            + b[5] as nat && h.major_version as nat == b[6] as nat * 256 + b[7] as nat,
{
}

/// Changing any one of the first four bytes of a file that has the magic
/// number makes decoding fail with `InvalidMagicNumber`.
pub proof fn lemma_magic_mutation(b: Seq<u8>, i: int, v: u8)
    requires
        has_magic(b),
        0 <= i < 4,
        v != b[i],
    ensures
        decode_spec(b.update(i, v)) matches Err(ErrorKind::InvalidMagicNumber { .. }),
{
    assert(!has_magic(b.update(i, v)));
}

proof fn lemma_pool_layout(
    b: Seq<u8>,
    pos: int,
    slot: int,
    count: int,
    table: Seq<Option<Constant>>,
)
    requires
        slot_layout(table),
        table.len() == slot,
        !is_wide_slot(table.last()),
        1 <= slot <= if count >= 1 { count + 1 } else { 2 },
        count >= 1 && slot == count + 1 ==> is_wide_slot(table[count - 1]),
        count < 1 ==> slot == 1,
    ensures
        pool_spec(b, pos, slot, count, table) matches Ok((t, _)) ==> {
            let n = if count >= 1 { count } else { 1 };
            &&& slot_layout(t)
            &&& (t.len() == n || (t.len() == n + 1 && is_wide_slot(t[n - 1])))
        },
    decreases count + 1 - slot,
{
    if slot < count {
        match entry_spec(b, pos, #[verifier::truncate] (slot as u16)) {
            Err(_) => {},
            Ok((c, next)) => {
                let t1 = table.push(Some(c));
                if c.is_wide() {
                    let t2 = t1.push(None);
                    assert forall|i: int| 1 <= i < t2.len() implies (#[trigger] t2[i] is None
                        <==> is_wide_slot(t2[i - 1])) by {
                        if i < table.len() {
                            assert(t2[i] == table[i] && t2[i - 1] == table[i - 1]);
                        }
                    }
                    lemma_pool_layout(b, next, slot + 2, count, t2);
                } else {
                    assert forall|i: int| 1 <= i < t1.len() implies (#[trigger] t1[i] is None
                        <==> is_wide_slot(t1[i - 1])) by {
                        if i < table.len() {
                            assert(t1[i] == table[i] && t1[i - 1] == table[i - 1]);
                        }
                    }
                    lemma_pool_layout(b, next, slot + 1, count, t1);
                }
            },
        }
    }
}

/// A successful decode fills the logical slots 1 to `n - 1` of a constant
/// pool count `n`, a wide entry taking its slot and the next one, and stops
/// there: the table has `n` slots, or `n + 1` where a wide entry took slot
/// `n - 1`; slot 0 and each slot after a wide entry stay empty, and every
/// other slot holds an entry.
pub proof fn lemma_slot_count(b: Seq<u8>)
    ensures
        decode_spec(b) matches Ok((h, t, _)) ==> {
            let n = if h.constant_pool_count >= 1 { h.constant_pool_count as int } else { 1 };
            &&& slot_layout(t)
            &&& (t.len() == n || (t.len() == n + 1 && is_wide_slot(t[n - 1])))
        },
{
    if let Ok(h) = header_spec(b) {
        let s: Seq<Option<Constant>> = seq![None];
        assert(s[0] is None);
        lemma_pool_layout(b, 10, 1, h.constant_pool_count as int, s);
    }
}

/// A Utf8 entry whose declared length runs past the end of the bytes fails
/// with `UnexpectedEndOfInput` at the start of its text.
pub proof fn lemma_utf8_overrun(b: Seq<u8>, pos: int, slot: u16)
    requires
        0 <= pos,
        pos + 3 <= b.len(),
        b[pos] == CP_UTF8,
        pos + 3 + be16(b, pos + 1) > b.len(),
    ensures
        entry_spec(b, pos, slot) == Err::<(Constant, int), ErrorKind>(end_of_input(pos + 3)),
{
}

/// What an entry reads lies within the bytes before the offset just past it.
proof fn lemma_entry_prefix(b: Seq<u8>, k: int, pos: int, slot: u16)
    requires
        0 <= pos <= k <= b.len(),
        entry_spec(b, pos, slot) is Ok,
    ensures
        pos < entry_spec(b, pos, slot)->Ok_0.1 <= b.len(),
        entry_spec(b, pos, slot)->Ok_0.1 <= k ==> entry_spec(b.subrange(0, k), pos, slot)
            == entry_spec(b, pos, slot),
        k < entry_spec(b, pos, slot)->Ok_0.1 ==> entry_spec(b.subrange(0, k), pos, slot) matches Err(
            ErrorKind::UnexpectedEndOfInput { .. },
        ),
{
    let c = b.subrange(0, k);
    let next = entry_spec(b, pos, slot)->Ok_0.1;
    if next <= k {
        let tag = b[pos];
        let p = pos + 1;
        if tag == CP_UTF8 {
            let s = p + 2;
            let n = be16(b, p) as int;
            assert(c.subrange(s, s + n) =~= b.subrange(s, s + n));
        } else if p + 4 <= k {
            assert(c[p] == b[p] && c[p + 1] == b[p + 1] && c[p + 2] == b[p + 2] && c[p + 3]
                == b[p + 3]);
        }
    }
}

proof fn lemma_pool_end(b: Seq<u8>, pos: int, slot: int, count: int, table: Seq<Option<Constant>>)
    requires
        0 <= pos <= b.len(),
    ensures
        pool_spec(b, pos, slot, count, table) matches Ok((_, end)) ==> pos <= end <= b.len(),
    decreases count + 1 - slot,
{
    let sl = #[verifier::truncate] (slot as u16);
    if slot < count && entry_spec(b, pos, sl) is Ok {
        lemma_entry_prefix(b, b.len() as int, pos, sl);
        let (c, next) = entry_spec(b, pos, sl)->Ok_0;
        if c.is_wide() {
            lemma_pool_end(b, next, slot + 2, count, table.push(Some(c)).push(None));
        } else {
            lemma_pool_end(b, next, slot + 1, count, table.push(Some(c)));
        }
    }
}

proof fn lemma_pool_prefix(
    b: Seq<u8>,
    k: int,
    pos: int,
    slot: int,
    count: int,
    table: Seq<Option<Constant>>,
)
    requires
        0 <= pos <= k <= b.len(),
        pool_spec(b, pos, slot, count, table) matches Ok((_, end)) && k < end,
    ensures
        pool_spec(b.subrange(0, k), pos, slot, count, table) matches Err(
            ErrorKind::UnexpectedEndOfInput { .. },
        ),
    decreases count + 1 - slot,
{
    let sl = #[verifier::truncate] (slot as u16);
    lemma_entry_prefix(b, k, pos, sl);
    let (c, next) = entry_spec(b, pos, sl)->Ok_0;
    if next <= k {
        if c.is_wide() {
            lemma_pool_prefix(b, k, next, slot + 2, count, table.push(Some(c)).push(None));
        } else {
            lemma_pool_prefix(b, k, next, slot + 1, count, table.push(Some(c)));
        }
    }
}

/// Cutting a file that decodes anywhere before the end of its constant pool
/// makes decoding fail with `UnexpectedEndOfInput`.
pub proof fn lemma_truncation(b: Seq<u8>, k: int)
    requires
        decode_spec(b) matches Ok((_, _, end)) && 0 <= k < end,
    ensures
        decode_spec(b.subrange(0, k)) matches Err(ErrorKind::UnexpectedEndOfInput { .. }),
{
    let c = b.subrange(0, k);
    let h = header_spec(b)->Ok_0;
    lemma_pool_end(b, 10, 1, h.constant_pool_count as int, seq![None]);
    if k >= 10 {
        assert(forall|i: int| 0 <= i < 10 ==> c[i] == b[i]);
        assert(header_spec(c) == header_spec(b));
        lemma_pool_prefix(b, k, 10, 1, h.constant_pool_count as int, seq![None]);
    } else if k >= 4 {
        assert(has_magic(c));
    }
}

/// The two bytes of a `u16`, most significant first.
pub open spec fn u16_bytes(v: u16) -> Seq<u8> {
    seq![(v / 0x100) as u8, (v % 0x100) as u8]
}

/// The four bytes of a 32-bit word, most significant first.
pub open spec fn u32_bytes(u: nat) -> Seq<u8> {
    seq![
        (u / 0x100_0000 % 0x100) as u8,
        (u / 0x1_0000 % 0x100) as u8,
        (u / 0x100 % 0x100) as u8,
        (u % 0x100) as u8,
    ]
}

/// Some UTF-8 encoding of `t` short enough for a Utf8 entry.
pub open spec fn utf8_bytes(t: Seq<char>) -> Seq<u8> {
    choose|u: Seq<u8>| utf8_text(u) == Some(t) && u.len() <= 0xFFFF
}

/// A narrow entry whose values fit the class file layout; for Utf8, its text
/// has a UTF-8 encoding of at most 65535 bytes.
pub open spec fn encodable_narrow(c: Constant) -> bool {
    match c {
        Constant::Utf8(t) => exists|u: Seq<u8>| utf8_text(u) == Some(t) && u.len() <= 0xFFFF,
        Constant::Integer(v) => -0x8000_0000 <= v < 0x8000_0000,
        Constant::Float(bits) => bits < 0x1_0000_0000,
        Constant::Long(_) => false,
        Constant::Double(_) => false,
        _ => true,
    }
}

/// The bytes of one narrow entry: its tag, then its payload.
pub open spec fn encode_entry(c: Constant) -> Seq<u8> {
    match c {
        Constant::Utf8(t) => seq![CP_UTF8] + u16_bytes(utf8_bytes(t).len() as u16) + utf8_bytes(
            t,
        ),
        Constant::Integer(v) => seq![CP_INTEGER] + u32_bytes(
            (if v < 0 {
                v + 0x1_0000_0000
            } else {
                v
            }) as nat,
        ),
        Constant::Float(bits) => seq![CP_FLOAT] + u32_bytes(bits),
        Constant::Class { name_index } => seq![CP_CLASS] + u16_bytes(name_index),
        Constant::String { string_index } => seq![CP_STRING] + u16_bytes(string_index),
        Constant::FieldRef { class_index, name_and_type_index } => seq![CP_FIELDREF] + u16_bytes(
            class_index,
        ) + u16_bytes(name_and_type_index),
        Constant::MethodRef { class_index, name_and_type_index } => seq![CP_METHODREF]
            + u16_bytes(class_index) + u16_bytes(name_and_type_index),
        Constant::InterfaceMethodRef { class_index, name_and_type_index } => seq![
            CP_INTERFACE_METHODREF,
        ] + u16_bytes(class_index) + u16_bytes(name_and_type_index),
        Constant::NameAndType { name_index, descriptor_index } => seq![CP_NAME_AND_TYPE]
            + u16_bytes(name_index) + u16_bytes(descriptor_index),
        _ => Seq::empty(),
    }
}

/// The bytes of a sequence of entries, one after the other.
pub open spec fn encode_entries(cs: Seq<Constant>) -> Seq<u8>
    decreases cs.len(),
{
    if cs.len() == 0 {
        Seq::empty()
    } else {
        encode_entries(cs.drop_last()) + encode_entry(cs.last())
    }
}

/// A class file made of the magic number, the two versions, the constant
/// pool count for `cs`, and the entries of `cs`.
pub open spec fn encode_class(minor: u16, major: u16, cs: Seq<Constant>) -> Seq<u8> {
    seq![0xCAu8, 0xFEu8, 0xBAu8, 0xBEu8] + u16_bytes(minor) + u16_bytes(major) + u16_bytes(
        (cs.len() + 1) as u16,
    ) + encode_entries(cs)
}

proof fn lemma_u16_bytes(b: Seq<u8>, at: int, v: u16)
    requires
        0 <= at,
        at + 2 <= b.len(),
        b.subrange(at, at + 2) == u16_bytes(v),
    ensures
        be16(b, at) == v,
        be16(b, at) as u16 == v,
{
    assert(b[at] == b.subrange(at, at + 2)[0] && b[at + 1] == b.subrange(at, at + 2)[1]);
    assert(b[at] as nat == v / 0x100 && b[at + 1] as nat == v % 0x100);
}

proof fn lemma_u32_bytes(b: Seq<u8>, at: int, u: nat)
    requires
        0 <= at,
        at + 4 <= b.len(),
        u < 0x1_0000_0000,
        b.subrange(at, at + 4) == u32_bytes(u),
    ensures
        be32(b, at) == u,
{
    let w = b.subrange(at, at + 4);
    assert(b[at] == w[0] && b[at + 1] == w[1] && b[at + 2] == w[2] && b[at + 3] == w[3]);
    assert(b[at] as nat == u / 0x100_0000 % 0x100);
    assert(b[at + 1] as nat == u / 0x1_0000 % 0x100);
    assert(b[at + 2] as nat == u / 0x100 % 0x100);
    assert(b[at + 3] as nat == u % 0x100);
}

/// The bytes of the entry `c` stand at `pos` in `b`.
pub open spec fn entry_at(b: Seq<u8>, pos: int, c: Constant) -> bool {
    &&& 0 <= pos
    &&& pos + encode_entry(c).len() <= b.len()
    &&& b.subrange(pos, pos + encode_entry(c).len()) == encode_entry(c)
}

proof fn lemma_utf8_round_trip(b: Seq<u8>, pos: int, c: Constant, slot: u16)
    requires
        entry_at(b, pos, c),
        encodable_narrow(c),
        c is Utf8,
    ensures
        entry_spec(b, pos, slot) == Ok::<(Constant, int), ErrorKind>(
            (c, pos + encode_entry(c).len()),
        ),
{
    let e = encode_entry(c);
    let p = pos + 1;
    assert(b[pos] == e[0]);
    let t = c->Utf8_0;
    let u = utf8_bytes(t);
    assert(utf8_text(u) == Some(t) && u.len() <= 0xFFFF);
    assert(e.subrange(1, 3) =~= u16_bytes(u.len() as u16));
    assert(b.subrange(p, p + 2) =~= e.subrange(1, 3));
    lemma_u16_bytes(b, p, u.len() as u16);
    assert(e.subrange(3, 3 + u.len() as int) =~= u);
    assert(b.subrange(p + 2, p + 2 + u.len()) =~= e.subrange(3, 3 + u.len() as int));
}

proof fn lemma_word_round_trip(b: Seq<u8>, pos: int, c: Constant, slot: u16)
    requires
        entry_at(b, pos, c),
        encodable_narrow(c),
        c is Integer || c is Float,
    ensures
        entry_spec(b, pos, slot) == Ok::<(Constant, int), ErrorKind>(
            (c, pos + encode_entry(c).len()),
        ),
{
    let e = encode_entry(c);
    let p = pos + 1;
    assert(b[pos] == e[0]);
    let w = match c {
        Constant::Integer(v) => (if v < 0 { v + 0x1_0000_0000 } else { v }) as nat,
        _ => c->Float_0,
    };
    assert(e.subrange(1, 5) =~= u32_bytes(w));
    assert(b.subrange(p, p + 4) =~= e.subrange(1, 5));
    lemma_u32_bytes(b, p, w);
}

proof fn lemma_index_round_trip(b: Seq<u8>, pos: int, c: Constant, slot: u16)
    requires
        entry_at(b, pos, c),
        c is Class || c is String,
    ensures
        entry_spec(b, pos, slot) == Ok::<(Constant, int), ErrorKind>(
            (c, pos + encode_entry(c).len()),
        ),
{
    let e = encode_entry(c);
    let p = pos + 1;
    assert(b[pos] == e[0]);
    let x = match c {
        Constant::Class { name_index } => name_index,
        _ => c->string_index,
    };
    assert(e.subrange(1, 3) =~= u16_bytes(x));
    assert(b.subrange(p, p + 2) =~= e.subrange(1, 3));
    lemma_u16_bytes(b, p, x);
}

proof fn lemma_pair_round_trip(b: Seq<u8>, pos: int, c: Constant, slot: u16)
    requires
        entry_at(b, pos, c),
        c is FieldRef || c is MethodRef || c is InterfaceMethodRef || c is NameAndType,
    ensures
        entry_spec(b, pos, slot) == Ok::<(Constant, int), ErrorKind>(
            (c, pos + encode_entry(c).len()),
        ),
{
    let e = encode_entry(c);
    let p = pos + 1;
    assert(b[pos] == e[0]);
    let (x, y) = match c {
        Constant::FieldRef { class_index, name_and_type_index } => (
            class_index,
            name_and_type_index,
        ),
        Constant::MethodRef { class_index, name_and_type_index } => (
            class_index,
            name_and_type_index,
        ),
        Constant::InterfaceMethodRef { class_index, name_and_type_index } => (
            class_index,
            name_and_type_index,
        ),
        Constant::NameAndType { name_index, descriptor_index } => (name_index, descriptor_index),
        _ => (0u16, 0u16),
    };
    assert(e.subrange(1, 3) =~= u16_bytes(x) && e.subrange(3, 5) =~= u16_bytes(y));
    assert(b.subrange(p, p + 2) =~= e.subrange(1, 3));
    assert(b.subrange(p + 2, p + 4) =~= e.subrange(3, 5));
    lemma_u16_bytes(b, p, x);
    lemma_u16_bytes(b, p + 2, y);
}

proof fn lemma_entry_round_trip(b: Seq<u8>, pos: int, c: Constant, slot: u16)
    requires
        entry_at(b, pos, c),
        encodable_narrow(c),
    ensures
        entry_spec(b, pos, slot) == Ok::<(Constant, int), ErrorKind>(
            (c, pos + encode_entry(c).len()),
        ),
{
    if c is Utf8 {
        lemma_utf8_round_trip(b, pos, c, slot);
    } else if c is Integer || c is Float {
        lemma_word_round_trip(b, pos, c, slot);
    } else if c is Class || c is String {
        lemma_index_round_trip(b, pos, c, slot);
    } else {
        lemma_pair_round_trip(b, pos, c, slot);
    }
}

/// The table that holds `cs` at logical slots 1 onwards.
pub open spec fn table_of(cs: Seq<Constant>) -> Seq<Option<Constant>> {
    seq![None] + cs.map_values(|c: Constant| Some(c))
}

proof fn lemma_entries_prefix(cs: Seq<Constant>, i: int)
    requires
        0 <= i <= cs.len(),
    ensures
        encode_entries(cs.take(i)).len() <= encode_entries(cs).len(),
        encode_entries(cs).subrange(0, encode_entries(cs.take(i)).len() as int) == encode_entries(
            cs.take(i),
        ),
    decreases cs.len(),
{
    if i == cs.len() {
        assert(cs.take(i) =~= cs);
        assert(encode_entries(cs).subrange(0, encode_entries(cs).len() as int) =~= encode_entries(
            cs,
        ));
    } else {
        let d = cs.drop_last();
        assert(d.take(i) =~= cs.take(i));
        lemma_entries_prefix(d, i);
        let pre = encode_entries(cs.take(i));
        assert(encode_entries(cs).subrange(0, pre.len() as int) =~= encode_entries(d).subrange(
            0,
            pre.len() as int,
        ));
    }
}

proof fn lemma_pool_round_trip(b: Seq<u8>, cs: Seq<Constant>, i: int)
    requires
        b.len() == 10 + encode_entries(cs).len(),
        b.subrange(10, b.len() as int) == encode_entries(cs),
        0 <= i <= cs.len(),
        cs.len() < 0xFFFF,
        forall|j: int| 0 <= j < cs.len() ==> encodable_narrow(#[trigger] cs[j]),
    ensures
        pool_spec(
            b,
            10 + encode_entries(cs.take(i)).len() as int,
            i + 1,
            cs.len() + 1 as int,
            table_of(cs.take(i)),
        ) == Ok::<(Seq<Option<Constant>>, int), ErrorKind>((table_of(cs), b.len() as int)),
    decreases cs.len() - i,
{
    let pos: int = 10 + encode_entries(cs.take(i)).len() as int;
    if i == cs.len() {
        assert(cs.take(i) =~= cs);
    } else {
        let c = cs[i];
        let next = cs.take(i + 1);
        assert(next.drop_last() =~= cs.take(i));
        let e = encode_entry(c);
        let pre = encode_entries(cs.take(i));
        let pl: int = pre.len() as int;
        let el: int = e.len() as int;
        assert(encode_entries(next) == pre + e);
        lemma_entries_prefix(cs, i + 1);
        let all = encode_entries(cs);
        assert forall|k: int| 0 <= k < el implies b.subrange(pos, pos + el)[k] == e[k] by {
            assert(b[pos + k] == b.subrange(10, b.len() as int)[pl + k]);
            assert(all.subrange(0, pl + el)[pl + k] == (pre + e)[pl + k]);
        }
        assert(b.subrange(pos, pos + el) =~= e);
        lemma_entry_round_trip(b, pos, c, #[verifier::truncate] ((i + 1) as u16));
        assert(table_of(cs.take(i)).push(Some(c)) =~= table_of(next));
        lemma_pool_round_trip(b, cs, i + 1);
    }
}

/// Decoding a class file built from narrow entries gives back its versions,
/// each entry at its logical slot (the `j`-th entry, counting from 0, at slot
/// `j + 1`), and stops at the end of the file.
pub proof fn lemma_narrow_round_trip(minor: u16, major: u16, cs: Seq<Constant>)
    requires
        cs.len() < 0xFFFF,
        forall|j: int| 0 <= j < cs.len() ==> encodable_narrow(#[trigger] cs[j]),
    ensures
        decode_spec(encode_class(minor, major, cs)) == Ok::<
            (Header, Seq<Option<Constant>>, int),
            ErrorKind,
        >(
            (
                Header {
                    minor_version: minor,
                    major_version: major,
                    constant_pool_count: (cs.len() + 1) as u16,
                },
                table_of(cs),
                encode_class(minor, major, cs).len() as int,
            ),
        ),
{
    let b = encode_class(minor, major, cs);
    let count = (cs.len() + 1) as u16;
    assert(b.subrange(4, 6) =~= u16_bytes(minor));
    assert(b.subrange(6, 8) =~= u16_bytes(major));
    assert(b.subrange(8, 10) =~= u16_bytes(count));
    lemma_u16_bytes(b, 4, minor);
    lemma_u16_bytes(b, 6, major);
    lemma_u16_bytes(b, 8, count);
    assert(has_magic(b));
    assert(b.subrange(10, b.len() as int) =~= encode_entries(cs));
    assert(cs.take(0) =~= Seq::<Constant>::empty());
    assert(table_of(cs.take(0)) =~= seq![None]);
    lemma_pool_round_trip(b, cs, 0);
}

} // verus!
