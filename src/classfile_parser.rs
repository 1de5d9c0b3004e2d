//! The class file decoder: a bounds-checked cursor over the raw bytes, the
//! header check, and the constant pool loop.
use vstd::prelude::*;

use crate::bytes::{
    be16, be32, be64, decode_utf8, read_be_i32, read_be_i64, read_be_u32, read_be_u64, signed32,
    signed64, utf8_text,
};
use crate::constant_pool::{
    Constant, ConstantPool, CpEntry, CP_CLASS, CP_DOUBLE, CP_FIELDREF, CP_FLOAT, CP_INTEGER,
    CP_INTERFACE_METHODREF, CP_LONG, CP_METHODREF, CP_NAME_AND_TYPE, CP_STRING, CP_UTF8,
};

verus! {

/// Why a class file could not be decoded. Offsets count bytes from the start
/// of the file; slots are logical constant pool indices.
#[derive(Debug, Clone, Copy, PartialEq, Eq, Structural)]
pub enum ErrorKind {
    /// The file does not start with `CA FE BA BE`; `found` holds its first
    /// four bytes, most significant first.
    InvalidMagicNumber { found: u32 },
    /// A read at `offset` needs more bytes than remain.
    UnexpectedEndOfInput { offset: usize },
    /// The tag byte at `offset`, for logical slot `slot`, names no supported
    /// entry kind.
    UnsupportedConstantPoolTag { tag: u8, slot: u16, offset: usize },
    /// The text of the Utf8 entry at `slot`, starting at `offset`, is not
    /// valid UTF-8.
    InvalidEncoding { slot: u16, offset: usize },
}

/// A decoding failure, with the name of the file it concerns.
#[derive(Debug, Clone, PartialEq, Eq)]
pub struct ParseError {
    pub filename: String,
    pub kind: ErrorKind,
}

/// The version fields of a class file, and its constant pool count: one more
/// than the number of usable logical slots.
#[derive(Debug, Clone, Copy, PartialEq, Eq, Structural)]
pub struct Header {
    pub minor_version: u16,
    pub major_version: u16,
    pub constant_pool_count: u16,
}

/// A decoded class file: its header and its constant pool.
pub struct ClassFile {
    pub header: Header,
    pub constant_pool: ConstantPool,
}

/// The failure of a read that starts at `offset`.
pub open spec fn end_of_input(offset: int) -> ErrorKind {
    ErrorKind::UnexpectedEndOfInput { offset: offset as usize }
}

/// The first four bytes are `CA FE BA BE`.
pub open spec fn has_magic(b: Seq<u8>) -> bool {
    &&& b.len() >= 4
    &&& b[0] == 0xCA
    &&& b[1] == 0xFE
    &&& b[2] == 0xBA
    &&& b[3] == 0xBE
}

/// The header that the bytes start with.
pub open spec fn header_spec(b: Seq<u8>) -> Result<Header, ErrorKind> {
    if b.len() < 4 {
        Err(end_of_input(0))
    } else if !has_magic(b) {
        Err(ErrorKind::InvalidMagicNumber { found: be32(b, 0) as u32 })
    } else if b.len() < 6 {
        Err(end_of_input(4))
    } else if b.len() < 8 {
        Err(end_of_input(6))
    } else if b.len() < 10 {
        Err(end_of_input(8))
    } else {
        Ok(
            Header {
                minor_version: be16(b, 4) as u16,
                major_version: be16(b, 6) as u16,
                constant_pool_count: be16(b, 8) as u16,
            },
        )
    }
}

/// An entry made of two indices, read one after the other at `p`.
pub open spec fn index_pair_spec(b: Seq<u8>, tag: u8, p: int) -> Result<(Constant, int), ErrorKind> {
    if p + 2 > b.len() {
        Err(end_of_input(p))
    } else if p + 4 > b.len() {
        Err(end_of_input(p + 2))
    } else {
        let x = be16(b, p) as u16;
        let y = be16(b, p + 2) as u16;
        let c = if tag == CP_FIELDREF {
            Constant::FieldRef { class_index: x, name_and_type_index: y }
        } else if tag == CP_METHODREF {
            Constant::MethodRef { class_index: x, name_and_type_index: y }
        } else if tag == CP_INTERFACE_METHODREF {
            Constant::InterfaceMethodRef { class_index: x, name_and_type_index: y }
        } else {
            Constant::NameAndType { name_index: x, descriptor_index: y }
        };
        Ok((c, p + 4))
    }
}

/// The entry whose tag byte stands at `pos`, for logical slot `slot`, and the
/// offset just past it.
pub open spec fn entry_spec(b: Seq<u8>, pos: int, slot: u16) -> Result<(Constant, int), ErrorKind> {
    if pos + 1 > b.len() {
        Err(end_of_input(pos))
    } else {
        let tag = b[pos];
        let p = pos + 1;
        if tag == CP_UTF8 {
            if p + 2 > b.len() {
                Err(end_of_input(p))
            } else {
                let s = p + 2;
                let n = be16(b, p) as int;
                if s + n > b.len() {
                    Err(end_of_input(s))
                } else {
                    match utf8_text(b.subrange(s, s + n)) {
                        Some(t) => Ok((Constant::Utf8(t), s + n)),
                        None => Err(ErrorKind::InvalidEncoding { slot, offset: s as usize }),
                    }
                }
            }
        } else if tag == CP_INTEGER || tag == CP_FLOAT {
            if p + 4 > b.len() {
                Err(end_of_input(p))
            } else if tag == CP_INTEGER {
                Ok((Constant::Integer(signed32(be32(b, p))), p + 4))
            } else {
                Ok((Constant::Float(be32(b, p)), p + 4))
            }
        } else if tag == CP_LONG || tag == CP_DOUBLE {
            if p + 8 > b.len() {
                Err(end_of_input(p))
            } else if tag == CP_LONG {
                Ok((Constant::Long(signed64(be64(b, p))), p + 8))
            } else {
                Ok((Constant::Double(be64(b, p)), p + 8))
            }
        } else if tag == CP_CLASS || tag == CP_STRING {
            if p + 2 > b.len() {
                Err(end_of_input(p))
            } else if tag == CP_CLASS {
                Ok((Constant::Class { name_index: be16(b, p) as u16 }, p + 2))
            } else {
                Ok((Constant::String { string_index: be16(b, p) as u16 }, p + 2))
            }
        } else if tag == CP_FIELDREF || tag == CP_METHODREF || tag == CP_INTERFACE_METHODREF
            || tag == CP_NAME_AND_TYPE {
            index_pair_spec(b, tag, p)
        } else {
            Err(ErrorKind::UnsupportedConstantPoolTag { tag, slot, offset: pos as usize })
        }
    }
}

/// Decodes entries from `pos` for logical slots `slot` up to `count`, adding
/// them to `table`; gives the whole table and the offset where decoding stops.
pub open spec fn pool_spec(b: Seq<u8>, pos: int, slot: int, count: int, table: Seq<Option<Constant>>)
    -> Result<(Seq<Option<Constant>>, int), ErrorKind>
    decreases count + 1 - slot,
{
    if slot >= count {
        Ok((table, pos))
    } else {
        match entry_spec(b, pos, #[verifier::truncate] (slot as u16)) {
            Err(e) => Err(e),
            Ok((c, next)) => if c.is_wide() {
                pool_spec(b, next, slot + 2, count, table.push(Some(c)).push(None))
            } else {
                pool_spec(b, next, slot + 1, count, table.push(Some(c)))
            },
        }
    }
}

/// What a class file decodes to: its header, its constant pool by logical
/// slot, and the offset just past the constant pool.
pub open spec fn decode_spec(b: Seq<u8>) -> Result<(Header, Seq<Option<Constant>>, int), ErrorKind> {
    match header_spec(b) {
        Err(e) => Err(e),
        Ok(h) => match pool_spec(b, 10, 1, h.constant_pool_count as int, seq![None]) {
            Err(e) => Err(e),
            Ok((t, end)) => Ok((h, t, end)),
        },
    }
}

/// The state of a parser: the file's name and bytes, the read position, and
/// the header fields read so far.
pub struct ParserState {
    pub filename: Seq<char>,
    pub bytes: Seq<u8>,
    pub pos: int,
    pub minor_v: u16,
    pub major_v: u16,
    pub cp_count: u16,
}

impl ParserState {
    /// `n` more bytes can be read.
    pub open spec fn has(self, n: int) -> bool {
        self.pos + n <= self.bytes.len()
    }

    /// The same state, `n` bytes further on.
    pub open spec fn skip(self, n: int) -> ParserState {
        ParserState { pos: self.pos + n, ..self }
    }
}

/// Decodes a class file held in memory, reading it front to back.
pub struct ClassfileParser {
    filename: String,
    file_bytes: Vec<u8>,
    current_idx: usize,
    minor_v: u16,
    major_v: u16,
    cp_count: u16,
}

impl View for ClassfileParser {
    type V = ParserState;

    closed spec fn view(&self) -> ParserState {
        ParserState {
            filename: self.filename@,
            bytes: self.file_bytes@,
            pos: self.current_idx as int,
            minor_v: self.minor_v,
            major_v: self.major_v,
            cp_count: self.cp_count,
        }
    }
}

impl ClassfileParser {
    /// The read position never passes the end of the bytes.
    pub open spec fn wf(&self) -> bool {
        0 <= self@.pos <= self@.bytes.len()
    }

    /// A parser at the start of `classfile_bytes`; `filename` names the file in
    /// errors.
    pub fn of(filename: String, classfile_bytes: Vec<u8>) -> (r: ClassfileParser)
        ensures
            r.wf(),
            r@ == (ParserState {
                filename: filename@,
                bytes: classfile_bytes@,
                pos: 0,
                minor_v: 0,
                major_v: 0,
                cp_count: 0,
            }),
    {
        ClassfileParser {
            filename,
            file_bytes: classfile_bytes,
            current_idx: 0,
            minor_v: 0,
            major_v: 0,
            cp_count: 0,
        }
    }

    /// The read position, for diagnostics.
    pub fn position(&self) -> (r: usize)
        ensures
            r as int == self@.pos,
    {
        self.current_idx
    }

    /// Reads one byte.
    pub fn read_u8(&mut self) -> (r: Result<u8, ErrorKind>)
        requires
            old(self).wf(),
        ensures
            final(self).wf(),
            if old(self)@.has(1) {
                &&& r == Ok::<u8, ErrorKind>(old(self)@.bytes[old(self)@.pos])
                &&& final(self)@ == old(self)@.skip(1)
            } else {
                &&& r == Err::<u8, ErrorKind>(end_of_input(old(self)@.pos))
                &&& final(self)@ == old(self)@
            },
    {
        if self.file_bytes.len() - self.current_idx < 1 {
            return Err(ErrorKind::UnexpectedEndOfInput { offset: self.current_idx });
        }
        let v = self.file_bytes[self.current_idx];
        self.current_idx = self.current_idx + 1;
        Ok(v)
    }

    /// Reads two bytes as a big-endian `u16`.
    pub fn read_and_merge_next_two_bytes(&mut self) -> (r: Result<u16, ErrorKind>)
        requires
            old(self).wf(),
        ensures
            final(self).wf(),
            if old(self)@.has(2) {
                &&& r == Ok::<u16, ErrorKind>(be16(old(self)@.bytes, old(self)@.pos) as u16)
                &&& final(self)@ == old(self)@.skip(2)
            } else {
                &&& r == Err::<u16, ErrorKind>(end_of_input(old(self)@.pos))
                &&& final(self)@ == old(self)@
            },
    {
        if self.file_bytes.len() - self.current_idx < 2 {
            return Err(ErrorKind::UnexpectedEndOfInput { offset: self.current_idx });
        }
        let hi = self.file_bytes[self.current_idx] as u16;
        let lo = self.file_bytes[self.current_idx + 1] as u16;
        self.current_idx = self.current_idx + 2;
        Ok(hi * 256 + lo)
    }
    /// Reads the next four bytes as they stand.
    pub fn read_next_four_bytes(&mut self) -> (r: Result<[u8; 4], ErrorKind>)
        requires
            old(self).wf(),
        ensures
            final(self).wf(),
            if old(self)@.has(4) {
                &&& r matches Ok(a) && a@ == old(self)@.bytes.subrange(
                    old(self)@.pos,
                    old(self)@.pos + 4,
                )
                &&& final(self)@ == old(self)@.skip(4)
            } else {
                &&& r == Err::<[u8; 4], ErrorKind>(end_of_input(old(self)@.pos))
                &&& final(self)@ == old(self)@
            },
    {
        if self.file_bytes.len() - self.current_idx < 4 {
            return Err(ErrorKind::UnexpectedEndOfInput { offset: self.current_idx });
        }
        let i = self.current_idx;
        let bytes: [u8; 4] = [
            self.file_bytes[i],
            self.file_bytes[i + 1],
            self.file_bytes[i + 2],
            self.file_bytes[i + 3],
        ];
        self.current_idx = i + 4;
        assert(bytes@ =~= self.file_bytes@.subrange(i as int, i + 4));
        Ok(bytes)
    }

    /// Reads four bytes as a big-endian two's complement `i32`.
    pub fn read_i32(&mut self) -> (r: Result<i32, ErrorKind>)
        requires
            old(self).wf(),
        ensures
            final(self).wf(),
            if old(self)@.has(4) {
                &&& r matches Ok(v) && v as int == signed32(be32(old(self)@.bytes, old(self)@.pos))
                &&& final(self)@ == old(self)@.skip(4)
            } else {
                &&& r == Err::<i32, ErrorKind>(end_of_input(old(self)@.pos))
                &&& final(self)@ == old(self)@
            },
    {
        match self.read_next_four_bytes() {
            Ok(bytes) => Ok(read_be_i32(&bytes)),
            Err(e) => Err(e),
        }
    }

    /// Reads four bytes as the big-endian bit pattern of an `f32`.
    pub fn read_f32_bits(&mut self) -> (r: Result<u32, ErrorKind>)
        requires
            old(self).wf(),
        ensures
            final(self).wf(),
            if old(self)@.has(4) {
                &&& r matches Ok(v) && v as nat == be32(old(self)@.bytes, old(self)@.pos)
                &&& final(self)@ == old(self)@.skip(4)
            } else {
                &&& r == Err::<u32, ErrorKind>(end_of_input(old(self)@.pos))
                &&& final(self)@ == old(self)@
            },
    {
        match self.read_next_four_bytes() {
            Ok(bytes) => Ok(read_be_u32(&bytes)),
            Err(e) => Err(e),
        }
    }

    /// Reads eight bytes as two four-byte words, high word first.
    fn read_eight_bytes(&mut self) -> (r: Result<Vec<u8>, ErrorKind>)
        requires
            old(self).wf(),
        ensures
            final(self).wf(),
            if old(self)@.has(8) {
                &&& r matches Ok(v) && v@ == old(self)@.bytes.subrange(
                    old(self)@.pos,
                    old(self)@.pos + 8,
                )
                &&& final(self)@ == old(self)@.skip(8)
            } else {
                &&& r == Err::<Vec<u8>, ErrorKind>(end_of_input(old(self)@.pos))
                &&& final(self)@ == old(self)@
            },
    {
        if self.file_bytes.len() - self.current_idx < 8 {
            return Err(ErrorKind::UnexpectedEndOfInput { offset: self.current_idx });
        }
        let ghost start = self@.pos;
        let high = match self.read_next_four_bytes() {
            Ok(a) => a,
            Err(e) => return Err(e),
        };
        let low = match self.read_next_four_bytes() {
            Ok(a) => a,
            Err(e) => return Err(e),
        };
        let mut v: Vec<u8> = Vec::new();
        let mut k: usize = 0;
        while k < 4
            invariant
                k <= 4,
                v@ =~= high@.subrange(0, k as int),
            decreases 4 - k,
        {
            v.push(high[k]);
            k = k + 1;
        }
        k = 0;
        while k < 4
            invariant
                k <= 4,
                v@ =~= high@ + low@.subrange(0, k as int),
            decreases 4 - k,
        {
            v.push(low[k]);
            k = k + 1;
        }
        assert(v@ =~= self@.bytes.subrange(start, start + 8));
        Ok(v)
    }

    /// Reads eight bytes as a big-endian two's complement `i64`.
    pub fn read_i64(&mut self) -> (r: Result<i64, ErrorKind>)
        requires
            old(self).wf(),
        ensures
            final(self).wf(),
            if old(self)@.has(8) {
                &&& r matches Ok(v) && v as int == signed64(be64(old(self)@.bytes, old(self)@.pos))
                &&& final(self)@ == old(self)@.skip(8)
            } else {
                &&& r == Err::<i64, ErrorKind>(end_of_input(old(self)@.pos))
                &&& final(self)@ == old(self)@
            },
    {
        match self.read_eight_bytes() {
            Ok(bytes) => Ok(read_be_i64(bytes.as_slice())),
            Err(e) => Err(e),
        }
    }

    /// Reads eight bytes as the big-endian bit pattern of an `f64`.
    pub fn read_f64_bits(&mut self) -> (r: Result<u64, ErrorKind>)
        requires
            old(self).wf(),
        ensures
            final(self).wf(),
            if old(self)@.has(8) {
                &&& r matches Ok(v) && v as nat == be64(old(self)@.bytes, old(self)@.pos)
                &&& final(self)@ == old(self)@.skip(8)
            } else {
                &&& r == Err::<u64, ErrorKind>(end_of_input(old(self)@.pos))
                &&& final(self)@ == old(self)@
            },
    {
        match self.read_eight_bytes() {
            Ok(bytes) => Ok(read_be_u64(bytes.as_slice())),
            Err(e) => Err(e),
        }
    }

    /// Reads `len` bytes as UTF-8 text, for the Utf8 entry at `slot`.
    pub fn read_utf8(&mut self, len: usize, slot: u16) -> (r: Result<String, ErrorKind>)
        requires
            old(self).wf(),
        ensures
            final(self).wf(),
            ({
                let b = old(self)@.bytes;
                let p = old(self)@.pos;
                if !old(self)@.has(len as int) {
                    &&& r == Err::<String, ErrorKind>(end_of_input(p))
                    &&& final(self)@ == old(self)@
                } else {
                    match utf8_text(b.subrange(p, p + len)) {
                        Some(t) => r matches Ok(s) && s@ == t && final(self)@ == old(self)@.skip(
                            len as int,
                        ),
                        None => r == Err::<String, ErrorKind>(
                            ErrorKind::InvalidEncoding { slot, offset: p as usize },
                        ) && final(self)@ == old(self)@,
                    }
                }
            }),
    {
        let start = self.current_idx;
        if self.file_bytes.len() - start < len {
            return Err(ErrorKind::UnexpectedEndOfInput { offset: start });
        }
        let mut buf: Vec<u8> = Vec::new();
        let mut k: usize = 0;
        while k < len
            invariant
                k <= len,
                start as int + len as int <= self.file_bytes@.len(),
                self.file_bytes@.len() <= usize::MAX,
                buf@ =~= self.file_bytes@.subrange(start as int, start + k),
            decreases len - k,
        {
            buf.push(self.file_bytes[start + k]);
            k = k + 1;
        }
        match decode_utf8(buf) {
            Some(s) => {
                self.current_idx = start + len;
                Ok(s)
            },
            None => Err(ErrorKind::InvalidEncoding { slot, offset: start }),
        }
    }
    /// Checks the magic number, then reads the minor version, the major
    /// version and the constant pool count, leaving the position just past them.
    pub fn parse_header(&mut self) -> (r: Result<Header, ErrorKind>)
        requires
            old(self).wf(),
        ensures
            final(self).wf(),
            match header_spec(old(self)@.bytes) {
                Ok(h) => {
                    &&& r == Ok::<Header, ErrorKind>(h)
                    &&& final(self)@ == (ParserState {
                        pos: 10,
                        minor_v: h.minor_version,
                        major_v: h.major_version,
                        cp_count: h.constant_pool_count,
                        ..old(self)@
                    })
                },
                Err(e) => {
                    &&& r == Err::<Header, ErrorKind>(e)
                    &&& final(self)@ == (ParserState { pos: final(self)@.pos, ..old(self)@ })
                },
            },
    {
        if self.file_bytes.len() < 4 {
            return Err(ErrorKind::UnexpectedEndOfInput { offset: 0 });
        }
        if self.file_bytes[0] != 0xca || self.file_bytes[1] != 0xfe || self.file_bytes[2] != 0xba
            || self.file_bytes[3] != 0xbe {
            let found = read_be_u32(self.file_bytes.as_slice());
            return Err(ErrorKind::InvalidMagicNumber { found });
        }
        self.current_idx = 4;
        let minor_v = match self.read_and_merge_next_two_bytes() {
            Ok(v) => v,
            Err(e) => return Err(e),
        };
        let major_v = match self.read_and_merge_next_two_bytes() {
            Ok(v) => v,
            Err(e) => return Err(e),
        };
        let cp_count = match self.read_and_merge_next_two_bytes() {
            Ok(v) => v,
            Err(e) => return Err(e),
        };
        self.minor_v = minor_v;
        self.major_v = major_v;
        self.cp_count = cp_count;
        Ok(Header { minor_version: minor_v, major_version: major_v, constant_pool_count: cp_count })
    }

    /// Reads the two indices of a reference or name-and-type entry.
    fn parse_index_pair(&mut self, tag: u8) -> (r: Result<CpEntry, ErrorKind>)
        requires
            old(self).wf(),
        ensures
            final(self).wf(),
            final(self)@ == (ParserState { pos: final(self)@.pos, ..old(self)@ }),
            match index_pair_spec(old(self)@.bytes, tag, old(self)@.pos) {
                Ok((c, next)) => r matches Ok(e) && e@ == c && final(self)@.pos == next,
                Err(err) => r == Err::<CpEntry, ErrorKind>(err),
            },
    {
        let x = match self.read_and_merge_next_two_bytes() {
            Ok(v) => v,
            Err(e) => return Err(e),
        };
        let y = match self.read_and_merge_next_two_bytes() {
            Ok(v) => v,
            Err(e) => return Err(e),
        };
        if tag == CP_FIELDREF {
            Ok(CpEntry::FieldRef { class_index: x, name_and_type_index: y })
        } else if tag == CP_METHODREF {
            Ok(CpEntry::MethodRef { class_index: x, name_and_type_index: y })
        } else if tag == CP_INTERFACE_METHODREF {
            Ok(CpEntry::InterfaceMethodRef { class_index: x, name_and_type_index: y })
        } else {
            Ok(CpEntry::NameAndType { name_index: x, descriptor_index: y })
        }
    }

    /// Reads one tagged entry, for logical slot `slot`.
    pub fn parse_cp_entry(&mut self, slot: u16) -> (r: Result<CpEntry, ErrorKind>)
        requires
            old(self).wf(),
        ensures
            final(self).wf(),
            final(self)@ == (ParserState { pos: final(self)@.pos, ..old(self)@ }),
            match entry_spec(old(self)@.bytes, old(self)@.pos, slot) {
                Ok((c, next)) => r matches Ok(e) && e@ == c && final(self)@.pos == next,
                Err(err) => r == Err::<CpEntry, ErrorKind>(err),
            },
    {
        let tag_offset = self.current_idx;
        let tag = match self.read_u8() {
            Ok(t) => t,
            Err(e) => return Err(e),
        };
        if tag == CP_UTF8 {
            let len = match self.read_and_merge_next_two_bytes() {
                Ok(n) => n,
                Err(e) => return Err(e),
            };
            match self.read_utf8(len as usize, slot) {
                Ok(s) => Ok(CpEntry::Utf8(s)),
                Err(e) => Err(e),
            }
        } else if tag == CP_INTEGER {
            match self.read_i32() {
                Ok(v) => Ok(CpEntry::Integer(v)),
                Err(e) => Err(e),
            }
        } else if tag == CP_FLOAT {
            match self.read_f32_bits() {
                Ok(v) => Ok(CpEntry::Float(v)),
                Err(e) => Err(e),
            }
        } else if tag == CP_LONG {
            match self.read_i64() {
                Ok(v) => Ok(CpEntry::Long(v)),
                Err(e) => Err(e),
            }
        } else if tag == CP_DOUBLE {
            match self.read_f64_bits() {
                Ok(v) => Ok(CpEntry::Double(v)),
                Err(e) => Err(e),
            }
        } else if tag == CP_CLASS {
            match self.read_and_merge_next_two_bytes() {
                Ok(v) => Ok(CpEntry::Class { name_index: v }),
                Err(e) => Err(e),
            }
        } else if tag == CP_STRING {
            match self.read_and_merge_next_two_bytes() {
                Ok(v) => Ok(CpEntry::String { string_index: v }),
                Err(e) => Err(e),
            }
        } else if tag == CP_FIELDREF || tag == CP_METHODREF || tag == CP_INTERFACE_METHODREF
            || tag == CP_NAME_AND_TYPE {
            self.parse_index_pair(tag)
        } else {
            Err(ErrorKind::UnsupportedConstantPoolTag { tag, slot, offset: tag_offset })
        }
    }

    /// Decodes the constant pool from the current position, for the constant
    /// pool count read by `parse_header`.
    pub fn parse_constant_pool(&mut self) -> (r: Result<ConstantPool, ErrorKind>)
        requires
            old(self).wf(),
        ensures
            final(self).wf(),
            final(self)@ == (ParserState { pos: final(self)@.pos, ..old(self)@ }),
            match pool_spec(
                old(self)@.bytes,
                old(self)@.pos,
                1,
                old(self)@.cp_count as int,
                seq![None],
            ) {
                Ok((t, end)) => r matches Ok(pool) && pool@ == t && final(self)@.pos == end,
                Err(e) => r matches Err(err) && err == e,
            },
    {
        let ghost start = self@;
        let mut pool = ConstantPool::new();
        let count = self.cp_count as u32;
        let mut slot: u32 = 1;
        while slot < count
            invariant
                self.wf(),
                start == old(self)@,
                self@ == (ParserState { pos: self@.pos, ..start }),
                count == start.cp_count as u32,
                1 <= slot <= count + 1,
                pool@.len() == slot,
                pool_spec(start.bytes, start.pos, 1, count as int, seq![None]) == pool_spec(
                    start.bytes,
                    self@.pos,
                    slot as int,
                    count as int,
                    pool@,
                ),
            decreases count + 1 - slot,
        {
            let entry = match self.parse_cp_entry(slot as u16) {
                Ok(e) => e,
                Err(e) => {
                    return Err(e);
                },
            };
            if entry.is_wide() {
                slot = slot + 2;
            } else {
                slot = slot + 1;
            }
            pool.push(entry);
        }
        Ok(pool)
    }

    /// Decodes the header and the constant pool of the whole file.
    pub fn parse(&mut self) -> (r: Result<ClassFile, ParseError>)
        requires
            old(self).wf(),
        ensures
            final(self).wf(),
            match decode_spec(old(self)@.bytes) {
                Ok((h, t, end)) => r matches Ok(c) && c.header == h && c.constant_pool@ == t
                    && final(self)@ == (ParserState {
                    pos: end,
                    minor_v: h.minor_version,
                    major_v: h.major_version,
                    cp_count: h.constant_pool_count,
                    ..old(self)@
                }),
                Err(e) => r matches Err(err) && err.kind == e && err.filename@ == old(
                    self,
                )@.filename,
            },
    {
        let header = match self.parse_header() {
            Ok(h) => h,
            Err(kind) => return Err(ParseError { filename: self.filename.clone(), kind }),
        };
        match self.parse_constant_pool() {
            Ok(constant_pool) => Ok(ClassFile { header, constant_pool }),
            Err(kind) => Err(ParseError { filename: self.filename.clone(), kind }),
        }
    }
}

} // verus!
