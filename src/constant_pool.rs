//! Constant pool entries and the table that holds them by logical slot.
use vstd::prelude::*;

verus! {

pub const CP_UTF8: u8 = 1;
pub const CP_INTEGER: u8 = 3;
pub const CP_FLOAT: u8 = 4;
pub const CP_LONG: u8 = 5;
pub const CP_DOUBLE: u8 = 6;
pub const CP_CLASS: u8 = 7;
pub const CP_STRING: u8 = 8;
pub const CP_FIELDREF: u8 = 9;
pub const CP_METHODREF: u8 = 10;
pub const CP_INTERFACE_METHODREF: u8 = 11;
pub const CP_NAME_AND_TYPE: u8 = 12;

/// One decoded constant pool entry.
///
/// `Float` and `Double` hold the IEEE 754 bit pattern of the value, as it
/// stands in the class file.
#[derive(Debug, Clone, PartialEq, Eq)]
pub enum CpEntry {
    Utf8(String),
    Integer(i32),
    Float(u32),
    Long(i64),
    Double(u64),
    /// `name_index` refers to a `Utf8` entry.
    Class { name_index: u16 },
    /// `string_index` refers to a `Utf8` entry.
    String { string_index: u16 },
    FieldRef { class_index: u16, name_and_type_index: u16 },
    MethodRef { class_index: u16, name_and_type_index: u16 },
    InterfaceMethodRef { class_index: u16, name_and_type_index: u16 },
    NameAndType { name_index: u16, descriptor_index: u16 },
}

/// The mathematical value of a constant pool entry.
pub enum Constant {
    Utf8(Seq<char>),
    Integer(int),
    Float(nat),
    Long(int),
    Double(nat),
    Class { name_index: u16 },
    String { string_index: u16 },
    FieldRef { class_index: u16, name_and_type_index: u16 },
    MethodRef { class_index: u16, name_and_type_index: u16 },
    InterfaceMethodRef { class_index: u16, name_and_type_index: u16 },
    NameAndType { name_index: u16, descriptor_index: u16 },
}

impl Constant {
    /// Long and Double entries take two logical slots.
    pub open spec fn is_wide(self) -> bool {
        self is Long || self is Double
    }
}

impl View for CpEntry {
    type V = Constant;

    open spec fn view(&self) -> Constant {
        match self {
            CpEntry::Utf8(s) => Constant::Utf8(s@),
            CpEntry::Integer(v) => Constant::Integer(*v as int),
            CpEntry::Float(bits) => Constant::Float(*bits as nat),
            CpEntry::Long(v) => Constant::Long(*v as int),
            CpEntry::Double(bits) => Constant::Double(*bits as nat),
            CpEntry::Class { name_index } => Constant::Class { name_index: *name_index },
            CpEntry::String { string_index } => Constant::String { string_index: *string_index },
            CpEntry::FieldRef { class_index, name_and_type_index } => Constant::FieldRef {
                class_index: *class_index,
                name_and_type_index: *name_and_type_index,
            },
            CpEntry::MethodRef { class_index, name_and_type_index } => Constant::MethodRef {
                class_index: *class_index,
                name_and_type_index: *name_and_type_index,
            },
            CpEntry::InterfaceMethodRef { class_index, name_and_type_index } =>
                Constant::InterfaceMethodRef {
                class_index: *class_index,
                name_and_type_index: *name_and_type_index,
            },
            CpEntry::NameAndType { name_index, descriptor_index } => Constant::NameAndType {
                name_index: *name_index,
                descriptor_index: *descriptor_index,
            },
        }
    }
}

impl CpEntry {
    /// Whether the entry takes two logical slots.
    pub fn is_wide(&self) -> (r: bool)
        ensures
            r == self@.is_wide(),
    {
        match self {
            CpEntry::Long(_) | CpEntry::Double(_) => true,
            _ => false,
        }
    }
}

/// The value of an optional entry.
pub open spec fn slot_view(o: Option<CpEntry>) -> Option<Constant> {
    match o {
        Some(e) => Some(e@),
        None => None,
    }
}

/// The constant pool, indexed by logical slot.
///
/// Slot 0 is never filled, and the slot after a wide entry stays empty, so
/// that an index read elsewhere in a class file finds its entry directly.
pub struct ConstantPool {
    slots: Vec<Option<CpEntry>>,
}

impl View for ConstantPool {
    type V = Seq<Option<Constant>>;

    closed spec fn view(&self) -> Seq<Option<Constant>> {
        self.slots@.map_values(|o: Option<CpEntry>| slot_view(o))
    }
}

impl ConstantPool {
    /// A table that holds only the reserved slot 0.
    pub fn new() -> (r: Self)
        ensures
            r@ == seq![Option::<Constant>::None],
    {
        let mut slots: Vec<Option<CpEntry>> = Vec::new();
        slots.push(None);
        let r = ConstantPool { slots };
        assert(r@ =~= seq![Option::<Constant>::None]);
        r
    }

    /// Fills the next slot, and leaves the slot after a wide entry empty.
    pub fn push(&mut self, entry: CpEntry)
        requires
            old(self)@.len() + 2 <= usize::MAX,
        ensures
            final(self)@ == if entry@.is_wide() {
                old(self)@.push(Some(entry@)).push(None)
            } else {
                old(self)@.push(Some(entry@))
            },
    {
        let wide = entry.is_wide();
        let ghost v = entry@;
        self.slots.push(Some(entry));
        if wide {
            self.slots.push(None);
        }
        proof {
            let pushed = old(self)@.push(Some(v));
            if wide {
                assert(self@ =~= pushed.push(None));
            } else {
                assert(self@ =~= pushed);
            }
        }
    }

    /// The number of logical slots, the reserved slot 0 included.
    pub fn slot_count(&self) -> (r: usize)
        ensures
            r == self@.len(),
    {
        self.slots.len()
    }

    /// The entry at a logical slot; `None` for slot 0, for the slot after a
    /// wide entry, and past the end.
    pub fn get(&self, index: usize) -> (r: Option<&CpEntry>)
        ensures
            match r {
                Some(e) => index < self@.len() && self@[index as int] == Some(e@),
                None => index >= self@.len() || self@[index as int] is None,
            },
    {
        if index < self.slots.len() {
            match &self.slots[index] {
                Some(e) => Some(e),
                None => None,
            }
        } else {
            None
        }
    }
}

} // verus!
