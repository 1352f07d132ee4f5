//! The tag taxonomy of report descriptor items: the item class carried by
//! two bits of the prefix byte, and the tag namespaces of the three classes.

use vstd::prelude::*;
use vstd::std_specs::convert::FromSpec;

verus! {

/// The class of an item, carried by bits 2 and 3 of its prefix byte.
#[derive(Debug, Clone, Copy, PartialEq, Eq, Structural)]
pub enum ReportItemType {
    Main,
    Global,
    Local,
    Reserved,
}

impl ReportItemType {
    /// The class that a two-bit class value stands for.
    pub open spec fn spec_parse(val: u8) -> ReportItemType {
        if val == 0 {
            ReportItemType::Main
        } else if val == 1 {
            ReportItemType::Global
        } else if val == 2 {
            ReportItemType::Local
        } else {
            ReportItemType::Reserved
        }
    }

    /// The two-bit value that stands for this class.
    pub open spec fn spec_value(self) -> u8 {
        match self {
            ReportItemType::Main => 0,
            ReportItemType::Global => 1,
            ReportItemType::Local => 2,
            ReportItemType::Reserved => 3,
        }
    }

    /// Resolves a two-bit class value.
    pub fn parse(val: u8) -> (typ: ReportItemType)
        requires
            val <= 3,
        ensures
            typ == Self::spec_parse(val),
            typ.spec_value() == val,
    {
        match val {
            0 => ReportItemType::Main,
            1 => ReportItemType::Global,
            2 => ReportItemType::Local,
            _ => ReportItemType::Reserved,
        }
    }

    /// The two-bit value that stands for this class.
    pub fn value(self) -> (val: u8)
        ensures
            val == self.spec_value(),
            val <= 3,
            Self::spec_parse(val) == self,
    {
        match self {
            ReportItemType::Main => 0,
            ReportItemType::Global => 1,
            ReportItemType::Local => 2,
            ReportItemType::Reserved => 3,
        }
    }
}

/// Tags of the Global class, which set state that later items inherit.
#[derive(Debug, Clone, Copy, PartialEq, Eq, Structural)]
pub enum GlobalTag {
    UsagePage,
    LogicalMinimum,
    LogicalMaximum,
    PhysicalMinimum,
    PhysicalMaximum,
    UnitExponent,
    Unit,
    ReportSize,
    ReportId,
    ReportCount,
    Push,
    Pop,
    Reserved(u8),
}

impl GlobalTag {
    /// The tag value that this tag stands for.
    pub open spec fn spec_value(self) -> u8 {
        match self {
            GlobalTag::UsagePage => 0,
            GlobalTag::LogicalMinimum => 1,
            GlobalTag::LogicalMaximum => 2,
            GlobalTag::PhysicalMinimum => 3,
            GlobalTag::PhysicalMaximum => 4,
            GlobalTag::UnitExponent => 5,
            GlobalTag::Unit => 6,
            GlobalTag::ReportSize => 7,
            GlobalTag::ReportId => 8,
            GlobalTag::ReportCount => 9,
            GlobalTag::Push => 10,
            GlobalTag::Pop => 11,
            GlobalTag::Reserved(n) => n,
        }
    }

    /// The tag value that this tag stands for.
    pub fn value(self) -> (val: u8)
        ensures
            val == self.spec_value(),
    {
        match self {
            GlobalTag::UsagePage => 0,
            GlobalTag::LogicalMinimum => 1,
            GlobalTag::LogicalMaximum => 2,
            GlobalTag::PhysicalMinimum => 3,
            GlobalTag::PhysicalMaximum => 4,
            GlobalTag::UnitExponent => 5,
            GlobalTag::Unit => 6,
            GlobalTag::ReportSize => 7,
            GlobalTag::ReportId => 8,
            GlobalTag::ReportCount => 9,
            GlobalTag::Push => 10,
            GlobalTag::Pop => 11,
            GlobalTag::Reserved(n) => n,
        }
    }
}

impl vstd::std_specs::convert::FromSpecImpl<u8> for GlobalTag {
    open spec fn obeys_from_spec() -> bool {
        true
    }

    /// Values 0 to 11 are the twelve named tags in table order; every other
    /// value is reserved and kept as it is.
    open spec fn from_spec(val: u8) -> GlobalTag {
        if val == 0 {
            GlobalTag::UsagePage
        } else if val == 1 {
            GlobalTag::LogicalMinimum
        } else if val == 2 {
            GlobalTag::LogicalMaximum
        } else if val == 3 {
            GlobalTag::PhysicalMinimum
        } else if val == 4 {
            GlobalTag::PhysicalMaximum
        } else if val == 5 {
            GlobalTag::UnitExponent
        } else if val == 6 {
            GlobalTag::Unit
        } else if val == 7 {
            GlobalTag::ReportSize
        } else if val == 8 {
            GlobalTag::ReportId
        } else if val == 9 {
            GlobalTag::ReportCount
        } else if val == 10 {
            GlobalTag::Push
        } else if val == 11 {
            GlobalTag::Pop
        } else {
            GlobalTag::Reserved(val)
        }
    }
}

impl From<u8> for GlobalTag {
    fn from(val: u8) -> (tag: GlobalTag) {
        match val {
            0 => GlobalTag::UsagePage,
            1 => GlobalTag::LogicalMinimum,
            2 => GlobalTag::LogicalMaximum,
            3 => GlobalTag::PhysicalMinimum,
            4 => GlobalTag::PhysicalMaximum,
            5 => GlobalTag::UnitExponent,
            6 => GlobalTag::Unit,
            7 => GlobalTag::ReportSize,
            8 => GlobalTag::ReportId,
            9 => GlobalTag::ReportCount,
            10 => GlobalTag::Push,
            11 => GlobalTag::Pop,
            other => GlobalTag::Reserved(other),
        }
    }
}

/// Tags of the Main class, which describe the structure of a report.
#[derive(Debug, Clone, Copy, PartialEq, Eq, Structural)]
pub enum MainTag {
    Input,
    Output,
    Feature,
    Collection,
    EndCollection,
    Reserved(u8),
}

impl MainTag {
    /// The tag value that this tag stands for.
    pub open spec fn spec_value(self) -> u8 {
        match self {
            MainTag::Input => 0b1000,
            MainTag::Output => 0b1001,
            MainTag::Collection => 0b1010,
            MainTag::Feature => 0b1011,
            MainTag::EndCollection => 0b1100,
            MainTag::Reserved(n) => n,
        }
    }

    /// The tag value that this tag stands for.
    pub fn value(self) -> (val: u8)
        ensures
            val == self.spec_value(),
    {
        match self {
            MainTag::Input => 0b1000,
            MainTag::Output => 0b1001,
            MainTag::Collection => 0b1010,
            MainTag::Feature => 0b1011,
            MainTag::EndCollection => 0b1100,
            MainTag::Reserved(n) => n,
        }
    }
}

impl vstd::std_specs::convert::FromSpecImpl<u8> for MainTag {
    open spec fn obeys_from_spec() -> bool {
        true
    }

    /// Only the values 8 to 12 are named; every other value, those below 8
    /// included, is reserved and kept as it is.
    open spec fn from_spec(val: u8) -> MainTag {
        if val == 0b1000 {
            MainTag::Input
        } else if val == 0b1001 {
            MainTag::Output
        } else if val == 0b1010 {
            MainTag::Collection
        } else if val == 0b1011 {
            MainTag::Feature
        } else if val == 0b1100 {
            MainTag::EndCollection
        } else {
            MainTag::Reserved(val)
        }
    }
}

impl From<u8> for MainTag {
    fn from(val: u8) -> (tag: MainTag) {
        match val {
            0b1000 => MainTag::Input,
            0b1001 => MainTag::Output,
            0b1011 => MainTag::Feature,
            0b1010 => MainTag::Collection,
            0b1100 => MainTag::EndCollection,
            other => MainTag::Reserved(other),
        }
    }
}

/// Tags of the Local class, which annotate the Main item that follows.
#[derive(Debug, Clone, Copy, PartialEq, Eq, Structural)]
pub enum LocalTag {
    Usage,
    UsageMinimum,
    UsageMaximum,
    DesignatorIndex,
    DesignatorMinimum,
    DesignatorMaximum,
    StringIndex,
    StringMinimum,
    StringMaximum,
    Delimiter,
    Reserved(u8),
}

impl LocalTag {
    /// The tag value that this tag stands for.
    pub open spec fn spec_value(self) -> u8 {
        match self {
            LocalTag::Usage => 0b0000,
            LocalTag::UsageMinimum => 0b0001,
            LocalTag::UsageMaximum => 0b0010,
            LocalTag::DesignatorIndex => 0b0011,
            LocalTag::DesignatorMinimum => 0b0100,
            LocalTag::DesignatorMaximum => 0b0101,
            LocalTag::StringIndex => 0b0111,
            LocalTag::StringMinimum => 0b1000,
            LocalTag::StringMaximum => 0b1001,
            LocalTag::Delimiter => 0b1010,
            LocalTag::Reserved(n) => n,
        }
    }

    /// The tag value that this tag stands for.
    pub fn value(self) -> (val: u8)
        ensures
            val == self.spec_value(),
    {
        match self {
            LocalTag::Usage => 0b0000,
            LocalTag::UsageMinimum => 0b0001,
            LocalTag::UsageMaximum => 0b0010,
            LocalTag::DesignatorIndex => 0b0011,
            LocalTag::DesignatorMinimum => 0b0100,
            LocalTag::DesignatorMaximum => 0b0101,
            LocalTag::StringIndex => 0b0111,
            LocalTag::StringMinimum => 0b1000,
            LocalTag::StringMaximum => 0b1001,
            LocalTag::Delimiter => 0b1010,
            LocalTag::Reserved(n) => n,
        }
    }
}

impl vstd::std_specs::convert::FromSpecImpl<u8> for LocalTag {
    open spec fn obeys_from_spec() -> bool {
        true
    }

    /// The values 0 to 5 and 7 to 10 are named; 6 and every value above 10
    /// are reserved and kept as they are.
    open spec fn from_spec(val: u8) -> LocalTag {
        if val == 0b0000 {
            LocalTag::Usage
        } else if val == 0b0001 {
            LocalTag::UsageMinimum
        } else if val == 0b0010 {
            LocalTag::UsageMaximum
        } else if val == 0b0011 {
            LocalTag::DesignatorIndex
        } else if val == 0b0100 {
            LocalTag::DesignatorMinimum
        } else if val == 0b0101 {
            LocalTag::DesignatorMaximum
        } else if val == 0b0111 {
            LocalTag::StringIndex
        } else if val == 0b1000 {
            LocalTag::StringMinimum
        } else if val == 0b1001 {
            LocalTag::StringMaximum
        } else if val == 0b1010 {
            LocalTag::Delimiter
        } else {
            LocalTag::Reserved(val)
        }
    }
}

impl From<u8> for LocalTag {
    fn from(val: u8) -> (tag: LocalTag) {
        match val {
            0b0000 => LocalTag::Usage,
            0b0001 => LocalTag::UsageMinimum,
            0b0010 => LocalTag::UsageMaximum,
            0b0011 => LocalTag::DesignatorIndex,
            0b0100 => LocalTag::DesignatorMinimum,
            0b0101 => LocalTag::DesignatorMaximum,
            0b0111 => LocalTag::StringIndex,
            0b1000 => LocalTag::StringMinimum,
            0b1001 => LocalTag::StringMaximum,
            0b1010 => LocalTag::Delimiter,
            other => LocalTag::Reserved(other),
        }
    }
}

/// The tag value that marks the long encoding in a prefix byte.
pub const LONG_ITEM_TAG: u8 = 0b1111;

/// A tag together with the namespace it was resolved in.
#[derive(Debug, Clone, Copy, PartialEq, Eq, Structural)]
pub enum Tag {
    Global(GlobalTag),
    Main(MainTag),
    Local(LocalTag),
    /// The prefix byte announces the long encoding.
    LongItem,
    /// The class is reserved, so the value has no namespace.
    Unknown(u8),
}

impl Tag {
    /// The tag that a value stands for in the namespace of a class, with no
    /// value set apart.
    pub open spec fn spec_resolve(val: u8, format: ReportItemType) -> Tag {
        match format {
            ReportItemType::Global => Tag::Global(GlobalTag::from_spec(val)),
            ReportItemType::Main => Tag::Main(MainTag::from_spec(val)),
            ReportItemType::Local => Tag::Local(LocalTag::from_spec(val)),
            ReportItemType::Reserved => Tag::Unknown(val),
        }
    }

    /// The tag that the tag bits of a prefix byte stand for: the long item
    /// mark comes before every namespace.
    pub open spec fn spec_parse(val: u8, format: ReportItemType) -> Tag {
        if val == LONG_ITEM_TAG {
            Tag::LongItem
        } else {
            Self::spec_resolve(val, format)
        }
    }

    /// The tag value that this tag stands for.
    pub open spec fn spec_value(self) -> u8 {
        match self {
            Tag::Global(tag) => tag.spec_value(),
            Tag::Main(tag) => tag.spec_value(),
            Tag::Local(tag) => tag.spec_value(),
            Tag::LongItem => LONG_ITEM_TAG,
            Tag::Unknown(n) => n,
        }
    }

    /// Whether this tag lies in the namespace of the given class.
    pub open spec fn spec_belongs_to(self, format: ReportItemType) -> bool {
        match self {
            Tag::Global(_) => format == ReportItemType::Global,
            Tag::Main(_) => format == ReportItemType::Main,
            Tag::Local(_) => format == ReportItemType::Local,
            Tag::LongItem => false,
            Tag::Unknown(_) => format == ReportItemType::Reserved,
        }
    }

    /// Resolves a value in the namespace of a class. No value is set apart:
    /// this is how the tag byte of a long item is read.
    pub fn resolve(val: u8, format: ReportItemType) -> (tag: Tag)
        ensures
            tag == Self::spec_resolve(val, format),
            tag.spec_belongs_to(format),
            tag.spec_value() == val,
    {
        match format {
            ReportItemType::Global => Tag::Global(GlobalTag::from(val)),
            ReportItemType::Main => Tag::Main(MainTag::from(val)),
            ReportItemType::Local => Tag::Local(LocalTag::from(val)),
            ReportItemType::Reserved => Tag::Unknown(val),
        }
    }

    /// Resolves the tag bits of a prefix byte: the long item mark first,
    /// whatever the class, then the namespace of the class.
    pub fn parse(val: u8, format: ReportItemType) -> (tag: Tag)
        ensures
            tag == Self::spec_parse(val, format),
            val == LONG_ITEM_TAG <==> tag == Tag::LongItem,
            val != LONG_ITEM_TAG ==> tag.spec_belongs_to(format),
            tag.spec_value() == val,
    {
        if val == LONG_ITEM_TAG {
            return Tag::LongItem;
        }
        Self::resolve(val, format)
    }

    /// The tag value that this tag stands for.
    pub fn value(self) -> (val: u8)
        ensures
            val == self.spec_value(),
    {
        match self {
            Tag::Global(tag) => tag.value(),
            Tag::Main(tag) => tag.value(),
            Tag::Local(tag) => tag.value(),
            Tag::LongItem => LONG_ITEM_TAG,
            Tag::Unknown(n) => n,
        }
    }

    /// Whether this tag lies in the namespace of the given class.
    pub fn belongs_to(self, format: ReportItemType) -> (b: bool)
        ensures
            b == self.spec_belongs_to(format),
    {
        match self {
            Tag::Global(_) => format == ReportItemType::Global,
            Tag::Main(_) => format == ReportItemType::Main,
            Tag::Local(_) => format == ReportItemType::Local,
            Tag::LongItem => false,
            Tag::Unknown(_) => format == ReportItemType::Reserved,
        }
    }
}

/// The Global table is total: the values 0 to 11 have a name, every other
/// value is reserved, and the tag of a value stands for that value.
pub proof fn lemma_global_table(val: u8)
    ensures
        GlobalTag::from_spec(val) is Reserved <==> val > 11,
        GlobalTag::from_spec(val).spec_value() == val,
{
}

/// The Main table is total: the values 8 to 12 have a name, every other
/// value is reserved, and the tag of a value stands for that value.
pub proof fn lemma_main_table(val: u8)
    ensures
        MainTag::from_spec(val) is Reserved <==> !(8 <= val <= 12),
        MainTag::from_spec(val).spec_value() == val,
{
}

/// The Local table is total: the values 0 to 5 and 7 to 10 have a name,
/// every other value is reserved, and the tag of a value stands for that
/// value.
pub proof fn lemma_local_table(val: u8)
    ensures
        LocalTag::from_spec(val) is Reserved <==> (val == 6 || val > 10),
        LocalTag::from_spec(val).spec_value() == val,
{
}

/// The long item mark comes first: the tag value 15 in a prefix byte is the
/// long item mark whatever the class, and no other value is.
pub proof fn lemma_long_item_mark(val: u8, format: ReportItemType)
    ensures
        Tag::spec_parse(val, format) == Tag::LongItem <==> val == LONG_ITEM_TAG,
{
}

/// Every tag value of every class has a tag. Apart from the long item mark
/// it lies in the namespace of the class, and in either case it stands for
/// the value it was resolved from.
pub proof fn lemma_tag_table_total(val: u8, format: ReportItemType)
    ensures
        val != LONG_ITEM_TAG ==> Tag::spec_parse(val, format).spec_belongs_to(format),
        Tag::spec_parse(val, format).spec_value() == val,
        Tag::spec_resolve(val, format).spec_belongs_to(format),
        Tag::spec_resolve(val, format).spec_value() == val,
{
}

/// Two different tag values never share a tag within one class.
pub proof fn lemma_tag_values_distinct(a: u8, b: u8, format: ReportItemType)
    requires
        a != b,
    ensures
        Tag::spec_parse(a, format) != Tag::spec_parse(b, format),
        Tag::spec_resolve(a, format) != Tag::spec_resolve(b, format),
{
    lemma_tag_table_total(a, format);
    lemma_tag_table_total(b, format);
}

} // verus!
