use hidraw_rs::{GlobalTag, LocalTag, MainTag, ReportItemType, Tag, LONG_ITEM_TAG};

#[test]
fn class_values() {
    assert_eq!(ReportItemType::parse(0), ReportItemType::Main);
    assert_eq!(ReportItemType::parse(1), ReportItemType::Global);
    assert_eq!(ReportItemType::parse(2), ReportItemType::Local);
    assert_eq!(ReportItemType::parse(3), ReportItemType::Reserved);
    for val in 0u8..4 {
        assert_eq!(ReportItemType::parse(val).value(), val);
    }
}

#[test]
fn global_table() {
    let named = [
        GlobalTag::UsagePage,
        GlobalTag::LogicalMinimum,
        GlobalTag::LogicalMaximum,
        GlobalTag::PhysicalMinimum,
        GlobalTag::PhysicalMaximum,
        GlobalTag::UnitExponent,
        GlobalTag::Unit,
        GlobalTag::ReportSize,
        GlobalTag::ReportId,
        GlobalTag::ReportCount,
        GlobalTag::Push,
        GlobalTag::Pop,
    ];
    for (val, tag) in named.iter().enumerate() {
        assert_eq!(GlobalTag::from(val as u8), *tag);
    }
    for val in 12u8..=255 {
        assert_eq!(GlobalTag::from(val), GlobalTag::Reserved(val));
    }
}

#[test]
fn main_table() {
    assert_eq!(MainTag::from(0b1000), MainTag::Input);
    assert_eq!(MainTag::from(0b1001), MainTag::Output);
    assert_eq!(MainTag::from(0b1010), MainTag::Collection);
    assert_eq!(MainTag::from(0b1011), MainTag::Feature);
    assert_eq!(MainTag::from(0b1100), MainTag::EndCollection);
    for val in 0u8..8 {
        assert_eq!(MainTag::from(val), MainTag::Reserved(val));
    }
    for val in 13u8..=255 {
        assert_eq!(MainTag::from(val), MainTag::Reserved(val));
    }
}

#[test]
fn local_table() {
    assert_eq!(LocalTag::from(0), LocalTag::Usage);
    assert_eq!(LocalTag::from(1), LocalTag::UsageMinimum);
    assert_eq!(LocalTag::from(2), LocalTag::UsageMaximum);
    assert_eq!(LocalTag::from(3), LocalTag::DesignatorIndex);
    assert_eq!(LocalTag::from(4), LocalTag::DesignatorMinimum);
    assert_eq!(LocalTag::from(5), LocalTag::DesignatorMaximum);
    assert_eq!(LocalTag::from(6), LocalTag::Reserved(6));
    assert_eq!(LocalTag::from(7), LocalTag::StringIndex);
    assert_eq!(LocalTag::from(8), LocalTag::StringMinimum);
    assert_eq!(LocalTag::from(9), LocalTag::StringMaximum);
    assert_eq!(LocalTag::from(10), LocalTag::Delimiter);
    for val in 11u8..=255 {
        assert_eq!(LocalTag::from(val), LocalTag::Reserved(val));
    }
}

#[test]
fn every_tag_value_of_every_class_has_a_tag() {
    let classes = [
        ReportItemType::Main,
        ReportItemType::Global,
        ReportItemType::Local,
        ReportItemType::Reserved,
    ];
    for class in classes {
        for val in 0u8..16 {
            let tag = Tag::parse(val, class);
            assert_eq!(tag.value(), val);
            if val == LONG_ITEM_TAG {
                assert_eq!(tag, Tag::LongItem);
                assert!(!tag.belongs_to(class));
            } else {
                assert!(tag.belongs_to(class));
                assert_ne!(tag, Tag::LongItem);
            }
        }
        for val in 0u8..=255 {
            let tag = Tag::resolve(val, class);
            assert_eq!(tag.value(), val);
            assert!(tag.belongs_to(class));
        }
    }
}

#[test]
fn tags_resolve_by_class() {
    assert_eq!(Tag::parse(0, ReportItemType::Global), Tag::Global(GlobalTag::UsagePage));
    assert_eq!(Tag::parse(0, ReportItemType::Local), Tag::Local(LocalTag::Usage));
    assert_eq!(Tag::parse(0, ReportItemType::Main), Tag::Main(MainTag::Reserved(0)));
    assert_eq!(Tag::parse(0, ReportItemType::Reserved), Tag::Unknown(0));
    assert_eq!(Tag::parse(12, ReportItemType::Global), Tag::Global(GlobalTag::Reserved(12)));
    assert_eq!(Tag::parse(14, ReportItemType::Global), Tag::Global(GlobalTag::Reserved(14)));
    assert_eq!(Tag::parse(12, ReportItemType::Main), Tag::Main(MainTag::EndCollection));
    assert_eq!(Tag::parse(11, ReportItemType::Local), Tag::Local(LocalTag::Reserved(11)));
    assert_eq!(Tag::resolve(15, ReportItemType::Local), Tag::Local(LocalTag::Reserved(15)));
    assert_eq!(Tag::resolve(15, ReportItemType::Reserved), Tag::Unknown(15));
}

#[test]
fn named_tags_have_their_values() {
    assert_eq!(GlobalTag::Pop.value(), 11);
    assert_eq!(GlobalTag::ReportSize.value(), 7);
    assert_eq!(MainTag::Feature.value(), 0b1011);
    assert_eq!(MainTag::Collection.value(), 0b1010);
    assert_eq!(LocalTag::StringIndex.value(), 7);
    assert_eq!(LocalTag::Delimiter.value(), 10);
    assert_eq!(Tag::LongItem.value(), 15);
    assert_eq!(Tag::Unknown(9).value(), 9);
}
