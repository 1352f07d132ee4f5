//! Decoder for USB HID report descriptors, with the plain data that
//! describes a hidraw device on the host.

pub mod tag;
pub mod report_descriptor;
pub mod uevent;
pub mod unix;

pub use report_descriptor::{
    ParseError, RawReport, ReportItem, ReportItemFormat, HID_MAX_DESCRIPTOR_SIZE,
};
pub use tag::{GlobalTag, LocalTag, MainTag, ReportItemType, Tag, LONG_ITEM_TAG};
pub use uevent::{HidUevent, UeventError};
pub use unix::{find_device, DeviceInfo};
