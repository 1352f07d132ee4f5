//! What is known of a hidraw device on the host: its numbers, its serial
//! number and its device node.

use crate::uevent::{spec_from_raw, HidUevent, HidUeventView, UeventError};
use vstd::prelude::*;
use vstd::string::*;

verus! {

/// A hidraw device of the host.
pub struct DeviceInfo {
    product_id: u32,
    vendor_id: u32,
    serial_number: Option<String>,
    dev_node: String,
}

/// A `DeviceInfo` with its texts as sequences of characters.
pub struct DeviceInfoView {
    pub product_id: u32,
    pub vendor_id: u32,
    pub serial_number: Option<Seq<char>>,
    pub dev_node: Seq<char>,
}

impl DeviceInfoView {
    /// A serial number that is known is not empty.
    pub open spec fn wf(self) -> bool {
        self.serial_number matches Some(serial) ==> serial.len() > 0
    }

    /// Whether the device has the given vendor and product numbers.
    pub open spec fn is_device(self, vendor_id: u32, product_id: u32) -> bool {
        self.vendor_id == vendor_id && self.product_id == product_id
    }

    /// The device that `event` speaks of and that is reached at `dev_node`.
    /// An empty serial number counts as none.
    pub open spec fn spec_new(event: HidUeventView, dev_node: Seq<char>) -> DeviceInfoView {
        DeviceInfoView {
            product_id: event.product,
            vendor_id: event.vendor,
            serial_number: if event.serial_number.len() > 0 {
                Some(event.serial_number)
            } else {
                None
            },
            dev_node,
        }
    }
}

/// What is known of a device from its `uevent` attribute and its device
/// node, as far as the host has them. Without the attribute or without the
/// node there is no device to speak of; an attribute that cannot be read is
/// an error also where the node is missing.
pub open spec fn spec_from_attributes(
    uevent: Option<Seq<char>>,
    dev_node: Option<Seq<char>>,
) -> Result<Option<DeviceInfoView>, UeventError> {
    match uevent {
        None => Ok(None),
        Some(raw) => match spec_from_raw(raw) {
            Err(e) => Err(e),
            Ok(event) => match dev_node {
                None => Ok(None),
                Some(path) => Ok(Some(DeviceInfoView::spec_new(event, path))),
            },
        },
    }
}

/// The text that an optional text stands for.
pub open spec fn text_view(text: Option<&str>) -> Option<Seq<char>> {
    match text {
        Some(t) => Some(t@),
        None => None,
    }
}

/// What `result` is with the texts of the device as sequences of
/// characters.
pub open spec fn info_view(result: Result<Option<DeviceInfo>, UeventError>) -> Result<
    Option<DeviceInfoView>,
    UeventError,
> {
    match result {
        Ok(Some(info)) => Ok(Some(info@)),
        Ok(None) => Ok(None),
        Err(e) => Err(e),
    }
}

impl View for DeviceInfo {
    type V = DeviceInfoView;

    closed spec fn view(&self) -> DeviceInfoView {
        DeviceInfoView {
            product_id: self.product_id,
            vendor_id: self.vendor_id,
            serial_number: match self.serial_number {
                Some(serial) => Some(serial@),
                None => None,
            },
            dev_node: self.dev_node@,
        }
    }
}

impl DeviceInfo {
    #[verifier::type_invariant]
    spec fn well_formed(self) -> bool {
        self@.wf()
    }

    /// Describes the device that `event` speaks of and that is reached at
    /// `dev_node`. An empty serial number counts as none.
    pub fn new(event: HidUevent, dev_node: &str) -> (info: DeviceInfo)
        ensures
            info@ == DeviceInfoView::spec_new(event@, dev_node@),
            info@.wf(),
    {
        // Replace empty string with None
        let serial_number = if !event.serial_number.is_empty() {
            Some(event.serial_number.to_owned())
        } else {
            None
        };

        DeviceInfo {
            product_id: event.product,
            vendor_id: event.vendor,
            serial_number,
            dev_node: dev_node.to_owned(),
        }
    }

    /// Describes a device from what the host holds of it: the `uevent`
    /// attribute of its HID parent and the path of its device node. Gives
    /// no device where either is missing.
    pub fn from_attributes(uevent: Option<&str>, dev_node: Option<&str>) -> (result: Result<
        Option<DeviceInfo>,
        UeventError,
    >)
        ensures
            info_view(result) == spec_from_attributes(text_view(uevent), text_view(dev_node)),
            result matches Ok(Some(info)) ==> info@.wf(),
    {
        let raw = match uevent {
            Some(raw) => raw,
            None => {
                return Ok(None);
            },
        };
        let event = match HidUevent::from_raw(raw) {
            Ok(event) => event,
            Err(e) => {
                return Err(e);
            },
        };
        match dev_node {
            Some(path) => Ok(Some(DeviceInfo::new(event, path))),
            None => Ok(None),
        }
    }

    /// The path of the device node.
    pub fn dev_node(&self) -> (path: &str)
        ensures
            path@ == self@.dev_node,
    {
        self.dev_node.as_str()
    }

    /// The product number of the device.
    pub fn product_id(&self) -> (id: u32)
        ensures
            id == self@.product_id,
    {
        self.product_id
    }

    /// The vendor number of the device.
    pub fn vendor_id(&self) -> (id: u32)
        ensures
            id == self@.vendor_id,
    {
        self.vendor_id
    }

    /// The serial number of the device, if it has one.
    pub fn serial_number(&self) -> (serial: Option<&str>)
        ensures
            serial is Some <==> self@.serial_number is Some,
            serial matches Some(text) ==> self@.serial_number == Some(text@) && text@.len() > 0,
    {
        proof {
            use_type_invariant(self);
        }
        match &self.serial_number {
            Some(serial) => Some(serial.as_str()),
            None => None,
        }
    }
}

/// Whether the device at position `i` has the given vendor and product
/// numbers, and none before it has.
pub open spec fn is_first_match(
    devices: Seq<DeviceInfo>,
    i: int,
    vendor_id: u32,
    product_id: u32,
) -> bool {
    &&& 0 <= i < devices.len()
    &&& devices[i]@.is_device(vendor_id, product_id)
    &&& forall|j: int| 0 <= j < i ==> !(#[trigger] devices[j])@.is_device(vendor_id, product_id)
}

/// Looks for the device with the given vendor and product numbers. Of
/// several such devices the first is found.
pub fn find_device(devices: &[DeviceInfo], vendor_id: u32, product_id: u32) -> (found: Option<
    &DeviceInfo,
>)
    ensures
        found is None <==> forall|i: int|
            0 <= i < devices@.len() ==> !(#[trigger] devices@[i])@.is_device(vendor_id, product_id),
        found matches Some(device) ==> exists|i: int|
            #[trigger] is_first_match(devices@, i, vendor_id, product_id) && *device == devices@[i],
{
    let mut i: usize = 0;
    while i < devices.len()
        invariant
            i <= devices@.len(),
            forall|j: int|
                0 <= j < i ==> !(#[trigger] devices@[j])@.is_device(vendor_id, product_id),
        decreases devices@.len() - i,
    {
        let device = &devices[i];
        if device.vendor_id() == vendor_id && device.product_id() == product_id {
            assert(is_first_match(devices@, i as int, vendor_id, product_id));
            return Some(device);
        }
        i += 1;
    }
    None
}

} // verus!
