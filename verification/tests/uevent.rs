use hidraw_rs::{find_device, DeviceInfo, HidUevent, UeventError};

const MOUSE: &str = "DRIVER=hid-generic\nHID_ID=0003:0000046D:0000C077\nHID_NAME=Logitech USB Optical Mouse\nHID_PHYS=usb-0000:00:14.0-2/input0\nHID_UNIQ=\nMODALIAS=hid:b0003g0001v0000046Dp0000C077\n";

#[test]
fn reads_a_kernel_uevent() {
    let event = HidUevent::from_raw(MOUSE).unwrap();
    assert_eq!(event.bus, 0x0003);
    assert_eq!(event.vendor, 0x046D);
    assert_eq!(event.product, 0xC077);
    assert_eq!(event.name, "Logitech USB Optical Mouse");
    assert_eq!(event.serial_number, "");
}

#[test]
fn reads_a_serial_number() {
    let raw = "HID_ID=0005:000005AC:0000030D\nHID_NAME=Magic Mouse\nHID_UNIQ=04-0c-ce-d5-11-22";
    let event = HidUevent::from_raw(raw).unwrap();
    assert_eq!(event.bus, 5);
    assert_eq!(event.vendor, 0x05AC);
    assert_eq!(event.product, 0x030D);
    assert_eq!(event.name, "Magic Mouse");
    assert_eq!(event.serial_number, "04-0c-ce-d5-11-22");
}

#[test]
fn value_may_hold_the_separator() {
    let raw = "HID_ID=1:2:3\nHID_NAME=a=b=c\nHID_UNIQ==\n";
    let event = HidUevent::from_raw(raw).unwrap();
    assert_eq!(event.name, "a=b=c");
    assert_eq!(event.serial_number, "=");
}

#[test]
fn carriage_return_before_line_feed_is_no_part_of_the_line() {
    let raw = "HID_ID=1:2:3\r\nHID_NAME=Pad\r\nHID_UNIQ=77\r\n";
    let event = HidUevent::from_raw(raw).unwrap();
    assert_eq!((event.bus, event.vendor, event.product), (1, 2, 3));
    assert_eq!(event.name, "Pad");
    assert_eq!(event.serial_number, "77");
}

#[test]
fn carriage_return_elsewhere_stays() {
    let raw = "HID_ID=1:2:3\nHID_NAME=Pad\r\r\nHID_UNIQ=77\r";
    let event = HidUevent::from_raw(raw).unwrap();
    assert_eq!(event.name, "Pad\r");
    assert_eq!(event.serial_number, "77\r");
}

#[test]
fn the_last_line_of_a_key_counts() {
    let raw = "HID_NAME=first\nHID_ID=1:2:3\nHID_UNIQ=a\nHID_NAME=second\nHID_ID=a:b:c\nHID_UNIQ=b\n";
    let event = HidUevent::from_raw(raw).unwrap();
    assert_eq!(event.name, "second");
    assert_eq!(event.serial_number, "b");
    assert_eq!((event.bus, event.vendor, event.product), (10, 11, 12));
}

#[test]
fn names_beyond_ascii() {
    let raw = "HID_NAME=Größe 鼠标\nHID_UNIQ=ß\nHID_ID=0003:0000046D:0000C077\n";
    let event = HidUevent::from_raw(raw).unwrap();
    assert_eq!(event.name, "Größe 鼠标");
    assert_eq!(event.serial_number, "ß");
}

#[test]
fn hexadecimal_in_either_case_and_with_a_plus() {
    let raw = "HID_ID=+ff:DeadBeef:+0\nHID_NAME=n\nHID_UNIQ=u";
    let event = HidUevent::from_raw(raw).unwrap();
    assert_eq!(event.bus, 0xff);
    assert_eq!(event.vendor, 0xDEADBEEF);
    assert_eq!(event.product, 0);
}

#[test]
fn numbers_at_their_limits() {
    let raw = "HID_ID=FFFF:FFFFFFFF:0000000000000000000000FFFFFFFF\nHID_NAME=n\nHID_UNIQ=u";
    let event = HidUevent::from_raw(raw).unwrap();
    assert_eq!(event.bus, u16::MAX);
    assert_eq!(event.vendor, u32::MAX);
    assert_eq!(event.product, u32::MAX);
}

#[test]
fn parts_after_the_third_are_not_looked_at() {
    let raw = "HID_ID=1:2:3:zz:\nHID_NAME=n\nHID_UNIQ=u";
    let event = HidUevent::from_raw(raw).unwrap();
    assert_eq!((event.bus, event.vendor, event.product), (1, 2, 3));
}

fn error_of(raw: &str) -> UeventError {
    HidUevent::from_raw(raw).err().unwrap()
}

#[test]
fn line_without_separator() {
    assert_eq!(error_of("HID_ID=1:2:3\nHID_NAME\nHID_UNIQ=u"), UeventError::MissingSeparator);
    assert_eq!(
        error_of("HID_ID=1:2:3\nHID_NAME=n\nHID_UNIQ=u\n\nX=1"),
        UeventError::MissingSeparator
    );
    assert_eq!(error_of("\n"), UeventError::MissingSeparator);
}

#[test]
fn invalid_id() {
    for id in [
        "", "1", "1:2", "1:2:", ":2:3", "1::3", "10000:2:3", "1:100000000:3", "1:2:100000000",
        "1:2:3g", "-1:2:3", "1:+:3", "1:++2:3", " 1:2:3", "1:2:3 ", "0x1:2:3", "1:2_0:3",
    ] {
        let raw = format!("HID_ID={}\nHID_NAME=n\nHID_UNIQ=u\n", id);
        assert_eq!(error_of(&raw), UeventError::InvalidId, "{:?}", id);
    }
}

#[test]
fn invalid_id_counts_even_where_a_later_line_is_valid() {
    assert_eq!(
        error_of("HID_ID=x\nHID_ID=1:2:3\nHID_NAME=n\nHID_UNIQ=u\n"),
        UeventError::InvalidId
    );
}

#[test]
fn the_first_faulty_line_decides() {
    assert_eq!(error_of("HID_ID=x\nnothing\n"), UeventError::InvalidId);
    assert_eq!(error_of("nothing\nHID_ID=x\n"), UeventError::MissingSeparator);
}

#[test]
fn missing_keys() {
    assert_eq!(error_of(""), UeventError::MissingId);
    assert_eq!(error_of("HID_NAME=n\nHID_UNIQ=u\n"), UeventError::MissingId);
    assert_eq!(error_of("HID_ID=1:2:3\nHID_UNIQ=u\n"), UeventError::MissingName);
    assert_eq!(error_of("HID_ID=1:2:3\n"), UeventError::MissingName);
    assert_eq!(error_of("HID_ID=1:2:3\nHID_NAME=n\n"), UeventError::MissingSerialNumber);
    assert_eq!(error_of("hid_id=1:2:3\nHID_NAME=n\nHID_UNIQ=u"), UeventError::MissingId);
    assert_eq!(error_of("HID_ID =1:2:3\nHID_NAME=n\nHID_UNIQ=u"), UeventError::MissingId);
}

#[test]
fn device_info_from_event() {
    let event = HidUevent::from_raw("HID_ID=0003:0000046D:0000C52B\nHID_NAME=Receiver\nHID_UNIQ=S1\n")
        .unwrap();
    let info = DeviceInfo::new(event, "/dev/hidraw3");
    assert_eq!(info.vendor_id(), 0x046D);
    assert_eq!(info.product_id(), 0xC52B);
    assert_eq!(info.serial_number(), Some("S1"));
    assert_eq!(info.dev_node(), "/dev/hidraw3");
}

#[test]
fn empty_serial_number_is_none() {
    let event = HidUevent {
        bus: 3,
        vendor: 0x1234,
        product: 0x5678,
        name: "Thing",
        serial_number: "",
    };
    let info = DeviceInfo::new(event, "/dev/hidraw0");
    assert_eq!(info.serial_number(), None);
    assert_eq!(info.vendor_id(), 0x1234);
    assert_eq!(info.product_id(), 0x5678);
    assert_eq!(info.dev_node(), "/dev/hidraw0");
}

fn device(vendor: u32, product: u32, serial: &str, node: &str) -> DeviceInfo {
    DeviceInfo::new(
        HidUevent { bus: 3, vendor, product, name: "device", serial_number: serial },
        node,
    )
}

#[test]
fn finds_the_first_matching_device() {
    let devices = vec![
        device(1, 2, "a", "/dev/hidraw0"),
        device(2, 1, "b", "/dev/hidraw1"),
        device(1, 2, "c", "/dev/hidraw2"),
        device(7, 7, "", "/dev/hidraw3"),
    ];
    let found = find_device(&devices, 1, 2).unwrap();
    assert_eq!(found.dev_node(), "/dev/hidraw0");
    assert_eq!(found.serial_number(), Some("a"));
    let found = find_device(&devices, 2, 1).unwrap();
    assert_eq!(found.dev_node(), "/dev/hidraw1");
    let found = find_device(&devices, 7, 7).unwrap();
    assert_eq!(found.dev_node(), "/dev/hidraw3");
    assert_eq!(found.serial_number(), None);
    assert!(find_device(&devices, 2, 2).is_none());
    assert!(find_device(&[], 1, 2).is_none());
}

#[test]
fn device_from_attributes() {
    let raw = "HID_ID=0003:0000046D:0000C52B\nHID_NAME=Receiver\nHID_UNIQ=\n";
    let info = DeviceInfo::from_attributes(Some(raw), Some("/dev/hidraw1")).unwrap().unwrap();
    assert_eq!(info.vendor_id(), 0x046D);
    assert_eq!(info.product_id(), 0xC52B);
    assert_eq!(info.serial_number(), None);
    assert_eq!(info.dev_node(), "/dev/hidraw1");

    assert!(DeviceInfo::from_attributes(None, Some("/dev/hidraw1")).unwrap().is_none());
    assert!(DeviceInfo::from_attributes(Some(raw), None).unwrap().is_none());
    assert!(DeviceInfo::from_attributes(None, None).unwrap().is_none());
    assert_eq!(
        DeviceInfo::from_attributes(Some("HID_ID=1:2\n"), None).err(),
        Some(UeventError::InvalidId)
    );
    assert_eq!(
        DeviceInfo::from_attributes(Some("HID_ID=1:2:3\n"), Some("/dev/hidraw1")).err(),
        Some(UeventError::MissingName)
    );
}

/// What the standard library makes of the same text, line by line.
fn by_std(raw: &str) -> Option<(u16, u32, u32, String, String)> {
    let mut id = None;
    let mut name = None;
    let mut serial_number = None;
    for line in raw.lines() {
        let mut parts = line.splitn(2, '=');
        let key = parts.next()?;
        let value = parts.next()?;
        match key {
            "HID_NAME" => name = Some(value),
            "HID_UNIQ" => serial_number = Some(value),
            "HID_ID" => {
                let mut parts = value.split(':');
                let bus = u16::from_str_radix(parts.next()?, 16).ok()?;
                let vendor = u32::from_str_radix(parts.next()?, 16).ok()?;
                let product = u32::from_str_radix(parts.next()?, 16).ok()?;
                id = Some((bus, vendor, product));
            }
            _ => {}
        }
    }
    let (bus, vendor, product) = id?;
    Some((bus, vendor, product, name?.to_string(), serial_number?.to_string()))
}

fn by_library(raw: &str) -> Option<(u16, u32, u32, String, String)> {
    HidUevent::from_raw(raw).ok().map(|event| {
        (
            event.bus,
            event.vendor,
            event.product,
            event.name.to_string(),
            event.serial_number.to_string(),
        )
    })
}

#[test]
fn agrees_with_the_standard_library_on_chosen_texts() {
    let texts = [
        MOUSE,
        "",
        "\n",
        "\r\n",
        "=",
        "=\n=\n",
        "HID_ID=1:2:3\nHID_NAME=n\nHID_UNIQ=u",
        "HID_ID=1:2:3\r\nHID_NAME=n\r\nHID_UNIQ=u\r",
        "HID_ID=1:2:3\rHID_NAME=n\nHID_UNIQ=u\nHID_NAME=m",
        "HID_ID=1:2:3\n\nHID_NAME=n\nHID_UNIQ=u",
        "HID_ID=+1:+2:+3\nHID_NAME=\nHID_UNIQ=\n",
        "HID_ID=0:0:0:\nHID_NAME==\nHID_UNIQ=:\n\n",
        "HID_ID=ffff:ffffffff:ffffffff\nHID_NAME=n\nHID_UNIQ=u\n",
        "HID_ID=10000:ffffffff:ffffffff\nHID_NAME=n\nHID_UNIQ=u\n",
        "HID_ID=ffff:100000000:ffffffff\nHID_NAME=n\nHID_UNIQ=u\n",
        "HID_ID=1:2:3\r\r\nHID_NAME=n\nHID_UNIQ=u\n",
        "HID_NAME=é\nHID_UNIQ=日本\nHID_ID=A:b:C\n",
        "HID_IDX=1\nHID_ID=1:2:3\nHID_NAME=n\nHID_UNIQ=u\nHID_=\n",
    ];
    for text in texts {
        assert_eq!(by_library(text), by_std(text), "{:?}", text);
    }
}

#[test]
fn agrees_with_the_standard_library_on_many_texts() {
    let pieces = [
        "HID_ID", "HID_NAME", "HID_UNIQ", "=", "=", ":", ":", "\n", "\n", "\n", "\r", "+", "-", "0",
        "1", "9", "a", "F", "g", "ffff", "10000", "ffffffff", "100000000", " ", "é", "KEY",
        "HID_ID=3:46d:c077\n", "HID_NAME=n\n", "HID_UNIQ=u\n", "HID_ID=", "HID_NAME=", "HID_UNIQ=",
    ];
    let mut state: u64 = 0x2545F4914F6CDD1D;
    let mut accepted = 0;
    for _ in 0..40000 {
        let mut text = String::new();
        state = state.wrapping_mul(6364136223846793005).wrapping_add(1442695040888963407);
        let count = (state >> 33) % 12;
        for _ in 0..count {
            state = state.wrapping_mul(6364136223846793005).wrapping_add(1442695040888963407);
            let pick = ((state >> 33) % pieces.len() as u64) as usize;
            text.push_str(pieces[pick]);
        }
        let expected = by_std(&text);
        if expected.is_some() {
            accepted += 1;
        }
        assert_eq!(by_library(&text), expected, "{:?}", text);
    }
    assert!(accepted > 0);
}
