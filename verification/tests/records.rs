use openrgb_data::Color;
use openrgb_data::ColorMode;
use openrgb_data::Controller;
use openrgb_data::DeviceType;
use openrgb_data::Direction;
use openrgb_data::LED;
use openrgb_data::Matrix;
use openrgb_data::Mode;
use openrgb_data::ModeFlag;
use openrgb_data::ModeFlags;
use openrgb_data::OpenRGBError;
use openrgb_data::OpenRGBReadable;
use openrgb_data::OpenRGBWritable;
use openrgb_data::ReadStream;
use openrgb_data::WriteStream;
use openrgb_data::Zone;
use openrgb_data::ZoneType;

static DEFAULT_PROTOCOL: u32 = 3;

fn encode<T: OpenRGBWritable>(value: T) -> Vec<u8> {
    let mut stream = WriteStream::new();
    value.write(&mut stream, DEFAULT_PROTOCOL).expect("value must encode");
    stream.into_vec()
}

fn decode<T: OpenRGBReadable>(bytes: Vec<u8>) -> T {
    let mut stream = ReadStream::new(bytes);
    T::read(&mut stream, DEFAULT_PROTOCOL).expect("value must decode")
}

fn sample_mode() -> Mode {
    Mode {
        name: "Wave".to_string(),
        value: 20,
        flags: ModeFlags::flag(ModeFlag::HasSpeed).with(ModeFlag::HasDirectionLR),
        speed_min: Some(1),
        speed_max: Some(5),
        brightness_min: None,
        brightness_max: None,
        colors_min: None,
        colors_max: None,
        speed: Some(3),
        brightness: None,
        direction: Some(Direction::Right),
        color_mode: Some(ColorMode::PerLED),
        colors: vec![Color { r: 1, g: 2, b: 3 }],
    }
}

#[test]
fn mode_round_trip() {
    let mode = sample_mode();
    let size = mode.size(DEFAULT_PROTOCOL);
    let bytes = encode(sample_mode());
    assert_eq!(size, bytes.len());
    assert_eq!(decode::<Mode>(bytes), mode);
}

#[test]
fn mode_with_mismatched_flags_fails_to_encode() {
    let mut mode = sample_mode();
    mode.speed = None;
    let mut stream = WriteStream::new();
    assert!(matches!(
        mode.write(&mut stream, DEFAULT_PROTOCOL),
        Err(OpenRGBError::ProtocolError(_))
    ));
}

#[test]
fn zone_without_matrix_round_trip() {
    let zone = Zone {
        name: "test".to_string(),
        zone_type: ZoneType::Linear,
        leds_min: 3,
        leds_max: 18,
        leds_count: 15,
        matrix: None,
    };
    let bytes = encode(Zone { matrix: None, ..clone_zone(&zone) });
    let mut expected = vec![5, 0, 116, 101, 115, 116, 0];
    expected.extend(1u32.to_le_bytes());
    expected.extend(3u32.to_le_bytes());
    expected.extend(18u32.to_le_bytes());
    expected.extend(15u32.to_le_bytes());
    expected.extend(0u16.to_le_bytes());
    assert_eq!(bytes, expected);
    assert_eq!(decode::<Zone>(bytes), zone);
}

fn clone_zone(z: &Zone) -> Zone {
    Zone {
        name: z.name.clone(),
        zone_type: z.zone_type,
        leds_min: z.leds_min,
        leds_max: z.leds_max,
        leds_count: z.leds_count,
        matrix: None,
    }
}

#[test]
fn zone_with_matrix_round_trip() {
    let matrix = Matrix::new(2, 3, vec![0, 1, 2, 3, 4, 5]).expect("a 2 by 3 matrix is valid");
    let zone = Zone {
        name: "test".to_string(),
        zone_type: ZoneType::Matrix,
        leds_min: 3,
        leds_max: 18,
        leds_count: 15,
        matrix: Some(matrix),
    };
    let size = zone.size(DEFAULT_PROTOCOL);
    let bytes = encode(decode::<Zone>(encode_zone_with_matrix()));
    assert_eq!(bytes, encode_zone_with_matrix());
    assert_eq!(size, bytes.len());
    let back = decode::<Zone>(bytes);
    assert_eq!(back, zone);
    let m = back.matrix.expect("matrix must be present");
    assert_eq!(m.height(), 2);
    assert_eq!(m.width(), 3);
    assert_eq!(m.values(), vec![0, 1, 2, 3, 4, 5]);
}

fn encode_zone_with_matrix() -> Vec<u8> {
    let mut bytes = vec![5, 0, 116, 101, 115, 116, 0];
    bytes.extend(2u32.to_le_bytes());
    bytes.extend(3u32.to_le_bytes());
    bytes.extend(18u32.to_le_bytes());
    bytes.extend(15u32.to_le_bytes());
    bytes.extend(6u16.to_le_bytes());
    bytes.extend(2u32.to_le_bytes());
    bytes.extend(3u32.to_le_bytes());
    for v in 0u32..6 {
        bytes.extend(v.to_le_bytes());
    }
    bytes
}

#[test]
fn matrix_rejects_mismatched_dimensions() {
    assert!(Matrix::new(2, 3, vec![0, 1, 2]).is_none());
    assert!(Matrix::new(0, 3, vec![]).is_none());
}

#[test]
fn empty_controller_round_trip() {
    let controller = empty_controller();
    let size = controller.size(DEFAULT_PROTOCOL);
    let bytes = encode(empty_controller());
    assert_eq!(size, bytes.len());
    assert_eq!(decode::<Controller>(bytes), controller);
}

#[test]
fn controller_length_field_counts_payload() {
    let bytes = encode(empty_controller());
    let mut len_field = [0u8; 4];
    len_field.copy_from_slice(&bytes[0..4]);
    assert_eq!(u32::from_le_bytes(len_field) as usize, bytes.len() - 4);
}

#[test]
fn controller_with_contents_round_trip() {
    let controller = Controller {
        device_type: DeviceType::Keyboard,
        name: "Board".to_string(),
        vendor: "Vendor".to_string(),
        description: "A keyboard".to_string(),
        version: "1.0".to_string(),
        serial: "SN1".to_string(),
        location: "usb".to_string(),
        active_mode: -1,
        modes: vec![sample_mode()],
        zones: vec![Zone {
            name: "main".to_string(),
            zone_type: ZoneType::Single,
            leds_min: 1,
            leds_max: 1,
            leds_count: 1,
            matrix: None,
        }],
        leds: vec![LED { name: "led".to_string(), value: 7 }],
        colors: vec![Color { r: 9, g: 8, b: 7 }],
    };
    let size = controller.size(DEFAULT_PROTOCOL);
    let bytes = encode(decode::<Controller>(encode_controller_again(&controller)));
    assert_eq!(size, bytes.len());
    assert_eq!(decode::<Controller>(bytes), controller);
}

fn encode_controller_again(c: &Controller) -> Vec<u8> {
    let mut stream = WriteStream::new();
    let copy = Controller {
        device_type: c.device_type,
        name: c.name.clone(),
        vendor: c.vendor.clone(),
        description: c.description.clone(),
        version: c.version.clone(),
        serial: c.serial.clone(),
        location: c.location.clone(),
        active_mode: c.active_mode,
        modes: vec![sample_mode()],
        zones: vec![Zone {
            name: "main".to_string(),
            zone_type: ZoneType::Single,
            leds_min: 1,
            leds_max: 1,
            leds_count: 1,
            matrix: None,
        }],
        leds: vec![LED { name: "led".to_string(), value: 7 }],
        colors: vec![Color { r: 9, g: 8, b: 7 }],
    };
    copy.write(&mut stream, DEFAULT_PROTOCOL).expect("controller must encode");
    stream.into_vec()
}

fn empty_controller() -> Controller {
    Controller {
        device_type: DeviceType::Cooler,
        name: "Fan".to_string(),
        vendor: "Acme".to_string(),
        description: "A fan".to_string(),
        version: String::new(),
        serial: String::new(),
        location: "here".to_string(),
        active_mode: 0,
        modes: vec![],
        zones: vec![],
        leds: vec![],
        colors: vec![],
    }
}
