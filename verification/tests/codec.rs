use openrgb_data::Color;
use openrgb_data::ColorMode;
use openrgb_data::DeviceType;
use openrgb_data::Direction;
use openrgb_data::LED;
use openrgb_data::ModeFlag;
use openrgb_data::ModeFlags;
use openrgb_data::OpenRGBError;
use openrgb_data::OpenRGBReadable;
use openrgb_data::OpenRGBWritable;
use openrgb_data::PacketId;
use openrgb_data::ReadStream;
use openrgb_data::WriteStream;
use openrgb_data::ZoneType;

static DEFAULT_PROTOCOL: u32 = 3;

fn encode<T: OpenRGBWritable>(value: T) -> Vec<u8> {
    let mut stream = WriteStream::new();
    value.write(&mut stream, DEFAULT_PROTOCOL).expect("value must encode");
    stream.into_vec()
}

fn decode<T: OpenRGBReadable>(bytes: Vec<u8>) -> T {
    let mut stream = ReadStream::new(bytes);
    T::read(&mut stream, DEFAULT_PROTOCOL).expect("value must decode")
}

#[test]
fn scalars_round_trip() {
    assert_eq!(encode(37u8), vec![37]);
    assert_eq!(encode(37u16), vec![37, 0]);
    assert_eq!(encode(185851u32), 185851u32.to_le_bytes().to_vec());
    assert_eq!(encode(-185851i32), (-185851i32).to_le_bytes().to_vec());
    assert_eq!(decode::<u8>(vec![37]), 37);
    assert_eq!(decode::<u16>(vec![37, 0]), 37);
    assert_eq!(decode::<u32>(185851u32.to_le_bytes().to_vec()), 185851);
    assert_eq!(decode::<i32>((-185851i32).to_le_bytes().to_vec()), -185851);
    assert_eq!(decode::<usize>(185851u32.to_le_bytes().to_vec()), 185851);
}

#[test]
fn scalar_short_read_fails() {
    let mut stream = ReadStream::new(vec![1, 2, 3]);
    assert!(matches!(
        u32::read(&mut stream, DEFAULT_PROTOCOL),
        Err(OpenRGBError::CommunicationError())
    ));
}

#[test]
fn string_round_trip() {
    let bytes = encode("test".to_string());
    assert_eq!(bytes, vec![5, 0, 116, 101, 115, 116, 0]);
    assert_eq!(decode::<String>(bytes), "test".to_string());
    let empty = encode(String::new());
    assert_eq!(empty, vec![1, 0, 0]);
    assert_eq!(decode::<String>(empty), String::new());
}

#[test]
fn string_size_matches_encoding() {
    let s = "Thermaltake Riing".to_string();
    let n = s.size(DEFAULT_PROTOCOL);
    assert_eq!(n, encode(s).len());
}

#[test]
fn color_round_trip() {
    let bytes = encode(Color { r: 37, g: 54, b: 126 });
    assert_eq!(bytes, vec![37, 54, 126, 0]);
    assert_eq!(decode::<Color>(bytes), Color { r: 37, g: 54, b: 126 });
}

#[test]
fn color_padding_ignored_on_read() {
    assert_eq!(decode::<Color>(vec![1, 2, 3, 99]), Color { r: 1, g: 2, b: 3 });
}

#[test]
fn device_type_decodes_headset() {
    assert_eq!(decode::<DeviceType>(8u32.to_le_bytes().to_vec()), DeviceType::Headset);
}

#[test]
fn device_type_is_lenient() {
    assert_eq!(decode::<DeviceType>(999u32.to_le_bytes().to_vec()), DeviceType::Unknown);
}

#[test]
fn direction_round_trip_and_strictness() {
    assert_eq!(encode(Direction::Horizontal), 4u32.to_le_bytes().to_vec());
    assert_eq!(decode::<Direction>(4u32.to_le_bytes().to_vec()), Direction::Horizontal);
    let mut stream = ReadStream::new(6u32.to_le_bytes().to_vec());
    assert!(matches!(
        Direction::read(&mut stream, DEFAULT_PROTOCOL),
        Err(OpenRGBError::ProtocolError(_))
    ));
}

#[test]
fn zone_type_round_trip_and_strictness() {
    assert_eq!(decode::<ZoneType>(1u32.to_le_bytes().to_vec()), ZoneType::Linear);
    let mut stream = ReadStream::new(3u32.to_le_bytes().to_vec());
    assert!(matches!(
        ZoneType::read(&mut stream, DEFAULT_PROTOCOL),
        Err(OpenRGBError::ProtocolError(_))
    ));
}

#[test]
fn color_mode_round_trip_and_strictness() {
    assert_eq!(decode::<ColorMode>(3u32.to_le_bytes().to_vec()), ColorMode::Random);
    let mut stream = ReadStream::new(4u32.to_le_bytes().to_vec());
    assert!(matches!(
        ColorMode::read(&mut stream, DEFAULT_PROTOCOL),
        Err(OpenRGBError::ProtocolError(_))
    ));
}

#[test]
fn packet_id_round_trip_and_error() {
    assert_eq!(encode(PacketId::RGBControllerUpdateMode), 1101u32.to_le_bytes().to_vec());
    assert_eq!(
        decode::<PacketId>(1101u32.to_le_bytes().to_vec()),
        PacketId::RGBControllerUpdateMode
    );
    let mut stream = ReadStream::new(7u32.to_le_bytes().to_vec());
    assert!(matches!(
        PacketId::read(&mut stream, DEFAULT_PROTOCOL),
        Err(OpenRGBError::BadPacketID(7))
    ));
}

#[test]
fn mode_flags_decode_combination() {
    let flags = decode::<ModeFlags>(154u32.to_le_bytes().to_vec());
    assert_eq!(flags.bits(), 154);
    assert!(flags.contains(ModeFlag::HasDirectionLR));
    assert!(flags.contains(ModeFlag::HasDirectionHV));
    assert!(flags.contains(ModeFlag::HasBrightness));
    assert!(flags.contains(ModeFlag::HasRandomColor));
    assert!(!flags.contains(ModeFlag::HasSpeed));
    assert_eq!(
        flags,
        ModeFlags::flag(ModeFlag::HasDirectionLR)
            .with(ModeFlag::HasDirectionHV)
            .with(ModeFlag::HasBrightness)
            .with(ModeFlag::HasRandomColor)
    );
}

#[test]
fn mode_flags_reject_foreign_bits() {
    let mut stream = ReadStream::new(0x1400u32.to_le_bytes().to_vec());
    assert!(matches!(
        ModeFlags::read(&mut stream, DEFAULT_PROTOCOL),
        Err(OpenRGBError::BadFlags(0x1400))
    ));
}

#[test]
fn led_round_trip() {
    let led = LED { name: "test".to_string(), value: 45 };
    let bytes = encode(led);
    assert_eq!(bytes, vec![5, 0, 116, 101, 115, 116, 0, 45, 0, 0, 0]);
    let back = decode::<LED>(bytes);
    assert_eq!(back, LED { name: "test".to_string(), value: 45 });
}

#[test]
fn tuple_round_trip() {
    let value = (37u8, 1337u32, -1337i32, DeviceType::LEDStrip);
    let mut expected = vec![37u8];
    expected.extend(1337u32.to_le_bytes());
    expected.extend((-1337i32).to_le_bytes());
    expected.extend(4u32.to_le_bytes());
    let bytes = encode(value);
    assert_eq!(bytes, expected);
    assert_eq!(decode::<(u8, u32, i32, DeviceType)>(bytes), value);
}

#[test]
fn pair_and_triple_round_trip() {
    let bytes = encode((7u16, "hi".to_string()));
    assert_eq!(bytes, vec![7, 0, 3, 0, 104, 105, 0]);
    let (n, s) = decode::<(u16, String)>(bytes);
    assert_eq!(n, 7);
    assert_eq!(s, "hi".to_string());
    let triple = (1u8, 2u8, 3u8);
    assert_eq!(decode::<(u8, u8, u8)>(encode(triple)), triple);
}

#[test]
fn vec_round_trip() {
    let bytes = encode(vec![37u8, 54, 126]);
    assert_eq!(bytes, vec![3, 0, 37, 54, 126]);
    assert_eq!(decode::<Vec<u8>>(bytes), vec![37u8, 54, 126]);
}

#[test]
fn vec_too_long_fails_to_encode() {
    let long = vec![0u8; 65536];
    let mut stream = WriteStream::new();
    assert!(matches!(
        long.write(&mut stream, DEFAULT_PROTOCOL),
        Err(OpenRGBError::ProtocolError(_))
    ));
}

#[test]
fn vec_at_count_limit_encodes() {
    let exact = vec![7u8; 65535];
    let bytes = encode(exact);
    assert_eq!(bytes.len(), 2 + 65535);
    assert_eq!(&bytes[0..2], &[0xff, 0xff]);
}
