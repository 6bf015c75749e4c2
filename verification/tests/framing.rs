use openrgb_data::Connection;
use openrgb_data::Controller;
use openrgb_data::DeviceType;
use openrgb_data::Header;
use openrgb_data::OpenRGBError;
use openrgb_data::OpenRGBReadable;
use openrgb_data::OpenRGBWritable;
use openrgb_data::PacketId;
use openrgb_data::ReadStream;
use openrgb_data::RequestControllerCount;
use openrgb_data::RequestControllerCountResponse;
use openrgb_data::RequestPacket;
use openrgb_data::Requests;
use openrgb_data::WriteStream;
use openrgb_data::packets::read_any;
use openrgb_data::packets::handle;
use openrgb_data::protocol::read_header;
use openrgb_data::protocol::read_packet;
use openrgb_data::protocol::write_packet;

static DEFAULT_PROTOCOL: u32 = 3;

fn frame(device_id: u32, packet_id: u32, body: &[u8]) -> Vec<u8> {
    let mut bytes = vec![0x4f, 0x52, 0x47, 0x42];
    bytes.extend(device_id.to_le_bytes());
    bytes.extend(packet_id.to_le_bytes());
    bytes.extend((body.len() as u32).to_le_bytes());
    bytes.extend(body);
    bytes
}

#[test]
fn header_round_trip() {
    let header = Header { device_id: 5, packet_id: PacketId::RequestControllerData, len: 9 };
    let mut out = WriteStream::new();
    header.write(&mut out, DEFAULT_PROTOCOL).expect("headers always encode");
    let bytes = out.into_vec();
    let mut expected = vec![0x4f, 0x52, 0x47, 0x42];
    expected.extend(5u32.to_le_bytes());
    expected.extend(1u32.to_le_bytes());
    expected.extend(9u32.to_le_bytes());
    assert_eq!(bytes, expected);
    let mut stream = ReadStream::new(bytes);
    let got = Header::read(&mut stream, DEFAULT_PROTOCOL).expect("well-formed header");
    assert_eq!(got, header);
}

#[test]
fn bad_magic_names_the_byte() {
    let mut bytes = frame(0, 0, &[]);
    bytes[0] = 0x58;
    let mut stream = ReadStream::new(bytes);
    assert!(matches!(
        Header::read(&mut stream, DEFAULT_PROTOCOL),
        Err(OpenRGBError::BadMagic(0x58))
    ));
}

#[test]
fn bad_magic_in_later_position() {
    let mut bytes = frame(0, 0, &[]);
    bytes[2] = 0x21;
    let mut stream = ReadStream::new(bytes);
    assert!(matches!(
        Header::read(&mut stream, DEFAULT_PROTOCOL),
        Err(OpenRGBError::BadMagic(0x21))
    ));
}

#[test]
fn write_packet_builds_a_frame() {
    let mut out = WriteStream::new();
    write_packet(&mut out, DEFAULT_PROTOCOL, 3, PacketId::RequestControllerCount, 7u32)
        .expect("scalar body always encodes");
    assert_eq!(out.into_vec(), frame(3, 0, &7u32.to_le_bytes()));
}

#[test]
fn read_packet_checks_ids_and_length() {
    let bytes = frame(3, 0, &7u32.to_le_bytes());
    let mut stream = ReadStream::new(bytes.clone());
    let got: u32 = read_packet(&mut stream, DEFAULT_PROTOCOL, 3, PacketId::RequestControllerCount)
        .expect("matching frame");
    assert_eq!(got, 7);

    let mut wrong_device = ReadStream::new(bytes.clone());
    assert!(matches!(
        read_packet::<ReadStream, u32>(
            &mut wrong_device,
            DEFAULT_PROTOCOL,
            4,
            PacketId::RequestControllerCount,
        ),
        Err(OpenRGBError::DeviceIDMismatch { expected: 4, got: 3 })
    ));

    let mut wrong_packet = ReadStream::new(bytes.clone());
    assert!(matches!(
        read_packet::<ReadStream, u32>(
            &mut wrong_packet,
            DEFAULT_PROTOCOL,
            3,
            PacketId::RequestControllerData,
        ),
        Err(OpenRGBError::PacketIDMismatch { expected: 1, got: 0 })
    ));
}

#[test]
fn read_packet_rejects_wrong_declared_length() {
    let mut bytes = frame(3, 0, &7u32.to_le_bytes());
    bytes[12] = 8;
    let mut stream = ReadStream::new(bytes);
    assert!(matches!(
        read_packet::<ReadStream, u32>(
            &mut stream,
            DEFAULT_PROTOCOL,
            3,
            PacketId::RequestControllerCount,
        ),
        Err(OpenRGBError::ProtocolError(_))
    ));
}

#[test]
fn read_header_returns_body_length() {
    let bytes = frame(3, 0, &7u32.to_le_bytes());
    let mut stream = ReadStream::new(bytes);
    let len = read_header(&mut stream, DEFAULT_PROTOCOL, 3, PacketId::RequestControllerCount)
        .expect("matching header");
    assert_eq!(len, 4);
}

#[test]
fn request_round_trips_over_a_connection() {
    let response = frame(9, 0, &11u32.to_le_bytes());
    let mut conn = Connection::new(response);
    let got: u32 = conn
        .request(DEFAULT_PROTOCOL, 9, PacketId::RequestControllerCount, ())
        .expect("matching response");
    assert_eq!(got, 11);
    assert_eq!(conn.into_sent(), frame(9, 0, &[]));
}

#[test]
fn read_any_dispatches_controller_count() {
    let mut stream = ReadStream::new(frame(2, 0, &[]));
    match read_any(&mut stream, DEFAULT_PROTOCOL).expect("served packet id") {
        Requests::RequestControllerCount(p) => {
            assert_eq!(p.header.device_id, 2);
            assert_eq!(p.header.packet_id, PacketId::RequestControllerCount);
            assert!(p.body.is_some());
        },
        Requests::RequestControllerData(_) => panic!("wrong dispatch"),
    }
}

#[test]
fn read_any_rejects_unserved_ids() {
    let mut stream = ReadStream::new(frame(2, 50, &[]));
    assert!(matches!(
        read_any(&mut stream, DEFAULT_PROTOCOL),
        Err(OpenRGBError::UnsupportedOperation { .. })
    ));
}

#[test]
fn handle_answers_count_with_zero() {
    let mut input = ReadStream::new(frame(2, 0, &[]));
    let mut output = WriteStream::new();
    handle(&mut input, &mut output, DEFAULT_PROTOCOL).expect("served request");
    assert_eq!(output.into_vec(), frame(2, 0, &0u32.to_le_bytes()));
}

#[test]
fn handle_echoes_controller_data() {
    let controller_bytes = encode_empty_controller();
    let mut input = ReadStream::new(frame(7, 1, &controller_bytes));
    let mut output = WriteStream::new();
    handle(&mut input, &mut output, DEFAULT_PROTOCOL).expect("served request");
    assert_eq!(output.into_vec(), frame(7, 1, &controller_bytes));
}

fn encode_empty_controller() -> Vec<u8> {
    let controller = Controller {
        device_type: DeviceType::Cooler,
        name: "Fan".to_string(),
        vendor: "Acme".to_string(),
        description: "A fan".to_string(),
        version: String::new(),
        serial: String::new(),
        location: "here".to_string(),
        active_mode: 0,
        modes: vec![],
        zones: vec![],
        leds: vec![],
        colors: vec![],
    };
    let mut stream = WriteStream::new();
    controller.write(&mut stream, DEFAULT_PROTOCOL).expect("controller must encode");
    stream.into_vec()
}

#[test]
fn handle_writes_nothing_on_a_bad_frame() {
    let mut bad = frame(2, 1, &[1, 2, 3]);
    bad[1] = 0x21;
    let mut input = ReadStream::new(bad);
    let mut output = WriteStream::new();
    assert!(matches!(
        handle(&mut input, &mut output, DEFAULT_PROTOCOL),
        Err(OpenRGBError::BadMagic(0x21))
    ));
    assert_eq!(output.into_vec(), Vec::<u8>::new());
}

#[test]
fn request_packet_refuses_to_write_without_body() {
    let p = RequestPacket::<RequestControllerCount>::new();
    let mut out = WriteStream::new();
    assert!(matches!(
        p.write(&mut out, DEFAULT_PROTOCOL),
        Err(OpenRGBError::ProtocolError(_))
    ));
}

#[test]
fn count_response_round_trip() {
    let mut out = WriteStream::new();
    RequestControllerCountResponse { count: 4 }
        .write(&mut out, DEFAULT_PROTOCOL)
        .expect("response always encodes");
    let bytes = out.into_vec();
    assert_eq!(bytes, 4u32.to_le_bytes().to_vec());
    let mut stream = ReadStream::new(bytes);
    let back = RequestControllerCountResponse::read(&mut stream, DEFAULT_PROTOCOL)
        .expect("response decodes");
    assert_eq!(back, RequestControllerCountResponse { count: 4 });
}
