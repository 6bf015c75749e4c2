use openrgb_data::Color;
use openrgb_data::ColorMode;
use openrgb_data::Controller;
use openrgb_data::DeviceType;
use openrgb_data::Mode;
use openrgb_data::ModeFlag;
use openrgb_data::ModeFlags;
use openrgb_data::OpenRGBReadable;
use openrgb_data::ReadStream;
use openrgb_data::Zone;
use openrgb_data::ZoneType;

static DEFAULT_PROTOCOL: u32 = 3;

#[test]
fn test_read_001() {
    let mut input: Vec<u8> = vec![
        3, 0, 0, 0, 18, 0, 84, 104, 101, 114, 109, 97, 108, 116, 97, 107, 101, 32, 82, 105, 105,
        110, 103, 0, 12, 0, 84, 104, 101, 114, 109, 97, 108, 116, 97, 107, 101, 0, 25, 0, 84,
        104, 101, 114, 109, 97, 108, 116, 97, 107, 101, 32, 82, 105, 105, 110, 103, 32, 68, 101,
        118, 105, 99, 101, 0, 1, 0, 0, 1, 0, 0, 19, 0, 72, 73, 68, 58, 32, 47, 100, 101, 118, 47,
        104, 105, 100, 114, 97, 119, 49, 48, 0, 8, 0, 0, 0, 0, 0, 7, 0, 68, 105, 114, 101, 99,
        116, 0, 24, 0, 0, 0, 32, 0, 0, 0, 0, 0, 0, 0, 0, 0, 0, 0, 0, 0, 0, 0, 0, 0, 0, 0, 0, 0,
        0, 0, 0, 0, 0, 0, 0, 0, 0, 0, 0, 0, 0, 0, 0, 0, 0, 0, 1, 0, 0, 0, 0, 0, 7, 0, 83, 116,
        97, 116, 105, 99, 0, 25, 0, 0, 0, 64, 0, 0, 0, 0, 0, 0, 0, 0, 0, 0, 0, 0, 0, 0, 0, 0, 0,
        0, 0, 1, 0, 0, 0, 1, 0, 0, 0, 0, 0, 0, 0, 0, 0, 0, 0, 0, 0, 0, 0, 2, 0, 0, 0, 1, 0, 0, 0,
        0, 0, 5, 0, 70, 108, 111, 119, 0, 0, 0, 0, 0, 1, 0, 0, 0, 3, 0, 0, 0, 0, 0, 0, 0, 0, 0,
        0, 0, 0, 0, 0, 0, 0, 0, 0, 0, 0, 0, 0, 0, 2, 0, 0, 0, 0, 0, 0, 0, 0, 0, 0, 0, 0, 0, 0, 0,
        0, 0, 9, 0, 83, 112, 101, 99, 116, 114, 117, 109, 0, 4, 0, 0, 0, 1, 0, 0, 0, 3, 0, 0, 0,
        0, 0, 0, 0, 0, 0, 0, 0, 0, 0, 0, 0, 0, 0, 0, 0, 0, 0, 0, 0, 2, 0, 0, 0, 0, 0, 0, 0, 0, 0,
        0, 0, 0, 0, 0, 0, 0, 0, 7, 0, 82, 105, 112, 112, 108, 101, 0, 8, 0, 0, 0, 33, 0, 0, 0, 3,
        0, 0, 0, 0, 0, 0, 0, 0, 0, 0, 0, 0, 0, 0, 0, 0, 0, 0, 0, 0, 0, 0, 0, 2, 0, 0, 0, 0, 0, 0,
        0, 0, 0, 0, 0, 1, 0, 0, 0, 0, 0, 6, 0, 66, 108, 105, 110, 107, 0, 12, 0, 0, 0, 33, 0, 0,
        0, 3, 0, 0, 0, 0, 0, 0, 0, 0, 0, 0, 0, 0, 0, 0, 0, 0, 0, 0, 0, 0, 0, 0, 0, 2, 0, 0, 0, 0,
        0, 0, 0, 0, 0, 0, 0, 1, 0, 0, 0, 0, 0, 6, 0, 80, 117, 108, 115, 101, 0, 16, 0, 0, 0, 33,
        0, 0, 0, 3, 0, 0, 0, 0, 0, 0, 0, 0, 0, 0, 0, 0, 0, 0, 0, 0, 0, 0, 0, 0, 0, 0, 0, 2, 0, 0,
        0, 0, 0, 0, 0, 0, 0, 0, 0, 1, 0, 0, 0, 0, 0, 5, 0, 87, 97, 118, 101, 0, 20, 0, 0, 0, 33,
        0, 0, 0, 3, 0, 0, 0, 0, 0, 0, 0, 0, 0, 0, 0, 0, 0, 0, 0, 0, 0, 0, 0, 0, 0, 0, 0, 2, 0, 0,
        0, 0, 0, 0, 0, 0, 0, 0, 0, 1, 0, 0, 0, 0, 0, 5, 0, 16, 0, 82, 105, 105, 110, 103, 32, 67,
        104, 97, 110, 110, 101, 108, 32, 49, 0, 1, 0, 0, 0, 0, 0, 0, 0, 20, 0, 0, 0, 0, 0, 0, 0,
        0, 0, 16, 0, 82, 105, 105, 110, 103, 32, 67, 104, 97, 110, 110, 101, 108, 32, 50, 0, 1,
        0, 0, 0, 0, 0, 0, 0, 20, 0, 0, 0, 0, 0, 0, 0, 0, 0, 16, 0, 82, 105, 105, 110, 103, 32,
        67, 104, 97, 110, 110, 101, 108, 32, 51, 0, 1, 0, 0, 0, 0, 0, 0, 0, 20, 0, 0, 0, 0, 0, 0,
        0, 0, 0, 16, 0, 82, 105, 105, 110, 103, 32, 67, 104, 97, 110, 110, 101, 108, 32, 52, 0,
        1, 0, 0, 0, 0, 0, 0, 0, 20, 0, 0, 0, 0, 0, 0, 0, 0, 0, 16, 0, 82, 105, 105, 110, 103, 32,
        67, 104, 97, 110, 110, 101, 108, 32, 53, 0, 1, 0, 0, 0, 0, 0, 0, 0, 20, 0, 0, 0, 0, 0, 0,
        0, 0, 0, 0, 0, 0, 0,
    ];

    for (i, b) in (input.len() as u32).to_le_bytes().iter().enumerate() {
        input.insert(i, *b);
    }

    let mut stream = ReadStream::new(input);
    let got = Controller::read(&mut stream, DEFAULT_PROTOCOL).expect("couldnt do it bro");

    let speed_mode = |name: &str, value: i32| Mode {
        name: name.to_string(),
        value,
        flags: ModeFlags::flag(ModeFlag::HasSpeed).with(ModeFlag::HasPerLEDColor),
        speed_min: Some(3),
        speed_max: Some(0),
        brightness_min: None,
        brightness_max: None,
        colors_min: None,
        colors_max: None,
        speed: Some(2),
        brightness: None,
        direction: None,
        color_mode: Some(ColorMode::PerLED),
        colors: vec![],
    };
    let channel = |name: &str| Zone {
        name: name.to_string(),
        zone_type: ZoneType::Linear,
        leds_min: 0,
        leds_max: 20,
        leds_count: 0,
        matrix: None,
    };

    assert_eq!(
        got,
        Controller {
            device_type: DeviceType::Cooler,
            name: "Thermaltake Riing".to_string(),
            vendor: "Thermaltake".to_string(),
            description: "Thermaltake Riing Device".to_string(),
            version: "".to_string(),
            serial: "".to_string(),
            location: "HID: /dev/hidraw10".to_string(),
            active_mode: 0,
            modes: vec![
                Mode {
                    name: "Direct".to_string(),
                    value: 24,
                    flags: ModeFlags::flag(ModeFlag::HasPerLEDColor),
                    speed_min: None,
                    speed_max: None,
                    brightness_min: None,
                    brightness_max: None,
                    colors_min: None,
                    colors_max: None,
                    speed: None,
                    brightness: None,
                    direction: None,
                    color_mode: Some(ColorMode::PerLED),
                    colors: vec![],
                },
                Mode {
                    name: "Static".to_string(),
                    value: 25,
                    flags: ModeFlags::flag(ModeFlag::HasModeSpecificColor),
                    speed_min: None,
                    speed_max: None,
                    brightness_min: None,
                    brightness_max: None,
                    colors_min: Some(1),
                    colors_max: Some(1),
                    speed: None,
                    brightness: None,
                    direction: None,
                    color_mode: Some(ColorMode::ModeSpecific),
                    colors: vec![Color { r: 0, g: 0, b: 0 }],
                },
                Mode {
                    name: "Flow".to_string(),
                    value: 0,
                    flags: ModeFlags::flag(ModeFlag::HasSpeed),
                    speed_min: Some(3),
                    speed_max: Some(0),
                    brightness_min: None,
                    brightness_max: None,
                    colors_min: None,
                    colors_max: None,
                    speed: Some(2),
                    brightness: None,
                    direction: None,
                    color_mode: Some(ColorMode::NoMode),
                    colors: vec![],
                },
                Mode {
                    name: "Spectrum".to_string(),
                    value: 4,
                    flags: ModeFlags::flag(ModeFlag::HasSpeed),
                    speed_min: Some(3),
                    speed_max: Some(0),
                    brightness_min: None,
                    brightness_max: None,
                    colors_min: None,
                    colors_max: None,
                    speed: Some(2),
                    brightness: None,
                    direction: None,
                    color_mode: Some(ColorMode::NoMode),
                    colors: vec![],
                },
                speed_mode("Ripple", 8),
                speed_mode("Blink", 12),
                speed_mode("Pulse", 16),
                speed_mode("Wave", 20),
            ],
            zones: vec![
                channel("Riing Channel 1"),
                channel("Riing Channel 2"),
                channel("Riing Channel 3"),
                channel("Riing Channel 4"),
                channel("Riing Channel 5"),
            ],
            leds: vec![],
            colors: vec![],
        }
    );
}
