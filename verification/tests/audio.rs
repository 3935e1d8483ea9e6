use goat_reuniao::audio::{
    downmix_frame, first_monitor_index, mentions_monitor, pick_config_index, sample_from_i16,
    sample_from_i32, sample_from_u16, sample_from_u8, ConfigRange, BLOCK, SR,
};

fn range(channels: u16, min_rate: u32, max_rate: u32, is_i16: bool) -> ConfigRange {
    ConfigRange { channels, min_rate, max_rate, is_i16 }
}

#[test]
fn block_is_thirty_milliseconds() {
    assert_eq!(BLOCK, SR as usize * 30 / 1000);
}

#[test]
fn sample_conversions() {
    assert_eq!(sample_from_i16(-3), -3);
    assert_eq!(sample_from_i32(i32::MAX), i16::MAX);
    assert_eq!(sample_from_i32(i32::MIN), i16::MIN);
    assert_eq!(sample_from_i32(-1), -1);
    assert_eq!(sample_from_i32(65536 * 5 + 7), 5);
    assert_eq!(sample_from_u8(128), 0);
    assert_eq!(sample_from_u8(0), -32768);
    assert_eq!(sample_from_u8(255), 127 * 256);
    assert_eq!(sample_from_u16(40000), 40000u16 as i16);
    assert_eq!(sample_from_u16(100), 100);
}

#[test]
fn downmix_averages_toward_zero() {
    assert_eq!(downmix_frame(&[10, 21]), 15);
    assert_eq!(downmix_frame(&[-10, -21]), -15);
    assert_eq!(downmix_frame(&[i16::MAX, i16::MAX, i16::MAX]), i16::MAX);
    assert_eq!(downmix_frame(&[i16::MIN, i16::MIN]), i16::MIN);
    assert_eq!(downmix_frame(&[7]), 7);
}

#[test]
fn picks_mono_16_bit_range_first() {
    let ranges = vec![
        range(2, 8000, 48000, true),
        range(1, 8000, 48000, false),
        range(1, 8000, 48000, true),
    ];
    assert_eq!(pick_config_index(&ranges), Some(2));
}

#[test]
fn picks_first_fitting_range_otherwise() {
    let ranges = vec![
        range(1, 22050, 48000, true),
        range(1, 8000, 48000, false),
        range(1, 16000, 16000, false),
    ];
    assert_eq!(pick_config_index(&ranges), Some(1));
    assert_eq!(pick_config_index(&vec![range(2, 8000, 48000, true)]), None);
    assert_eq!(pick_config_index(&Vec::new()), None);
}

#[test]
fn monitor_names_are_matched_in_lower_case() {
    assert!(mentions_monitor("Monitor of Built-in Audio"));
    assert!(mentions_monitor("HDMI MONITOR"));
    assert!(!mentions_monitor("Built-in Microphone"));
    let names = vec!["Mic".to_string(), "Speakers (MONITOR)".to_string(), "x.monitor".to_string()];
    assert_eq!(first_monitor_index(&names), Some(1));
    assert_eq!(first_monitor_index(&vec!["Mic".to_string()]), None);
}
