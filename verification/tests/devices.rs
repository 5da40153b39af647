use music_native::audio::device_listing::{
    append_linux_proc_asound_output_devices_at, append_linux_alsa_hint_output_devices,
    parse_proc_asound_card_header, parse_proc_asound_cards, parse_proc_asound_playback_pcm_line,
};
use music_native::audio::devices::{
    alsa_card_index_from_device_id_at, alsa_reservation_name_for_device_id,
    collapse_linux_duplicate_output_devices, disambiguate_output_device_names,
    is_linux_real_hardware_output_id, linux_plughw_locator, should_list_linux_output_device,
    OutputDeviceInfo,
};

fn no_cards() -> Vec<(String, String)> {
    Vec::new()
}

fn lines(text: &str) -> Vec<String> {
    text.lines().map(|l| l.to_string()).collect()
}

fn device(id: &str, name: &str, is_default: bool, is_current: bool) -> OutputDeviceInfo {
    OutputDeviceInfo { id: id.to_string(), name: name.to_string(), is_default, is_current }
}

#[test]
fn backend_linux_plughw_locator_rewrites_hw_device_ids() {
    let cards = no_cards();
    assert_eq!(
        linux_plughw_locator("alsa:hw:CARD=Device,DEV=0", &cards).as_deref(),
        Some("hw:CARD=Device,DEV=0")
    );
    assert_eq!(linux_plughw_locator("hw:CARD=3,DEV=1", &cards).as_deref(), Some("hw:CARD=3,DEV=1"));
    assert_eq!(
        linux_plughw_locator("plughw:CARD=3,DEV=0", &cards).as_deref(),
        Some("plughw:CARD=3,DEV=0")
    );
    assert_eq!(linux_plughw_locator("default", &cards), None);
}

#[test]
fn backend_linux_output_device_filter_skips_virtual_defaults_but_keeps_real_devices() {
    assert!(should_list_linux_output_device("hw:CARD=0,DEV=0", Some("default"), Some("default")));
    assert!(!should_list_linux_output_device("default", Some("default"), Some("default")));
    assert!(!should_list_linux_output_device("pulse", Some("hw:CARD=0,DEV=0"), Some("default")));
    assert!(should_list_linux_output_device("hw:CARD=UsbDac,DEV=0", Some("pipewire"), Some("pipewire")));
    assert!(should_list_linux_output_device("plughw:CARD=UsbDac,DEV=0", Some("pipewire"), Some("pipewire")));
}

#[test]
fn backend_duplicate_output_device_names_are_disambiguated_with_ids() {
    let mut devices = vec![
        device("hw:CARD=0,DEV=0", "USB DAC", false, false),
        device("hw:CARD=1,DEV=0", "USB DAC", false, true),
        device("default", "System Default", true, false),
    ];

    disambiguate_output_device_names(&mut devices);

    assert_eq!(devices[0].name, "USB DAC [hw:CARD=0,DEV=0]");
    assert_eq!(devices[1].name, "USB DAC [hw:CARD=1,DEV=0]");
    assert_eq!(devices[2].name, "System Default");
}

#[test]
fn alsa_card_index_resolves_named_card_id_for_reservation() {
    let cards = vec![("card2".to_string(), "UsbDac\n".to_string())];

    assert_eq!(alsa_card_index_from_device_id_at("hw:CARD=UsbDac,DEV=0", &cards), Some(2));
    assert_eq!(alsa_card_index_from_device_id_at("plughw:CARD=UsbDac,DEV=0", &cards), Some(2));
    assert_eq!(alsa_card_index_from_device_id_at("hw:3,0", &cards), Some(3));
}

#[test]
fn named_hw_device_ids_are_resolved_to_numeric_cpal_ids() {
    let cards = vec![("card4".to_string(), "UsbDac\n".to_string())];

    assert_eq!(alsa_card_index_from_device_id_at("hw:CARD=UsbDac,DEV=2", &cards), Some(4));
}

#[test]
fn proc_asound_fallback_lists_real_playback_pcm_devices() {
    let card_lines = lines(" 0 [PCH            ]: HDA-Intel - HDA Intel PCH\n                      HDA Intel PCH at 0x622d1b8000 irq 233\n 1 [UsbDac         ]: USB-Audio - Reference USB DAC\n                      Reference USB DAC at usb-0000:00:14.0-3, high speed\n");
    let pcm_lines = lines("00-00: ALC287 Analog : ALC287 Analog : playback 1 : capture 1\n00-03: HDMI 0 : HDMI 0 : playback 1\n01-00: USB Audio : USB Audio : playback 1 : capture 1\n");
    let cards = parse_proc_asound_cards(&card_lines);

    let mut devices = Vec::new();
    append_linux_proc_asound_output_devices_at(&mut devices, None, Some("hw:CARD=1,DEV=0"), &cards, &pcm_lines);

    assert!(devices.iter().any(|device| {
        device.id == "hw:CARD=1,DEV=0" && device.name == "Reference USB DAC - USB Audio" && device.is_current
    }));
    assert!(devices.iter().any(|device| device.id == "hw:CARD=0,DEV=3"));
}

#[test]
fn proc_asound_fallback_updates_existing_hw_names_and_collapses_plughw_twins() {
    let card_lines = lines(" 1 [UsbDac         ]: USB-Audio - Reference USB DAC\n                      Reference USB DAC at usb-0000:00:14.0-3, high speed\n");
    let pcm_lines = lines("01-00: USB Audio : USB Audio : playback 1\n");
    let cards = parse_proc_asound_cards(&card_lines);

    let mut devices = vec![
        device("hw:CARD=1,DEV=0", "hw:CARD=1,DEV=0", false, false),
        device("plughw:CARD=1,DEV=0", "plughw:CARD=1,DEV=0", false, false),
    ];

    append_linux_proc_asound_output_devices_at(&mut devices, None, None, &cards, &pcm_lines);
    collapse_linux_duplicate_output_devices(&mut devices);

    assert_eq!(devices.len(), 1);
    assert_eq!(devices[0].id, "hw:CARD=1,DEV=0");
    assert_eq!(devices[0].name, "Reference USB DAC - USB Audio");
}

#[test]
fn resolves_named_card_to_numeric_locator() {
    let cards = vec![
        ("controlC4".to_string(), "x".to_string()),
        ("card4".to_string(), "  UsbDac  \n".to_string()),
    ];
    assert_eq!(
        linux_plughw_locator("alsa:hw:CARD=UsbDac,DEV=2", &cards).as_deref(),
        Some("hw:CARD=4,DEV=2")
    );
    assert_eq!(
        linux_plughw_locator("plughw:UsbDac", &cards).as_deref(),
        Some("plughw:CARD=4,DEV=0")
    );
    assert_eq!(alsa_reservation_name_for_device_id("hw:CARD=UsbDac,DEV=0", &cards).as_deref(), Some("Audio4"));
    assert_eq!(alsa_reservation_name_for_device_id("hw:CARD=Other,DEV=0", &cards), None);
    assert_eq!(alsa_reservation_name_for_device_id("default", &cards), None);
}

#[test]
fn real_hardware_ids_are_recognised_case_insensitively() {
    assert!(is_linux_real_hardware_output_id("  HW:0,0 "));
    assert!(is_linux_real_hardware_output_id("ALSA:hw:CARD=1"));
    assert!(!is_linux_real_hardware_output_id("pipewire"));
    assert!(!is_linux_real_hardware_output_id(""));
}

#[test]
fn collapse_keeps_plughw_without_hw_twin_and_keeps_order() {
    let mut devices = vec![
        device("plughw:CARD=2,DEV=0", "a", false, false),
        device("hw:CARD=1,DEV=0", "b", false, false),
        device("  plughw:CARD=1,DEV=0 ", "c", false, false),
        device(" PLUGHW:card=1,dev=0 ", "d", false, false),
    ];
    collapse_linux_duplicate_output_devices(&mut devices);
    let ids: Vec<&str> = devices.iter().map(|d| d.id.as_str()).collect();
    assert_eq!(ids, vec!["plughw:CARD=2,DEV=0", "hw:CARD=1,DEV=0", " PLUGHW:card=1,dev=0 "]);
}

#[test]
fn unique_names_are_left_alone() {
    let mut devices = vec![device("a", "One", true, false), device("b", "Two", false, true)];
    disambiguate_output_device_names(&mut devices);
    assert_eq!(devices[0].name, "One");
    assert_eq!(devices[1].name, "Two");
    assert!(devices[0].is_default && devices[1].is_current);
}

#[test]
fn card_header_and_pcm_lines_are_parsed() {
    let card = parse_proc_asound_card_header(" 1 [UsbDac         ]: USB-Audio - Reference USB DAC").unwrap();
    assert_eq!(card.index, 1);
    assert_eq!(card.id, "UsbDac");
    assert_eq!(card.name, "Audio - Reference USB DAC", "the name follows the first dash after the colon");
    assert!(parse_proc_asound_card_header(" x [UsbDac]: a - b").is_none());
    assert!(parse_proc_asound_card_header(" 1 [   ]: a - b").is_none());

    let (c, d, name) = parse_proc_asound_playback_pcm_line("01-03: USB Audio : USB Audio : playback 1").unwrap();
    assert_eq!((c, d), (1, 3));
    assert_eq!(name.iter().collect::<String>(), "USB Audio");
    let (_, _, unnamed) = parse_proc_asound_playback_pcm_line("02-00:  : x : playback 1").unwrap();
    assert_eq!(unnamed.iter().collect::<String>(), "PCM");
    assert!(parse_proc_asound_playback_pcm_line("00-01: Mic : Mic : capture 1").is_none());
}

#[test]
fn alsa_hints_add_new_real_devices_once() {
    let mut devices = vec![device("hw:CARD=0,DEV=0", "Existing", false, false)];
    let hints = vec![
        (Some("hw:CARD=0,DEV=0".to_string()), Some("Other".to_string())),
        (Some("default".to_string()), Some("Default".to_string())),
        (Some("hw:CARD=1,DEV=0".to_string()), Some("  USB DAC  \nRear".to_string())),
        (Some("plughw:CARD=1,DEV=0".to_string()), None),
        (None, Some("nameless".to_string())),
    ];
    append_linux_alsa_hint_output_devices(&mut devices, &hints, Some("hw:CARD=1,DEV=0"), None);
    assert_eq!(devices.len(), 3);
    assert_eq!(devices[0].name, "Existing");
    assert_eq!(devices[1].id, "hw:CARD=1,DEV=0");
    assert_eq!(devices[1].name, "USB DAC");
    assert!(devices[1].is_default && !devices[1].is_current);
    assert_eq!(devices[2].name, "plughw:CARD=1,DEV=0");
}
