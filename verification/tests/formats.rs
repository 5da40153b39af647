use music_native::audio::formats::{
    bit_perfect_output_formats, exact_output_format, is_supported_output_format, preferred_output_formats,
    preferred_output_formats_all,
    OutputSampleFormat, SourceSampleFormat,
};
use music_native::audio::output_config::{find_best_config, find_bit_perfect_config, SupportedConfigRange};

#[test]
fn backend_preferred_output_formats_prioritizes_source_format() {
    let formats = preferred_output_formats(Some(24), Some(SourceSampleFormat::F32));

    assert_eq!(formats[0], OutputSampleFormat::F32);
    assert_eq!(formats[1], OutputSampleFormat::F64);
    assert!(formats.contains(&OutputSampleFormat::I24));
}

#[test]
fn backend_preferred_output_formats_keeps_fallbacks_unique() {
    let formats = preferred_output_formats(Some(16), Some(SourceSampleFormat::S16));

    let mut unique_formats = Vec::new();
    for format in &formats {
        if !unique_formats.contains(format) {
            unique_formats.push(*format);
        }
    }

    let unique_count = unique_formats.len();
    assert_eq!(unique_count, formats.len());
    assert_eq!(formats[0], OutputSampleFormat::I16);
    assert!(formats.contains(&OutputSampleFormat::F32));
}

#[test]
fn audio_player_preferred_output_formats_prioritizes_source_format() {
    let formats = preferred_output_formats_all(Some(24), Some(SourceSampleFormat::F32));

    assert_eq!(formats[0], OutputSampleFormat::F32);
    assert_eq!(formats[1], OutputSampleFormat::F64);
    assert!(formats.contains(&OutputSampleFormat::I24));
}

#[test]
fn audio_player_preferred_output_formats_keeps_fallbacks_unique() {
    let formats = preferred_output_formats_all(Some(16), Some(SourceSampleFormat::S16));

    let mut unique_formats = Vec::new();
    for format in &formats {
        if !unique_formats.contains(format) {
            unique_formats.push(*format);
        }
    }

    assert_eq!(unique_formats.len(), formats.len());
    assert_eq!(formats[0], OutputSampleFormat::I16);
    assert!(formats.contains(&OutputSampleFormat::F32));
}

#[test]
fn bit_perfect_format_requires_exact_source_format() {
    assert_eq!(exact_output_format(Some(24), Some(SourceSampleFormat::S24)), Some(OutputSampleFormat::I24));
    assert_eq!(
        bit_perfect_output_formats(Some(24), Some(SourceSampleFormat::S24)),
        vec![OutputSampleFormat::I24, OutputSampleFormat::I32]
    );
    assert_eq!(bit_perfect_output_formats(Some(24), None), vec![OutputSampleFormat::I24, OutputSampleFormat::I32]);
    assert_eq!(exact_output_format(Some(16), Some(SourceSampleFormat::S16)), Some(OutputSampleFormat::I16));
    assert_eq!(exact_output_format(None, None), None);
}

#[test]
fn preferred_formats_follow_the_bit_depth_then_fallbacks() {
    assert_eq!(
        preferred_output_formats(Some(24), None),
        vec![OutputSampleFormat::I24, OutputSampleFormat::F32, OutputSampleFormat::I32, OutputSampleFormat::I16]
    );
    assert_eq!(
        preferred_output_formats(None, None),
        vec![OutputSampleFormat::F32, OutputSampleFormat::I16, OutputSampleFormat::I32]
    );
    assert!(!is_supported_output_format(OutputSampleFormat::I64));
    assert!(is_supported_output_format(OutputSampleFormat::U24));
}

fn range(channels: u16, format: OutputSampleFormat, min: u32, max: u32) -> SupportedConfigRange {
    SupportedConfigRange { channels, sample_format: format, min_sample_rate: min, max_sample_rate: max }
}

#[test]
fn best_config_takes_the_most_preferred_fitting_format() {
    let configs = vec![
        range(2, OutputSampleFormat::I16, 8_000, 192_000),
        range(2, OutputSampleFormat::F32, 8_000, 48_000),
        range(2, OutputSampleFormat::I32, 8_000, 192_000),
        range(1, OutputSampleFormat::F32, 8_000, 192_000),
    ];
    assert_eq!(find_best_config(&configs, 44_100, 2, Some(16), None), Some((1, OutputSampleFormat::F32)));
    assert_eq!(find_best_config(&configs, 96_000, 2, Some(32), None), Some((2, OutputSampleFormat::I32)));
    let odd = vec![range(2, OutputSampleFormat::U8, 8_000, 48_000), range(2, OutputSampleFormat::I64, 8_000, 48_000)];
    assert_eq!(find_best_config(&odd, 44_100, 2, None, None), Some((0, OutputSampleFormat::U8)));
    assert_eq!(find_best_config(&odd, 96_000, 2, None, None), None);
}

#[test]
fn bit_perfect_config_needs_exact_format_channels_and_rate() {
    let configs = vec![
        range(2, OutputSampleFormat::I16, 8_000, 192_000),
        range(2, OutputSampleFormat::I32, 8_000, 96_000),
    ];
    assert_eq!(
        find_bit_perfect_config(&configs, 48_000, 2, Some(24), Some(SourceSampleFormat::S24)),
        Ok((1, OutputSampleFormat::I32))
    );
    let none = find_bit_perfect_config(&configs, 192_000, 2, Some(24), Some(SourceSampleFormat::S24)).unwrap_err();
    assert!(!none.unknown_source_format && none.channels_supported && none.rate_supported && !none.format_supported);
    let mono = find_bit_perfect_config(&configs, 48_000, 1, Some(16), None).unwrap_err();
    assert!(!mono.channels_supported && !mono.rate_supported);
    let unknown = find_bit_perfect_config(&configs, 48_000, 2, None, None).unwrap_err();
    assert!(unknown.unknown_source_format);
    assert!(unknown.supported_channels.is_empty() && unknown.supported_formats.is_empty());
}

#[test]
fn bit_perfect_refusal_lists_device_channels_and_formats_in_order() {
    let configs = vec![
        range(6, OutputSampleFormat::U8, 8_000, 48_000),
        range(2, OutputSampleFormat::I32, 8_000, 96_000),
        range(2, OutputSampleFormat::F32, 8_000, 96_000),
        range(1, OutputSampleFormat::I16, 8_000, 48_000),
        range(2, OutputSampleFormat::I16, 8_000, 48_000),
    ];
    let refusal = find_bit_perfect_config(&configs, 192_000, 2, Some(24), Some(SourceSampleFormat::S24)).unwrap_err();
    assert!(!refusal.unknown_source_format && refusal.channels_supported && !refusal.rate_supported);
    assert_eq!(refusal.supported_channels, vec![1, 2, 6]);
    assert_eq!(
        refusal.supported_formats,
        vec![OutputSampleFormat::F32, OutputSampleFormat::I16, OutputSampleFormat::I32, OutputSampleFormat::U8]
    );
}

#[test]
fn full_preference_order_lists_every_writable_format_once() {
    let formats = preferred_output_formats_all(Some(24), Some(SourceSampleFormat::F32));
    assert_eq!(
        formats,
        vec![
            OutputSampleFormat::F32,
            OutputSampleFormat::F64,
            OutputSampleFormat::I24,
            OutputSampleFormat::U24,
            OutputSampleFormat::I32,
            OutputSampleFormat::U32,
            OutputSampleFormat::I16,
            OutputSampleFormat::U16,
            OutputSampleFormat::I8,
            OutputSampleFormat::U8,
        ]
    );
    let none = preferred_output_formats_all(None, None);
    assert_eq!(none[0], OutputSampleFormat::I32);
    assert_eq!(none.len(), 10);
    assert!(!none.contains(&OutputSampleFormat::I64));
    let s32 = preferred_output_formats_all(Some(32), Some(SourceSampleFormat::S32));
    assert_eq!(&s32[..4], &[OutputSampleFormat::I32, OutputSampleFormat::I24, OutputSampleFormat::U32, OutputSampleFormat::U24]);
}
