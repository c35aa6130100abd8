// Text utilities, device selection, history text, session configuration.

use voice_frontend::devices::{select_input_device, select_output_device};
use voice_frontend::history::{
    build_context_text, build_title_seed, conversation_filename, extract_timestamp_stem,
    is_reserved_title, TurnDto,
};
use voice_frontend::session::{
    pad_to_min_samples, parse_tts_model, parse_vad_mode, progress_percent, TtsModel, VadModeKind,
    MIN_TRANSCRIBE_SAMPLES,
};
use voice_frontend::text::{
    estimate_tokens_only, estimate_tts_tokens_and_chars, is_blank, is_image_content_type,
    is_image_url_by_ext, sanitize_title_for_filename, trim_str,
};

fn names(list: &[&str]) -> Vec<String> {
    list.iter().map(|s| s.to_string()).collect()
}

#[test]
fn device_by_name_is_case_insensitive_substring() {
    let devs = names(&["Built-in Audio", "My USB mic (2)", "Line In"]);
    let q = Some("usb MIC".to_string());
    assert_eq!(select_input_device(&devs, &q, 0), Some(1));
}

#[test]
fn device_name_miss_falls_back_to_index_then_zero() {
    // no device name contains the query: the configured index is used
    let devs = names(&["Speakers", "Webcam Audio"]);
    let q = Some("USB Mic".to_string());
    assert_eq!(select_input_device(&devs, &q, 1), Some(1));
    // and an out-of-range index falls back to the first device
    assert_eq!(select_input_device(&devs, &q, 7), Some(0));
}

#[test]
fn device_selection_fails_only_without_devices() {
    let none: Vec<String> = Vec::new();
    assert_eq!(select_input_device(&none, &None, 0), None);
    let devs = names(&["Only One"]);
    assert_eq!(select_input_device(&devs, &None, 99), Some(0));
}

#[test]
fn output_device_defaults_without_a_match() {
    let devs = names(&["Speakers", "HDMI Out"]);
    assert_eq!(select_output_device(&devs, &Some("hdmi".to_string())), Some(1));
    assert_eq!(select_output_device(&devs, &Some("USB".to_string())), None);
    assert_eq!(select_output_device(&devs, &None), None);
}

#[test]
fn sanitize_replaces_invalid_characters_and_collapses() {
    assert_eq!(sanitize_title_for_filename("My: Title/Name?"), "My Title Name");
    assert_eq!(sanitize_title_for_filename("  lots\t of\n space  "), "lots of space");
    assert_eq!(sanitize_title_for_filename("a\\b/c:d*e?f\"g<h>i|j"), "a b c d e f g h i j");
    assert_eq!(sanitize_title_for_filename(""), "");
}

#[test]
fn trim_matches_standard_trimming() {
    assert_eq!(trim_str("  hello \t\n"), "hello");
    assert_eq!(trim_str("nospace"), "nospace");
    assert_eq!(trim_str(" \u{a0} "), "");
}

#[test]
fn blank_detection_guards_credentials() {
    assert!(is_blank(""));
    assert!(is_blank("   \t"));
    assert!(!is_blank(" SECRET-REDACTED "));
}

#[test]
fn token_estimates_round_up_quarters() {
    assert_eq!(estimate_tts_tokens_and_chars(""), (0, 0));
    assert_eq!(estimate_tts_tokens_and_chars("abcd"), (1, 4));
    assert_eq!(estimate_tts_tokens_and_chars("abcde"), (2, 5));
    assert_eq!(estimate_tokens_only("abcdefgh"), 2);
    // characters, not bytes
    assert_eq!(estimate_tts_tokens_and_chars("h\u{e9}\u{e9}"), (1, 3));
}

#[test]
fn image_content_type_checks_lowercased_prefix() {
    assert!(is_image_content_type("image/png"));
    assert!(is_image_content_type("IMAGE/JPEG; charset=binary"));
    assert!(!is_image_content_type("text/html"));
    assert!(!is_image_content_type("imag"));
}

#[test]
fn image_url_extension_checks_lowercased_suffix() {
    assert!(is_image_url_by_ext("https://x/y.PNG"));
    assert!(is_image_url_by_ext("https://x/y.webp"));
    assert!(!is_image_url_by_ext("https://x/y.html"));
}

#[test]
fn context_window_keeps_the_last_twelve_turns() {
    let turns: Vec<TurnDto> = (0..13)
        .map(|i| TurnDto {
            role: if i % 2 == 0 { "user".into() } else { "assistant".into() },
            content: format!("m{i}"),
            created_at: i,
        })
        .collect();
    let ctx = build_context_text(&turns);
    // the first turn (m0) fell out of the window
    assert!(!ctx.contains("m0"));
    assert!(ctx.starts_with("ASSISTANT: m1\n"));
    assert!(ctx.ends_with("USER: m12\n"));
    assert_eq!(ctx.lines().count(), 12);
}

#[test]
fn title_seed_takes_the_first_four_turns() {
    let turns: Vec<TurnDto> = (0..6)
        .map(|i| TurnDto { role: "user".into(), content: format!("c{i}"), created_at: 0 })
        .collect();
    assert_eq!(build_title_seed(&turns), "c0\nc1\nc2\nc3\n");
    assert_eq!(build_title_seed(&Vec::new()), "New conversation");
}

#[test]
fn timestamp_stem_extraction() {
    assert_eq!(
        extract_timestamp_stem("My Chat - 2024-01-02_03-04-05.json"),
        Some("2024-01-02_03-04-05".to_string())
    );
    assert_eq!(extract_timestamp_stem("noseparator.json"), None);
    assert_eq!(
        extract_timestamp_stem("a - b - c.json"),
        Some("c".to_string())
    );
}

#[test]
fn conversation_filenames_and_reserved_title() {
    assert_eq!(
        conversation_filename("Weather Talk", "2024-01-02_03-04-05"),
        "Weather Talk - 2024-01-02_03-04-05.json"
    );
    assert!(is_reserved_title("new conversation"));
    assert!(is_reserved_title("NEW Conversation"));
    assert!(!is_reserved_title("fresh conversation"));
}

#[test]
fn tts_model_parsing_with_fallback() {
    assert_eq!(parse_tts_model("eleven_multilingual_v2"), TtsModel::MultilingualV2);
    assert_eq!(parse_tts_model("eleven_flash_v2_5"), TtsModel::FlashV2_5);
    assert_eq!(parse_tts_model("eleven_turbo_v2_5"), TtsModel::TurboV2_5);
    assert_eq!(parse_tts_model("unknown"), TtsModel::MultilingualV2);
}

#[test]
fn vad_mode_parsing_accepts_spellings() {
    assert_eq!(parse_vad_mode("Quality"), VadModeKind::Quality);
    assert_eq!(parse_vad_mode("AGGRESSIVE"), VadModeKind::Aggressive);
    assert_eq!(parse_vad_mode("VeryAggressive"), VadModeKind::VeryAggressive);
    assert_eq!(parse_vad_mode("very_aggressive"), VadModeKind::VeryAggressive);
    assert_eq!(parse_vad_mode("very-aggressive"), VadModeKind::VeryAggressive);
    assert_eq!(parse_vad_mode("whatever"), VadModeKind::Aggressive);
}

#[test]
fn short_utterances_are_padded_for_transcription() {
    let mut short = vec![5i16; 100];
    pad_to_min_samples(&mut short);
    assert_eq!(short.len(), MIN_TRANSCRIBE_SAMPLES);
    assert_eq!(&short[..100], &[5; 100][..]);
    assert!(short[100..].iter().all(|&s| s == 0));

    let mut long = vec![7i16; MIN_TRANSCRIBE_SAMPLES + 1];
    pad_to_min_samples(&mut long);
    assert_eq!(long.len(), MIN_TRANSCRIBE_SAMPLES + 1);
}

#[test]
fn download_progress_is_a_rounded_percent() {
    assert_eq!(progress_percent(0, 10), 0);
    assert_eq!(progress_percent(10, 10), 100);
    assert_eq!(progress_percent(1, 3), 33);
    assert_eq!(progress_percent(2, 3), 67);
    assert_eq!(progress_percent(1, 200), 1);
}
