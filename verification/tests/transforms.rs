// Prompt/response transforms and language-model text preparation.

use voice_frontend::llm::{
    extract_image_parts, find_urls, guess_image_mime, resolve_image_url, strip_html,
    weather_report,
};
use voice_frontend::session::join_transcript_segments;
use voice_frontend::transform::{
    contains_forget, contains_weather_request, detects_paste_command, extract_copy_directive,
    pause_music_requested, play_music_requested, previous_track_requested, skip_track_requested,
    substitute_paste_command,
};

#[test]
fn copy_directive_is_extracted_and_stripped() {
    let (content, stripped) =
        extract_copy_directive("Here: [[copy]]let x = 1;[[/copy]] done");
    assert_eq!(content, Some("let x = 1;".to_string()));
    assert_eq!(stripped, "Here:  done");
}

#[test]
fn all_copy_directives_are_removed_but_only_first_copied() {
    let (content, stripped) =
        extract_copy_directive("a[[copy]]one[[/copy]]b[[copy]]two[[/copy]]c");
    assert_eq!(content, Some("one".to_string()));
    assert_eq!(stripped, "abc");
}

#[test]
fn unpaired_copy_tag_stays() {
    let (content, stripped) = extract_copy_directive("a[[copy]]no closing");
    assert_eq!(content, None);
    assert_eq!(stripped, "a[[copy]]no closing");
    let (content2, stripped2) = extract_copy_directive("plain text");
    assert_eq!(content2, None);
    assert_eq!(stripped2, "plain text");
}

#[test]
fn empty_copy_block_is_allowed() {
    let (content, stripped) = extract_copy_directive("x[[copy]][[/copy]]y");
    assert_eq!(content, Some(String::new()));
    assert_eq!(stripped, "xy");
}

#[test]
fn voice_commands_match_whole_words_case_insensitively() {
    assert!(contains_forget("please FORGET everything"));
    assert!(contains_forget("erase memories now"));
    assert!(!contains_forget("forgetting things"));
    assert!(!contains_forget("unforget"));

    assert!(skip_track_requested("skip track"));
    assert!(skip_track_requested("Next Music please"));
    assert!(!skip_track_requested("skip tracking"));

    assert!(pause_music_requested("Pause"));
    assert!(pause_music_requested("pause music now"));
    assert!(!pause_music_requested("paused"));

    assert!(play_music_requested("play something"));
    assert!(previous_track_requested("last track"));
    assert!(previous_track_requested("Previous Music"));

    assert!(contains_weather_request("what is the weather"));
    assert!(contains_weather_request("WEATHER?"));
    assert!(!contains_weather_request("whether it works"));
}

#[test]
fn paste_commands_are_detected_and_substituted() {
    assert!(detects_paste_command("please control v here"));
    assert!(detects_paste_command("Control-V"));
    assert!(!detects_paste_command("we control various things"));
    assert_eq!(
        substitute_paste_command("insert control v now", "CLIP"),
        "insert CLIP now"
    );
    assert_eq!(substitute_paste_command("nothing here", "CLIP"), "nothing here");
}

#[test]
fn html_is_reduced_to_its_text() {
    assert_eq!(strip_html("<p>Hello <b>world</b></p>"), "Hello world");
    // an angle pair with content between counts as a tag, even mid-sentence
    assert_eq!(strip_html("a < b and c > d"), "a d");
    // a '<' with no '>' after it stays
    assert_eq!(strip_html("5 < 6"), "5 < 6");
    assert_eq!(strip_html("  <div>\n  spaced \t out </div> "), "spaced out");
    assert_eq!(strip_html("<br>"), "");
}

#[test]
fn urls_are_scanned_left_to_right() {
    let urls = find_urls("see https://a.example/x and (http://b.example/y) end");
    assert_eq!(urls, vec!["https://a.example/x", "http://b.example/y"]);
    assert_eq!(find_urls("no links at all"), Vec::<String>::new());
    // a bare scheme with nothing after it is not a link
    assert_eq!(find_urls("https:// "), Vec::<String>::new());
}

#[test]
fn mime_is_guessed_from_the_exact_extension() {
    assert_eq!(guess_image_mime("http://x/a.png"), "image/png");
    assert_eq!(guess_image_mime("http://x/a.jpg"), "image/jpeg");
    assert_eq!(guess_image_mime("http://x/a.jpeg"), "image/jpeg");
    assert_eq!(guess_image_mime("http://x/a.gif"), "image/gif");
    assert_eq!(guess_image_mime("http://x/a.webp"), "image/webp");
    assert_eq!(guess_image_mime("http://x/a.PNG"), "application/octet-stream");
}

#[test]
fn embedded_image_is_split_and_decoded() {
    let r = extract_image_parts("look data:image/png;base64,aGk= end");
    let (pre, mime, bytes, post) = r.expect_err("the prompt embeds an image");
    assert_eq!(pre, "look ");
    assert_eq!(mime, "png");
    assert_eq!(bytes, b"hi".to_vec());
    assert_eq!(post, " end");
}

#[test]
fn prompt_without_embedded_image_stays_whole() {
    let r = extract_image_parts("just words");
    assert_eq!(r.expect("no image embedded").0, "just words");
    // an incomplete data link is no match
    assert!(extract_image_parts("data:image/;base64,aGk=").is_ok());
    assert!(extract_image_parts("data:image/png;base64,").is_ok());
}

#[test]
fn undecodable_base64_yields_empty_bytes() {
    let r = extract_image_parts("x data:image/png;base64,a y");
    let (_, _, bytes, _) = r.expect_err("the link shape matches");
    assert!(bytes.is_empty());
}

#[test]
fn search_redirectors_resolve_to_their_image_parameter() {
    let raw = "https://www.google.com/imgres?imgurl=https%3A%2F%2Fpics.example%2Fcat.png&tbnid=1";
    assert_eq!(resolve_image_url(raw), "https://pics.example/cat.png");
    // a non-engine link comes back unchanged
    let direct = "https://pics.example/cat.png";
    assert_eq!(resolve_image_url(direct), direct);
    // an engine link without redirect parameters comes back unchanged
    let plain = "https://www.google.com/search?q=cats";
    assert_eq!(resolve_image_url(plain), plain);
}

#[test]
fn bing_media_urls_resolve_too() {
    let raw = "https://www.bing.com/images?mediaurl=http%3A%2F%2Fpics.example%2Fdog.jpg";
    assert_eq!(resolve_image_url(raw), "http://pics.example/dog.jpg");
}

#[test]
fn transcript_segments_are_trimmed_and_joined() {
    let segs = vec![" Hello there.".to_string(), "  General greeting. \n".to_string()];
    assert_eq!(join_transcript_segments(&segs), "Hello there. General greeting. ");
    assert_eq!(join_transcript_segments(&Vec::new()), "");
}

#[test]
fn weather_sentence_is_assembled() {
    assert_eq!(
        weather_report("Sunny", "21"),
        "The current weather is Sunny with a temperature of 21\u{b0}C."
    );
}
