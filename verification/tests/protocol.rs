use yabai_id::socket::{is_refresh_command, LEGACY_SOCKET_PATH, SOCKET_PATH};
use yabai_id::text::trim;
use yabai_id::yabai::{
    decode_response, encode_request, focus_space_request, query_spaces_request, socket_path,
    Space, SpaceKind, FAILURE_BYTE,
};

fn space(index: i64, label: &str) -> Space {
    Space {
        index,
        display: 1,
        label: label.to_string(),
        has_focus: false,
        is_visible: false,
        windows: Vec::new(),
        kind: SpaceKind::default(),
    }
}

#[test]
fn request_frames_arguments_with_nuls_and_length() {
    let m = encode_request(&["query", "--spaces"]).unwrap();
    let mut expected: Vec<u8> = vec![16, 0, 0, 0];
    expected.extend_from_slice(b"query\0--spaces\0\0");
    assert_eq!(m, expected);
}

#[test]
fn request_of_one_empty_argument() {
    let m = encode_request(&[""]).unwrap();
    assert_eq!(m, vec![2, 0, 0, 0, 0, 0]);
}

#[test]
fn request_encodes_non_ascii_as_utf8() {
    let m = encode_request(&["é"]).unwrap();
    assert_eq!(m, vec![4, 0, 0, 0, 0xC3, 0xA9, 0, 0]);
}

#[test]
fn request_without_arguments_is_refused() {
    assert_eq!(encode_request(&[]), Err("no yabai arguments provided".to_string()));
}

#[test]
fn request_length_uses_all_four_bytes() {
    let big = "a".repeat(300);
    let m = encode_request(&[big.as_str()]).unwrap();
    // 300 bytes, its NUL and the final NUL: 302 = 0x012E.
    assert_eq!(&m[0..4], &[0x2E, 0x01, 0, 0]);
    assert_eq!(m.len(), 306);
    assert_eq!(m[305], 0);
    assert_eq!(m[304], 0);
}

#[test]
fn focus_request_carries_decimal_index() {
    let m = focus_space_request(3).unwrap();
    let mut expected: Vec<u8> = vec![17, 0, 0, 0];
    expected.extend_from_slice(b"space\0--focus\x003\0\0");
    assert_eq!(m, expected);
}

#[test]
fn focus_request_with_negative_index() {
    let m = focus_space_request(-12).unwrap();
    assert_eq!(&m[4..], b"space\0--focus\0-12\0\0");
}

#[test]
fn query_request_matches_encoding() {
    assert_eq!(query_spaces_request(), encode_request(&["query", "--spaces"]));
}

#[test]
fn response_is_reply_text() {
    assert_eq!(decode_response(b"[{\"index\":1}]"), Ok("[{\"index\":1}]".to_string()));
    assert_eq!(decode_response(b""), Ok(String::new()));
}

#[test]
fn response_with_invalid_utf8_is_replaced() {
    assert_eq!(decode_response(&[b'a', 0xFF, b'b']), Ok("a\u{FFFD}b".to_string()));
}

#[test]
fn failure_response_gives_trimmed_message() {
    let mut r = vec![FAILURE_BYTE];
    r.extend_from_slice(b"  could not locate space\n");
    assert_eq!(decode_response(&r), Err("could not locate space".to_string()));
}

#[test]
fn empty_failure_response_gives_fixed_message() {
    assert_eq!(decode_response(&[0x07]), Err("yabai returned an error".to_string()));
    assert_eq!(decode_response(&[0x07, b' ', b'\n']), Err("yabai returned an error".to_string()));
}

#[test]
fn failure_byte_counts_only_in_front() {
    assert_eq!(decode_response(&[b'x', 0x07]), Ok("x\u{7}".to_string()));
}

#[test]
fn socket_path_names_user() {
    assert_eq!(socket_path("alice"), "/tmp/yabai_alice.socket");
}

#[test]
fn refresh_commands_are_accepted() {
    assert!(is_refresh_command("refresh"));
    assert!(is_refresh_command("refresh\n"));
    assert!(is_refresh_command("  refresh spaces \n"));
    assert!(is_refresh_command("refresh windows"));
    assert!(is_refresh_command("\u{3000}refresh\t"));
}

#[test]
fn other_messages_are_ignored() {
    assert!(!is_refresh_command(""));
    assert!(!is_refresh_command("refresh all"));
    assert!(!is_refresh_command("Refresh"));
    assert!(!is_refresh_command("refresh  spaces"));
    assert!(!is_refresh_command("quit"));
}

#[test]
fn socket_paths() {
    assert_eq!(SOCKET_PATH, "/tmp/yabai-id.socket");
    assert_eq!(LEGACY_SOCKET_PATH, "/tmp/yabai-indicator.socket");
}

#[test]
fn trim_removes_unicode_whitespace_only() {
    assert_eq!(trim(" \t a b \n"), "a b");
    assert_eq!(trim("\u{A0}x\u{2029}"), "x");
    assert_eq!(trim("   "), "");
    assert_eq!(trim("x"), "x");
    assert_eq!(trim("\u{200B}x"), "\u{200B}x");
}

#[test]
fn display_label_prefers_label() {
    assert_eq!(space(4, "web").display_label(), "web");
}

#[test]
fn display_label_falls_back_to_index() {
    assert_eq!(space(4, "").display_label(), "4");
    assert_eq!(space(-7, "").display_label(), "-7");
    assert_eq!(space(0, "").display_label(), "0");
}

#[test]
fn space_kind_defaults_to_bsp() {
    assert_eq!(SpaceKind::default(), SpaceKind::Bsp);
}
