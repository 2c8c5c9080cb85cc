use room_server::room::{display_name_is_defined, normalized_display_name, sanitize_network_fingerprint};
use room_server::text::{char_is_space, decimal_string};

#[test]
fn display_name_is_trimmed() {
    assert_eq!(normalized_display_name("  Alice \n", "peer-1"), "Alice");
}

#[test]
fn display_name_is_cut_to_48_characters() {
    let long: String = std::iter::repeat('é').take(60).collect();
    let name = normalized_display_name(&long, "p");
    assert_eq!(name.chars().count(), 48);
    assert!(name.chars().all(|c| c == 'é'));
}

#[test]
fn blank_display_name_becomes_guest() {
    assert_eq!(normalized_display_name("   ", "abcdefghijkl"), "guest-abcdefgh");
    assert_eq!(normalized_display_name("", "abc"), "guest-abc");
    assert_eq!(normalized_display_name("", ""), "guest-");
    // 'é' takes two bytes: four of them make exactly eight bytes
    assert_eq!(normalized_display_name("", "éééééé"), "guest-éééé");
}

#[test]
fn guest_name_needs_a_character_boundary_at_byte_eight() {
    // "abcdefg" + 'é' puts byte eight inside 'é'
    assert!(!display_name_is_defined("", "abcdefgé"));
    assert!(display_name_is_defined("x", "abcdefgé"));
    assert!(display_name_is_defined("", "abcdefgh"));
    assert!(display_name_is_defined("", "abcdefé"));
    assert!(display_name_is_defined("", "é"));
}

#[test]
fn fingerprint_is_cleaned() {
    assert_eq!(sanitize_network_fingerprint("  cand:1.2.3.4:5000 "), "cand:1.2.3.4:5000");
    assert_eq!(sanitize_network_fingerprint("wsip:10.0.0.1; DROP"), "wsip:10.0.0.1DROP");
    assert_eq!(sanitize_network_fingerprint("a b/c_d-e"), "ab/c_d-e");
    assert_eq!(sanitize_network_fingerprint("   "), "");
    let long: String = std::iter::repeat('x').take(200).collect();
    assert_eq!(sanitize_network_fingerprint(&long).len(), 128);
}

#[test]
fn sanitize_twice_is_sanitize_once() {
    for s in ["  a b ", "x\u{3000}y", "ü:1.2", "----", ""] {
        let once = sanitize_network_fingerprint(s);
        assert_eq!(sanitize_network_fingerprint(&once), once);
    }
}

#[test]
fn unicode_space_agrees_with_std() {
    for u in 0u32..0x3100 {
        if let Some(c) = char::from_u32(u) {
            assert_eq!(char_is_space(c), c.is_whitespace(), "{u:#x}");
        }
    }
}

#[test]
fn decimal_matches_display() {
    for n in [0u64, 7, 10, 99, 100, 1234567890, u64::MAX] {
        assert_eq!(decimal_string(n), n.to_string());
    }
}
