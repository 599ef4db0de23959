use blazon::Metrics;
use blazon::create_badge;
use blazon::format_size;
use blazon::generate_badges;

#[test]
fn test_create_badge() {
    let badge = create_badge("test", "123", "blue");
    assert!(badge.contains("<svg"));
    assert!(badge.contains("test"));
    assert!(badge.contains("123"));
}

#[test]
fn badge_test_format_size() {
    assert_eq!(format_size(500), "500B");
    assert_eq!(format_size(2048), "2.0K");
    assert_eq!(format_size(2 * 1024 * 1024), "2.0M");
}

#[test]
fn basic_test_format_size() {
    assert_eq!(format_size(500), "500B");
    assert_eq!(format_size(1024), "1.0K");
    assert_eq!(format_size(2048), "2.0K");
    assert_eq!(format_size(1024 * 1024), "1.0M");
    assert_eq!(format_size(2 * 1024 * 1024), "2.0M");
    assert_eq!(format_size(1536 * 1024), "1.5M");
}

#[test]
fn test_generate_badges() {
    let metrics = Metrics {
        dep_count: 42,
        binary_size_bytes: 2 * 1024 * 1024, // 2MB
    };

    let badges = generate_badges(&metrics, "test-crate");

    // Check the badges contain expected elements
    assert!(badges.contains("Dependencies: 42"));
    assert!(badges.contains("Binary Size: 2.0M"));
    assert!(badges.contains("https://img.shields.io/badge/cargo%20tree-42-blue"));
    assert!(badges.contains("https://img.shields.io/badge/build%20size-2.0M-green"));
    assert!(badges.contains("https://crates.io/crates/test-crate"));
}

#[test]
fn test_badge_format() {
    let metrics = Metrics {
        dep_count: 123,
        binary_size_bytes: 1500000, // ~1.4M
    };

    let badges = generate_badges(&metrics, "my-crate");

    // Should have two badge lines
    let lines: Vec<&str> = badges.lines().collect();
    assert_eq!(lines.len(), 2);

    // Each line should be a complete markdown badge
    assert!(lines[0].starts_with("[![Dependencies:"));
    assert!(lines[1].starts_with("[![Binary Size:"));
}

#[test]
fn format_size_exact_values() {
    assert_eq!(format_size(0), "0B");
    assert_eq!(format_size(1023), "1023B");
    assert_eq!(format_size(1536), "1.5K");
    // rounding is to the nearest tenth, ties to even
    assert_eq!(format_size(1280), "1.2K");
    assert_eq!(format_size(1792), "1.8K");
    assert_eq!(format_size(1048575), "1024.0K");
    assert_eq!(format_size(1048576), "1.0M");
    assert_eq!(format_size(1572864), "1.5M");
}

#[test]
fn create_badge_widths() {
    // label "test" is 4 bytes: width 4 * 7 + 10 = 38; value "123" is 3 bytes:
    // width 31; total 69; text anchors at 19 and 38 + 15 = 53
    let badge = create_badge("test", "123", "blue");
    assert!(badge.starts_with("<svg xmlns=\"http://www.w3.org/2000/svg\" width=\"69\" height=\"20\">"));
    assert!(badge.contains("x=\"19\""));
    assert!(badge.contains("x=\"53\""));
    assert!(badge.contains("fill=\"blue\""));
    assert!(badge.ends_with("</svg>"));
}

#[test]
fn generate_badges_exact() {
    let metrics = Metrics {
        dep_count: 7,
        binary_size_bytes: 512,
    };
    let badges = generate_badges(&metrics, "demo");
    assert_eq!(
        badges,
        "[![Dependencies: 7](https://img.shields.io/badge/cargo%20tree-7-blue)](https://crates.io/crates/demo)\n[![Binary Size: 512B](https://img.shields.io/badge/build%20size-512B-green)](https://crates.io/crates/demo)"
    );
}
