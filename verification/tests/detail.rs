use filebase::detail::{ContentFile, Contents, Detail, Outcome};
use filebase::messages::Messages;
use slpc::toml_edit::DocumentMut;

fn content_file(size: u64) -> ContentFile {
    ContentFile {
        name: "a.pdf".to_owned(),
        size,
        unreadable: None,
    }
}

/// The line as the window this library serves wrote it, with a float.
fn size_line_with_floats(n: u64) -> String {
    if n < 1024 {
        return if n == 1 {
            "1 byte".to_owned()
        } else {
            format!("{n} bytes")
        };
    }
    let units = ["KiB", "MiB", "GiB", "TiB", "PiB"];
    let mut scaled = n as f64 / 1024.0;
    let mut unit = units[0];
    for next in &units[1..] {
        if scaled < 1024.0 {
            break;
        }
        scaled /= 1024.0;
        unit = next;
    }
    format!("{scaled:.1} {unit} ({n} bytes)")
}

#[test]
fn a_scaled_size_still_states_the_bytes() {
    let line = content_file(1_536).size_line();
    assert!(line.contains("1.5 KiB"), "{line}");
    assert!(line.contains("1536"), "{line}");
}

#[test]
fn a_small_content_file_is_stated_in_bytes_alone() {
    assert_eq!(content_file(900).size_line(), "900 bytes");
    assert_eq!(content_file(1).size_line(), "1 byte");
    assert_eq!(content_file(0).size_line(), "0 bytes");
}

#[test]
fn scaling_climbs_past_the_first_unit() {
    assert!(content_file(5 * 1024 * 1024).size_line().contains("5.0 MiB"));
    assert!(content_file(3 * 1024 * 1024 * 1024)
        .size_line()
        .contains("3.0 GiB"));
}

#[test]
fn a_content_file_that_cannot_be_decoded_is_not_offered() {
    assert!(content_file(10).can_be_opened());
    let encrypted = ContentFile {
        unreadable: Some("encrypted".to_owned()),
        ..content_file(10)
    };
    assert!(!encrypted.can_be_opened());
}

#[test]
fn exact_size_lines() {
    assert_eq!(content_file(1023).size_line(), "1023 bytes");
    assert_eq!(content_file(1024).size_line(), "1.0 KiB (1024 bytes)");
    assert_eq!(content_file(1_048_575).size_line(), "1024.0 KiB (1048575 bytes)");
    assert_eq!(content_file(1_048_576).size_line(), "1.0 MiB (1048576 bytes)");
    assert_eq!(
        content_file(u64::MAX).size_line(),
        "16384.0 PiB (18446744073709551615 bytes)"
    );
}

#[test]
fn a_tie_goes_to_the_even_tenth() {
    // 1280 bytes is exactly 1.25 KiB and 1792 exactly 1.75 KiB.
    assert_eq!(content_file(1280).size_line(), "1.2 KiB (1280 bytes)");
    assert_eq!(content_file(1792).size_line(), "1.8 KiB (1792 bytes)");
}

#[test]
fn the_line_agrees_with_floating_point_everywhere_tried() {
    let mut samples: Vec<u64> = (0..5000).collect();
    for shift in 10..64 {
        let base = 1u64 << shift;
        for delta in [0u64, 1, 2, 3, 511, 512, 513, 1023, 1024, 1025, 4095, 4096] {
            samples.push(base.wrapping_add(delta));
            samples.push(base.wrapping_sub(delta));
            samples.push(base.wrapping_mul(10).wrapping_add(delta));
        }
    }
    let mut x: u64 = 0x9E37_79B9_7F4A_7C15;
    for _ in 0..20000 {
        x ^= x << 13;
        x ^= x >> 7;
        x ^= x << 17;
        samples.push(x >> (x % 64));
    }
    samples.push(u64::MAX);
    samples.push((1u64 << 53) + 1);
    samples.push((1u64 << 54) + 3);
    for n in samples {
        assert_eq!(content_file(n).size_line(), size_line_with_floats(n), "n = {n}");
    }
}

#[test]
fn a_size_line_in_another_language_fills_its_templates() {
    let mut german = Messages::english();
    german.byte_one = "{n} Byte".to_owned();
    german.byte_other = "{n} Bytes".to_owned();
    german.size_scaled = "{size} {unit} ({n} Bytes)".to_owned();
    assert_eq!(content_file(1).size_line_in(&german), "1 Byte");
    assert_eq!(content_file(2).size_line_in(&german), "2 Bytes");
    assert_eq!(content_file(1536).size_line_in(&german), "1.5 KiB (1536 Bytes)");
}

#[test]
fn a_content_name_is_escaped_on_the_card() {
    let contents = Contents::of(DocumentMut::new(), "report\u{202E}fdp.exe", Some(12), None);
    assert_eq!(contents.content.name, "report\\u{202E}fdp.exe");
    assert_eq!(contents.content.size, 12);
    assert!(contents.content.can_be_opened());
}

#[test]
fn a_central_directory_that_will_not_say_reads_zero() {
    let contents = Contents::of(
        DocumentMut::new(),
        "a.pdf",
        None,
        Some("unsupported compression method 99".to_owned()),
    );
    assert_eq!(contents.content.size, 0);
    assert_eq!(contents.content.name, "a.pdf");
    assert!(!contents.content.can_be_opened());
}

#[test]
fn a_read_container_offers_its_content_file() {
    let contents = Contents::of(DocumentMut::new(), "q3.xlsx", Some(5), None);
    let detail = Detail::open("/tmp/x/2026/q3/q3.xlsx.slpc".into(), "2026/q3/q3.xlsx.slpc", Ok(contents));
    assert_eq!(detail.relative, "2026/q3/q3.xlsx.slpc");
    assert_eq!(detail.content().map(|c| c.name.as_str()), Some("q3.xlsx"));
    assert!(matches!(detail.outcome, Outcome::Read(_)));
}

#[test]
fn an_unreadable_container_offers_nothing() {
    let detail = Detail::open(
        "/tmp/x/2026/broken.slpc".into(),
        "2026/broken.slpc",
        Err("not a zip archive".to_owned()),
    );
    assert!(detail.content().is_none());
    match &detail.outcome {
        Outcome::Unreadable(why) => assert_eq!(why, "not a zip archive"),
        Outcome::Read(_) => panic!("an error is not a container"),
    }
}
