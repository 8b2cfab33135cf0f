use lpc_checksum::engine::process_image;
use lpc_checksum::engine::ChecksumError;
use lpc_checksum::registry::get_processor_checksum_info_by_name;
use lpc_checksum::registry::processor_checksum_table;
use lpc_checksum::registry::resolve_with_fallback;
use lpc_checksum::registry::str_contains;
use lpc_checksum::registry::ProcessorChecksumInfo;

fn image_from_words(words: &[u32]) -> Vec<u8> {
    let mut image: Vec<u8> = Vec::new();
    for word in words {
        for byte in word.to_le_bytes() {
            image.push(byte);
        }
    }
    image
}

#[test]
fn scenario_word_count_seven_slot_seven() {
    // The result slot equals the word count, so no word is excluded and all
    // seven words are summed: 1 + ... + 7 = 28, checksum = 0 - 28 mod 2^32.
    let info = ProcessorChecksumInfo {
        cpu_family: "LPC1",
        words_count: Some(7),
        resulting_word_position: 7,
    };
    let image = image_from_words(&[1, 2, 3, 4, 5, 6, 7]);
    let value = info.compute_checksum(image.as_slice()).unwrap();
    assert_eq!(value, 0xFFFFFFE4);
}

#[test]
fn scenario_word_count_eight_slot_five() {
    // Slot 5 holds 99 and is excluded; the other seven words sum to 70,
    // checksum = 0 - 70 mod 2^32, independent of the 99.
    let info = ProcessorChecksumInfo {
        cpu_family: "LPC2",
        words_count: Some(8),
        resulting_word_position: 5,
    };
    let image = image_from_words(&[10, 10, 10, 10, 10, 99, 10, 10]);
    let value = info.compute_checksum(image.as_slice()).unwrap();
    assert_eq!(value, 0xFFFFFFBA);
}

#[test]
fn slot_bytes_do_not_affect_checksum() {
    let info = ProcessorChecksumInfo {
        cpu_family: "LPC2",
        words_count: Some(8),
        resulting_word_position: 5,
    };
    let image1 = image_from_words(&[11, 22, 33, 44, 55, 0xDEADBEEF, 66, 77]);
    let image2 = image_from_words(&[11, 22, 33, 44, 55, 0x00000000, 66, 77]);
    let value1 = info.compute_checksum(image1.as_slice()).unwrap();
    let value2 = info.compute_checksum(image2.as_slice()).unwrap();
    assert_eq!(value1, value2);
}

#[test]
fn summation_wraps_modulo_two_to_the_thirty_two() {
    let info = ProcessorChecksumInfo {
        cpu_family: "LPC2",
        words_count: Some(8),
        resulting_word_position: 5,
    };
    // Seven participating words of 0xFFFFFFFF wrap to 0xFFFFFFF9; the
    // checksum is its two's-complement negation.
    let image = image_from_words(&[
        0xFFFFFFFF, 0xFFFFFFFF, 0xFFFFFFFF, 0xFFFFFFFF, 0xFFFFFFFF, 0, 0xFFFFFFFF, 0xFFFFFFFF,
    ]);
    let value = info.compute_checksum(image.as_slice()).unwrap();
    assert_eq!(value, 0x00000007);
}

#[test]
fn patched_image_words_sum_to_zero() {
    // The boot ROM's validation invariant: after patching, the words of the
    // checksum region sum to zero modulo 2^32.
    let info = ProcessorChecksumInfo {
        cpu_family: "LPC2",
        words_count: Some(8),
        resulting_word_position: 5,
    };
    let words = [0x12345678, 0x9ABCDEF0, 7, 0xFFFFFFFF, 42, 0xAAAAAAAA, 1, 0x80000000];
    let mut image = image_from_words(&words);
    let value = process_image(&info, &mut image, false).unwrap();
    let mut sum: u32 = 0;
    for k in 0..8 {
        let mut raw = [0u8; 4];
        raw.copy_from_slice(&image[4 * k..4 * k + 4]);
        sum = sum.wrapping_add(u32::from_le_bytes(raw));
    }
    assert_eq!(sum, 0);
    // The patched slot holds the returned value, little-endian.
    assert_eq!(&image[20..24], &value.to_le_bytes());
}

#[test]
fn dry_run_leaves_image_and_returns_same_value() {
    let info = ProcessorChecksumInfo {
        cpu_family: "LPC2",
        words_count: Some(8),
        resulting_word_position: 5,
    };
    let words = [3, 1, 4, 1, 5, 9, 2, 6];
    let original = image_from_words(&words);

    let mut dry = original.clone();
    let dry_value = process_image(&info, &mut dry, true).unwrap();
    assert_eq!(dry, original);

    let mut wet = original.clone();
    let wet_value = process_image(&info, &mut wet, false).unwrap();
    assert_eq!(dry_value, wet_value);
    assert_eq!(&wet[20..24], &wet_value.to_le_bytes());
    // Every byte outside the slot's four is untouched by the write.
    for j in 0..original.len() {
        if !(20..24).contains(&j) {
            assert_eq!(wet[j], original[j]);
        }
    }
}

#[test]
fn short_image_fails_with_io_and_no_write() {
    let info = ProcessorChecksumInfo {
        cpu_family: "LPC2",
        words_count: Some(8),
        resulting_word_position: 5,
    };
    let original: Vec<u8> = (0u8..31).collect();
    let mut image = original.clone();
    assert_eq!(process_image(&info, &mut image, false), Err(ChecksumError::Io));
    assert_eq!(image, original);
    assert_eq!(info.compute_checksum(image.as_slice()), Err(ChecksumError::Io));
}

#[test]
fn unsupported_scheme_fails_and_no_write() {
    let info = ProcessorChecksumInfo {
        cpu_family: "LPC3",
        words_count: None,
        resulting_word_position: 0,
    };
    let original = image_from_words(&[1, 2, 3, 4, 5, 6, 7, 8]);
    let mut image = original.clone();
    assert_eq!(
        process_image(&info, &mut image, false),
        Err(ChecksumError::UnsupportedScheme)
    );
    assert_eq!(image, original);
}

#[test]
fn patch_extends_image_when_slot_lies_past_the_end() {
    // For the families whose result slot equals the word count, the slot's
    // bytes lie just past the checksum region; a 28-byte image grows to 32
    // bytes, as a file grows under a write positioned past its end.
    let info = ProcessorChecksumInfo {
        cpu_family: "LPC1",
        words_count: Some(7),
        resulting_word_position: 7,
    };
    let original = image_from_words(&[1, 2, 3, 4, 5, 6, 7]);
    let mut image = original.clone();
    let value = process_image(&info, &mut image, false).unwrap();
    assert_eq!(value, 0xFFFFFFE4);
    assert_eq!(image.len(), 32);
    assert_eq!(&image[..28], &original[..]);
    assert_eq!(&image[28..32], &value.to_le_bytes());
}

#[test]
fn resolve_picks_first_matching_family_in_table_order() {
    let lpc1 = get_processor_checksum_info_by_name("LPC1768").unwrap();
    assert_eq!(lpc1.cpu_family, "LPC1");
    assert_eq!(lpc1.words_count, Some(7));
    assert_eq!(lpc1.resulting_word_position, 7);

    let lpc2 = get_processor_checksum_info_by_name("LPC2103").unwrap();
    assert_eq!(lpc2.cpu_family, "LPC2");
    assert_eq!(lpc2.words_count, Some(8));
    assert_eq!(lpc2.resulting_word_position, 5);

    // "LPC2900" contains both "LPC29" and "LPC2"; "LPC29" stands earlier in
    // the table, so the first containment match wins.
    let lpc29 = get_processor_checksum_info_by_name("LPC2900").unwrap();
    assert_eq!(lpc29.cpu_family, "LPC29");
    assert_eq!(lpc29.words_count, None);

    let lpc3 = get_processor_checksum_info_by_name("LPC3250").unwrap();
    assert_eq!(lpc3.cpu_family, "LPC3");
    assert_eq!(lpc3.words_count, None);

    let lpc5 = get_processor_checksum_info_by_name("LPC54608").unwrap();
    assert_eq!(lpc5.cpu_family, "LPC5");
    assert_eq!(lpc5.words_count, Some(7));
}

#[test]
fn resolve_unknown_identifier_returns_none() {
    assert!(get_processor_checksum_info_by_name("STM32F4").is_none());
    assert!(get_processor_checksum_info_by_name("").is_none());
}

#[test]
fn fallback_always_yields_a_scheme() {
    let (info, fell_back) = resolve_with_fallback("STM32F4");
    assert!(fell_back);
    assert_eq!(info.cpu_family, "LPC1");
    assert_eq!(info.words_count, Some(7));
    assert_eq!(info.resulting_word_position, 7);

    let (info, fell_back) = resolve_with_fallback("LPC2103");
    assert!(!fell_back);
    assert_eq!(info.cpu_family, "LPC2");
}

#[test]
fn table_lists_all_six_families_in_order() {
    let table = processor_checksum_table();
    let families: Vec<&str> = table.iter().map(|info| info.cpu_family).collect();
    assert_eq!(families, ["LPC3", "LPC29", "LPC1", "LPC2", "LPC4", "LPC5"]);
    assert_eq!(table[0].words_count, None);
    assert_eq!(table[1].words_count, None);
    assert_eq!(table[2].words_count, Some(7));
    assert_eq!(table[3].words_count, Some(8));
    assert_eq!(table[4].words_count, Some(7));
    assert_eq!(table[5].words_count, Some(7));
}

#[test]
fn substring_containment_by_characters() {
    assert!(str_contains("LPC1768", "LPC1"));
    assert!(str_contains("LPC1768", ""));
    assert!(str_contains("LPC1768", "LPC1768"));
    assert!(!str_contains("LPC1768", "LPC17689"));
    assert!(!str_contains("LPC2900", "LPC3"));
    assert!(!str_contains("", "L"));
}
