use sms_splitter::gsm_splitter::GsmSplitter;
use sms_splitter::gsm_validator::GsmValidator;
use sms_splitter::splitter_options::SplitterOptions;
use sms_splitter::splitter_result::{SplitterPart, SplitterResult};
use sms_splitter::unicode_splitter::UnicodeSplitter;
use sms_splitter::{SplitSms, SplitSmsResult};

fn split(message: &str, shift_tables: bool, summary: bool) -> SplitSmsResult {
    SplitSms::new(SplitterOptions::new(shift_tables, summary)).split(message.to_string())
}

fn part_sums(parts: &[SplitterPart]) -> (usize, usize) {
    let length = parts.iter().map(|p| p.length).sum();
    let bytes = parts.iter().map(|p| p.bytes).sum();
    (length, bytes)
}

fn joined(parts: &[SplitterPart]) -> String {
    parts.iter().map(|p| p.content.as_str()).collect()
}

#[test]
fn hello_world_is_one_gsm_part() {
    let r = split("Hello World!", false, false);
    assert_eq!(r.character_set, "GSM");
    assert_eq!(r.parts.len(), 1);
    assert_eq!(r.parts[0].content, "Hello World!");
    assert_eq!(r.parts[0].length, 12);
    assert_eq!(r.parts[0].bytes, 12);
    assert_eq!(r.bytes, 12);
    assert_eq!(r.length, 12);
    assert_eq!(r.remaining_in_part, 148);
}

#[test]
fn default_splitter_matches_plain_options() {
    let r = SplitSms::default().split("Hello World!".to_string());
    assert_eq!(r.character_set, "GSM");
    assert_eq!(r.remaining_in_part, 148);
}

#[test]
fn empty_message_gives_one_empty_part() {
    let r = split("", false, false);
    assert_eq!(r.parts.len(), 1);
    assert_eq!(r.parts[0].content, "");
    assert_eq!(r.parts[0].length, 0);
    assert_eq!(r.parts[0].bytes, 0);
    assert_eq!(r.length, 0);
    assert_eq!(r.bytes, 0);
    assert_eq!(r.remaining_in_part, 160);
}

#[test]
fn empty_message_in_each_splitter() {
    for res in [
        GsmSplitter::default().split(String::new()),
        UnicodeSplitter::default().split(String::new()),
        SplitterResult::empty(),
    ] {
        assert_eq!(res.parts.len(), 1);
        assert_eq!(res.parts[0].content, "");
        assert_eq!(res.parts[0].length, 0);
        assert_eq!(res.parts[0].bytes, 0);
        assert_eq!(res.total_length, 0);
        assert_eq!(res.total_bytes, 0);
    }
}

#[test]
fn gsm_161_characters_make_two_parts() {
    let message = "a".repeat(161);
    let r = split(&message, false, false);
    assert_eq!(r.character_set, "GSM");
    assert_eq!(r.parts.len(), 2);
    assert_eq!(r.parts[0].bytes, 153);
    assert_eq!(r.parts[1].bytes, 8);
    assert_eq!(r.parts[0].content, "a".repeat(153));
    assert_eq!(r.parts[1].content, "a".repeat(8));
    assert_eq!(r.bytes, 161);
    assert_eq!(r.length, 161);
    assert_eq!(r.remaining_in_part, 145);
}

#[test]
fn gsm_160_characters_merge_back_into_one_part() {
    let message = "a".repeat(160);
    let r = split(&message, false, false);
    assert_eq!(r.parts.len(), 1);
    assert_eq!(r.parts[0].bytes, 160);
    assert_eq!(r.parts[0].length, 160);
    assert_eq!(r.parts[0].content, message);
    assert_eq!(r.remaining_in_part, 0);
}

#[test]
fn gsm_totals_from_154_to_160_bytes_are_one_part() {
    for n in 154..=160 {
        let r = split(&"b".repeat(n), false, true);
        assert_eq!(r.bytes, n);
        assert_eq!(r.parts.len(), 1);
    }
    for n in 161..=320 {
        let r = split(&"b".repeat(n), false, true);
        assert!(r.parts.len() >= 2);
    }
}

#[test]
fn extension_character_is_not_split_from_its_escape() {
    // 152 plain bytes, then an extension character of two bytes and more text.
    let message = format!("{}{{{}", "a".repeat(152), "c".repeat(10));
    let r = GsmSplitter::new(SplitterOptions::new(false, false)).split(message);
    assert_eq!(r.parts.len(), 2);
    assert_eq!(r.parts[0].bytes, 152);
    assert_eq!(r.parts[0].length, 152);
    assert_eq!(r.parts[1].bytes, 12);
    assert_eq!(r.parts[1].length, 11);
    assert_eq!(r.parts[1].content, format!("{{{}", "c".repeat(10)));
    assert_eq!(r.total_bytes, 164);
    assert_eq!(r.total_length, 163);
}

#[test]
fn extension_character_at_boundary_merges_when_it_fits() {
    let message = format!("{}€", "a".repeat(152));
    let r = split(&message, false, false);
    assert_eq!(r.character_set, "GSM");
    assert_eq!(r.parts.len(), 1);
    assert_eq!(r.bytes, 154);
    assert_eq!(r.length, 153);
    assert_eq!(r.parts[0].content, message);
    assert_eq!(r.remaining_in_part, 6);
}

#[test]
fn extension_characters_cost_two_bytes() {
    let r = split("{a}", false, false);
    assert_eq!(r.character_set, "GSM");
    assert_eq!(r.bytes, 5);
    assert_eq!(r.length, 3);
    assert_eq!(r.remaining_in_part, 155);
}

#[test]
fn emoji_counts_two_code_units_and_four_bytes() {
    let r = split("Hi 😀", false, false);
    assert_eq!(r.character_set, "Unicode");
    assert_eq!(r.parts.len(), 1);
    assert_eq!(r.parts[0].content, "Hi 😀");
    assert_eq!(r.length, 5);
    assert_eq!(r.bytes, 10);
    let plain = UnicodeSplitter::default().split("Hi ".to_string());
    assert_eq!(plain.total_length + 2, r.length);
    assert_eq!(plain.total_bytes + 4, r.bytes);
    assert_eq!(r.remaining_in_part, 65);
}

#[test]
fn surrogate_pair_opens_the_next_part() {
    // 66 code units fill 132 bytes: the pair does not fit in the 134 left.
    let message = format!("{}😀{}", "ж".repeat(66), "ж".repeat(10));
    let r = UnicodeSplitter::new(SplitterOptions::new(false, false)).split(message.clone());
    assert_eq!(r.parts.len(), 2);
    assert_eq!(r.parts[0].content, "ж".repeat(66));
    assert_eq!(r.parts[0].bytes, 132);
    assert_eq!(r.parts[0].length, 66);
    assert_eq!(r.parts[1].content, format!("😀{}", "ж".repeat(10)));
    assert_eq!(r.parts[1].bytes, 24);
    assert_eq!(r.parts[1].length, 12);
    assert_eq!(joined(&r.parts), message);
    for p in &r.parts {
        assert_eq!(p.content.encode_utf16().count(), p.length);
    }
}

#[test]
fn surrogate_pair_fits_exactly_at_end_of_part() {
    // 65 code units take 130 bytes; the pair brings the part to 134.
    let message = format!("{}😀{}", "ж".repeat(65), "ж".repeat(10));
    let r = UnicodeSplitter::default().split(message);
    assert_eq!(r.parts.len(), 2);
    assert_eq!(r.parts[0].bytes, 134);
    assert_eq!(r.parts[0].length, 67);
    assert_eq!(r.parts[1].bytes, 20);
    assert_eq!(r.parts[1].content, "ж".repeat(10));
}

#[test]
fn unicode_71_characters_make_two_parts() {
    let message = "ж".repeat(71);
    let r = split(&message, false, false);
    assert_eq!(r.character_set, "Unicode");
    assert_eq!(r.parts.len(), 2);
    assert_eq!(r.parts[0].bytes, 134);
    assert_eq!(r.parts[0].length, 67);
    assert_eq!(r.parts[1].bytes, 8);
    assert_eq!(r.parts[1].length, 4);
    assert_eq!(r.bytes, 142);
    assert_eq!(r.remaining_in_part, 63);
}

#[test]
fn unicode_70_characters_merge_back() {
    let message = "ж".repeat(70);
    let r = split(&message, false, false);
    assert_eq!(r.parts.len(), 1);
    assert_eq!(r.parts[0].content, message);
    assert_eq!(r.bytes, 140);
    assert_eq!(r.length, 70);
    assert_eq!(r.remaining_in_part, 0);
}

#[test]
fn turkish_characters_need_shift_tables() {
    let message = "ĞğİıŞş";
    let plain = split(message, false, false);
    assert_eq!(plain.character_set, "Unicode");
    assert_eq!(plain.bytes, 12);
    let shifted = split(message, true, false);
    assert_eq!(shifted.character_set, "GSM");
    assert_eq!(shifted.length, 6);
    assert_eq!(shifted.bytes, 12);
    assert_eq!(shifted.parts[0].content, message);
}

#[test]
fn shift_tables_require_every_character() {
    let v = GsmValidator::new();
    assert!(v.validate_message_with_shift_table("ĞabcΦ∞".to_string()));
    assert!(!v.validate_message_with_shift_table("Ğ😀".to_string()));
    assert!(!v.validate_message_with_shift_table("ab\u{0416}".to_string()));
    let r = split("Ğ and ж", true, false);
    assert_eq!(r.character_set, "Unicode");
}

#[test]
fn classification_is_stable() {
    for (message, shift) in [("Hello", false), ("ĞğİıŞş", false), ("ĞğİıŞş", true), ("😀", true)] {
        let first = split(message, shift, false);
        let second = split(message, shift, false);
        assert_eq!(first.character_set, second.character_set);
    }
}

#[test]
fn totals_are_sums_of_parts() {
    let messages = [
        "a".repeat(400),
        "ж".repeat(300),
        format!("{}€{}", "x".repeat(151), "y".repeat(300)),
        format!("{}😀😀{}", "ж".repeat(130), "z".repeat(50)),
        "a".repeat(160),
        "ж".repeat(68),
    ];
    for m in &messages {
        for summary in [false, true] {
            let r = split(m, false, summary);
            assert_eq!(part_sums(&r.parts), (r.length, r.bytes));
        }
    }
}

#[test]
fn parts_keep_to_their_budgets() {
    let messages = [
        "a".repeat(1000),
        "ж".repeat(1000),
        "{".repeat(500),
        format!("{}😀", "ж".repeat(400)).repeat(3),
        "a".repeat(153),
    ];
    for m in &messages {
        let r = split(m, false, false);
        let (single, multi) = if r.character_set == "GSM" { (160, 153) } else { (140, 134) };
        for p in &r.parts {
            if r.parts.len() == 1 {
                assert!(p.bytes <= single);
            } else {
                assert!(p.bytes <= multi);
            }
        }
        assert_eq!(joined(&r.parts), *m);
    }
}

#[test]
fn summary_leaves_text_out_but_keeps_counts() {
    let r = split(&"a".repeat(200), false, true);
    assert_eq!(r.parts.len(), 2);
    assert_eq!(r.parts[0].content, "");
    assert_eq!(r.parts[1].content, "");
    assert_eq!(r.parts[0].bytes, 153);
    assert_eq!(r.parts[1].bytes, 47);
    assert_eq!(r.parts[1].length, 47);
    assert_eq!(r.remaining_in_part, 106);
    let u = split("Hi 😀", false, true);
    assert_eq!(u.parts[0].content, "");
    assert_eq!(u.parts[0].length, 5);
    assert_eq!(u.parts[0].bytes, 10);
}

#[test]
fn gsm_splitter_sends_spaces_for_unknown_characters() {
    let r = GsmSplitter::new(SplitterOptions::new(false, false)).split("a😀bж".to_string());
    assert_eq!(r.parts.len(), 1);
    assert_eq!(r.parts[0].content, "a b ");
    assert_eq!(r.total_length, 4);
    assert_eq!(r.total_bytes, 4);
}

#[test]
fn shift_table_extension_characters_cost_two_bytes() {
    let r = GsmSplitter::new(SplitterOptions::new(true, false)).split("çaĞ".to_string());
    assert_eq!(r.total_bytes, 5);
    assert_eq!(r.total_length, 3);
    let plain = GsmSplitter::new(SplitterOptions::new(false, false)).split("ça".to_string());
    assert_eq!(plain.parts[0].content, " a");
    assert_eq!(plain.total_bytes, 2);
}

#[test]
fn validator_lists_and_tables() {
    let v = GsmValidator::new();
    assert!(v.exists_in_array(7, vec![1, 7, 9]));
    assert!(!v.exists_in_array(8, vec![1, 7, 9]));
    assert!(!v.exists_in_array(8, vec![]));
    assert!(v.validate_message_in_char_codes_list("ab".to_string(), vec![97, 98]));
    assert!(!v.validate_message_in_char_codes_list("abc".to_string(), vec![97, 98]));
    assert!(v.validate_message_in_char_codes_list(String::new(), vec![]));
    // U+1F461 agrees with 'a' in its low sixteen bits, but is not listed.
    assert!(!v.validate_message_in_char_codes_list("\u{1F461}".to_string(), vec![0xF461]));
    assert!(v.validate_extended_character('€'));
    assert!(!v.validate_extended_character('a'));
    assert!(!v.validate_extended_character('Ğ'));
    assert!(v.validate_extended_character_with_shift_table('Ğ'));
    assert!(v.validate_extended_character_with_shift_table('ç'));
    assert!(!v.validate_character('`'));
    assert!(v.validate_character_with_shift_table('`'));
    assert!(v.validate_character_with_shift_table('∞'));
    assert!(!v.validate_character('∞'));
}

#[test]
fn options_and_parts_hold_their_fields() {
    let o = SplitterOptions::new(true, false);
    assert!(o.support_shift_tables);
    assert!(!o.summary);
    let d = SplitterOptions::default();
    assert!(!d.support_shift_tables && !d.summary);
    let p = SplitterPart::new("ab".to_string(), 2, 4);
    assert_eq!((p.content.as_str(), p.length, p.bytes), ("ab", 2, 4));
    let r = SplitSmsResult::new("GSM".to_string(), vec![p.clone()], 4, 2, 9);
    assert_eq!(r.character_set, "GSM");
    assert_eq!(r.parts.len(), 1);
    assert_eq!((r.bytes, r.length, r.remaining_in_part), (4, 2, 9));
}

#[test]
fn summary_has_the_counts_of_the_full_split() {
    let messages = [
        "a".repeat(330),
        format!("{}€{}", "a".repeat(152), "b".repeat(200)),
        format!("{}😀{}", "ж".repeat(66), "ж".repeat(100)),
        "ĞğİıŞş".repeat(40),
    ];
    for m in &messages {
        for shift in [false, true] {
            let full = split(m, shift, false);
            let summary = split(m, shift, true);
            assert_eq!(full.character_set, summary.character_set);
            assert_eq!(full.parts.len(), summary.parts.len());
            for (f, s) in full.parts.iter().zip(summary.parts.iter()) {
                assert_eq!((f.length, f.bytes), (s.length, s.bytes));
                assert_eq!(s.content, "");
            }
            assert_eq!((full.bytes, full.length), (summary.bytes, summary.length));
            assert_eq!(full.remaining_in_part, summary.remaining_in_part);
        }
    }
}
