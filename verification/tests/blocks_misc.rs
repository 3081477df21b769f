use logic_mesh::clock::{current_time_millis, millis_or_zero};
use logic_mesh::ids::{format_id, new_id, parse_id};
use logic_mesh::inputs::{drain_outcome, InputEvent};
use logic_mesh::misc::{parse_bool, parse_bool_keyword, push_sample, random_in_range};
use logic_mesh::pins::Status;
use logic_mesh::strings::{concat_texts, replace_text, utf8_len};

#[test]
fn test_concat() {
    let mut values: Vec<Option<String>> = vec![None; 16];
    values[0] = Some("first ".to_string());
    values[1] = Some("last".to_string());
    assert_eq!(concat_texts(&values), Some("first last".to_string()));
}

#[test]
fn concat_skips_inputs_without_text() {
    let values = vec![Some("Hello".to_string()), None, Some(" World".to_string())];
    assert_eq!(concat_texts(&values), Some("Hello World".to_string()));
}

#[test]
fn concat_without_texts_gives_nothing() {
    assert_eq!(concat_texts(&vec![]), None);
    assert_eq!(concat_texts(&vec![None, None]), None);
    assert_eq!(concat_texts(&vec![None, Some(String::new())]), Some(String::new()));
}

#[test]
fn test_replace() {
    assert_eq!(replace_text("ana are mere", "ana", "ile"), "ile are mere");
    assert_eq!(replace_text("Hello World", "World", "Rust"), "Hello Rust");
}

#[test]
fn replace_takes_non_overlapping_matches_from_the_left() {
    assert_eq!(replace_text("aaaa", "aa", "b"), "bb");
    assert_eq!(replace_text("aaa", "aa", "b"), "ba");
    assert_eq!(replace_text("abcabc", "bc", ""), "aa");
    assert_eq!(replace_text("no match", "xyz", "!"), "no match");
    assert_eq!(replace_text("", "a", "b"), "");
}

#[test]
fn replace_with_an_empty_pattern_interleaves() {
    assert_eq!(replace_text("abc", "", "-"), "-a-b-c-");
    assert_eq!(replace_text("", "", "x"), "x");
    assert_eq!("abc".replace("", "-"), replace_text("abc", "", "-"));
}

#[test]
fn replace_handles_multibyte_text() {
    assert_eq!(replace_text("héllo wörld", "ö", "o"), "héllo world");
    assert_eq!(replace_text("日本語", "本", "-"), "日-語");
}

#[test]
fn string_length_counts_utf8_bytes() {
    assert_eq!(utf8_len("hello"), 5);
    assert_eq!(utf8_len(""), 0);
    assert_eq!(utf8_len("é"), 2);
    assert_eq!(utf8_len("日本"), 6);
}

#[test]
fn parse_true() {
    assert_eq!(parse_bool("true"), Some(true));
    assert_eq!(parse_bool("T"), Some(true));
}

#[test]
fn parse_false() {
    assert_eq!(parse_bool("false"), Some(false));
    assert_eq!(parse_bool("F"), Some(false));
}

#[test]
fn parse_bool_rejects_other_text() {
    assert_eq!(parse_bool("maybe"), None);
    assert_eq!(parse_bool("42"), None);
    assert_eq!(parse_bool_keyword("True"), None);
    assert_eq!(parse_bool_keyword("true"), Some(true));
    assert_eq!(parse_bool_keyword("false"), Some(false));
}

#[test]
fn random_stays_in_its_range() {
    for _ in 0..200 {
        let v = random_in_range(-5, 5).expect("usable range");
        assert!((-5..5).contains(&v));
    }
    assert_eq!(random_in_range(7, 8), Ok(7));
}

#[test]
fn random_rejects_empty_and_reversed_ranges() {
    assert_eq!(random_in_range(10, 1), Err("Random: min > max".to_string()));
    assert_eq!(random_in_range(3, 3), Err("Random: min == max".to_string()));
}

#[test]
fn ids_round_trip_through_text() {
    let id = new_id();
    let text = format_id(id);
    assert_eq!(text.len(), 36);
    assert_eq!(parse_id(&text), Some(id));
    assert_eq!(
        format_id(0x0123_4567_89ab_cdef_0123_4567_89ab_cdef),
        "01234567-89ab-cdef-0123-456789abcdef"
    );
    assert_eq!(
        parse_id("01234567-89ab-cdef-0123-456789abcdef"),
        Some(0x0123_4567_89ab_cdef_0123_4567_89ab_cdef)
    );
    assert_eq!(parse_id("not a uuid"), None);
    assert_ne!(new_id(), new_id());
}

#[test]
fn clock_reads_after_2020() {
    let ms = current_time_millis();
    assert!(ms > 1_577_836_800_000);
}

#[test]
fn drain_reports_the_last_delivering_input() {
    let events = vec![
        InputEvent::Delivered { input: "a".to_string(), status: Status::Good },
        InputEvent::Idle,
        InputEvent::Delivered { input: "c".to_string(), status: Status::Good },
        InputEvent::Idle,
    ];
    let out = drain_outcome(&events);
    assert_eq!(out.last_index, Some(2));
    assert_eq!(out.fault, None);
    assert_eq!(drain_outcome(&vec![InputEvent::Idle]).last_index, None);
}

#[test]
fn drain_prefers_a_conversion_fault_to_an_upstream_one() {
    let events = vec![
        InputEvent::Delivered { input: "a".to_string(), status: Status::Fault },
        InputEvent::ConversionFailed { input: "b".to_string(), error: "bad".to_string() },
        InputEvent::ConversionFailed { input: "c".to_string(), error: "worse".to_string() },
    ];
    let out = drain_outcome(&events);
    assert_eq!(out.fault, Some("type conversion failed on input b: bad".to_string()));
    assert_eq!(out.last_index, Some(0));

    let events = vec![
        InputEvent::Delivered { input: "x".to_string(), status: Status::Good },
        InputEvent::Delivered { input: "y".to_string(), status: Status::Fault },
    ];
    assert_eq!(
        drain_outcome(&events).fault,
        Some("upstream fault on input y".to_string())
    );
}

#[test]
fn moving_average_window_drops_oldest() {
    let mut samples: Vec<i32> = Vec::new();
    push_sample(&mut samples, 1, 2);
    push_sample(&mut samples, 2, 2);
    push_sample(&mut samples, 3, 2);
    assert_eq!(samples, vec![2, 3]);
    push_sample(&mut samples, 4, 0);
    assert_eq!(samples, vec![4]);
    push_sample(&mut samples, 5, 5);
    assert_eq!(samples, vec![4, 5]);
}

#[test]
fn replacing_a_text_by_itself_changes_nothing() {
    for s in ["", "abc", "aaa", "a-b-a"] {
        for p in ["", "a", "ab", "zz"] {
            assert_eq!(replace_text(s, p, p), s);
        }
    }
}

#[test]
fn clock_reading_is_taken_modulo_two_to_the_64() {
    assert_eq!(millis_or_zero(None), 0);
    assert_eq!(millis_or_zero(Some(1_700_000_000_123)), 1_700_000_000_123);
    assert_eq!(millis_or_zero(Some((1u128 << 64) + 5)), 5);
}
