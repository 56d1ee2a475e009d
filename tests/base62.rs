use labrinth::base62::{parse_base62, to_base62, DecodeError};
use labrinth::ids::{contains_id, generate_id, pick, MAX_ID};

#[test]
fn encodes_known_values() {
    assert_eq!(to_base62(0), "");
    assert_eq!(to_base62(61), "z");
    assert_eq!(to_base62(62), "10");
    assert_eq!(to_base62(100), "1c");
    assert_eq!(to_base62(u64::MAX), "LygHa16AHYF");
}

#[test]
fn decodes_known_values() {
    assert_eq!(parse_base62("1c"), Ok(100));
    assert_eq!(parse_base62("LygHa16AHYF"), Ok(u64::MAX));
    assert_eq!(parse_base62(""), Ok(0));
}

#[test]
fn round_trips_sample_values() {
    for x in [0u64, 1, 61, 62, 3843, 3844, 123456789, MAX_ID, u64::MAX - 1, u64::MAX] {
        assert_eq!(parse_base62(&to_base62(x)), Ok(x));
    }
}

#[test]
fn rejects_characters_outside_alphabet() {
    assert_eq!(parse_base62("ab-c"), Err(DecodeError::InvalidBase62('-')));
    assert_eq!(parse_base62("mod_1"), Err(DecodeError::InvalidBase62('_')));
}

#[test]
fn rejects_numbers_out_of_range() {
    assert_eq!(parse_base62("LygHa16AHYG"), Err(DecodeError::NumberOutOfRange));
    assert_eq!(parse_base62("zzzzzzzzzzzz"), Err(DecodeError::NumberOutOfRange));
}

#[test]
fn overflow_before_bad_character_reports_overflow() {
    assert_eq!(parse_base62("zzzzzzzzzzzz!"), Err(DecodeError::NumberOutOfRange));
}

#[test]
fn generated_ids_are_fresh_and_in_range() {
    let mut taken: Vec<u64> = Vec::new();
    for _ in 0..50 {
        let id = generate_id(&taken).unwrap();
        assert!(id <= MAX_ID);
        assert!(!contains_id(&taken, id));
        taken.push(id);
    }
}

#[test]
fn first_draw_on_nothing_taken_succeeds() {
    assert!(generate_id(&Vec::new()).is_ok());
}

#[test]
fn pick_halves_draw_and_avoids_taken() {
    assert_eq!(pick(&vec![1, 2], 10), Some(5));
    assert_eq!(pick(&vec![5], 10), None);
    assert_eq!(pick(&Vec::new(), u64::MAX), Some(MAX_ID));
}
