use rc4_keysearch::attack::{brute_force_search, capture_ciphertext, run_attack};
use rc4_keysearch::cipher::rc4;
use rc4_keysearch::error::Error;
use rc4_keysearch::keyspace::{attack_key, key_bytes, search_base};
use rc4_keysearch::search::{find_key, SearchOutcome};

const KEY: u128 = 0x0123456789abcdef0123456789abcdef;
const TEXT: &[u8] = b"The quick brown fox";

fn hex(s: &str) -> Vec<u8> {
    (0..s.len() / 2).map(|i| u8::from_str_radix(&s[2 * i..2 * i + 2], 16).unwrap()).collect()
}

#[test]
fn capture_ciphertext_exact_values() {
    assert_eq!(
        capture_ciphertext(TEXT, KEY, 0),
        Ok(hex("20fca7c7613e611a666bb7215df870dcfd7590"))
    );
    assert_eq!(
        capture_ciphertext(TEXT, KEY, 8),
        Ok(hex("8702fa48b875f2552160dccf88fc7fdbfec7cc"))
    );
    assert_eq!(
        capture_ciphertext(TEXT, KEY, 10),
        Ok(hex("c78da45cb0122d07d16e871b76e019ffd17e8d"))
    );
}

#[test]
fn capture_ciphertext_encrypts_under_the_attack_key() {
    for bits in [0u32, 1, 7, 64, 128] {
        let key = attack_key(KEY, bits).unwrap();
        assert_eq!(capture_ciphertext(TEXT, KEY, bits), Ok(rc4(TEXT, &key_bytes(key))));
    }
}

#[test]
fn capture_ciphertext_refuses_a_width_above_128() {
    assert_eq!(capture_ciphertext(TEXT, KEY, 129), Err(Error::BitCountOutOfRange));
}

#[test]
fn fully_known_key_is_found_in_one_iteration() {
    let ciphertext = capture_ciphertext(TEXT, KEY, 0).unwrap();
    let outcome = find_key(&ciphertext, TEXT, KEY, 0).unwrap();
    assert_eq!(outcome, SearchOutcome { key: KEY, index: 0 });
    assert_eq!(outcome.iteration_count(), Some(1));
}

#[test]
fn fully_known_wrong_key_is_no_match() {
    let ciphertext = capture_ciphertext(TEXT, KEY, 0).unwrap();
    assert_eq!(find_key(&ciphertext, TEXT, KEY ^ 1, 0), Err(Error::NoMatch));
}

#[test]
fn search_recovers_the_attack_key() {
    for (bits, key, count) in [
        (1u32, 0x0123456789abcdef0123456789abcdef_u128, 2u128),
        (4, 0x0123456789abcdef0123456789abcdef, 16),
        (8, 0x0123456789abcdef0123456789abcdff, 256),
        (10, 0x0123456789abcdef0123456789abcfff, 1024),
    ] {
        let ciphertext = capture_ciphertext(TEXT, KEY, bits).unwrap();
        let base = search_base(KEY, bits).unwrap();
        let outcome = find_key(&ciphertext, TEXT, base, bits).unwrap();
        assert_eq!(outcome.key, key);
        assert_eq!(outcome.key, attack_key(KEY, bits).unwrap());
        assert_eq!(outcome.index, count - 1);
        assert_eq!(outcome.iteration_count(), Some(count));
        assert!(count <= 1u128 << bits);
    }
}

#[test]
fn search_disregards_the_low_bits_of_the_known_key() {
    let ciphertext = capture_ciphertext(TEXT, KEY, 8).unwrap();
    let from_base = find_key(&ciphertext, TEXT, KEY & !0xff, 8);
    let from_key = find_key(&ciphertext, TEXT, KEY, 8);
    let from_last = find_key(&ciphertext, TEXT, KEY | 0xff, 8);
    assert_eq!(from_base, from_key);
    assert_eq!(from_base, from_last);
}

#[test]
fn search_stops_at_a_key_in_the_middle_of_the_space() {
    let target = (KEY & !0xff) | 0x5a;
    let ciphertext = rc4(TEXT, &key_bytes(target));
    assert_eq!(
        find_key(&ciphertext, TEXT, KEY, 8),
        Ok(SearchOutcome { key: target, index: 90 })
    );
}

#[test]
fn search_cost_is_the_whole_space_for_every_true_key() {
    // The ciphertext is made with the unknown bits all set, so the key sought
    // is the last candidate whatever the true key.
    let keys: [u128; 4] = [
        0xcd613e30d8f16adf91b7584a2265b1f5,
        0x1e2feb89414c343c1027c4d1c386bbc4,
        0x78e510617311d8a3c2ce6f447ed4d57b,
        0x35bf992dc9e9c616612e7696a6cecc1b,
    ];
    let mut total: u128 = 0;
    for key in keys {
        let ciphertext = capture_ciphertext(TEXT, key, 6).unwrap();
        let outcome = find_key(&ciphertext, TEXT, key, 6).unwrap();
        assert_eq!(outcome.index, 63);
        total += outcome.iteration_count().unwrap();
    }
    assert_eq!(total / 4, 64);
}

#[test]
fn search_cost_averages_half_the_space_over_all_targets() {
    let bits = 5u32;
    let base = search_base(KEY, bits).unwrap();
    let mut total: u128 = 0;
    for offset in 0..32u128 {
        let ciphertext = rc4(TEXT, &key_bytes(base | offset));
        let outcome = find_key(&ciphertext, TEXT, KEY, bits).unwrap();
        assert_eq!(outcome, SearchOutcome { key: base | offset, index: offset });
        total += outcome.iteration_count().unwrap();
    }
    // (1 + 2 + ... + 32) / 32 = 16.5: half of the space of 32, not all of it.
    assert_eq!(total, 528);
    let average = total as f64 / 32.0;
    assert!(average > 16.0 && average < 17.0);
}

#[test]
fn search_without_a_matching_key_reports_no_match() {
    let outside = KEY ^ (1u128 << 100);
    let ciphertext = rc4(TEXT, &key_bytes(outside));
    assert_eq!(find_key(&ciphertext, TEXT, KEY, 6), Err(Error::NoMatch));
}

#[test]
fn search_refuses_a_width_above_128() {
    let ciphertext = capture_ciphertext(TEXT, KEY, 4).unwrap();
    assert_eq!(find_key(&ciphertext, TEXT, KEY, 129), Err(Error::BitCountOutOfRange));
    assert_eq!(find_key(&ciphertext, TEXT, KEY, u32::MAX), Err(Error::BitCountOutOfRange));
}

#[test]
fn search_refuses_texts_of_different_lengths() {
    let ciphertext = capture_ciphertext(TEXT, KEY, 4).unwrap();
    assert_eq!(find_key(&ciphertext[1..], TEXT, KEY, 4), Err(Error::LengthMismatch));
    assert_eq!(find_key(&ciphertext, &TEXT[1..], KEY, 4), Err(Error::LengthMismatch));
    assert_eq!(find_key(&[], TEXT, KEY, 4), Err(Error::LengthMismatch));
}

#[test]
fn width_is_checked_before_the_lengths() {
    assert_eq!(find_key(&[1, 2], &[1], KEY, 200), Err(Error::BitCountOutOfRange));
}

#[test]
fn empty_texts_match_the_first_candidate() {
    assert_eq!(
        find_key(&[], &[], KEY, 8),
        Ok(SearchOutcome { key: KEY & !0xff, index: 0 })
    );
}

#[test]
fn short_text_may_match_before_the_attack_key() {
    let ciphertext = capture_ciphertext(b"A", KEY, 8).unwrap();
    assert_eq!(ciphertext, vec![0x92]);
    let outcome = find_key(&ciphertext, b"A", KEY, 8).unwrap();
    assert_eq!(outcome, SearchOutcome { key: (KEY & !0xff) | 174, index: 174 });
    assert_eq!(rc4(&ciphertext, &key_bytes(outcome.key)), b"A".to_vec());
}

#[test]
fn full_width_search_starts_at_zero() {
    let ciphertext = rc4(TEXT, &key_bytes(5));
    assert_eq!(ciphertext, hex("1a4a803e4901a3b81a53a2127366930d959a41"));
    assert_eq!(
        find_key(&ciphertext, TEXT, KEY, 128),
        Ok(SearchOutcome { key: 5, index: 5 })
    );
}

#[test]
fn iteration_count_is_index_plus_one() {
    assert_eq!(SearchOutcome { key: 0, index: 0 }.iteration_count(), Some(1));
    assert_eq!(SearchOutcome { key: 9, index: 41 }.iteration_count(), Some(42));
    assert_eq!(
        SearchOutcome { key: 0, index: u128::MAX - 1 }.iteration_count(),
        Some(u128::MAX)
    );
}

#[test]
fn iteration_count_of_the_whole_full_width_space_does_not_fit() {
    assert_eq!(SearchOutcome { key: u128::MAX, index: u128::MAX }.iteration_count(), None);
}

#[test]
fn timed_search_reports_what_the_search_finds() {
    let ciphertext = capture_ciphertext(TEXT, KEY, 8).unwrap();
    let report = brute_force_search(&ciphertext, TEXT, KEY, 8).unwrap();
    assert_eq!(Ok(report.outcome), find_key(&ciphertext, TEXT, KEY, 8));
    assert_eq!(report.outcome.index, 255);
    assert!(report.elapsed.as_secs() < 20);
}

#[test]
fn timed_search_hands_on_the_errors() {
    let ciphertext = capture_ciphertext(TEXT, KEY, 4).unwrap();
    assert_eq!(
        brute_force_search(&ciphertext, TEXT, KEY, 129).map(|r| r.outcome),
        Err(Error::BitCountOutOfRange)
    );
    assert_eq!(
        brute_force_search(&ciphertext, &TEXT[1..], KEY, 4).map(|r| r.outcome),
        Err(Error::LengthMismatch)
    );
    assert_eq!(
        brute_force_search(&ciphertext, TEXT, KEY ^ (1u128 << 100), 4).map(|r| r.outcome),
        Err(Error::NoMatch)
    );
}

#[test]
fn run_attack_recovers_the_attack_key() {
    let report = run_attack(TEXT, KEY, 10).unwrap();
    assert_eq!(
        report.outcome,
        SearchOutcome { key: 0x0123456789abcdef0123456789abcfff, index: 1023 }
    );
    assert_eq!(report.outcome.iteration_count(), Some(1024));
}

#[test]
fn run_attack_with_no_unknown_bit_takes_one_iteration() {
    let report = run_attack(TEXT, KEY, 0).unwrap();
    assert_eq!(report.outcome, SearchOutcome { key: KEY, index: 0 });
    assert_eq!(report.outcome.iteration_count(), Some(1));
}

#[test]
fn run_attack_on_empty_plaintext_stops_at_the_base() {
    let report = run_attack(b"", KEY, 8).unwrap();
    assert_eq!(report.outcome, SearchOutcome { key: KEY & !0xff, index: 0 });
}

#[test]
fn run_attack_refuses_a_width_above_128() {
    assert_eq!(run_attack(TEXT, KEY, 129).map(|r| r.outcome), Err(Error::BitCountOutOfRange));
}
