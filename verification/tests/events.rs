use std::time::{SystemTime, UNIX_EPOCH};

use harness_cli::{
    encode_ulid, fnv1a64, fnv1a64_continue, genesis_ulid, mint_ulid, rfc3339_from_unix,
    unix_from_sqlite_datetime, UlidMinter,
};

const CROCKFORD: &[u8; 32] = b"0123456789ABCDEFGHJKMNPQRSTVWXYZ";

fn now_ms() -> u64 {
    SystemTime::now()
        .duration_since(UNIX_EPOCH)
        .map(|duration| duration.as_millis() as u64)
        .unwrap_or(0)
}

#[test]
fn ulid_is_26_crockford_chars() {
    let mut minter = UlidMinter::new();
    let ulid = mint_ulid(&mut minter, now_ms(), 0x1234_5678_9abc_def0, 0xbeef);
    assert_eq!(ulid.len(), 26);
    assert!(ulid.bytes().all(|byte| CROCKFORD.contains(&byte)));
}

#[test]
fn ulids_are_monotonic_within_a_process() {
    let mut minter = UlidMinter::new();
    let mut seed: u64 = 0x9e37_79b9_7f4a_7c15;
    let mut fresh = || {
        seed = seed.wrapping_mul(6364136223846793005).wrapping_add(1442695040888963407);
        (seed, (seed >> 48) as u16)
    };
    let (hi, lo) = fresh();
    let mut previous = mint_ulid(&mut minter, now_ms(), hi, lo);
    for _ in 0..1_000 {
        let (hi, lo) = fresh();
        let next = mint_ulid(&mut minter, now_ms(), hi, lo);
        assert!(next > previous, "{next} !> {previous}");
        previous = next;
    }
}

#[test]
fn ulid_orders_by_timestamp_across_milliseconds() {
    let earlier = encode_ulid(1_000, u64::MAX, u16::MAX);
    let later = encode_ulid(1_001, 0, 0);
    assert!(later > earlier);
}

#[test]
fn sqlite_datetime_roundtrips_through_unix() {
    let unix = unix_from_sqlite_datetime("2026-07-02 04:00:00").unwrap();
    assert_eq!(rfc3339_from_unix(unix), "2026-07-02T04:00:00Z");
    assert_eq!(unix_from_sqlite_datetime("1970-01-01 00:00:00"), Some(0));
}

#[test]
fn genesis_ulids_are_deterministic_and_time_ordered() {
    let a1 = genesis_ulid(1_000, "intake", "1");
    let a2 = genesis_ulid(1_000, "intake", "1");
    let b = genesis_ulid(1_000, "intake", "2");
    let later = genesis_ulid(2_000, "intake", "1");
    assert_eq!(a1, a2);
    assert_ne!(a1, b);
    assert!(later > a1);
    assert_eq!(a1.len(), 26);
}

#[test]
fn rfc3339_matches_known_instant() {
    // 2026-07-02T04:00:00Z
    assert_eq!(rfc3339_from_unix(1_782_964_800), "2026-07-02T04:00:00Z");
    assert_eq!(rfc3339_from_unix(0), "1970-01-01T00:00:00Z");
}

#[test]
fn fnv_continue_matches_whole_input() {
    let whole = fnv1a64(b"hello world");
    let split = fnv1a64_continue(fnv1a64(b"hello "), b"world");
    assert_eq!(whole, split);
}

#[test]
fn fnv1a64_is_stable() {
    // Pinned so writer prefixes never drift across releases.
    assert_eq!(fnv1a64(b""), 0xcbf2_9ce4_8422_2325);
    assert_eq!(format!("{:016x}", fnv1a64(b"a@b.c")), "92cc491485c90b75");
}

#[test]
fn ulid_text_orders_and_identifies_its_parts() {
    let parts: [(u64, u64, u16); 6] = [
        (0, 0, 0),
        (0, 0, 1),
        (0, 1, 0),
        (1_782_964_800_000, u64::MAX, u16::MAX),
        (1_782_964_800_001, 0, 0),
        ((1 << 48) - 1, 7, 9),
    ];
    for a in parts {
        for b in parts {
            let (x, y) = (encode_ulid(a.0, a.1, a.2), encode_ulid(b.0, b.1, b.2));
            assert_eq!(x.len(), 26);
            assert_eq!(x < y, a < b, "{x} {y}");
            assert_eq!(x == y, a == b);
            assert_eq!(x[..10] == y[..10], a.0 == b.0);
        }
        assert_eq!(encode_ulid(a.0, a.1, a.2)[..10], encode_ulid(a.0, 0, 0)[..10]);
    }
    assert_eq!(genesis_ulid(2_000, "intake", "1")[..10], encode_ulid(2_000, 0, 0)[..10]);
    assert!(genesis_ulid(2_000, "intake", "1") > genesis_ulid(1_000, "story", "9"));
}

#[test]
fn rfc3339_text_has_one_shape_and_sorts_as_time() {
    let seconds = [0i64, 1, 59, 60, 3_599, 3_600, 86_399, 86_400, 951_782_400, 1_782_964_800, 253_402_300_799];
    for t in seconds {
        let text = rfc3339_from_unix(t);
        assert_eq!(text.len(), 20);
        for (i, c) in text.chars().enumerate() {
            match i {
                4 | 7 => assert_eq!(c, '-'),
                10 => assert_eq!(c, 'T'),
                13 | 16 => assert_eq!(c, ':'),
                19 => assert_eq!(c, 'Z'),
                _ => assert!(c.is_ascii_digit(), "{text}"),
            }
        }
    }
    for pair in seconds.windows(2) {
        assert!(rfc3339_from_unix(pair[0]) < rfc3339_from_unix(pair[1]));
    }
    assert_eq!(rfc3339_from_unix(253_402_300_799), "9999-12-31T23:59:59Z");
    assert_eq!(rfc3339_from_unix(-1), "1969-12-31T23:59:59Z");
}

#[test]
fn minted_ulids_are_distinct_and_ordered_even_when_the_clock_stalls() {
    let mut minter = UlidMinter::new();
    let clock: [(u64, u64, u16); 6] =
        [(5_000, 9, u16::MAX), (5_000, 1, 1), (4_000, 0, 0), (6_000, 3, 3), (6_000, 0, 0), (1, 0, 0)];
    let ids: Vec<String> = clock.iter().map(|&(now, hi, lo)| mint_ulid(&mut minter, now, hi, lo)).collect();
    for i in 0..ids.len() {
        for j in i + 1..ids.len() {
            assert!(ids[i] < ids[j], "{} {}", ids[i], ids[j]);
        }
    }
}
