use rspi_client::keys::{derive_session_key, parse_secret, ConfigError};
use rspi_client::prng::{rng_32, rng_64};

#[test]
fn rng_32_known_values() {
    let mut seed: u64 = 42;
    assert_eq!(rng_32(&mut seed), 0);
    assert_eq!(rng_32(&mut seed), 210066564);
    assert_eq!(rng_32(&mut seed), 1662135343);
    assert_eq!(seed, 5036087167609493049);
}

#[test]
fn rng_32_rotates_high_seed() {
    let mut seed: u64 = 0xDEAD_BEEF_CAFE_BABE;
    assert_eq!(rng_32(&mut seed), 0xb625_129a);
    assert_eq!(seed, 9726146767497535991);
}

#[test]
fn rng_32_same_seed_same_ten_values() {
    for start in [0u64, 1, 42, 0xDEAD_BEEF_CAFE_BABE, u64::MAX] {
        let mut a = start;
        let mut b = start;
        let first: Vec<u32> = (0..10).map(|_| rng_32(&mut a)).collect();
        let second: Vec<u32> = (0..10).map(|_| rng_32(&mut b)).collect();
        assert_eq!(first, second);
        assert_eq!(a, b);
    }
}

#[test]
fn rng_64_joins_two_draws() {
    let mut seed: u64 = 12345;
    assert_eq!(rng_64(&mut seed), 8251198);
    assert_eq!(seed, 559793928442517999);
    let mut s = 12345u64;
    let hi = rng_32(&mut s) as u64;
    let lo = rng_32(&mut s) as u64;
    assert_eq!((hi << 32) | lo, 8251198);
    assert_eq!(seed, s);
}

#[test]
fn parse_secret_accepts_decimal() {
    assert_eq!(parse_secret("0"), Ok(0));
    assert_eq!(parse_secret("+17"), Ok(17));
    assert_eq!(parse_secret("18446744073709551615"), Ok(u64::MAX));
}

#[test]
fn parse_secret_rejects_bad_text() {
    for bad in ["", "+", "-1", "12a", " 5", "18446744073709551616", "99999999999999999999"] {
        assert_eq!(parse_secret(bad), Err(ConfigError::UnparsableSecret), "{}", bad);
    }
}

#[test]
fn session_key_same_bucket() {
    let a = derive_session_key("99", 1_700_000_000).unwrap();
    let b = derive_session_key("99", 1_700_000_004).unwrap();
    assert_eq!(a, b);
    assert_eq!(a, 12266771411);
}

#[test]
fn session_key_next_bucket_differs() {
    let a = derive_session_key("99", 1_700_000_000).unwrap();
    let b = derive_session_key("99", 1_700_000_005).unwrap();
    assert_ne!(a, b);
    assert_eq!(b, 11077101668);
}

#[test]
fn session_key_bad_secret() {
    assert_eq!(derive_session_key("abc", 1_700_000_000), Err(ConfigError::UnparsableSecret));
}

#[test]
fn rng_64_high_half_from_high_seed() {
    let mut seed: u64 = 0xDEAD_BEEF_CAFE_BABE;
    assert_eq!(rng_64(&mut seed), 13124917145590161218);
    assert_eq!(rng_64(&mut 0xDEAD_BEEF_CAFE_BABE) >> 32, 0xb625_129a);
    assert_eq!(seed, 13572337372553514492);
}
