use baihu::pairing::{
    code_from_draw, constant_time_eq, is_public_bind, lockout_remaining, six_digit_code, PairingGuard,
    MAX_PAIR_ATTEMPTS, PAIR_LOCKOUT_SECS,
};

#[test]
fn new_guard_generates_code_when_no_tokens() {
    let guard = PairingGuard::new(true, &[]);
    assert!(guard.pairing_code().is_some());
    assert!(!guard.is_paired());
}

#[test]
fn new_guard_no_code_when_tokens_exist() {
    let guard = PairingGuard::new(true, &["bh_existing".into()]);
    assert!(guard.pairing_code().is_none());
    assert!(guard.is_paired());
}

#[test]
fn new_guard_no_code_when_pairing_disabled() {
    let guard = PairingGuard::new(false, &[]);
    assert!(guard.pairing_code().is_none());
}

#[test]
fn try_pair_correct_code() {
    let mut guard = PairingGuard::new(true, &[]);
    let code = guard.pairing_code().unwrap().to_string();
    let token = guard.try_pair(&code).unwrap();
    assert!(token.is_some());
    assert!(token.unwrap().starts_with("bh_"));
    assert!(guard.is_paired());
}

#[test]
fn try_pair_wrong_code() {
    let mut guard = PairingGuard::new(true, &[]);
    let result = guard.try_pair("000000").unwrap();
    let _ = result;
}

#[test]
fn try_pair_empty_code() {
    let mut guard = PairingGuard::new(true, &[]);
    assert!(guard.try_pair("").unwrap().is_none());
}

#[test]
fn try_pair_trims_whitespace() {
    let mut guard = PairingGuard::new(true, &[]);
    let code = format!("  {}\n", guard.pairing_code().unwrap());
    assert!(guard.try_pair(&code).unwrap().is_some());
}

#[test]
fn is_authenticated_with_valid_token() {
    let guard = PairingGuard::new(true, &["bh_valid".into()]);
    assert!(guard.is_authenticated("bh_valid"));
}

#[test]
fn is_authenticated_with_invalid_token() {
    let guard = PairingGuard::new(true, &["bh_valid".into()]);
    assert!(!guard.is_authenticated("bh_invalid"));
}

#[test]
fn is_authenticated_when_pairing_disabled() {
    let guard = PairingGuard::new(false, &[]);
    assert!(guard.is_authenticated("anything"));
    assert!(guard.is_authenticated(""));
}

#[test]
fn tokens_returns_all_paired() {
    let guard = PairingGuard::new(true, &["a".into(), "b".into()]);
    let mut tokens = guard.tokens();
    tokens.sort();
    assert_eq!(tokens, vec!["a", "b"]);
}

#[test]
fn pair_then_authenticate() {
    let mut guard = PairingGuard::new(true, &[]);
    let code = guard.pairing_code().unwrap().to_string();
    let token = guard.try_pair(&code).unwrap().unwrap();
    assert!(guard.is_authenticated(&token));
    assert!(!guard.is_authenticated("wrong"));
}

#[test]
fn localhost_variants_not_public() {
    assert!(!is_public_bind("127.0.0.1"));
    assert!(!is_public_bind("localhost"));
    assert!(!is_public_bind("::1"));
    assert!(!is_public_bind("[::1]"));
}

#[test]
fn full_loopback_v6_not_public() {
    assert!(!is_public_bind("0:0:0:0:0:0:0:1"));
}

#[test]
fn zero_zero_is_public() {
    assert!(is_public_bind("0.0.0.0"));
}

#[test]
fn real_ip_is_public() {
    assert!(is_public_bind("192.168.1.100"));
    assert!(is_public_bind("10.0.0.1"));
}

#[test]
fn constant_time_eq_same() {
    assert!(constant_time_eq("abc", "abc"));
    assert!(constant_time_eq("", ""));
}

#[test]
fn constant_time_eq_different() {
    assert!(!constant_time_eq("abc", "abd"));
    assert!(!constant_time_eq("abc", "ab"));
    assert!(!constant_time_eq("a", ""));
}

#[test]
fn constant_time_eq_different_lengths() {
    assert!(!constant_time_eq("short", "longer_string"));
    assert!(!constant_time_eq("longer_string", "short"));
    assert!(!constant_time_eq("", "notempty"));
    assert!(!constant_time_eq("notempty", ""));
}

#[test]
fn constant_time_eq_both_empty() {
    assert!(constant_time_eq("", ""));
}

#[test]
fn constant_time_eq_length_multiple_of_256() {
    let zeros = "\0".repeat(256);
    assert!(!constant_time_eq("", &zeros));
    assert!(!constant_time_eq(&zeros, ""));
}

#[test]
fn generate_code_is_6_digits() {
    let guard = PairingGuard::new(true, &[]);
    let code = guard.pairing_code().unwrap();
    assert_eq!(code.len(), 6);
    assert!(code.chars().all(|c| c.is_ascii_digit()));
}

#[test]
fn generate_code_is_not_deterministic() {
    for _ in 0..10 {
        let a = PairingGuard::new(true, &[]);
        let b = PairingGuard::new(true, &[]);
        if a.pairing_code() != b.pairing_code() {
            return;
        }
    }
    panic!("Generated 10 pairs of codes and all were collisions — CSPRNG failure");
}

#[test]
fn generate_token_has_prefix() {
    for _ in 0..10 {
        let mut guard = PairingGuard::new(true, &[]);
        let code = guard.pairing_code().unwrap().to_string();
        let token = guard.try_pair(&code).unwrap().unwrap();
        assert!(token.starts_with("bh_"));
        assert!(token.len() > 10);
    }
}

#[test]
fn codes_from_draws() {
    assert_eq!(code_from_draw(0).unwrap(), "000000");
    assert_eq!(code_from_draw(42).unwrap(), "000042");
    assert_eq!(code_from_draw(1_234_567).unwrap(), "234567");
    assert_eq!(code_from_draw(4_293_999_999).unwrap(), "999999");
    assert!(code_from_draw(4_294_000_000).is_none());
    assert!(code_from_draw(u32::MAX).is_none());
    assert_eq!(six_digit_code(7), "000007");
}

#[test]
fn code_distribution_is_even() {
    let mut counts = [0u32; 10];
    let n = 20_000;
    for _ in 0..n {
        let guard = PairingGuard::new(true, &[]);
        let first = guard.pairing_code().unwrap().as_bytes()[0] - b'0';
        counts[first as usize] += 1;
    }
    for c in counts {
        assert!(c > 1_600 && c < 2_400, "leading digit count {c} out of range");
    }
}

#[test]
fn brute_force_lockout_after_max_attempts() {
    let mut guard = PairingGuard::new(true, &[]);
    for i in 0..MAX_PAIR_ATTEMPTS {
        let result = guard.try_pair(&format!("wrong_{i}"));
        assert!(result.is_ok(), "Attempt {i} should not be locked out yet");
    }
    let result = guard.try_pair("another_wrong");
    assert!(result.is_err(), "Should be locked out after {MAX_PAIR_ATTEMPTS} attempts");
    let lockout_secs = result.unwrap_err();
    assert!(lockout_secs > 0, "Lockout should have remaining seconds");
    assert!(lockout_secs <= PAIR_LOCKOUT_SECS, "Lockout should not exceed max");
}

#[test]
fn correct_code_resets_failed_attempts() {
    let mut guard = PairingGuard::new(true, &[]);
    let code = guard.pairing_code().unwrap().to_string();
    for _ in 0..3 {
        let _ = guard.try_pair("wrong");
    }
    let result = guard.try_pair(&code).unwrap();
    assert!(result.is_some(), "Correct code should work before lockout");
}

#[test]
fn lockout_returns_remaining_seconds() {
    let mut guard = PairingGuard::new(true, &[]);
    for _ in 0..MAX_PAIR_ATTEMPTS {
        let _ = guard.try_pair("wrong");
    }
    let err = guard.try_pair("wrong").unwrap_err();
    assert!(
        err >= PAIR_LOCKOUT_SECS - 1,
        "Remaining lockout should be ~{PAIR_LOCKOUT_SECS}s, got {err}s"
    );
}

#[test]
fn lockout_blocks_even_the_right_code() {
    let mut guard = PairingGuard::new(true, &[]);
    let code = guard.pairing_code().unwrap().to_string();
    for _ in 0..MAX_PAIR_ATTEMPTS {
        let _ = guard.try_pair("wrong");
    }
    assert!(guard.try_pair(&code).is_err());
    assert!(!guard.is_paired());
}

#[test]
fn lockout_remaining_values() {
    assert_eq!(lockout_remaining(5, Some(0)), Some(300));
    assert_eq!(lockout_remaining(5, Some(1)), Some(299));
    assert_eq!(lockout_remaining(5, Some(299)), Some(1));
    assert_eq!(lockout_remaining(5, Some(300)), None);
    assert_eq!(lockout_remaining(4, Some(0)), None);
    assert_eq!(lockout_remaining(9, None), None);
}
