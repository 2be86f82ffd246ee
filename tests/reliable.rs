use baihu::backoff::{apply_jitter, jitter_from};
use baihu::reliable::{CallStep, ReliableProvider};

struct MockProvider {
    calls: usize,
    fail_until_attempt: usize,
    response: &'static str,
    error: &'static str,
}

impl MockProvider {
    fn new(fail_until_attempt: usize, response: &'static str, error: &'static str) -> Self {
        MockProvider { calls: 0, fail_until_attempt, response, error }
    }

    fn call(&mut self) -> Result<String, String> {
        self.calls += 1;
        if self.calls <= self.fail_until_attempt {
            Err(self.error.to_string())
        } else {
            Ok(self.response.to_string())
        }
    }
}

fn chain(providers: &[(&str, &MockProvider)], max_retries: u32, base_backoff_ms: u64) -> ReliableProvider {
    ReliableProvider::new(providers.iter().map(|(n, _)| n.to_string()).collect(), max_retries, base_backoff_ms)
}

/// Runs one call to the end, without sleeping between attempts.
fn drive(rp: &mut ReliableProvider, providers: &mut [MockProvider], message: &str, model: &str) -> Result<String, String> {
    let (mut st, mut step) = rp.begin(message, model);
    loop {
        match step {
            CallStep::Done(r) => return r,
            CallStep::Invoke { provider, .. } => match providers[provider].call() {
                Ok(reply) => return Ok(rp.on_success(&st, reply)),
                Err(e) => step = rp.on_failure(&mut st, &e),
            },
        }
    }
}

#[test]
fn cache_returns_same_response() {
    let mut ps = vec![MockProvider::new(0, "cached_result", "boom")];
    let mut rp = chain(&[("primary", &ps[0])], 0, 1);
    let r1 = drive(&mut rp, &mut ps, "hello", "test").unwrap();
    let r2 = drive(&mut rp, &mut ps, "hello", "test").unwrap();
    assert_eq!(r1, "cached_result");
    assert_eq!(r2, "cached_result");
    assert_eq!(ps[0].calls, 1);
}

#[test]
fn cache_is_per_message_and_model() {
    let mut ps = vec![MockProvider::new(0, "r", "boom")];
    let mut rp = chain(&[("primary", &ps[0])], 0, 1);
    drive(&mut rp, &mut ps, "hello", "gpt-4").unwrap();
    drive(&mut rp, &mut ps, "hello", "gpt-3.5").unwrap();
    assert_eq!(ps[0].calls, 2);
}

#[test]
fn cache_entry_expires_after_ttl() {
    let mut rp = ReliableProvider::new(vec!["p".to_string()], 0, 1);
    let (st, step) = rp.begin_at(7, 100);
    assert!(matches!(step, CallStep::Invoke { provider: 0, delay_ms: 0 }));
    rp.on_success_at(&st, "v".to_string(), 100);
    assert!(matches!(rp.begin_at(7, 159).1, CallStep::Done(Ok(ref s)) if s == "v"));
    assert!(matches!(rp.begin_at(7, 160).1, CallStep::Invoke { provider: 0, .. }));
    assert!(matches!(rp.begin_at(7, 161).1, CallStep::Invoke { provider: 0, .. }));
}

#[test]
fn jitter_within_bounds() {
    for _ in 0..100 {
        let result = apply_jitter(1000);
        assert!(result >= 750, "Jitter too low: {result}");
        assert!(result <= 1250, "Jitter too high: {result}");
    }
}

#[test]
fn jitter_not_deterministic() {
    let results: std::collections::HashSet<u64> = (0..20).map(|_| apply_jitter(1000)).collect();
    assert!(results.len() > 1, "Jitter should produce varying values");
}

#[test]
fn jitter_minimum_one() {
    assert!(apply_jitter(0) >= 1);
    assert!(apply_jitter(1) >= 1);
}

#[test]
fn jitter_exact_values() {
    assert_eq!(jitter_from(1000, 0), 750);
    assert_eq!(jitter_from(1000, u32::MAX), 1250);
    assert_eq!(jitter_from(1000, u32::MAX / 2), 999);
    assert_eq!(jitter_from(0, 12345), 1);
    assert_eq!(jitter_from(10, 0), 7);
    assert_eq!(jitter_from(u64::MAX, u32::MAX), u64::MAX);
}

#[test]
fn succeeds_without_retry() {
    let mut ps = vec![MockProvider::new(0, "ok", "boom")];
    let mut rp = chain(&[("primary", &ps[0])], 2, 1);
    let result = drive(&mut rp, &mut ps, "hello", "test").unwrap();
    assert_eq!(result, "ok");
    assert_eq!(ps[0].calls, 1);
}

#[test]
fn retries_then_recovers() {
    let mut ps = vec![MockProvider::new(1, "recovered", "temporary")];
    let mut rp = chain(&[("primary", &ps[0])], 2, 1);
    let result = drive(&mut rp, &mut ps, "hello", "test").unwrap();
    assert_eq!(result, "recovered");
    assert_eq!(ps[0].calls, 2);
}

#[test]
fn recovers_on_third_attempt_without_fallback() {
    let mut ps = vec![MockProvider::new(2, "third", "flaky"), MockProvider::new(0, "never", "x")];
    let mut rp = chain(&[("p1", &ps[0]), ("p2", &ps[1])], 2, 1);
    let result = drive(&mut rp, &mut ps, "hello", "test").unwrap();
    assert_eq!(result, "third");
    assert_eq!(ps[0].calls, 3);
    assert_eq!(ps[1].calls, 0);
}

#[test]
fn falls_back_after_retries_exhausted() {
    let mut ps = vec![
        MockProvider::new(usize::MAX, "never", "primary down"),
        MockProvider::new(0, "from fallback", "fallback down"),
    ];
    let mut rp = chain(&[("primary", &ps[0]), ("fallback", &ps[1])], 1, 1);
    let result = drive(&mut rp, &mut ps, "hello", "test").unwrap();
    assert_eq!(result, "from fallback");
    assert_eq!(ps[0].calls, 2);
    assert_eq!(ps[1].calls, 1);
}

#[test]
fn returns_aggregated_error_when_all_providers_fail() {
    let mut ps = vec![
        MockProvider::new(usize::MAX, "never", "p1 error"),
        MockProvider::new(usize::MAX, "never", "p2 error"),
    ];
    let mut rp = chain(&[("p1", &ps[0]), ("p2", &ps[1])], 0, 1);
    let msg = drive(&mut rp, &mut ps, "hello", "test").expect_err("all providers should fail");
    assert!(msg.contains("All providers failed"));
    assert!(msg.contains("p1 attempt 1/1"));
    assert!(msg.contains("p2 attempt 1/1"));
    assert_eq!(msg, "All providers failed. Attempts:\np1 attempt 1/1: p1 error\np2 attempt 1/1: p2 error");
}

#[test]
fn retry_delays_double_up_to_cap() {
    let rp = ReliableProvider::new(vec!["p".to_string()], 3, 4000);
    let mut rp = rp;
    let (mut st, _) = rp.begin_at(1, 0);
    assert_eq!(st.backoff_ms, 4000);
    match rp.on_failure_with(&mut st, "e", 0) {
        CallStep::Invoke { provider, delay_ms } => {
            assert_eq!(provider, 0);
            assert_eq!(delay_ms, 3000);
        }
        _ => panic!("expected a retry"),
    }
    assert_eq!(st.backoff_ms, 8000);
    rp.on_failure_with(&mut st, "e", 0);
    assert_eq!(st.backoff_ms, 10000);
    assert_eq!(st.failures[0], "p attempt 1/4: e");
}

#[test]
fn base_backoff_has_floor() {
    let rp = ReliableProvider::new(vec![], 0, 1);
    assert_eq!(rp.base_backoff_ms, 50);
    let mut rp = rp;
    match rp.begin_at(3, 0).1 {
        CallStep::Done(Err(e)) => assert_eq!(e, "All providers failed. Attempts:\n"),
        _ => panic!("an empty chain fails"),
    }
}
