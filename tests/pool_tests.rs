use coupon_engine::proxy_manager::{ProxyConfig, ProxyManager, ProxyManagerConfig, ProxyType};
use coupon_engine::rate_limiter::{BurstRateLimiter, RateLimitError, RateLimiter};
use coupon_engine::fetcher::{FetchAction, FetchError, ProxyReport, Scraper};
use coupon_engine::coupon::EngineConfig;

fn proxy(url: &str) -> ProxyConfig {
    ProxyConfig { url: url.to_string(), username: None, password: None, proxy_type: ProxyType::Http }
}

#[test]
fn test_proxy_rotation() {
    let mut manager = ProxyManager::new();
    for i in 1..=3 {
        manager.add_proxy(proxy(&format!("http://proxy{}.test.com:8080", i)));
    }
    let proxy1 = manager.get_next_proxy(0).unwrap();
    let proxy2 = manager.get_next_proxy(0).unwrap();
    assert_ne!(proxy1.url, proxy2.url);
}

#[test]
fn test_proxy_failure_handling() {
    let config = ProxyManagerConfig { rotation_interval: 1_000, max_failures: 2, retry_after: 5_000 };
    let mut manager = ProxyManager::with_config(config);
    let proxy_config = proxy("http://test.proxy.com:8080");
    manager.add_proxy(proxy_config.clone());
    manager.mark_failure(&proxy_config.url, "Connection timeout", 0);
    manager.mark_failure(&proxy_config.url, "Connection refused", 0);
    let stats = manager.get_stats();
    assert_eq!(stats.active_proxies, 0);
    assert_eq!(stats.failed_proxies, 1);
}

#[test]
fn quarantine_then_recovery() {
    let config = ProxyManagerConfig { rotation_interval: 1_000, max_failures: 2, retry_after: 5_000 };
    let mut m = ProxyManager::with_config(config);
    m.add_proxy(proxy("http://p.test:1"));
    m.mark_failure("http://p.test:1", "timeout", 1_000);
    assert_eq!(m.get_stats().active_proxies, 1);
    m.mark_failure("http://p.test:1", "refused", 1_000);
    assert_eq!((m.get_stats().active_proxies, m.get_stats().failed_proxies), (0, 1));
    assert!(m.get_next_proxy(5_999).is_none());
    let back = m.get_next_proxy(6_000).unwrap();
    assert_eq!(back.url, "http://p.test:1");
    let s = m.get_stats();
    assert_eq!((s.active_proxies, s.failed_proxies), (1, 0));
    assert_eq!(m.proxies[0].failure_count, 0);
}

#[test]
fn success_resets_failures_and_rate() {
    let mut m = ProxyManager::new();
    m.add_proxy(proxy("http://a:1"));
    m.mark_failure("http://a:1", "x", 0);
    m.mark_success("http://a:1");
    m.mark_success("http://a:1");
    m.mark_success("http://unknown:1");
    assert_eq!(m.proxies[0].failure_count, 0);
    assert_eq!(m.proxies[0].success_count, 2);
    let s = m.get_stats();
    assert_eq!(s.total_success, 2);
    assert_eq!(s.success_rate, 10_000);
}

#[test]
fn rotation_prefers_entries_past_the_interval() {
    let mut m = ProxyManager::with_config(ProxyManagerConfig { rotation_interval: 1_000, max_failures: 3, retry_after: 5_000 });
    m.add_proxies(vec![proxy("http://a:1"), proxy("http://b:1")]);
    assert_eq!(m.get_next_proxy(0).unwrap().url, "http://a:1");
    assert_eq!(m.get_next_proxy(10).unwrap().url, "http://b:1");
    // both used within the interval: the head (least recently used) again
    assert_eq!(m.get_next_proxy(20).unwrap().url, "http://a:1");
    assert_eq!(m.get_next_proxy(2_000).unwrap().url, "http://b:1");
    let mut empty = ProxyManager::new();
    assert!(empty.get_next_proxy(0).is_none());
    empty.load_free_proxies();
    assert_eq!(empty.get_stats().active_proxies, 2);
}

#[test]
fn test_basic_rate_limiting() {
    let mut limiter = RateLimiter::new(10);
    let domain = "example.com";
    for i in 0..10 {
        assert_eq!(limiter.wait_if_needed(domain, i * 10), None);
    }
    assert_eq!(limiter.get_current_rate(domain, 100), Some(10));
}

#[test]
fn rate_limiter_enforces_ceiling() {
    let mut limiter = RateLimiter::new(3);
    let d = "example.com";
    assert_eq!(limiter.wait_if_needed(d, 0), None);
    assert_eq!(limiter.wait_if_needed(d, 1), None);
    assert_eq!(limiter.wait_if_needed(d, 2), None);
    let wait = limiter.wait_if_needed(d, 3).unwrap();
    assert_eq!(wait, 60_000 - 3 + 100);
    assert!(3 + wait >= 60_000);
    limiter.finish_wait(d, 3 + wait);
    assert_eq!(limiter.get_current_rate(d, 3 + wait), Some(1));
    assert_eq!(limiter.get_current_rate("other.com", 0), None);
}

#[test]
fn rate_limiter_set_and_reset() {
    let mut limiter = RateLimiter::new(10);
    limiter.set_domain_limit("a.com", 1);
    assert_eq!(limiter.wait_if_needed("a.com", 0), None);
    assert!(limiter.wait_if_needed("a.com", 5).is_some());
    limiter.reset_domain("a.com");
    assert_eq!(limiter.get_current_rate("a.com", 5), Some(0));
    assert_eq!(limiter.wait_if_needed("a.com", 6), None);
}

#[test]
fn test_burst_rate_limiting() {
    let mut limiter = BurstRateLimiter::new(60, 10);
    let domain = "example.com";
    for _ in 0..10 {
        assert!(limiter.acquire(domain, 1, 0).is_ok());
    }
    assert!(limiter.acquire(domain, 1, 0).is_err());
}

#[test]
fn burst_limiter_reports_wait_and_refills() {
    let mut limiter = RateLimiter::with_burst_support(60, 1);
    assert!(limiter.acquire("a.com", 1, 0).is_ok());
    let err = limiter.acquire("a.com", 1, 500).unwrap_err();
    // 60 per minute refills one token per second: half of it is back
    assert_eq!(err, RateLimitError::InsufficientTokens { available: 30_000, requested: 60_000, wait_time: Some(500) });
    assert!(limiter.acquire("a.com", 1, 1_000).is_ok());
    let mut never = BurstRateLimiter::new(0, 0);
    assert_eq!(
        never.acquire("b.com", 1, 0),
        Err(RateLimitError::InsufficientTokens { available: 0, requested: 60_000, wait_time: None })
    );
}

#[test]
fn fetch_decisions() {
    assert_eq!(Scraper::backoff_delay_ms(0), None);
    assert_eq!(Scraper::backoff_delay_ms(1), Some(2_000));
    assert_eq!(Scraper::backoff_delay_ms(2), Some(4_000));
    assert_eq!(Scraper::backoff_delay_ms(200), Some(u64::MAX));
    let mut config = EngineConfig::default();
    config.user_agent_rotation = false;
    let s = Scraper::new(config);
    assert_eq!(s.select_user_agent(3), s.user_agents[0]);
    let r = Scraper::new(EngineConfig::default());
    assert_eq!(r.select_user_agent(6), r.user_agents[2]);
    assert_eq!(Scraper::check_response(404, "x".to_string()), Err(FetchError::HttpStatus(404)));
    assert_eq!(Scraper::check_response(200, String::new()), Err(FetchError::EmptyBody));
    assert_eq!(Scraper::check_response(204, "ok".to_string()), Ok("ok".to_string()));
    let h = Scraper::default_headers();
    assert_eq!(h[0].0, "Accept");
    assert_eq!(h[0].1, "text/html,application/xhtml+xml,application/xml;q=0.9,image/webp,*/*;q=0.8");
    assert_eq!(h[2], ("Accept-Encoding".to_string(), "gzip, deflate, br".to_string()));
    assert_eq!(h[5], ("Upgrade-Insecure-Requests".to_string(), "1".to_string()));
}

#[test]
fn fetch_loop_decisions() {
    let s = Scraper::new(EngineConfig::default());
    let (mut state, first) = s.begin_fetch();
    assert!(matches!(first, FetchAction::Attempt { delay_ms: None }));
    let a = s.after_attempt(&mut state, Err(FetchError::Transport));
    assert!(matches!(a, FetchAction::Attempt { delay_ms: Some(2_000) }));
    let a = s.after_attempt(&mut state, Err(FetchError::HttpStatus(500)));
    assert!(matches!(a, FetchAction::Attempt { delay_ms: Some(4_000) }));
    let a = s.after_attempt(&mut state, Err(FetchError::EmptyBody));
    assert!(matches!(a, FetchAction::Finish(Err(FetchError::EmptyBody))));
    let (mut state, _) = s.begin_fetch();
    let a = s.after_attempt(&mut state, Ok("page".to_string()));
    assert!(matches!(a, FetchAction::Finish(Ok(ref p)) if p == "page"));
    let mut none = EngineConfig::default();
    none.retry_attempts = 0;
    let (_, a) = Scraper::new(none).begin_fetch();
    assert!(matches!(a, FetchAction::Finish(Err(FetchError::NoAttempts))));
    assert_eq!(Scraper::proxy_report(None), ProxyReport::Failure);
    assert_eq!(Scraper::proxy_report(Some(200)), ProxyReport::Success);
    assert_eq!(Scraper::proxy_report(Some(503)), ProxyReport::Neither);
}

#[test]
fn retry_delays_of_the_bucket() {
    let e = RateLimitError::InsufficientTokens { available: 0, requested: 60_000, wait_time: Some(500) };
    assert_eq!(e.retry_delay_ms(), Some(510));
    let never = RateLimitError::InsufficientTokens { available: 0, requested: 60_000, wait_time: None };
    assert_eq!(never.retry_delay_ms(), None);
}
