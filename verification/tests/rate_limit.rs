use ctxone_hub::rate_limit::{build_config, KeyError, LoopbackExemptKeyExtractor, Peer, RateConfig};

fn peer(ip: &str, loopback: bool) -> Peer {
    Peer { loopback, ip: ip.to_string() }
}

#[test]
fn build_config_rpm_zero_disables() {
    assert!(build_config(0).is_none());
}

#[test]
fn build_config_rpm_60_yields_valid_config() {
    assert_eq!(build_config(60), Some(RateConfig { period_ms: 1000, burst: 6 }));
}

#[test]
fn build_config_preserves_minimum_burst() {
    assert_eq!(build_config(1), Some(RateConfig { period_ms: 60000, burst: 5 }));
    assert_eq!(build_config(10).unwrap().burst, 5);
    assert_eq!(build_config(100).unwrap().burst, 10);
}

#[test]
fn build_layer_rpm_zero_is_none() {
    assert!(build_config(0).is_none());
}

#[test]
fn build_layer_non_zero_is_some() {
    assert_eq!(build_config(300), Some(RateConfig { period_ms: 200, burst: 30 }));
}

#[test]
fn loopback_gets_unique_keys_remote_is_stable() {
    let mut ex = LoopbackExemptKeyExtractor::new();
    let a = ex.extract(Some(&peer("127.0.0.1", true))).unwrap();
    let b = ex.extract(Some(&peer("127.0.0.1", true))).unwrap();
    assert_ne!(a, b, "loopback requests must not share a bucket");
    assert!(a.starts_with("lo:") && b.starts_with("lo:"));
    assert_eq!(a, "lo:0");
    let r1 = ex.extract(Some(&peer("203.0.113.7", false))).unwrap();
    let r2 = ex.extract(Some(&peer("203.0.113.7", false))).unwrap();
    assert_eq!(r1, "203.0.113.7");
    assert_eq!(r1, r2, "same remote IP must share one bucket");
}

#[test]
fn missing_connect_info_errors() {
    let mut ex = LoopbackExemptKeyExtractor::new();
    assert_eq!(ex.extract(None), Err(KeyError::UnableToExtractKey));
}
