use educe::config::{env_path, AppConfig, CacheConfig};
use educe::dns::{after_system, order_addresses, parse_u64, public_addresses, PreferV4Resolver, SystemStep};
use educe::config::JsRenderConfig;
use educe::jsrender::JsRenderer;
use educe::http::{pool_index, proxy_urls, text_status_error, Rotate};
use educe::config::ProxyConfig;
use educe::runtime::RuntimeSettings;
use educe::tls::{bundle_certs, certs_from_pem};

#[test]
fn rate_limit_and_weight_fallbacks() {
    let cfg = AppConfig::default();
    assert_eq!(cfg.rate_limit_for("any_unknown"), 30); // 回退 default
    assert_eq!(f64::from_bits(cfg.weight_for("any_unknown")), 1.0);
}

#[test]
fn rate_limit_prefers_own_then_default() {
    let mut cfg = AppConfig::default();
    cfg.rate_limit = vec![("default".into(), 12), ("github".into(), 10)];
    assert_eq!(cfg.rate_limit_for("github"), 10);
    assert_eq!(cfg.rate_limit_for("bing"), 12);
    let c = CacheConfig::default();
    assert!(c.enabled);
    assert_eq!((c.ttl_seconds, c.max_entries), (300, 200));
}

#[test]
fn env_keys_name_nested_paths() {
    assert_eq!(env_path("EDUCE_SERVER__PORT"), Some(vec!["server".to_string(), "port".to_string()]));
    assert_eq!(env_path("EDUCE_A__B__C"), Some(vec!["a".into(), "b".into(), "c".into()]));
    assert_eq!(env_path("EDUCE_PROXY__ENABLED"), Some(vec!["proxy".into(), "enabled".into()]));
    assert_eq!(env_path("EDUCE_js_render__Timeout_MS"), Some(vec!["js_render".into(), "timeout_ms".into()]));
    assert_eq!(env_path("EDUCE_"), None);
    assert_eq!(env_path("PATH"), None);
}

#[test]
fn runtime_settings_round_trip_through_configs() {
    let cfg = AppConfig::default();
    let rs = RuntimeSettings::from_cfg(&cfg);
    let p = rs.to_proxy_config();
    assert_eq!(p.enabled, cfg.proxy.enabled);
    let j = rs.to_js_config();
    assert_eq!(j.command, cfg.js_render.command);
}

#[test]
fn http_rotation_and_status() {
    assert_eq!(Rotate::from_str("random"), Rotate::Random);
    assert_eq!(Rotate::from_str("round_robin"), Rotate::RoundRobin);
    assert_eq!(pool_index(Rotate::RoundRobin, 3, 7, 0), 1);
    assert_eq!(pool_index(Rotate::Random, 3, 7, 2), 2);
    assert_eq!(pool_index(Rotate::Random, 1, 7, 0), 0);
    let p = ProxyConfig { enabled: false, urls: vec!["socks5://h:1".into()], rotate: "random".into() };
    assert!(proxy_urls(&p).is_empty());
    let p = ProxyConfig { enabled: true, ..p };
    assert_eq!(proxy_urls(&p), vec!["socks5://h:1".to_string()]);
    assert_eq!(text_status_error(404, "https://e/").as_deref(), Some("HTTP 404: https://e/"));
    assert_eq!(text_status_error(204, "https://e/"), None);
}

#[test]
fn dns_settings_and_address_order() {
    let r = PreferV4Resolver::from_settings(Some("+1200"), Some("yes"));
    assert_eq!((r.resolve_timeout_ms, r.drop_ipv6), (1200, true));
    let r = PreferV4Resolver::from_settings(Some("99999999999999999999999"), None);
    assert_eq!((r.resolve_timeout_ms, r.drop_ipv6), (3000, false));
    let r = PreferV4Resolver::from_settings(Some("10"), Some("0"));
    assert_eq!((r.resolve_timeout_ms, r.drop_ipv6), (500, false));
    assert_eq!(parse_u64("18446744073709551615"), Some(u64::MAX));
    assert_eq!(parse_u64("18446744073709551616"), None);
    assert_eq!(parse_u64("+"), None);
    assert_eq!(parse_u64("-1"), None);
    assert_eq!(order_addresses(&vec![false, true, false, true], false, "h").unwrap(), vec![1, 3, 0, 2]);
    assert_eq!(order_addresses(&vec![false, true], true, "h").unwrap(), vec![1]);
    assert_eq!(
        order_addresses(&vec![false], true, "h").unwrap_err(),
        "DNS 解析无可用地址(h)（已按 EDUCE_NO_IPV6 跳过 IPv6）"
    );
    assert_eq!(order_addresses(&Vec::new(), false, "h").unwrap_err(), "DNS 解析无可用地址(h)");
}

#[test]
fn pem_bundles_need_a_certificate() {
    assert_eq!(
        certs_from_pem(&b"no pem here".to_vec(), "ca.pem").unwrap_err(),
        "PEM 文件中没有任何证书: ca.pem"
    );
    let pem = b"-----BEGIN CERTIFICATE-----\nAAEC\n-----END CERTIFICATE-----\n".to_vec();
    assert_eq!(certs_from_pem(&pem, "ca.pem").unwrap(), vec![vec![0u8, 1, 2]]);
}

#[test]
fn platform_bundles_skip_broken_entries() {
    let pem = b"-----BEGIN CERTIFICATE-----\n!!!!\n-----END CERTIFICATE-----\n-----BEGIN CERTIFICATE-----\nAAEC\n-----END CERTIFICATE-----\n".to_vec();
    assert_eq!(certs_from_pem(&pem, "ca.pem").unwrap_err(), "解析 PEM 文件失败: ca.pem");
    assert_eq!(bundle_certs(&pem), vec![vec![0u8, 1, 2]]);
    assert!(bundle_certs(&b"no pem here".to_vec()).is_empty());
}

#[test]
fn renderer_command_line_ends_with_the_url() {
    let cfg = JsRenderConfig {
        enabled: true,
        command: "  node render.js --wait 500 ".into(),
        timeout_ms: 10,
        sources: vec![],
    };
    let r = JsRenderer::from_config(&cfg).unwrap();
    assert_eq!(r.timeout_ms, 1000);
    assert_eq!(
        r.command_line("https://x.com/?q=a b"),
        vec!["node", "render.js", "--wait", "500", "https://x.com/?q=a b"]
    );
}

#[test]
fn system_answer_without_usable_address_falls_back_to_public_dns() {
    assert!(matches!(after_system(None, false), SystemStep::Fallback));
    assert!(matches!(after_system(Some(&vec![false, false]), true), SystemStep::Fallback));
    assert!(matches!(after_system(Some(&vec![]), false), SystemStep::Fallback));
    match after_system(Some(&vec![false, true, true]), false) {
        SystemStep::Use(v) => assert_eq!(v, vec![1, 2, 0]),
        SystemStep::Fallback => panic!("expected addresses"),
    }
    match after_system(Some(&vec![false, true]), true) {
        SystemStep::Use(v) => assert_eq!(v, vec![1]),
        SystemStep::Fallback => panic!("expected addresses"),
    }
}

#[test]
fn public_dns_answer_is_ordered_or_refused() {
    assert_eq!(public_addresses(&vec![false, true], false), Ok(vec![1, 0]));
    assert_eq!(public_addresses(&vec![false], true), Err("公共 DNS 无可用地址".to_string()));
}
