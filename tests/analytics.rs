use openai_proxy::analytics::{RequestMetadata, UsageAnalytics, UsageRecord};
use openai_proxy::params::ProxyUrlParams;

#[test]
fn test_usage_analytics_creation() {
    let analytics = UsageAnalytics::new_with_timestamp(
        "app123".to_string(),
        Some("tenant123".to_string()),
        Some("module456".to_string()),
        Some("session789".to_string()),
        Some("request101".to_string()),
        Some("env567".to_string()),
        Some("192.168.1.1".to_string()),
        Some("US".to_string()),
        Some("ray123".to_string()),
        Some("example.com".to_string()),
        Some("prod".to_string()),
        "gpt-4".to_string(),
        100,
        50,
        150,
        1640995200000,
    );

    assert_eq!(analytics.app_id, "app123");
    assert_eq!(analytics.tenant_id, Some("tenant123".to_string()));
    assert_eq!(analytics.module_id, Some("module456".to_string()));
    assert_eq!(analytics.session_id, Some("session789".to_string()));
    assert_eq!(analytics.request_id, Some("request101".to_string()));
    assert_eq!(analytics.env_id, Some("env567".to_string()));
    assert_eq!(analytics.ip_address, Some("192.168.1.1".to_string()));
    assert_eq!(analytics.country, Some("US".to_string()));
    assert_eq!(analytics.cf_ray, Some("ray123".to_string()));
    assert_eq!(analytics.domain, Some("example.com".to_string()));
    assert_eq!(analytics.deployment, Some("prod".to_string()));
    assert_eq!(analytics.model, "gpt-4");
    assert_eq!(analytics.prompt_tokens, 100);
    assert_eq!(analytics.completion_tokens, 50);
    assert_eq!(analytics.total_tokens, 150);
    assert_eq!(analytics.timestamp, 1640995200000);
}

#[test]
fn test_usage_analytics_with_none_values() {
    let analytics = UsageAnalytics::new_with_timestamp(
        "empty-app".to_string(),
        None,
        None,
        None,
        None,
        None,
        None,
        None,
        None,
        None,
        None,
        "empty-test".to_string(),
        0,
        0,
        0,
        1640995200000,
    );

    assert_eq!(analytics.app_id, "empty-app");
    assert_eq!(analytics.tenant_id, None);
    assert_eq!(analytics.module_id, None);
    assert_eq!(analytics.session_id, None);
    assert_eq!(analytics.request_id, None);
    assert_eq!(analytics.env_id, None);
    assert_eq!(analytics.ip_address, None);
    assert_eq!(analytics.country, None);
    assert_eq!(analytics.cf_ray, None);
    assert_eq!(analytics.domain, None);
    assert_eq!(analytics.deployment, None);
    assert_eq!(analytics.model, "empty-test");
    assert_eq!(analytics.prompt_tokens, 0);
    assert_eq!(analytics.completion_tokens, 0);
    assert_eq!(analytics.total_tokens, 0);
    assert_eq!(analytics.timestamp, 1640995200000);
}

#[test]
fn test_usage_analytics_large_token_counts() {
    let analytics = UsageAnalytics::new_with_timestamp(
        "large-usage-app".to_string(),
        None,
        None,
        None,
        None,
        None,
        None,
        None,
        None,
        None,
        None,
        "gpt-4".to_string(),
        u32::MAX as u64 - 1000,
        u32::MAX as u64 - 2000,
        u32::MAX as u64 - 500,
        1640995200000,
    );

    assert_eq!(analytics.prompt_tokens, u32::MAX as u64 - 1000);
    assert_eq!(analytics.completion_tokens, u32::MAX as u64 - 2000);
    assert_eq!(analytics.total_tokens, u32::MAX as u64 - 500);
}

#[test]
fn test_usage_analytics_edge_case_strings() {
    let analytics = UsageAnalytics::new_with_timestamp(
        "".to_string(),
        Some("tenant with spaces".to_string()),
        Some("module/with/slashes".to_string()),
        Some("session-with-dashes".to_string()),
        Some("request_with_underscores".to_string()),
        Some("env.with.dots".to_string()),
        Some("127.0.0.1".to_string()),
        Some("XX".to_string()),
        Some("ray-123-abc".to_string()),
        Some("sub.domain.example.com".to_string()),
        Some("staging-v2".to_string()),
        "gpt-4-turbo-2024-04-09".to_string(),
        0,
        0,
        0,
        1640995200000,
    );

    assert_eq!(analytics.app_id, "");
    assert_eq!(analytics.tenant_id, Some("tenant with spaces".to_string()));
    assert_eq!(analytics.module_id, Some("module/with/slashes".to_string()));
    assert_eq!(analytics.session_id, Some("session-with-dashes".to_string()));
    assert_eq!(analytics.request_id, Some("request_with_underscores".to_string()));
    assert_eq!(analytics.env_id, Some("env.with.dots".to_string()));
    assert_eq!(analytics.ip_address, Some("127.0.0.1".to_string()));
    assert_eq!(analytics.country, Some("XX".to_string()));
    assert_eq!(analytics.cf_ray, Some("ray-123-abc".to_string()));
    assert_eq!(analytics.domain, Some("sub.domain.example.com".to_string()));
    assert_eq!(analytics.deployment, Some("staging-v2".to_string()));
    assert_eq!(analytics.model, "gpt-4-turbo-2024-04-09");
}

fn sample_params() -> ProxyUrlParams {
    ProxyUrlParams {
        app: "app1".to_string(),
        u: "https://upstream.example/v1".to_string(),
        env_id: Some("env1".to_string()),
        ten_id: None,
        mod_id: Some("mod1".to_string()),
        ses_id: Some("ses1".to_string()),
        req_id: Some("req1".to_string()),
        api_version: Some("2024-02-01".to_string()),
    }
}

fn sample_meta() -> RequestMetadata {
    RequestMetadata {
        ip_address: Some("10.0.0.1".to_string()),
        country: None,
        cf_ray: Some("ray9".to_string()),
        domain: Some("proxy.example".to_string()),
        deployment: Some("cloudflare-worker".to_string()),
    }
}

#[test]
fn usage_event_from_call_parts() {
    let record = UsageRecord {
        model: "gpt-4".to_string(),
        prompt_tokens: 10,
        completion_tokens: 5,
        total_tokens: 15,
    };
    let event = UsageAnalytics::from_parts(&sample_params(), &sample_meta(), record, 42);
    assert_eq!(event.app_id, "app1");
    assert_eq!(event.tenant_id, None);
    assert_eq!(event.module_id, Some("mod1".to_string()));
    assert_eq!(event.session_id, Some("ses1".to_string()));
    assert_eq!(event.request_id, Some("req1".to_string()));
    assert_eq!(event.env_id, Some("env1".to_string()));
    assert_eq!(event.ip_address, Some("10.0.0.1".to_string()));
    assert_eq!(event.country, None);
    assert_eq!(event.cf_ray, Some("ray9".to_string()));
    assert_eq!(event.domain, Some("proxy.example".to_string()));
    assert_eq!(event.deployment, Some("cloudflare-worker".to_string()));
    assert_eq!(event.model, "gpt-4");
    assert_eq!((event.prompt_tokens, event.completion_tokens, event.total_tokens), (10, 5, 15));
    assert_eq!(event.timestamp, 42);
}

#[test]
fn data_point_fields_use_unknown_for_absent_ids() {
    let record = UsageRecord {
        model: "gpt-4o".to_string(),
        prompt_tokens: 7,
        completion_tokens: 0,
        total_tokens: 7,
    };
    let event = UsageAnalytics::from_parts(&sample_params(), &sample_meta(), record, 1);
    assert_eq!(
        event.blobs(),
        vec![
            "10.0.0.1", "unknown", "ray9", "proxy.example", "cloudflare-worker", "unknown",
            "mod1", "ses1", "req1", "env1", "gpt-4o",
        ]
    );
    assert_eq!(event.counts(), vec![7, 0, 7, 1]);
    assert_eq!(event.index(), "unknown:app1");
}

#[test]
fn data_point_index_names_the_tenant() {
    let mut params = sample_params();
    params.ten_id = Some("tenant7".to_string());
    let record = UsageRecord {
        model: "m".to_string(),
        prompt_tokens: 1,
        completion_tokens: 2,
        total_tokens: 3,
    };
    let event = UsageAnalytics::from_parts(&params, &sample_meta(), record, 1);
    assert_eq!(event.index(), "tenant7:app1");
    assert_eq!(event.blobs()[5], "tenant7");
}
