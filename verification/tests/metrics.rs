use llm_free_gateway_v2::metrics::{escape_label, Metrics};
use llm_free_gateway_v2::registry::RequestLogEntry;

#[test]
fn test_metrics_render_requests_total_present() {
    let mut m = Metrics::new(2);
    m.record_request("/v1/chat/completions", "my-alias", "llmcore", 200, Some(50));
    let output = m.render();
    assert!(
        output.contains("# TYPE gateway_requests_total counter"),
        "missing TYPE line in:\n{}",
        output
    );
    assert!(output.contains("gateway_requests_total{"), "missing metric line in:\n{}", output);
}

#[test]
fn test_metrics_render_providers_configured() {
    let m = Metrics::new(3);
    let output = m.render();
    assert!(
        output.contains("gateway_providers_configured 3"),
        "wrong gauge providers_configured:\n{}",
        output
    );
}

#[test]
fn test_metrics_render_uptime_gauge() {
    let m = Metrics::new(1);
    let output = m.render();
    assert!(
        output.contains("# TYPE gateway_uptime_seconds gauge"),
        "missing TYPE line:\n{}",
        output
    );
    assert!(output.contains("gateway_uptime_seconds "), "missing uptime:\n{}", output);
}

#[test]
fn test_metrics_counter_accumulates() {
    let mut m = Metrics::new(1);
    m.record_request("/v1/embeddings", "bge-m3", "llmcore-embed", 200, None);
    m.record_request("/v1/embeddings", "bge-m3", "llmcore-embed", 200, None);
    m.record_request("/v1/embeddings", "bge-m3", "llmcore-embed", 400, None);
    let output = m.render();
    assert!(output.contains("status_code=\"200\"} 2"), "200 must count 2:\n{}", output);
    assert!(output.contains("status_code=\"400\"} 1"), "400 must count 1:\n{}", output);
}

#[test]
fn test_metrics_duration_sum_and_count() {
    let mut m = Metrics::new(1);
    m.record_request("/v1/chat/completions", "qwen", "llmcore", 200, Some(100));
    m.record_request("/v1/chat/completions", "qwen", "llmcore", 200, Some(200));
    let output = m.render();
    assert!(
        output.contains("gateway_request_duration_seconds_sum{") && output.contains("0.300000"),
        "wrong sum:\n{}",
        output
    );
    assert!(
        output.contains("gateway_request_duration_seconds_count{") && output.contains("} 2"),
        "wrong count:\n{}",
        output
    );
}

#[test]
fn test_escape_label_quotes() {
    assert_eq!(escape_label("hello\"world"), "hello\\\"world");
    assert_eq!(escape_label("back\\slash"), "back\\\\slash");
    assert_eq!(escape_label("normal"), "normal");
}

#[test]
fn export_is_exact() {
    let mut m = Metrics::new(2);
    m.record_request("/v1/embeddings", "b\"m", "p\\1", 502, None);
    m.record_request("/v1/chat/completions", "qwen", "llmcore", 200, Some(1234));
    m.record_request("/v1/chat/completions", "qwen", "llmcore", 200, Some(66));
    let expected = "\
# HELP gateway_requests_total Nombre total de requetes traitees par le gateway.
# TYPE gateway_requests_total counter
gateway_requests_total{route=\"/v1/chat/completions\",model_alias=\"qwen\",provider=\"llmcore\",status_code=\"200\"} 2
gateway_requests_total{route=\"/v1/embeddings\",model_alias=\"b\\\"m\",provider=\"p\\\\1\",status_code=\"502\"} 1
# HELP gateway_request_duration_seconds Duree des requetes en secondes.
# TYPE gateway_request_duration_seconds summary
gateway_request_duration_seconds_sum{route=\"/v1/chat/completions\",model_alias=\"qwen\"} 1.300000
gateway_request_duration_seconds_count{route=\"/v1/chat/completions\",model_alias=\"qwen\"} 2
# HELP gateway_providers_configured Nombre de providers configures au demarrage.
# TYPE gateway_providers_configured gauge
gateway_providers_configured 2
# HELP gateway_uptime_seconds Duree de vie du gateway en secondes.
# TYPE gateway_uptime_seconds gauge
gateway_uptime_seconds 61.235
";
    assert_eq!(m.render_at(61_234_567_890), expected);
}

#[test]
fn export_does_not_depend_on_the_order_of_requests() {
    let mut a = Metrics::new(1);
    a.record_request("/v1/embeddings", "x", "p", 200, Some(5));
    a.record_request("/v1/chat/completions", "y", "q", 404, Some(7));
    let mut b = Metrics::new(1);
    b.record_request("/v1/chat/completions", "y", "q", 404, Some(7));
    b.record_request("/v1/embeddings", "x", "p", 200, Some(5));
    assert_eq!(a.render_at(0), b.render_at(0));
    assert!(a.render_at(0).contains("gateway_uptime_seconds 0.000\n"));
}

#[test]
fn full_counter_is_not_recorded() {
    let mut m = Metrics::new(1);
    assert!(m.can_record("/r", "a", "p", 200, Some(u64::MAX as u128)));
    m.record_request("/r", "a", "p", 200, Some(u64::MAX as u128));
    assert!(!m.can_record("/r", "a", "p", 200, Some(1)));
    assert!(m.can_record("/r", "a", "p", 200, None));
    let entry = RequestLogEntry {
        model_alias: "a".to_string(),
        provider_real: "p".to_string(),
        real_model: "m".to_string(),
        route: "/r".to_string(),
        latency_ms: Some(1),
        status_code: 200,
        streamed: false,
        error_message: None,
    };
    let before = m.render_at(0);
    assert!(!entry.count_in(&mut m));
    assert_eq!(m.render_at(0), before);
}

#[test]
fn escaped_labels_differ() {
    assert_eq!(escape_label("\\\""), "\\\\\\\"");
    assert_ne!(escape_label("\\\""), escape_label("\""));
    assert_eq!(escape_label(""), "");
}

#[test]
fn exports_differ_in_the_uptime_alone() {
    let mut m = Metrics::new(3);
    m.record_request("/v1/embeddings", "x", "p", 200, Some(5));
    let first = m.render_at(1_000_000_000);
    let second = m.render_at(2_000_400_000);
    assert!(first.ends_with("gateway_uptime_seconds 1.000\n"));
    assert_eq!(second, first.replace("seconds 1.000\n", "seconds 2.000\n"));
}

#[test]
fn a_request_changes_its_own_lines_alone() {
    let mut m = Metrics::new(1);
    m.record_request("/r", "a", "p", 200, Some(10));
    m.record_request("/r", "b", "p", 200, None);
    let before = m.render_at(0);
    assert!(!before.contains("_sum{route=\"/r\",model_alias=\"b\"}"));
    m.record_request("/r", "a", "q", 502, Some(7));
    let after = m.render_at(0);
    let added: Vec<&str> = after.lines().filter(|l| !before.contains(*l)).collect();
    assert_eq!(
        added,
        vec![
            "gateway_requests_total{route=\"/r\",model_alias=\"a\",provider=\"q\",status_code=\"502\"} 1",
            "gateway_request_duration_seconds_sum{route=\"/r\",model_alias=\"a\"} 0.017000",
            "gateway_request_duration_seconds_count{route=\"/r\",model_alias=\"a\"} 2",
        ]
    );
}

fn shown_uptime(nanos: u64) -> String {
    let output = Metrics::new(0).render_at(nanos);
    let line = output.lines().last().unwrap().to_string();
    line.strip_prefix("gateway_uptime_seconds ").unwrap().to_string()
}

#[test]
fn uptimes_are_shown_as_doubles_with_three_decimals() {
    assert_eq!(shown_uptime(62_500_000), "0.062");
    assert_eq!(shown_uptime(187_500_000), "0.188");
    assert_eq!(shown_uptime(500_000), "0.001");
    assert_eq!(shown_uptime(4_500_000), "0.004");
    assert_eq!(shown_uptime(999_999_999), "1.000");
    let mut samples: Vec<u64> = vec![0, 1, 499_999, 500_001, u64::MAX, u64::MAX - 1];
    for k in 0..2000 {
        samples.push(k * 1_000_000 + 500_000);
        samples.push(k * 12_345_678_901_234 + 500_000);
        samples.push(u64::MAX - k * 1_234_567_890_123_457);
    }
    for shift in 0..64 {
        samples.push(1 << shift);
        samples.push((1 << shift) / 1_000_000 * 1_000_000 + 500_000);
    }
    for nanos in samples {
        let seconds = std::time::Duration::from_nanos(nanos).as_secs_f64();
        assert_eq!(shown_uptime(nanos), format!("{:.3}", seconds), "{} ns", nanos);
    }
}

#[test]
fn sums_are_shown_as_doubles_with_six_decimals() {
    let mut samples: Vec<u64> = vec![0, 1, 999, 1000, 1001, u64::MAX, u64::MAX - 1];
    for shift in 0..64 {
        let power: u64 = 1 << shift;
        samples.push(power);
        samples.push(power - 1);
        samples.push(power | (power / 3));
    }
    for k in 0..500 {
        samples.push(u64::MAX - k * 12_345_678_901_234_567);
        samples.push(8_589_934_592_000 + k * 7);
    }
    for ms in samples {
        let mut m = Metrics::new(0);
        m.record_request("/r", "a", "p", 200, Some(ms as u128));
        let wanted = format!("_sum{{route=\"/r\",model_alias=\"a\"}} {:.6}\n", ms as f64 / 1000.0);
        assert!(m.render_at(0).contains(&wanted), "{} ms: {}", ms, wanted);
    }
}
