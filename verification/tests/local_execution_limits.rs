use api_tester::local_execution_limits::{
    Bound, default_limit_keys, is_local_limit, limit_sections, local_limit_label,
    local_limit_unit, parse_limit_override, saved_limit_label,
};

#[test]
fn every_local_limit_has_a_label_and_one_section() {
    for key in default_limit_keys() {
        if is_local_limit(key) {
            assert_ne!(local_limit_label(key), key, "missing label for {key}");
            assert_eq!(
                limit_sections()
                    .iter()
                    .filter(|(_, prefix, _)| key.starts_with(prefix))
                    .count(),
                1,
                "{key} must appear in exactly one section"
            );
        }
    }
}

#[test]
fn override_input_preserves_zero_inherit_and_unlimited() {
    assert_eq!(parse_limit_override(" 0 "), Ok(Some(Bound::limited(0))));
    assert_eq!(parse_limit_override(""), Ok(None));
    assert_eq!(parse_limit_override(" INHERIT "), Ok(None));
    assert_eq!(
        parse_limit_override("unlimited"),
        Ok(Some(Bound::unlimited()))
    );
    for invalid in ["-1", "1.5", "60s", "9223372036854775808"] {
        assert!(parse_limit_override(invalid).is_err());
    }
    assert_eq!(
        saved_limit_label("http.timeout_ms", Bound::limited(60_000)),
        "60000 ms (60.00 s)"
    );
    assert_eq!(
        saved_limit_label("http.response_bytes", Bound::limited(67_108_864)),
        "67108864 bytes (64.0 MiB)"
    );
    assert_eq!(saved_limit_label("http.redirects", Bound::limited(0)), "0");
    assert_eq!(
        saved_limit_label("script.timeout_ms", Bound::unlimited()),
        "Unlimited"
    );
}

#[test]
fn override_input_accepts_signs_and_the_largest_value() {
    assert_eq!(parse_limit_override("+15"), Ok(Some(Bound::limited(15))));
    assert_eq!(parse_limit_override("-0"), Ok(Some(Bound::limited(0))));
    assert_eq!(
        parse_limit_override("9223372036854775807"),
        Ok(Some(Bound::limited(i64::MAX)))
    );
    assert_eq!(parse_limit_override("\tUnLimited\n"), Ok(Some(Bound::unlimited())));
    assert_eq!(
        parse_limit_override("+"),
        Err("Enter a non-negative integer, Inherit or Unlimited".to_owned())
    );
}

#[test]
fn limit_units_and_labels_follow_the_key() {
    assert_eq!(local_limit_unit("script.timeout_ms"), "ms");
    assert_eq!(local_limit_unit("script.body_bytes"), "bytes");
    assert_eq!(local_limit_unit("chain.max_depth"), "count");
    assert_eq!(local_limit_label("chain.max_requests"), "Maximum requests");
    assert_eq!(local_limit_label("custom.key"), "custom.key");
    assert!(!is_local_limit("http.envelope_bytes"));
    assert!(!is_local_limit("websocket.opening_bytes"));
    assert!(!is_local_limit("http.tls_handshake_timeout_ms"));
    assert!(is_local_limit("http.timeout_ms"));
}

#[test]
fn saved_labels_below_the_conversion_thresholds_stay_exact() {
    assert_eq!(saved_limit_label("http.timeout_ms", Bound::limited(999)), "999 ms");
    assert_eq!(saved_limit_label("http.request_bytes", Bound::limited(1023)), "1023 bytes");
    assert_eq!(
        saved_limit_label("http.request_bytes", Bound::limited(1536)),
        "1536 bytes (1.5 KiB)"
    );
    assert_eq!(saved_limit_label("http.timeout_ms", Bound::limited(1234)), "1234 ms (1.23 s)");
    assert_eq!(saved_limit_label("chain.max_depth", Bound::limited(-4)), "-4");
}
