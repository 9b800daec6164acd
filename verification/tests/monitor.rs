//! End-to-end tests of the sampling pipeline on concrete inputs.

use fpm_monitor::aggregate::{aggregate_outcomes, container_contribution, ContainerOutcome};
use fpm_monitor::classify::{classify_command, command_has_marker, Classification};
use fpm_monitor::enumerate::parse_container_ids;
use fpm_monitor::report::{parse_dimension, parse_dimensions, should_emit};
use fpm_monitor::sample::{parse_pid, queue_length_from_listing};

const LISTING_WITH_QUEUE: &str = "u_str LISTEN 0 128 /run/other.sock 12345 * 0\nu_str LISTEN 5 128 /var/run/php-fpm/www.socket 23456 * 0\nu_str LISTEN 9 128 /var/run/php-fpm/www.socket 34567 * 0\n";

#[test]
fn zero_state_tick_is_idempotent() {
    // Every container yields a zero queue length: the aggregate is zero and
    // nothing is emitted.
    let outcomes = vec![
        ContainerOutcome::NotWorkload,
        ContainerOutcome::Unsampled,
        ContainerOutcome::Listed("u_str LISTEN 0 128 /var/run/php-fpm/www.socket 1 * 0".to_string()),
    ];
    let total = aggregate_outcomes(&outcomes);
    assert_eq!(total, 0);
    assert!(!should_emit(total, false));
    assert!(!should_emit(total, true));
}

#[test]
fn aggregate_is_order_independent() {
    let a = vec![
        ContainerOutcome::Listed(LISTING_WITH_QUEUE.to_string()),
        ContainerOutcome::NotWorkload,
        ContainerOutcome::Listed("x 1 7 /var/run/php-fpm/www.socket".to_string()),
    ];
    let b = vec![
        ContainerOutcome::Listed("x 1 7 /var/run/php-fpm/www.socket".to_string()),
        ContainerOutcome::Listed(LISTING_WITH_QUEUE.to_string()),
        ContainerOutcome::NotWorkload,
    ];
    assert_eq!(aggregate_outcomes(&a), aggregate_outcomes(&b));
    assert_eq!(aggregate_outcomes(&a), 12);
}

#[test]
fn failing_container_is_isolated() {
    // One failing container among healthy ones: the aggregate equals the sum
    // of the healthy contributions.
    let healthy = vec![
        ContainerOutcome::Listed(LISTING_WITH_QUEUE.to_string()),
        ContainerOutcome::Listed("a 2 3 /var/run/php-fpm/www.socket".to_string()),
    ];
    let mut with_failure = healthy.clone();
    with_failure.insert(1, ContainerOutcome::Unsampled);
    assert_eq!(aggregate_outcomes(&healthy), 8);
    assert_eq!(aggregate_outcomes(&with_failure), 8);
}

#[test]
fn marker_requires_exact_token_match() {
    assert_eq!(classify_command(r#"["php-fpm"]"#), Classification::Workload);
    assert_eq!(classify_command(r#"["php-fpm","--nodaemonize"]"#), Classification::Workload);
    // Superstring and substring tokens must not classify.
    assert_eq!(classify_command(r#"["php-fpm-worker"]"#), Classification::OtherCommand);
    assert_eq!(classify_command(r#"["php"]"#), Classification::OtherCommand);
    assert_eq!(classify_command(r#"["fpm"]"#), Classification::OtherCommand);
    assert_eq!(classify_command(r#"["a-php-fpm"]"#), Classification::OtherCommand);
    assert_eq!(classify_command(r#"["nginx","php-fpm-worker"]"#), Classification::OtherCommand);
}

#[test]
fn marker_test_sees_every_token() {
    let toks = vec!["nginx".to_string(), "php-fpm".to_string()];
    assert!(command_has_marker(&toks));
    let toks = vec!["php-fpm-worker".to_string(), "worker-php-fpm".to_string()];
    assert!(!command_has_marker(&toks));
    let toks: Vec<String> = Vec::new();
    assert!(!command_has_marker(&toks));
}

#[test]
fn unparseable_command_is_flagged() {
    assert_eq!(classify_command("not json at all"), Classification::Unparseable);
    assert_eq!(classify_command("null"), Classification::Unparseable);
    assert_eq!(classify_command("[1,2,3]"), Classification::Unparseable);
    assert_eq!(classify_command(r#"{"cmd":"php-fpm"}"#), Classification::Unparseable);
    assert_eq!(classify_command(""), Classification::Unparseable);
    // Surrounding whitespace is shed before parsing.
    assert_eq!(classify_command("  [\"php-fpm\"]\n"), Classification::Workload);
}

#[test]
fn listing_without_socket_line_yields_zero() {
    let listing = "u_str LISTEN 3 128 /run/other.sock 1 * 0\n";
    assert_eq!(queue_length_from_listing(listing), 0);
    assert_eq!(queue_length_from_listing(""), 0);
}

#[test]
fn listing_with_non_numeric_field_yields_zero() {
    let listing = "u_str LISTEN x 128 /var/run/php-fpm/www.socket 1 * 0\n";
    assert_eq!(queue_length_from_listing(listing), 0);
}

#[test]
fn listing_with_numeric_field_yields_that_value() {
    assert_eq!(queue_length_from_listing(LISTING_WITH_QUEUE), 5);
    let listing = "u_str LISTEN 0 128 /var/run/php-fpm/www.socket 1 * 0";
    assert_eq!(queue_length_from_listing(listing), 0);
}

#[test]
fn only_first_matching_line_counts() {
    // The first matching line decides, even when a later match would parse.
    let listing = "u_str LISTEN bad 128 /var/run/php-fpm/www.socket 1 * 0\nu_str LISTEN 42 128 /var/run/php-fpm/www.socket 2 * 0\n";
    assert_eq!(queue_length_from_listing(listing), 0);
}

#[test]
fn listing_with_short_line_yields_zero() {
    assert_eq!(queue_length_from_listing("/var/run/php-fpm/www.socket\n"), 0);
    assert_eq!(queue_length_from_listing("a /var/run/php-fpm/www.socket\n"), 0);
}

#[test]
fn listing_value_at_u32_boundary() {
    let ok = "a b 4294967295 /var/run/php-fpm/www.socket";
    assert_eq!(queue_length_from_listing(ok), u32::MAX);
    let too_big = "a b 4294967296 /var/run/php-fpm/www.socket";
    assert_eq!(queue_length_from_listing(too_big), 0);
}

#[test]
fn dry_run_never_emits() {
    assert!(!should_emit(17, true));
    assert!(!should_emit(0, true));
    assert!(should_emit(17, false));
    assert!(!should_emit(0, false));
}

#[test]
fn three_container_tick() {
    // Enumerator returns c1, c2, c3; the classifier keeps c1 and c3; c1
    // samples 5 and c3 has no matching socket line; the tick aggregates 5.
    let ids = parse_container_ids("c1\nc2\nc3\n");
    assert_eq!(ids, vec!["c1".to_string(), "c2".to_string(), "c3".to_string()]);

    let inspect = |id: &str| -> &str {
        match id {
            "c1" => r#"["php-fpm","-F"]"#,
            "c2" => r#"["nginx","-g","daemon off;"]"#,
            "c3" => r#"["php-fpm"]"#,
            _ => "null",
        }
    };
    let listing = |id: &str| -> &str {
        match id {
            "c1" => "u_str LISTEN 5 128 /var/run/php-fpm/www.socket 9 * 0\n",
            "c3" => "u_str LISTEN 0 128 /run/unrelated.sock 9 * 0\n",
            _ => "",
        }
    };

    let mut outcomes = Vec::new();
    for id in &ids {
        let outcome = match classify_command(inspect(id)) {
            Classification::Workload => ContainerOutcome::Listed(listing(id).to_string()),
            _ => ContainerOutcome::NotWorkload,
        };
        outcomes.push(outcome);
    }
    assert_eq!(container_contribution(&outcomes[0]), 5);
    assert_eq!(container_contribution(&outcomes[1]), 0);
    assert_eq!(container_contribution(&outcomes[2]), 0);
    let total = aggregate_outcomes(&outcomes);
    assert_eq!(total, 5);
    assert!(should_emit(total, false));
}

#[test]
fn empty_enumeration_is_a_quiet_tick() {
    let ids = parse_container_ids("");
    assert!(ids.is_empty());
    let outcomes: Vec<ContainerOutcome> = Vec::new();
    let total = aggregate_outcomes(&outcomes);
    assert_eq!(total, 0);
    assert!(!should_emit(total, false));
}

#[test]
fn container_ids_are_trimmed_and_blank_lines_dropped() {
    let ids = parse_container_ids("  abc \n\n   \ndef\r\n");
    assert_eq!(ids, vec!["abc".to_string(), "def".to_string()]);
    let ids = parse_container_ids("one\n");
    assert_eq!(ids, vec!["one".to_string()]);
}

#[test]
fn dimension_parsing_splits_at_first_equals() {
    assert_eq!(
        parse_dimension("env=prod"),
        Some(("env".to_string(), "prod".to_string()))
    );
    assert_eq!(
        parse_dimension("k = v "),
        Some(("k".to_string(), "v".to_string()))
    );
    assert_eq!(
        parse_dimension("a=b=c"),
        Some(("a".to_string(), "b=c".to_string()))
    );
    assert_eq!(parse_dimension("malformed"), None);
    assert_eq!(parse_dimension(""), None);
    assert_eq!(
        parse_dimension("=v"),
        Some(("".to_string(), "v".to_string()))
    );
}

#[test]
fn malformed_dimension_does_not_affect_the_rest() {
    let with_bad = vec![
        "env=prod".to_string(),
        "malformed".to_string(),
        "tier=web".to_string(),
    ];
    let without_bad = vec!["env=prod".to_string(), "tier=web".to_string()];
    let parsed = parse_dimensions(&with_bad);
    assert_eq!(parsed, parse_dimensions(&without_bad));
    assert_eq!(
        parsed,
        vec![
            ("env".to_string(), "prod".to_string()),
            ("tier".to_string(), "web".to_string()),
        ]
    );
}

#[test]
fn pid_lookup_output_is_trimmed_and_parsed() {
    assert_eq!(parse_pid(" 1234\n"), Some(1234));
    assert_eq!(parse_pid("0"), Some(0));
    assert_eq!(parse_pid("4294967295"), Some(u32::MAX));
    assert_eq!(parse_pid("4294967296"), None);
    assert_eq!(parse_pid("12a"), None);
    assert_eq!(parse_pid("-5"), None);
    assert_eq!(parse_pid("+5"), None);
    assert_eq!(parse_pid(""), None);
    assert_eq!(parse_pid("  \n"), None);
}
