use agentenv::diagnostics::{
    expand_path, layers, metrics_line, parse_required_path, plan_layers, replace, start,
    DiagnosticsGuard,
    stamped_metrics_line, RuntimeSample, TokioConsoleConfig, TokioDiagnosticsConfig,
    TokioRuntimeMetricsConfig, TracingFlameConfig,
};

fn config() -> TokioDiagnosticsConfig {
    TokioDiagnosticsConfig {
        console: TokioConsoleConfig::default(),
        runtime_metrics: TokioRuntimeMetricsConfig::default(),
        flame: TracingFlameConfig::default(),
    }
}

#[test]
fn diagnostics_are_off_by_default() {
    let config = config();
    assert!(!config.console.enabled);
    assert_eq!(config.console.bind_addr, "0.0.0.0:6669");
    assert!(!config.runtime_metrics.enabled);
    assert_eq!(config.runtime_metrics.interval_secs, 10);
    assert!(!config.flame.enabled);
}

#[test]
fn output_paths_are_expanded_and_anchored() {
    let mut config = config();
    config.flame.output_path = b"flame/out.folded".to_vec();
    config.normalize_paths(b"/home/aenv", b"/etc/aenv");
    assert_eq!(config.runtime_metrics.output_path, b"/home/aenv/logs/tokio-metrics.log");
    assert_eq!(config.flame.output_path, b"/etc/aenv/flame/out.folded");
    config.normalize_paths(b"/elsewhere", b"/etc/other");
    assert_eq!(config.runtime_metrics.output_path, b"/home/aenv/logs/tokio-metrics.log");
    assert_eq!(config.flame.output_path, b"/etc/aenv/flame/out.folded");
}

#[test]
fn placeholders_are_replaced_everywhere() {
    assert_eq!(expand_path(b"$AENV_HOME/$AENV_HOME/x", b"/h", b"/c"), b"/h//h/x");
    assert_eq!(expand_path(b"a/$AENV_HOME", b"h", b"/c/"), b"/c/a/h");
    assert_eq!(expand_path(b"$AENV_HOM/x", b"/h", b"/c"), b"/c/$AENV_HOM/x");
    // A path that is not UTF-8 is only anchored; such a home is shown lossily.
    assert_eq!(
        expand_path(b"\xff$AENV_HOME", b"/h", b"/c"),
        b"/c/\xff$AENV_HOME"
    );
    assert_eq!(
        expand_path(b"$AENV_HOME/x", b"/\xff", b"/c"),
        "/\u{fffd}/x".as_bytes()
    );
    assert_eq!(replace("aaaa", "aa", "b"), "bb");
    assert_eq!(replace("aaa", "aa", "b"), "ba");
    assert_eq!(replace("\u{e9}x\u{e9}", "\u{e9}", "--"), "--x--");
    assert_eq!(replace("abc", "", "x"), "abc");
}

#[test]
fn environment_paths_are_trimmed() {
    assert_eq!(parse_required_path("  /x/y \t"), b"/x/y");
    assert_eq!(parse_required_path(" \n"), b"");
}

#[test]
fn layers_come_flame_first() {
    let mut config = config();
    config.flame.enabled = true;
    config.console.enabled = true;
    let (made, guard, warnings) =
        layers(&config, Some(Ok(("flame", 1u8))), Some(Ok(("console", 'c'))));
    assert_eq!(made, vec!["flame", "console"]);
    assert_eq!(guard.flame_guard, Some(1));
    assert_eq!(guard.console_server, Some('c'));
    assert!(warnings.is_empty());
    let plan = plan_layers(&config);
    assert_eq!(plan.flame, Some(b"$AENV_HOME/logs/tracing-flame.folded".to_vec()));
    assert_eq!(plan.console, Some("0.0.0.0:6669".to_string()));
}

#[test]
fn disabled_layers_are_left_out() {
    let config = config();
    let plan = plan_layers(&config);
    assert!(plan.flame.is_none());
    assert!(plan.console.is_none());
    let (made, guard, warnings) =
        layers(&config, Some(Ok(("flame", 1u8))), Some(Ok(("console", 'c'))));
    assert!(made.is_empty());
    assert!(guard.flame_guard.is_none());
    assert!(guard.console_server.is_none());
    assert!(warnings.is_empty());
}

#[test]
fn layers_that_fail_are_skipped() {
    let mut config = config();
    config.flame.enabled = true;
    config.flame.output_path = b"/x.folded".to_vec();
    config.console.enabled = true;
    config.console.bind_addr = "nowhere".to_string();
    let (made, guard, warnings) = layers::<&str, char, u8>(
        &config,
        Some(Err("denied".to_string())),
        Some(Err("invalid socket address syntax".to_string())),
    );
    assert!(made.is_empty());
    assert!(guard.flame_guard.is_none());
    assert!(guard.console_server.is_none());
    assert_eq!(
        warnings,
        vec![
            "failed to create tracing flame output /x.folded: denied",
            "invalid tokio_diagnostics.console.bind_addr \"nowhere\": invalid socket address syntax",
        ]
    );
}

#[test]
fn start_takes_the_console_server_once() {
    let mut config = config();
    config.runtime_metrics.enabled = true;
    config.runtime_metrics.interval_secs = 0;
    let mut guard = DiagnosticsGuard { console_server: Some('c'), flame_guard: Some(1u8) };
    let plan = start(&config, &mut guard);
    assert_eq!(plan.console_server, Some('c'));
    assert_eq!(
        plan.metrics,
        Some((1, b"$AENV_HOME/logs/tokio-metrics.log".to_vec()))
    );
    assert_eq!(guard.take_console_server(), None);
    assert_eq!(guard.flame_guard, Some(1));
    config.runtime_metrics.enabled = false;
    assert!(start(&config, &mut guard).metrics.is_none());
    let empty: DiagnosticsGuard<u8, u8> = DiagnosticsGuard::default();
    assert!(empty.console_server.is_none());
}

fn sample() -> RuntimeSample {
    RuntimeSample {
        workers: 8,
        live_tasks: 120,
        busy_ratio: "0.125".to_string(),
        mean_poll_us: 15,
        worker_max_mean_poll_us: 99,
        total_polls: 10_000,
        global_queue_depth: 0,
        max_local_queue_depth: 3,
        blocking_queue_depth: 1,
        overflow_count: 2,
        budget_forced_yields: 4,
        io_driver_ready: 77,
    }
}

#[test]
fn metrics_lines_are_exact() {
    let sample = sample();
    assert_eq!(
        metrics_line("2026-01-02T03:04:05Z", &sample),
        "2026-01-02T03:04:05Z workers=8 live_tasks=120 busy_ratio=0.125 \
         mean_poll_us=15 worker_max_mean_poll_us=99 total_polls=10000 \
         global_queue_depth=0 max_local_queue_depth=3 blocking_queue_depth=1 \
         overflow_count=2 budget_forced_yields=4 io_driver_ready=77\n"
    );
}

#[test]
fn metrics_lines_are_stamped_in_utc() {
    let line = stamped_metrics_line(1_546_300_800_000_000_000, &sample());
    assert_eq!(line, metrics_line("2019-01-01T00:00:00Z", &sample()));
    let line = stamped_metrics_line(1_546_300_800_250_000_000, &sample());
    assert_eq!(line, metrics_line("2019-01-01T00:00:00.25Z", &sample()));
}

#[test]
fn points_in_time_without_a_text_leave_the_stamp_empty() {
    assert_eq!(stamped_metrics_line(i128::MAX, &sample()), metrics_line("", &sample()));
    let year_before_zero: i128 = -70_000_000_000 * 1_000_000_000;
    assert_eq!(stamped_metrics_line(year_before_zero, &sample()), metrics_line("", &sample()));
}

#[test]
fn normalizing_twice_changes_nothing() {
    for raw in [
        &b"$AENV_HOME/logs/x"[..],
        b"logs/$AENV_HOME/x",
        b"$AE$AENV_HOMENV_HOME",
        b"$$AENV_HOME_HOME",
        b"\xff$AENV_HOME",
        b"plain",
        b"",
    ] {
        for config_dir in [&b"/etc/aenv"[..], b"/"] {
            let once = expand_path(raw, b"/home/aenv", config_dir);
            assert_eq!(once[0], b'/');
            assert_eq!(expand_path(&once, b"/home/aenv", config_dir), once);
        }
    }
    assert_eq!(
        expand_path(b"$AE$AENV_HOMENV_HOME", b"/h", b"/c"),
        b"/c/$AE/hNV_HOME"
    );
}
