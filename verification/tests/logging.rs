use quantum_theory_engine::logging::{
    clear_logs, debug, error, filter_logs, get_metrics, get_recent_logs, info, log_with_context,
    record_metric, set_log_level, trace, warn, CheckResult, HealthChecker, LogLevel, Logger, Timer,
    MAX_LOG_ENTRIES,
};
use std::time::Duration;

fn nanos(d: Duration) -> u128 {
    d.as_nanos()
}

#[test]
fn test_logging() {
    let mut logger = Logger::new();
    clear_logs(&mut logger);
    set_log_level(&mut logger, LogLevel::Debug);

    info(&mut logger, "test", "Test message".to_string());
    debug(&mut logger, "test", "Debug message".to_string());

    let logs = get_recent_logs(&logger, 10);
    assert_eq!(logs.len(), 2);
    assert_eq!(logs[0].message, "Test message");
}

#[test]
fn test_metrics() {
    let mut logger = Logger::new();

    logger.record_metric("test_operation", nanos(Duration::from_millis(100)));
    logger.record_metric("test_operation", nanos(Duration::from_millis(200)));

    let metrics = logger.get_metrics();
    assert_eq!(metrics.len(), 1);
    assert_eq!(metrics[0].count, 2);
    assert_eq!(metrics[0].max_duration, nanos(Duration::from_millis(200)));
}

#[test]
fn test_timer() {
    let mut logger = Logger::new();
    clear_logs(&mut logger);
    {
        let timer = Timer::new("test_timer".to_string());
        let mut spin = 0u64;
        while timer.elapsed() < nanos(Duration::from_millis(10)) {
            spin += 1;
        }
        assert!(spin > 0);
        timer.record(&mut logger);
    }
    let metrics = get_metrics(&logger);
    let test_metric = metrics.iter().find(|m| m.name == "test_timer");
    assert!(test_metric.is_some());
    assert!(test_metric.unwrap().avg_duration >= nanos(Duration::from_millis(10)));
}

#[test]
fn test_health_checker() {
    let mut checker: HealthChecker<Box<dyn Fn() -> CheckResult>> = HealthChecker::new();

    checker.register_check(
        "always_pass".to_string(),
        Box::new(|| CheckResult { passed: true, message: "OK".to_string(), details: "{}".to_string() }),
    );

    checker.register_check(
        "always_fail".to_string(),
        Box::new(|| CheckResult { passed: false, message: "FAIL".to_string(), details: "{}".to_string() }),
    );

    let status = checker.run_checks();
    assert!(!status.healthy); // Should fail because one check fails
    assert_eq!(status.checks.len(), 2);
}

#[test]
fn test_logging_system() {
    let mut logger = Logger::new();
    clear_logs(&mut logger);
    set_log_level(&mut logger, LogLevel::Debug);

    info(&mut logger, "integration_test", "Test message 1".to_string());
    debug(&mut logger, "integration_test", "Test message 2".to_string());
    error(&mut logger, "integration_test", "Test error".to_string());

    let logs = get_recent_logs(&logger, 10);
    assert_eq!(logs.len(), 3);

    let errors = filter_logs(&logger, LogLevel::Error, None);
    assert_eq!(errors.len(), 1);
    assert_eq!(errors[0].message, "Test error");
}

#[test]
fn test_performance_metrics() {
    let mut logger = Logger::new();
    clear_logs(&mut logger);
    record_metric(&mut logger, "operation", nanos(Duration::from_millis(50)));
    record_metric(&mut logger, "operation", nanos(Duration::from_millis(150)));
    record_metric(&mut logger, "other", 7);
    let metrics = get_metrics(&logger);
    assert_eq!(metrics.len(), 2);
    let op = &metrics[0];
    assert_eq!(op.name, "operation");
    assert_eq!(op.count, 2);
    assert_eq!(op.duration, nanos(Duration::from_millis(200)));
    assert_eq!(op.avg_duration, nanos(Duration::from_millis(100)));
    assert_eq!(op.min_duration, nanos(Duration::from_millis(50)));
    assert_eq!(op.max_duration, nanos(Duration::from_millis(150)));
    assert_eq!((metrics[1].name.as_str(), metrics[1].count, metrics[1].avg_duration), ("other", 1, 7));
}

#[test]
fn test_health_checks() {
    let mut checker: HealthChecker<Box<dyn Fn() -> CheckResult>> = HealthChecker::new();
    checker.register_check(
        "memory".to_string(),
        Box::new(|| CheckResult {
            passed: true,
            message: "Memory usage normal".to_string(),
            details: "{\"allocated_mb\":\"unknown\"}".to_string(),
        }),
    );
    checker.register_check(
        "cpu".to_string(),
        Box::new(|| CheckResult {
            passed: true,
            message: "CPU usage normal".to_string(),
            details: "{\"usage_percent\":\"unknown\"}".to_string(),
        }),
    );
    let status = checker.run_checks();
    assert!(status.healthy);
    assert!(!status.checks.is_empty());
    assert_eq!(status.checks[0].0, "memory");
    assert!(status.timestamp > 1_600_000_000_000);
    // a check of the same name takes the place of the old one
    checker.register_check(
        "memory".to_string(),
        Box::new(|| CheckResult { passed: false, message: "low".to_string(), details: "{}".to_string() }),
    );
    let status = checker.run_checks();
    assert!(!status.healthy);
    assert_eq!(status.checks.len(), 2);
    assert_eq!(status.checks[0].1.message, "low");
    let none: HealthChecker<Box<dyn Fn() -> CheckResult>> = HealthChecker::new();
    assert!(none.run_checks().healthy);
}

#[test]
fn threshold_drops_lower_levels() {
    let mut logger = Logger::new();
    assert!(!trace(&mut logger, "m", "t".to_string()));
    assert!(!debug(&mut logger, "m", "d".to_string()));
    assert!(info(&mut logger, "m", "i".to_string()));
    assert!(warn(&mut logger, "m", "w".to_string()));
    assert!(error(&mut logger, "m", "e".to_string()));
    let kept: Vec<String> = get_recent_logs(&logger, 10).into_iter().map(|e| e.message).collect();
    assert_eq!(kept, vec!["i", "w", "e"]);
    set_log_level(&mut logger, LogLevel::Error);
    assert!(!warn(&mut logger, "m", "w2".to_string()));
    set_log_level(&mut logger, LogLevel::Trace);
    assert!(trace(&mut logger, "m", "t2".to_string()));
    assert_eq!(get_recent_logs(&logger, 1)[0].message, "t2");
    assert_eq!(get_recent_logs(&logger, 0).len(), 0);
    assert!(LogLevel::Warn.at_least(LogLevel::Warn) && !LogLevel::Info.at_least(LogLevel::Warn));
    assert!(LogLevel::Trace < LogLevel::Error);
}

#[test]
fn filter_by_level_and_module() {
    let mut logger = Logger::new();
    info(&mut logger, "a", "1".to_string());
    error(&mut logger, "b", "2".to_string());
    warn(&mut logger, "a", "3".to_string());
    error(&mut logger, "a", "4".to_string());
    let pick = |level, module| -> Vec<String> {
        filter_logs(&logger, level, module).into_iter().map(|e| e.message).collect()
    };
    assert_eq!(pick(LogLevel::Info, None), vec!["1", "2", "3", "4"]);
    assert_eq!(pick(LogLevel::Warn, Some("a")), vec!["3", "4"]);
    assert_eq!(pick(LogLevel::Error, Some("b")), vec!["2"]);
    assert_eq!(pick(LogLevel::Error, Some("c")), Vec::<String>::new());
}

#[test]
fn log_keeps_the_newest_entries() {
    let mut logger = Logger::new();
    for k in 0..(MAX_LOG_ENTRIES + 5) {
        assert!(logger.log_at(k as i64, LogLevel::Info, "m", k.to_string(), vec![]));
    }
    let all = get_recent_logs(&logger, usize::MAX);
    assert_eq!(all.len(), MAX_LOG_ENTRIES);
    assert_eq!(all[0].message, "5");
    assert_eq!(all[0].timestamp, 5);
    assert_eq!(all[MAX_LOG_ENTRIES - 1].message, (MAX_LOG_ENTRIES + 4).to_string());
    clear_logs(&mut logger);
    assert!(get_recent_logs(&logger, 10).is_empty());
    assert!(get_metrics(&logger).is_empty());
}

#[test]
fn context_and_time_are_recorded() {
    let mut logger = Logger::new();
    let context = vec![("job".to_string(), "42".to_string())];
    assert!(log_with_context(&mut logger, LogLevel::Warn, "queue", "slow".to_string(), context.clone()));
    let entry = &get_recent_logs(&logger, 1)[0];
    assert_eq!(entry.context, context);
    assert_eq!(entry.module, "queue");
    assert_eq!(entry.level, LogLevel::Warn);
    // the stamp is the present time in milliseconds
    assert!(entry.timestamp > 1_600_000_000_000);
}
