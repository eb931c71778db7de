use conductor::telemetry::configure;

#[test]
fn configure_defaults() {
    let config = configure();
    assert_eq!(config.filter_directives, "");
    assert!(!config.force_stdout);
    assert!(!config.no_otel);
}

#[test]
fn filter_directives_replaces_directives() {
    let config = configure().filter_directives("info,conductor=debug");
    assert_eq!(config.filter_directives, "info,conductor=debug");
    assert!(!config.force_stdout);
    assert!(!config.no_otel);
}

#[test]
fn force_stdout_sets_flag() {
    let config = configure().force_stdout();
    assert!(config.force_stdout);
    let config = config.set_force_stdout(false);
    assert!(!config.force_stdout);
}

#[test]
fn no_otel_sets_flag() {
    let config = configure().no_otel();
    assert!(config.no_otel);
    let config = config.set_no_otel(false);
    assert!(!config.no_otel);
}

#[test]
fn setters_keep_other_fields() {
    let config = configure()
        .filter_directives("warn")
        .force_stdout()
        .no_otel();
    assert_eq!(config.filter_directives, "warn");
    assert!(config.force_stdout);
    assert!(config.no_otel);
}
