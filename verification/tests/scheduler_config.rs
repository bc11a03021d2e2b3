use mork_server::scheduler_config::{
    check_workers, default_foreground_transactions, default_poll_interval_ms, default_process_cycles,
    ProcessConfig, SchedulerConfig,
};

fn count(t: &toml::Table, key: &str, default: usize) -> usize {
    t.get(key).map(|v| v.as_integer().unwrap() as usize).unwrap_or(default)
}

fn from_str(source: &str) -> Result<SchedulerConfig, String> {
    let t: toml::Table = source.parse().unwrap();
    let mut processes = Vec::new();
    if let Some(list) = t.get("processes") {
        for p in list.as_array().unwrap() {
            let p = p.as_table().unwrap();
            processes.push(ProcessConfig {
                id: p["id"].as_str().unwrap().to_string(),
                engine: p["engine"].as_str().unwrap().to_string(),
                cycles: count(p, "cycles", default_process_cycles()),
            });
        }
    }
    let config = SchedulerConfig {
        foreground_transactions_per_round: count(
            &t,
            "foreground_transactions_per_round",
            default_foreground_transactions(),
        ),
        poll_interval_ms: count(&t, "poll_interval_ms", default_poll_interval_ms() as usize) as u64,
        processes,
    };
    config.validate().map(|()| config)
}

#[test]
fn parses_valid_config() {
    let config = from_str(
        r#"
            foreground_transactions_per_round = 7
            poll_interval_ms = 5

            [[processes]]
            id = "walker"
            engine = "random_walk"
            cycles = 2
        "#,
    )
    .unwrap();
    assert_eq!(config.foreground_transactions_per_round, 7);
    assert_eq!(config.processes[0].cycles, 2);
}

#[test]
fn rejects_duplicate_process_ids() {
    let error = from_str(
        r#"
            [[processes]]
            id = "same"
            engine = "random_walk"
            [[processes]]
            id = "same"
            engine = "cpq"
        "#,
    )
    .unwrap_err();
    assert!(error.contains("duplicate process id"));
}

#[test]
fn rejects_unknown_engine() {
    let error = from_str(
        r#"
            [[processes]]
            id = "bad"
            engine = "missing"
        "#,
    )
    .unwrap_err();
    assert!(error.contains("unknown engine"));
}

#[test]
fn ecan_example_orders_diffusion_before_rent() {
    let config = from_str(
        r#"
            foreground_transactions_per_round = 1

            [[processes]]
            id = "ecan_af_diffusion"
            engine = "ecan_af_topk"
            cycles = 12

            [[processes]]
            id = "ecan_af_rent"
            engine = "ecan_af_topk"
            cycles = 12
        "#,
    )
    .unwrap();
    assert_eq!(config.foreground_transactions_per_round, 1);
    assert_eq!(config.processes.len(), 2);
    assert_eq!(config.processes[0].id, "ecan_af_diffusion");
    assert_eq!(config.processes[0].engine, "ecan_af_topk");
    assert_eq!(config.processes[0].cycles, 12);
    assert_eq!(config.processes[1].id, "ecan_af_rent");
    assert_eq!(config.processes[1].engine, "ecan_af_topk");
    assert_eq!(config.processes[1].cycles, 12);
}

fn one(id: &str, engine: &str, cycles: usize) -> SchedulerConfig {
    SchedulerConfig {
        foreground_transactions_per_round: 1,
        poll_interval_ms: 1,
        processes: vec![ProcessConfig { id: id.into(), engine: engine.into(), cycles }],
    }
}

#[test]
fn every_fault_has_its_message() {
    assert_eq!(
        (default_foreground_transactions(), default_process_cycles(), default_poll_interval_ms()),
        (10, 1, 10)
    );
    let mut c = one("a", "cpq", 1);
    assert_eq!(c.validate(), Ok(()));
    c.foreground_transactions_per_round = 0;
    assert_eq!(
        c.validate().unwrap_err(),
        "foreground_transactions_per_round must be greater than zero"
    );
    c.foreground_transactions_per_round = 1;
    c.poll_interval_ms = 0;
    assert_eq!(c.validate().unwrap_err(), "poll_interval_ms must be greater than zero");
    assert_eq!(one("", "cpq", 1).validate().unwrap_err(), "process id must not be empty");
    assert_eq!(
        one("a", "cpq", 0).validate().unwrap_err(),
        "cycles for process a must be greater than zero"
    );
    assert_eq!(one("a", "x", 1).validate().unwrap_err(), "unknown engine for process a: x");
}

#[test]
fn workers_are_bounded_by_the_symbol_table() {
    assert_eq!(check_workers(1, 128), Ok(()));
    assert_eq!(check_workers(128, 128), Ok(()));
    assert_eq!(check_workers(0, 128).unwrap_err(), "--workers must be between 1 and 128");
    assert!(check_workers(129, 128).is_err());
}
