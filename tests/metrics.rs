use node_metrics::error::GenericError;
use node_metrics::metrics::{
    get_cpu_metrics, get_disk_metrics, get_info_metrics, get_memory_metrics, get_network_metrics,
    CpuBaseline, MetricsInterface, Service,
};
use node_metrics::number::parse_sample;

fn body(lines: &[&str]) -> Vec<String> {
    vec![lines.join("\n")]
}

fn chars(s: &str) -> Vec<char> {
    s.chars().collect()
}

#[test]
fn cpu_first_observation_is_zero() {
    let mut base = CpuBaseline::new();
    let out = get_cpu_metrics(
        &mut base,
        &body(&["node_cpu_seconds_total{cpu=\"3\",mode=\"user\"} 12345.67"]),
    )
    .unwrap();
    assert_eq!(out, vec!["3 0.000%".to_string()]);
    assert_eq!(base.entries(), &vec![(3u64, 12_345_670_000u128)]);
}

#[test]
fn cpu_second_observation_delta() {
    let mut base = CpuBaseline::new();
    let first = body(&[
        "node_cpu_seconds_total{cpu=\"0\",mode=\"user\"} 5",
        "node_cpu_seconds_total{cpu=\"0\",mode=\"system\"} 3",
    ]);
    assert_eq!(get_cpu_metrics(&mut base, &first).unwrap(), vec!["0 0.000%".to_string()]);
    assert_eq!(base.get(0), 8_000_000);
    let second = body(&[
        "node_cpu_seconds_total{cpu=\"0\",mode=\"user\"} 6",
        "node_cpu_seconds_total{cpu=\"0\",mode=\"system\"} 4",
    ]);
    assert_eq!(get_cpu_metrics(&mut base, &second).unwrap(), vec!["0 25.000%".to_string()]);
    assert_eq!(base.get(0), 10_000_000);
}

#[test]
fn cpu_idle_iowait_steal_excluded() {
    let mut base = CpuBaseline::new();
    let text = body(&[
        "node_cpu_seconds_total{cpu=\"0\",mode=\"idle\"} 1000",
        "node_cpu_seconds_total{cpu=\"0\",mode=\"iowait\"} 50",
        "node_cpu_seconds_total{cpu=\"0\",mode=\"steal\"} 7",
        "node_cpu_seconds_total{cpu=\"0\",mode=\"user\"} 2",
    ]);
    get_cpu_metrics(&mut base, &text).unwrap();
    assert_eq!(base.get(0), 2_000_000);
}

#[test]
fn cpu_cores_in_ascending_order_and_dropped_cores() {
    let mut base = CpuBaseline::new();
    let text = body(&[
        "node_cpu_seconds_total{cpu=\"10\",mode=\"user\"} 1",
        "node_cpu_seconds_total{cpu=\"2\",mode=\"user\"} 1",
    ]);
    let out = get_cpu_metrics(&mut base, &text).unwrap();
    assert_eq!(out, vec!["2 0.000%".to_string(), "10 0.000%".to_string()]);
    let text = body(&["node_cpu_seconds_total{cpu=\"2\",mode=\"user\"} 1.5"]);
    let out = get_cpu_metrics(&mut base, &text).unwrap();
    assert_eq!(out, vec!["2 50.000%".to_string()]);
    assert_eq!(base.entries(), &vec![(2u64, 1_500_000u128)]);
}

#[test]
fn cpu_decrease_is_absolute() {
    let mut base = CpuBaseline::new();
    get_cpu_metrics(&mut base, &body(&["node_cpu_seconds_total{cpu=\"1\",mode=\"nice\"} 3"]))
        .unwrap();
    let out =
        get_cpu_metrics(&mut base, &body(&["node_cpu_seconds_total{cpu=\"1\",mode=\"nice\"} 2"]))
            .unwrap();
    assert_eq!(out, vec!["1 33.333%".to_string()]);
}

#[test]
fn cpu_reparse_same_text_reports_no_change() {
    let mut base = CpuBaseline::new();
    let text = body(&[
        "node_cpu_seconds_total{cpu=\"0\",mode=\"user\"} 8",
        "node_cpu_seconds_total{cpu=\"1\",mode=\"user\"} 4",
    ]);
    get_cpu_metrics(&mut base, &text).unwrap();
    let again = get_cpu_metrics(&mut base, &text).unwrap();
    assert_eq!(again, vec!["0 0.000%".to_string(), "1 0.000%".to_string()]);
}

#[test]
fn cpu_malformed_value_fails_and_keeps_baseline() {
    let mut base = CpuBaseline::new();
    get_cpu_metrics(&mut base, &body(&["node_cpu_seconds_total{cpu=\"0\",mode=\"user\"} 8"]))
        .unwrap();
    let r = get_cpu_metrics(
        &mut base,
        &body(&["node_cpu_seconds_total{cpu=\"0\",mode=\"user\"} 1.2.3"]),
    );
    assert!(r.is_err());
    assert_eq!(base.get(0), 8_000_000);
}

#[test]
fn memory_lines() {
    let out = get_memory_metrics(&body(&[
        "node_memory_MemTotal_bytes 1000",
        "node_memory_MemAvailable_bytes 400",
    ]))
    .unwrap();
    assert_eq!(
        out,
        vec!["total 1000.00".to_string(), "available 400.00".to_string(), "% used 60.00".to_string()]
    );
}

#[test]
fn memory_fixed_order_and_exponent() {
    let out = get_memory_metrics(&body(&[
        "# HELP node_memory_MemAvailable_bytes Memory information field MemAvailable_bytes.",
        "node_memory_MemAvailable_bytes 4e+09",
        "node_memory_MemTotal_bytes 1.6e+10",
    ]))
    .unwrap();
    assert_eq!(
        out,
        vec![
            "total 16000000000.00".to_string(),
            "available 4000000000.00".to_string(),
            "% used 75.00".to_string()
        ]
    );
}

#[test]
fn memory_zero_total_and_overcommit() {
    assert_eq!(get_memory_metrics(&body(&["nothing here"])).unwrap(), vec!["% used 0.00".to_string()]);
    let out = get_memory_metrics(&body(&[
        "node_memory_MemTotal_bytes 1000",
        "node_memory_MemAvailable_bytes 1200",
    ]))
    .unwrap();
    assert_eq!(out[2], "% used -20.00");
}

#[test]
fn memory_used_line_per_body() {
    let bodies = vec![
        "node_memory_MemTotal_bytes 1000".to_string(),
        "node_memory_MemAvailable_bytes 250".to_string(),
    ];
    let out = get_memory_metrics(&bodies).unwrap();
    assert_eq!(
        out,
        vec![
            "total 1000.00".to_string(),
            "% used 100.00".to_string(),
            "available 250.00".to_string(),
            "% used 75.00".to_string()
        ]
    );
}

#[test]
fn memory_malformed_value_fails() {
    assert!(get_memory_metrics(&body(&["node_memory_MemTotal_bytes 1e"])).is_err());
}

#[test]
fn network_ordering() {
    let out = get_network_metrics(&body(&[
        "node_network_transmit_bytes_total{device=\"eth0\"} 200",
        "node_network_receive_bytes_total{device=\"eth0\"} 100",
    ]))
    .unwrap();
    assert_eq!(
        out,
        vec!["rx [eth0      ] 100.00".to_string(), "tx [eth0      ] 200.00".to_string()]
    );
}

#[test]
fn network_last_value_wins() {
    let out = get_network_metrics(&body(&[
        "node_network_receive_bytes_total{device=\"lo\"} 1",
        "node_network_receive_bytes_total{device=\"eth1\"} 5.005",
        "node_network_receive_bytes_total{device=\"lo\"} 2",
    ]))
    .unwrap();
    assert_eq!(
        out,
        vec!["rx [eth1      ] 5.01".to_string(), "rx [lo        ] 2.00".to_string()]
    );
}

#[test]
fn network_malformed_value_fails() {
    assert!(get_network_metrics(&body(&["node_network_receive_bytes_total{device=\"lo\"} 1+"]))
        .is_err());
}

#[test]
fn disk_labels() {
    let out = get_disk_metrics(&body(&[
        "node_filesystem_size_bytes{device=\"/dev/sda1\",device_error=\"\",fstype=\"ext4\",mountpoint=\"/\"} 1000",
        "node_filesystem_free_bytes{device=\"/dev/sda1\",device_error=\"\",fstype=\"ext4\",mountpoint=\"/\"} 250",
        "node_filesystem_size_bytes{device=\"tmpfs\",device_error=\"\",fstype=\"tmpfs\",mountpoint=\"/run/user-1\"} 9",
    ]))
    .unwrap();
    assert_eq!(
        out,
        vec![
            "free [/dev/sda1      ] 250.00".to_string(),
            "total [/dev/sda1      ] 1000.00".to_string()
        ]
    );
}

#[test]
fn info_tokens() {
    let out = get_info_metrics(&body(&[
        "node_uname_info{domainname=\"(none)\",machine=\"x86_64\",release=\"6.1\",version=\"#1 SMP,12\"} 1",
        "node_load1 0.5",
    ]))
    .unwrap();
    assert_eq!(
        out,
        vec![
            "node_uname_info{domainname=\"(none)\"".to_string(),
            "machine=\"x86_64\"".to_string(),
            "release=\"6.1\"".to_string(),
            "version=\"#1 SMP-12\"} 1".to_string()
        ]
    );
}

#[test]
fn info_ignores_other_records() {
    let out = get_info_metrics(&body(&["# node_uname_info", "x node_dmi_info{a=\"b\"} 1"])).unwrap();
    assert!(out.is_empty());
}

#[test]
fn service_all_metrics() {
    let mut svc: Service = MetricsInterface::new();
    let data = svc
        .get_all_metrics(body(&[
            "node_cpu_seconds_total{cpu=\"0\",mode=\"user\"} 4",
            "node_memory_MemTotal_bytes 200",
            "node_memory_MemAvailable_bytes 50",
            "node_network_receive_bytes_total{device=\"eth0\"} 7",
            "node_dmi_info{bios_vendor=\"x\"} 1",
        ]))
        .unwrap();
    assert_eq!(data.cpu, vec!["0 0.000%".to_string()]);
    assert_eq!(data.memory[2], "% used 75.00");
    assert_eq!(data.network, vec!["rx [eth0      ] 7.00".to_string()]);
    assert!(data.disk.is_empty());
    assert_eq!(data.info, vec!["node_dmi_info{bios_vendor=\"x\"} 1".to_string()]);
    assert_eq!(svc.cpu_state.get(0), 4_000_000);
}

#[test]
fn service_fails_when_a_category_fails() {
    let mut svc = Service::new();
    let r = svc.get_all_metrics(body(&[
        "node_cpu_seconds_total{cpu=\"0\",mode=\"user\"} 4",
        "node_memory_MemTotal_bytes +",
    ]));
    assert!(r.is_err());
}

#[test]
fn sample_tokens() {
    assert_eq!(parse_sample(&chars("12")), Some(12_000_000));
    assert_eq!(parse_sample(&chars("0.25")), Some(250_000));
    assert_eq!(parse_sample(&chars("1.5e+3")), Some(1_500_000_000));
    assert_eq!(parse_sample(&chars("2e3")), Some(2_000_000_000));
    assert_eq!(parse_sample(&chars("1e")), None);
    assert_eq!(parse_sample(&chars("")), None);
    assert_eq!(parse_sample(&chars(".")), None);
    assert_eq!(parse_sample(&chars("1e+99")), None);
}

#[test]
fn error_keeps_its_message() {
    let e = GenericError::new("boom".to_string());
    assert_eq!(e.details(), "boom");
}
