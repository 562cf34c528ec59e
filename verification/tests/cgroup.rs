use assay::cgroup::{
    check_cgroup_path, parse_cpu_stat, parse_io_stat, parse_memory_stat, parse_procs, read_counter,
    read_limit, MemoryFiles,
};

#[test]
fn cpu_stat_parser_synthetic() {
    let fixture = "\
usage_usec 1234567
user_usec 555555
system_usec 234567
nr_periods 100
nr_throttled 5
throttled_usec 10000
nr_bursts 2
burst_usec 500
";
    let s = parse_cpu_stat(fixture);
    assert_eq!(s.usage_usec, Some(1_234_567));
    assert_eq!(s.user_usec, Some(555_555));
    assert_eq!(s.system_usec, Some(234_567));
    assert_eq!(s.nr_periods, Some(100));
    assert_eq!(s.nr_throttled, Some(5));
    assert_eq!(s.throttled_usec, Some(10_000));
    assert_eq!(s.nr_bursts, Some(2));
    assert_eq!(s.burst_usec, Some(500));
}

#[test]
fn cpu_stat_parser_missing_burst_fields() {
    let fixture = "\
usage_usec 999
user_usec 111
system_usec 888
nr_periods 10
nr_throttled 0
throttled_usec 0
";
    let s = parse_cpu_stat(fixture);
    assert_eq!(s.usage_usec, Some(999));
    assert_eq!(s.nr_bursts, None);
    assert_eq!(s.burst_usec, None);
}

#[test]
fn io_stat_parser_synthetic() {
    let fixture = "8:0 rbytes=12345 wbytes=678 rios=1 wios=2 dbytes=0 dios=0\n\
                   253:0 rbytes=999 wbytes=111 rios=5 wios=3 dbytes=64 dios=1\n";
    let entries = parse_io_stat(fixture);
    assert_eq!(entries.len(), 2);

    let e0 = &entries[0];
    assert_eq!(e0.device, "8:0");
    assert_eq!(e0.rbytes, 12_345);
    assert_eq!(e0.wbytes, 678);
    assert_eq!(e0.rios, 1);
    assert_eq!(e0.wios, 2);
    assert_eq!(e0.dbytes, 0);
    assert_eq!(e0.dios, 0);

    let e1 = &entries[1];
    assert_eq!(e1.device, "253:0");
    assert_eq!(e1.rbytes, 999);
    assert_eq!(e1.rios, 5);
    assert_eq!(e1.dbytes, 64);
}

#[test]
fn io_stat_parser_empty() {
    let entries = parse_io_stat("");
    assert!(entries.is_empty());
}

#[test]
fn memory_parser_synthetic() {
    let files = MemoryFiles {
        current: Some("102400\n".to_string()),
        max: Some("max\n".to_string()),
        swap_current: Some("4096\n".to_string()),
        swap_max: Some("8192\n".to_string()),
        peak: Some("204800\n".to_string()),
        low: Some("0\n".to_string()),
        high: Some("max\n".to_string()),
        events: Some("oom 3\noom_kill 1\n".to_string()),
    };
    let m = parse_memory_stat(&files);
    assert_eq!(m.current, Some(102_400));
    assert_eq!(m.max, None, "sentinel 'max' should map to None");
    assert_eq!(m.swap_current, Some(4_096));
    assert_eq!(m.swap_max, Some(8_192));
    assert_eq!(m.peak, Some(204_800));
    assert_eq!(m.low, Some(0));
    assert_eq!(m.high, None);
    assert_eq!(m.oom, Some(3));
    assert_eq!(m.oom_kill, Some(1));
}

#[test]
fn a_missing_memory_file_reads_as_none() {
    let files = MemoryFiles {
        current: None,
        max: None,
        swap_current: None,
        swap_max: None,
        peak: None,
        low: None,
        high: None,
        events: None,
    };
    let m = parse_memory_stat(&files);
    assert_eq!(m.current, None);
    assert_eq!(m.oom, None);
    assert_eq!(m.oom_kill, None);
}

#[test]
fn the_last_of_two_lines_with_one_key_wins() {
    let s = parse_cpu_stat("usage_usec 1\nusage_usec 2\nuser_usec nope\n");
    assert_eq!(s.usage_usec, Some(2));
    assert_eq!(s.user_usec, None);
}

#[test]
fn an_unparsable_io_field_reads_as_zero() {
    let entries = parse_io_stat("  8:0 rbytes=abc wbytes=7 junk\n\n");
    assert_eq!(entries.len(), 1);
    assert_eq!(entries[0].rbytes, 0);
    assert_eq!(entries[0].wbytes, 7);
}

#[test]
fn limits_read_max_as_no_limit() {
    assert_eq!(read_limit(&Some(" max\n".to_string())), None);
    assert_eq!(read_limit(&Some("4096\n".to_string())), Some(4096));
    assert_eq!(read_counter(&Some("12\n".to_string())), Some(12));
    assert_eq!(read_counter(&Some("x".to_string())), None);
    assert_eq!(read_counter(&None), None);
}

#[test]
fn procs_lists_the_numbers_it_can_read() {
    assert_eq!(parse_procs("1\n 22 \n\nabc\n333\n"), vec![1, 22, 333]);
}

#[test]
fn paths_outside_the_cgroup_tree_are_refused() {
    assert!(check_cgroup_path("/sys/fs/cgroup").is_ok());
    assert!(check_cgroup_path("/sys/fs/cgroup/system.slice").is_ok());
    let err = check_cgroup_path("/etc").unwrap_err();
    assert!(err.contains("must start with /sys/fs/cgroup"), "wrong error: {err}");
    assert_eq!(err, "cgroup: path must start with /sys/fs/cgroup, got \"/etc\"");
    assert!(check_cgroup_path("/sys/fs/cgroupx").is_err());
}

