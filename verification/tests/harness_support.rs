use noraft::parse_usize_arg;
use noraft::format_json_string;
use noraft::BenchConfig;

#[test]
fn parse_reads_flag_values() {
    assert_eq!(parse_usize_arg("--cluster-runs=42", "--cluster-runs="), Some(42));
    assert_eq!(parse_usize_arg("--n=0", "--n="), Some(0));
    assert_eq!(parse_usize_arg("--n=123456789", "--n="), Some(123456789));
}

#[test]
fn parse_rejects_bad_input() {
    // wrong prefix
    assert_eq!(parse_usize_arg("--other=5", "--n="), None);
    // nothing after the prefix
    assert_eq!(parse_usize_arg("--n=", "--n="), None);
    // not a numeral
    assert_eq!(parse_usize_arg("--n=12x", "--n="), None);
    assert_eq!(parse_usize_arg("--n=-3", "--n="), None);
    // too large for usize
    assert_eq!(parse_usize_arg("--n=99999999999999999999999999", "--n="), None);
}

#[test]
fn json_string_escapes() {
    assert_eq!(format_json_string(""), "\"\"");
    assert_eq!(format_json_string("hello"), "\"hello\"");
    assert_eq!(format_json_string("a\\b"), "\"a\\\\b\"");
    assert_eq!(format_json_string("say \"hi\""), "\"say \\\"hi\\\"\"");
}

#[test]
fn bench_config_defaults() {
    let cfg = BenchConfig::default();
    assert_eq!(cfg.micro_create_iters, 10_000);
    assert_eq!(cfg.micro_propose_iters, 100_000);
    assert_eq!(cfg.cluster_runs, 5);
    assert_eq!(cfg.cluster_commands, 100);
}
