use flashield_lite::cli::{
    parse_command, parse_policy, Command, GenerateOptions, OutputFormat, PolicyKind,
    SimulateOptions,
};
use flashield_lite::generator::{parse_preset, synthetic_size, Lcg, Preset, TraceGenerator};
use flashield_lite::trace::Operation;
use flashield_lite::text::decimal_string;
use flashield_lite::trace::{format_trace_line, parse_trace_line};

fn args(text: &[&str]) -> Vec<String> {
    text.iter().map(|a| a.to_string()).collect()
}

#[test]
fn simulate_options_take_defaults() {
    let o = SimulateOptions::parse(&args(&["--policy", "dram-lru", "--trace", "t.csv"])).unwrap();
    assert_eq!(o.policy, "dram-lru");
    assert_eq!(o.trace, "t.csv");
    assert_eq!(o.dram_capacity, 1024 * 1024);
    assert_eq!(o.flash_capacity, 10 * 1024 * 1024);
    assert_eq!(o.segment_size, 1024 * 1024);
    assert_eq!((o.min_reads, o.max_updates, o.min_age), (2, 1, 2));
}

#[test]
fn simulate_options_read_values() {
    let o = SimulateOptions::parse(&args(&[
        "--trace", "x", "--min-age", "5", "--policy", "naive-flash", "--segment-size", "7",
    ]))
    .unwrap();
    assert_eq!(o.policy, "naive-flash");
    assert_eq!(o.min_age, 5);
    assert_eq!(o.segment_size, 7);
}

#[test]
fn simulate_options_errors() {
    let err = |a: &[&str]| SimulateOptions::parse(&args(a)).err().unwrap();
    assert_eq!(err(&["--trace", "x"]), "missing required option --policy");
    assert_eq!(err(&["--policy", "--trace", "x"]), "--policy requires a value");
    assert_eq!(err(&["--policy", "p", "--trace"]), "--trace requires a value");
    assert_eq!(
        err(&["--policy", "p", "--trace", "x", "--min-reads", "two"]),
        "--min-reads must be an unsigned integer"
    );
    assert_eq!(
        err(&["--policy", "p", "--trace", "x", "extra"]),
        "unexpected argument: extra"
    );
    assert_eq!(
        err(&["--policy", "p", "--trace", "x", "--segment-size", "0"]),
        "--segment-size must be greater than zero"
    );
}

#[test]
fn generate_options_parse() {
    let o = GenerateOptions::parse(&args(&["--output", "o.csv", "--keys", "3"])).unwrap();
    assert_eq!(o.output, "o.csv");
    assert_eq!(o.requests, 10_000);
    assert_eq!(o.keys, 3);
    assert_eq!(
        GenerateOptions::parse(&args(&[])).err().unwrap(),
        "missing required option --output"
    );
}

#[test]
fn commands_and_policies_parse() {
    assert_eq!(parse_command(&args(&["prog", "simulate"])), Ok(Command::Simulate));
    assert_eq!(
        parse_command(&args(&["prog", "generate-trace", "--x"])),
        Ok(Command::GenerateTrace)
    );
    assert_eq!(parse_command(&args(&["prog", "-h"])), Ok(Command::Help));
    assert_eq!(parse_command(&args(&["prog"])), Err("missing command".to_string()));
    assert_eq!(
        parse_command(&args(&["prog", "run"])),
        Err("unknown command: run".to_string())
    );
    assert_eq!(parse_policy("flashield-lite"), Ok(PolicyKind::FlashieldLite));
    assert_eq!(
        parse_policy("lfu"),
        Err("unknown policy: lfu".to_string())
    );
}

#[test]
fn lcg_steps_deterministically() {
    let mut rng = Lcg::new(0);
    assert_eq!(rng.next(), 1442695040888963407);
    assert_eq!(
        rng.next(),
        1442695040888963407u64
            .wrapping_mul(6364136223846793005)
            .wrapping_add(1442695040888963407)
    );
    assert_eq!(rng.range(0), 0);
    let mut a = Lcg::new(7);
    let mut b = Lcg::new(7);
    assert_eq!(a.range(10), b.next() % 10);
}

#[test]
fn synthetic_sizes_come_from_the_table() {
    let mut rng = Lcg::new(123);
    for _ in 0..100 {
        let size = synthetic_size(&mut rng);
        assert!([64, 128, 256, 512, 1024, 4096].contains(&size));
    }
}

#[test]
fn generator_sets_unknown_keys_first() {
    let mut generator = TraceGenerator::new(5, Preset::Mixed);
    let mut known = [false; 5];
    for timestamp in 1..=500 {
        let event = generator.next_event(timestamp);
        assert_eq!(event.timestamp, timestamp);
        let index: usize = event.key["synthetic:".len()..].parse().unwrap();
        assert!(index < 5);
        if !known[index] {
            assert_eq!(event.op, flashield_lite::trace::Operation::Put);
        }
        match event.op {
            flashield_lite::trace::Operation::Put => known[index] = true,
            flashield_lite::trace::Operation::Delete => known[index] = false,
            _ => {}
        }
    }
}

#[test]
fn decimal_strings() {
    assert_eq!(decimal_string(0), "0");
    assert_eq!(decimal_string(1234567890), "1234567890");
    assert_eq!(decimal_string(u64::MAX), u64::MAX.to_string());
}

#[test]
fn generated_lines_parse_back() {
    let mut generator = TraceGenerator::new(1000, Preset::Mixed);
    for timestamp in 1..=200 {
        let event = generator.next_event(timestamp);
        let line = format_trace_line(&event);
        assert_eq!(parse_trace_line(&line).unwrap(), event);
    }
}

#[test]
fn zero_keys_means_one_key() {
    let mut generator = TraceGenerator::new(0, Preset::Mixed);
    for timestamp in 1..=20 {
        assert_eq!(generator.next_event(timestamp).key, "synthetic:0");
    }
}

#[test]
fn simulate_options_select_json_output() {
    let o = SimulateOptions::parse(&args(&[
        "--policy", "flashield-lite", "--trace", "t.csv", "--output-format", "json",
    ]))
    .unwrap();
    assert_eq!(o.output_format, OutputFormat::Json);
    assert_eq!(o.policy, "flashield-lite");
    let text = SimulateOptions::parse(&args(&["--policy", "p", "--trace", "t"])).unwrap();
    assert_eq!(text.output_format, OutputFormat::Text);
    assert_eq!(
        SimulateOptions::parse(&args(&["--policy", "p", "--trace", "t", "--output-format", "xml"]))
            .err()
            .unwrap(),
        "--output-format must be text or json"
    );
}

#[test]
fn simulate_options_carry_learned_policy_knobs() {
    let o = SimulateOptions::parse(&args(&[
        "--policy", "flashield-ml", "--trace", "t", "--ml-threshold", "0.7",
        "--ml-learning-rate", "0.01",
    ]))
    .unwrap();
    assert_eq!(o.ml_threshold, Some("0.7".to_string()));
    assert_eq!(o.ml_learning_rate, Some("0.01".to_string()));
    let plain = SimulateOptions::parse(&args(&["--policy", "p", "--trace", "t"])).unwrap();
    assert_eq!(plain.ml_threshold, None);
    assert_eq!(plain.ml_learning_rate, None);
    assert_eq!(parse_policy("flashield-ml"), Ok(PolicyKind::FlashieldMl));
}

#[test]
fn generate_options_select_a_preset() {
    let o = GenerateOptions::parse(&args(&["--output", "t.csv", "--preset", "read-heavy"])).unwrap();
    assert_eq!(o.output, "t.csv");
    assert_eq!((o.requests, o.keys), (10_000, 1000));
    assert_eq!(o.preset, Preset::ReadHeavy);
    let d = GenerateOptions::parse(&args(&["--output", "t.csv"])).unwrap();
    assert_eq!(d.preset, Preset::Mixed);
    assert_eq!(
        GenerateOptions::parse(&args(&["--output", "t.csv", "--preset", "zipf"])).err().unwrap(),
        "unknown preset: zipf"
    );
    assert_eq!(parse_preset("update-heavy"), Ok(Preset::UpdateHeavy));
    assert_eq!(parse_preset("mixed"), Ok(Preset::Mixed));
    assert_eq!(Preset::ReadHeavy.mix(), (5, 90, 97));
}

fn count_ops(preset: Preset, op: Operation) -> usize {
    let mut generator = TraceGenerator::new(50, preset);
    (1..=2000u64)
        .filter(|t| generator.next_event(*t).op == op)
        .count()
}

#[test]
fn presets_shift_the_operation_mix() {
    assert!(count_ops(Preset::ReadHeavy, Operation::Get) > count_ops(Preset::Mixed, Operation::Get));
    assert!(
        count_ops(Preset::UpdateHeavy, Operation::Update)
            > count_ops(Preset::Mixed, Operation::Update)
    );
    assert!(
        count_ops(Preset::UpdateHeavy, Operation::Update)
            > count_ops(Preset::UpdateHeavy, Operation::Get)
    );
}
