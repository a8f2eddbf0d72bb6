use aira_graphdb::bench::{p0_latency_baseline, run_match_latency_probe, P0_SERVER_CONCURRENCY_MIN};
use aira_graphdb::cypher::FloatOps;

struct F64Ops;

impl FloatOps for F64Ops {
    fn float_bits(&self, text: &str) -> u64 {
        text.parse::<f64>().unwrap_or(0.0).to_bits()
    }
    fn int_to_float(&self, v: i64) -> u64 {
        (v as f64).to_bits()
    }
    fn float_le(&self, a: u64, b: u64) -> bool {
        f64::from_bits(a) <= f64::from_bits(b)
    }
    fn float_sum(&self, values: &Vec<u64>) -> u64 {
        values.iter().map(|b| f64::from_bits(*b)).sum::<f64>().to_bits()
    }
    fn float_avg(&self, values: &Vec<u64>) -> u64 {
        if values.is_empty() {
            return 0.0f64.to_bits();
        }
        let sum: f64 = values.iter().map(|b| f64::from_bits(*b)).sum();
        (sum / values.len() as f64).to_bits()
    }
    fn float_min(&self, values: &Vec<u64>) -> u64 {
        let m = values.iter().map(|b| f64::from_bits(*b)).fold(f64::INFINITY, f64::min);
        (if m.is_finite() { m } else { 0.0 }).to_bits()
    }
    fn float_max(&self, values: &Vec<u64>) -> u64 {
        let m = values.iter().map(|b| f64::from_bits(*b)).fold(f64::NEG_INFINITY, f64::max);
        (if m.is_finite() { m } else { 0.0 }).to_bits()
    }
    fn float_text(&self, v: u64) -> String {
        f64::from_bits(v).to_string()
    }
}

#[test]
fn baseline_profile_is_configured() {
    assert_eq!(p0_latency_baseline().name, "P0-LATENCY-BASELINE");
    assert_eq!(p0_latency_baseline().concurrency, 1);
}

#[test]
fn probe_executes_queries() {
    let duration = run_match_latency_probe(100, &F64Ops);
    assert!(duration.as_nanos() > 0);
}

#[test]
fn concurrency_minimum_matches_requirement() {
    assert_eq!(P0_SERVER_CONCURRENCY_MIN, 32);
}

#[test]
fn baseline_profile_limits() {
    let p = p0_latency_baseline();
    assert_eq!(p.expected_p95_ms, 50);
    assert_eq!(p.warmup_queries, 5);
}
