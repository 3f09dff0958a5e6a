use minibit::error::Error;
use minibit::messages::trade;
use std::time::{Duration, Instant};

/// Simple benchmark statistics
#[derive(Debug, Clone)]
struct BenchStats {
    count: usize,
    #[allow(dead_code)]
    total_duration: Duration,
    avg_ns_per_op: u64,
    ops_per_sec: f64,
}

impl BenchStats {
    fn new(count: usize, total_duration: Duration) -> Self {
        let total_ns = total_duration.as_nanos() as u64;
        let avg_ns_per_op = if count > 0 { total_ns / count as u64 } else { 0 };
        let ops_per_sec = if total_ns > 0 {
            (count as f64) * 1_000_000_000.0 / (total_ns as f64)
        } else {
            0.0
        };
        Self { count, total_duration, avg_ns_per_op, ops_per_sec }
    }
}

fn symbol_for(i: usize) -> Option<&'static [u8]> {
    if i % 3 == 0 {
        Some(b"AAPL")
    } else {
        None
    }
}

fn note_for(i: usize) -> Option<&'static [u8]> {
    if i % 5 == 0 {
        Some(b"test note")
    } else {
        None
    }
}

fn bench_trade_encode(count: usize) -> Result<BenchStats, Error> {
    let mut buf = vec![0u8; 1024];
    let start = Instant::now();
    for i in 0..count {
        let _size = trade::encode(
            &mut buf,
            i as u32,
            1_700_000_000_000_000_000,
            50_000_000 + (i as i64 % 1000),
            100 + (i as u32 % 900),
            symbol_for(i),
            note_for(i),
        )?;
    }
    Ok(BenchStats::new(count, start.elapsed()))
}

fn bench_trade_decode(count: usize) -> Result<BenchStats, Error> {
    let mut test_frames = Vec::new();
    let mut buf = vec![0u8; 1024];
    for i in 0..count {
        let size = trade::encode(
            &mut buf,
            i as u32,
            1_700_000_000_000_000_000 + i as u64,
            50_000_000 + (i as i64 % 1000),
            100 + (i as u32 % 900),
            symbol_for(i),
            note_for(i),
        )?;
        test_frames.push(buf[..size].to_vec());
    }
    let start = Instant::now();
    for frame in &test_frames {
        let result = trade::decode(frame)?;
        std::hint::black_box(result);
    }
    Ok(BenchStats::new(count, start.elapsed()))
}

fn bench_trade_roundtrip(count: usize) -> Result<BenchStats, Error> {
    let mut buf = vec![0u8; 1024];
    let start = Instant::now();
    for i in 0..count {
        let size = trade::encode(
            &mut buf,
            i as u32,
            1_700_000_000_000_000_000 + i as u64,
            50_000_000 + (i as i64 % 1000),
            100 + (i as u32 % 900),
            symbol_for(i),
            note_for(i),
        )?;
        let result = trade::decode(&buf[..size])?;
        std::hint::black_box(result);
    }
    Ok(BenchStats::new(count, start.elapsed()))
}

#[test]
fn test_bench_stats() {
    let stats = BenchStats::new(1000, Duration::from_nanos(1_000_000));
    assert_eq!(stats.count, 1000);
    assert_eq!(stats.avg_ns_per_op, 1000);
    assert!((stats.ops_per_sec - 1_000_000.0).abs() < 0.1);
}

#[test]
fn test_trade_encode_bench() {
    let stats = bench_trade_encode(100).unwrap();
    assert_eq!(stats.count, 100);
    assert!(stats.avg_ns_per_op > 0);
    assert!(stats.ops_per_sec > 0.0);
}

#[test]
fn test_trade_decode_bench() {
    let stats = bench_trade_decode(50).unwrap();
    assert_eq!(stats.count, 50);
    assert!(stats.avg_ns_per_op > 0);
}

#[test]
fn test_trade_roundtrip_bench() {
    let stats = bench_trade_roundtrip(50).unwrap();
    assert_eq!(stats.count, 50);
    assert!(stats.avg_ns_per_op > 0);
}
