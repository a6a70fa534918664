use std::cell::Cell;
use std::rc::Rc;

use metricsdb::codec::{decode, decode_all, encode, Record, RECORD_LEN};
use metricsdb::error::{ReporterError, StorageError};
use metricsdb::query::{file_sort_key, parse_stamp, query_files, stable_order_by, StoredFile, UNNAMED_KEY};
use metricsdb::reporter::{metric, Lifecycle, Metric, Registry, Reporter};
use metricsdb::storage::{
    account_put, expired_files, is_expired, needs_rotation, Engine, FileEntry, PutTarget, ROTATION_THRESHOLD,
};

const DAY: i64 = 86400;

#[test]
fn encode_is_big_endian_value_then_timestamp() {
    let bytes = encode(42.0f64.to_bits(), 0x0102030405060708);
    let mut expected = 42.0f64.to_be_bytes().to_vec();
    expected.extend_from_slice(&[1, 2, 3, 4, 5, 6, 7, 8]);
    assert_eq!(bytes, expected);
    assert_eq!(bytes.len(), RECORD_LEN);
}

#[test]
fn round_trip_keeps_every_bit_pattern() {
    let values = [0.0f64, -0.0, 1.5, f64::INFINITY, f64::NEG_INFINITY, f64::MIN_POSITIVE];
    for v in values {
        for t in [0u64, 1, 1_700_000_000, u64::MAX] {
            let r = decode(&encode(v.to_bits(), t)).unwrap();
            assert_eq!(r.value_bits, v.to_bits());
            assert_eq!(r.timestamp, t);
        }
    }
    let nan_bits = 0x7ff8_0000_dead_beefu64;
    let r = decode(&encode(nan_bits, 9)).unwrap();
    assert_eq!(r.value_bits, nan_bits);
    assert!(f64::from_bits(r.value_bits).is_nan());
}

#[test]
fn decode_refuses_wrong_length() {
    assert_eq!(decode(&[0u8; 15]), Err(StorageError::MalformedRecord));
    assert_eq!(decode(&[0u8; 17]), Err(StorageError::MalformedRecord));
    assert_eq!(decode(&[]), Err(StorageError::MalformedRecord));
}

#[test]
fn decode_all_stops_at_last_whole_record() {
    let mut bytes = encode(1.0f64.to_bits(), 10);
    bytes.extend(encode(2.0f64.to_bits(), 20));
    let (recs, partial) = decode_all(&bytes);
    assert!(!partial);
    assert_eq!(recs, vec![
        Record { value_bits: 1.0f64.to_bits(), timestamp: 10 },
        Record { value_bits: 2.0f64.to_bits(), timestamp: 20 },
    ]);
    bytes.extend_from_slice(&[1, 2, 3]);
    let (recs, partial) = decode_all(&bytes);
    assert!(partial);
    assert_eq!(recs.len(), 2);
    let (recs, partial) = decode_all(&[]);
    assert!(!partial);
    assert!(recs.is_empty());
}

#[test]
fn rotation_threshold_is_exclusive() {
    assert_eq!(ROTATION_THRESHOLD, 1_048_576);
    assert!(!needs_rotation(0));
    assert!(!needs_rotation(1_048_576));
    assert!(needs_rotation(1_048_577));
}

#[test]
fn retention_removes_eight_days_keeps_six() {
    let now: i64 = 1_700_000_000;
    assert!(is_expired(now - 8 * DAY, now));
    assert!(!is_expired(now - 6 * DAY, now));
    assert!(!is_expired(now - 7 * DAY, now));
    assert!(is_expired(now - 7 * DAY - 1, now));
    assert!(!is_expired(i64::MIN, i64::MIN + 5));
    let entries = vec![
        FileEntry { path: "db/cpu/old".to_string(), modified: now - 8 * DAY },
        FileEntry { path: "db/cpu/new".to_string(), modified: now - 6 * DAY },
        FileEntry { path: "db/mem/old".to_string(), modified: now - 30 * DAY },
    ];
    assert_eq!(expired_files(&entries, now), vec!["db/cpu/old".to_string(), "db/mem/old".to_string()]);
}

#[test]
fn paths_are_named_by_minute() {
    let engine = Engine::new("db".to_string());
    assert_eq!(engine.root_dir(), "db");
    assert_eq!(engine.metric_dir("cpu"), "db/cpu");
    assert_eq!(engine.new_file_path("cpu", 0), Some("db/cpu/197001010000".to_string()));
    assert_eq!(
        engine.new_file_path("cpu", 1_704_205_859),
        Some("db/cpu/202401021430".to_string())
    );
}

#[test]
fn put_plan_creates_then_appends() {
    let mut engine = Engine::new("db".to_string());
    let cpu = "cpu".to_string();
    assert_eq!(engine.active_file(&cpu), None);
    match engine.plan_put(&cpu, 60) {
        Ok(PutTarget::Create { dir, path }) => {
            assert_eq!(dir, "db/cpu");
            assert_eq!(path, "db/cpu/197001010001");
            engine.set_active(cpu.clone(), path);
        }
        _ => panic!("expected a new file"),
    }
    match engine.plan_put(&cpu, 600) {
        Ok(PutTarget::Append { path }) => assert_eq!(path, "db/cpu/197001010001"),
        _ => panic!("expected the active file"),
    }
    assert_eq!(engine.plan_rotation("cpu", 1_048_576, 120), Ok(None));
    assert_eq!(
        engine.plan_rotation("cpu", 1_048_592, 120),
        Ok(Some("db/cpu/197001010002".to_string()))
    );
    engine.set_active(cpu.clone(), "db/cpu/197001010002".to_string());
    assert_eq!(engine.active_file(&cpu), Some("db/cpu/197001010002".to_string()));
}

#[test]
fn put_plan_fails_on_unnameable_instant() {
    let engine = Engine::new("db".to_string());
    assert!(matches!(engine.plan_put(&"cpu".to_string(), i64::MAX), Err(StorageError::OpenFileFailed)));
    assert_eq!(engine.plan_rotation("cpu", 2_000_000, i64::MAX), Err(StorageError::OpenFileFailed));
}

#[test]
fn rotation_after_threshold_gives_two_files() {
    let mut engine = Engine::new("db".to_string());
    let m = "m".to_string();
    let mut files: Vec<(String, u64)> = Vec::new();
    let mut now: i64 = 0;
    let mut written: u64 = 0;
    while written <= ROTATION_THRESHOLD + 16 * 10 {
        let path = match engine.plan_put(&m, now).unwrap() {
            PutTarget::Append { path } => path,
            PutTarget::Create { path, .. } => {
                engine.set_active(m.clone(), path.clone());
                files.push((path.clone(), 0));
                path
            }
        };
        let slot = files.iter_mut().find(|f| f.0 == path).unwrap();
        slot.1 += RECORD_LEN as u64;
        written += RECORD_LEN as u64;
        let size = slot.1;
        now += 1;
        if let Some(next) = engine.plan_rotation("m", size, now).unwrap() {
            engine.set_active(m.clone(), next.clone());
            files.push((next, 0));
        }
    }
    assert_eq!(files.len(), 2);
    assert!(files[0].1 >= 1_048_576);
    assert_eq!(files[0].1, 1_048_592);
    assert_eq!(files[1].1, written - 1_048_592);
}

#[test]
fn isolation_of_metric_directories() {
    let engine = Engine::new("db".to_string());
    let a = engine.new_file_path("a", 0).unwrap();
    let b = engine.new_file_path("b", 0).unwrap();
    let ab = engine.new_file_path("ab", 0).unwrap();
    assert!(a.starts_with("db/a/"));
    assert!(!a.starts_with("db/b/"));
    assert!(!b.starts_with("db/a/"));
    assert!(!ab.starts_with("db/a/"));
}

#[test]
fn stamps_parse_only_twelve_digits() {
    assert_eq!(parse_stamp("202401021530"), Some(202401021530));
    assert_eq!(parse_stamp("000000000000"), Some(0));
    assert_eq!(parse_stamp("20240102153"), None);
    assert_eq!(parse_stamp("2024010215301"), None);
    assert_eq!(parse_stamp("20240102153a"), None);
    assert_eq!(parse_stamp(""), None);
    assert_eq!(file_sort_key("junk"), UNNAMED_KEY);
    assert_eq!(file_sort_key("197001010001"), 197001010001);
}

#[test]
fn stable_order_keeps_ties() {
    assert_eq!(stable_order_by(&vec![5, 1, 5, 0, 1]), vec![3, 1, 4, 0, 2]);
    assert_eq!(stable_order_by(&vec![]), Vec::<usize>::new());
}

#[test]
fn query_orders_files_by_stamp() {
    let mut late = encode(3.0f64.to_bits(), 300);
    late.extend(encode(4.0f64.to_bits(), 301));
    let files = vec![
        StoredFile { name: "202401010002".to_string(), bytes: late },
        StoredFile { name: "notes".to_string(), bytes: encode(9.0f64.to_bits(), 900) },
        StoredFile { name: "202401010001".to_string(), bytes: encode(1.0f64.to_bits(), 100) },
    ];
    let r = query_files(&files);
    assert_eq!(r.order, vec![2, 0, 1]);
    let got: Vec<(u64, f64)> =
        r.records.iter().map(|x| (x.timestamp, f64::from_bits(x.value_bits))).collect();
    assert_eq!(got, vec![(100, 1.0), (300, 3.0), (301, 4.0), (900, 9.0)]);
    assert!(r.malformed.is_empty());
}

#[test]
fn query_reports_partial_file() {
    let mut bytes = encode(1.0f64.to_bits(), 1);
    bytes.push(7);
    let files = vec![StoredFile { name: "202401010001".to_string(), bytes }];
    let r = query_files(&files);
    assert_eq!(r.records.len(), 1);
    assert_eq!(r.malformed, vec!["202401010001".to_string()]);
}

#[test]
fn put_then_query_returns_only_that_point() {
    let t0: u64 = 1_700_000_000;
    let mut engine = Engine::new("db".to_string());
    let cpu = "cpu".to_string();
    let path = match engine.plan_put(&cpu, t0 as i64).unwrap() {
        PutTarget::Create { path, .. } => path,
        PutTarget::Append { .. } => panic!("fresh store has no active file"),
    };
    engine.set_active(cpu, path.clone());
    let name = path.rsplit('/').next().unwrap().to_string();
    let files = vec![StoredFile { name, bytes: encode(42.0f64.to_bits(), t0) }];
    let r = query_files(&files);
    let got: Vec<(u64, f64)> =
        r.records.iter().map(|x| (x.timestamp, f64::from_bits(x.value_bits))).collect();
    assert_eq!(got, vec![(t0, 42.0)]);
}

#[derive(Default)]
struct Counting {
    reports: Rc<Cell<u32>>,
    closes: Rc<Cell<u32>>,
    last_value: Rc<Cell<u64>>,
}

impl Reporter for Counting {
    fn report(&self, metric: Metric) {
        self.reports.set(self.reports.get() + 1);
        self.last_value.set(metric.value_bits);
    }

    fn close(&mut self) {
        self.closes.set(self.closes.get() + 1);
    }
}

struct Quiet;

impl Reporter for Quiet {
    fn report(&self, _metric: Metric) {}
}

#[test]
fn registry_lifecycle() {
    let backend = Counting::default();
    let reports = backend.reports.clone();
    let closes = backend.closes.clone();
    let last = backend.last_value.clone();
    let mut registry: Registry<Counting> = Registry::new();
    assert_eq!(registry.lifecycle(), Lifecycle::Unset);
    assert!(!metric(&registry, "requests", 1.0f64.to_bits(), 5, vec![]));
    assert_eq!(reports.get(), 0);

    let guard = registry.set_reporter(backend).ok().unwrap();
    assert_eq!(registry.lifecycle(), Lifecycle::Live);
    let intruder = Counting::default();
    let intruder_reports = intruder.reports.clone();
    assert_eq!(registry.set_reporter(intruder).err(), Some(ReporterError::AlreadyInitialized));
    assert_eq!(registry.lifecycle(), Lifecycle::Live);

    let dims = vec![("user".to_string(), "alice".to_string())];
    assert!(metric(&registry, "requests", 3.0f64.to_bits(), 6, dims));
    assert!(metric(&registry, "requests", 4.0f64.to_bits(), 7, vec![]));
    assert_eq!(reports.get(), 2);
    assert_eq!(intruder_reports.get(), 0);
    assert_eq!(last.get(), 4.0f64.to_bits());

    assert!(guard.release(&mut registry));
    assert_eq!(closes.get(), 1);
    assert_eq!(registry.lifecycle(), Lifecycle::Closed);
    assert!(!registry.close());
    assert_eq!(closes.get(), 1);
    assert!(!metric(&registry, "requests", 1.0f64.to_bits(), 8, vec![]));
    assert_eq!(reports.get(), 2);
    assert!(registry.set_reporter(Counting::default()).is_err());
}

#[test]
fn close_without_registration_does_nothing() {
    let mut registry: Registry<Quiet> = Registry::new();
    assert!(!registry.close());
    assert_eq!(registry.lifecycle(), Lifecycle::Unset);
    let guard = registry.set_reporter(Quiet).ok().unwrap();
    assert!(registry.emit(Metric::new("x", 0, 0, vec![])));
    assert!(guard.release(&mut registry));
}

#[test]
fn metric_keeps_fields() {
    let dims = vec![("k".to_string(), "v".to_string()), ("k".to_string(), "w".to_string())];
    let m = Metric::new("cpu", 7, 9, dims.clone());
    assert_eq!(m.name, "cpu");
    assert_eq!(m.value_bits, 7);
    assert_eq!(m.timestamp, 9);
    assert_eq!(m.dimensions, dims);
}

#[test]
fn account_put_rotates_after_threshold() {
    let mut sizes: Vec<u64> = Vec::new();
    for _ in 0..65536 {
        account_put(&mut sizes);
    }
    assert_eq!(sizes, vec![1_048_576]);
    account_put(&mut sizes);
    assert_eq!(sizes, vec![1_048_592, 0]);
    for _ in 0..100 {
        account_put(&mut sizes);
    }
    assert_eq!(sizes, vec![1_048_592, 1600]);
}

#[test]
fn nameable_instants_give_twelve_digit_stamps() {
    let engine = Engine::new("db".to_string());
    let last = engine.new_file_path("m", 253_402_300_799).unwrap();
    assert_eq!(last, "db/m/999912312359");
    let stamp = last.rsplit('/').next().unwrap();
    assert_eq!(parse_stamp(stamp), Some(999912312359));
    assert!(engine.plan_put(&"m".to_string(), 253_402_300_799).is_ok());
    assert!(engine.plan_rotation("m", 2_000_000, 0).is_ok());
}

#[test]
fn query_reads_back_a_run_of_records() {
    let points: Vec<(u64, f64)> = vec![(10, 1.0), (11, -2.5), (12, f64::INFINITY), (13, 0.0)];
    let mut bytes = Vec::new();
    for (t, v) in &points {
        bytes.extend(encode(v.to_bits(), *t));
    }
    let r = query_files(&vec![StoredFile { name: "202401010000".to_string(), bytes }]);
    let got: Vec<(u64, f64)> =
        r.records.iter().map(|x| (x.timestamp, f64::from_bits(x.value_bits))).collect();
    assert_eq!(got, points);
    assert!(r.malformed.is_empty());
}
