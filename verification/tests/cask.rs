use std::cell::RefCell;

use monadb::cask::{Cask, LogPtr, LogRecord, LogWriter};
use monadb::error::Error;

/// A log file held in memory: writes append, reads take what a pointer covers.
struct Log {
    bytes: RefCell<Vec<u8>>,
}

impl Log {
    fn new() -> Log {
        Log { bytes: RefCell::new(Cask::new_log()) }
    }

    fn write(&self) -> impl FnOnce(Vec<u8>) -> Result<usize, Error> + '_ {
        move |b: Vec<u8>| {
            self.bytes.borrow_mut().extend_from_slice(&b);
            Ok(b.len())
        }
    }

    fn read(&self) -> impl FnOnce(LogPtr) -> Result<Vec<u8>, Error> + '_ {
        move |p: LogPtr| {
            let bytes = self.bytes.borrow();
            let (a, b) = (p.pos as usize, (p.pos + p.len) as usize);
            Ok(bytes[a..b].to_vec())
        }
    }

    fn snapshot(&self) -> Vec<u8> {
        self.bytes.borrow().clone()
    }
}

fn cask(log: &Log) -> Cask {
    Cask::open(&log.snapshot()).unwrap()
}

fn put_many(cask: &mut Cask, log: &Log, bin: usize, n: usize) {
    for i in 0..n {
        let k = format!("key-{i}").into_bytes();
        let v = format!("val-{i}").into_bytes();
        cask.put(bin, k, v, log.write()).unwrap();
    }
}

#[test]
fn test_put_one() {
    let log = Log::new();
    let mut cask = cask(&log);
    cask.put(0, b"hello".to_vec(), b"world".to_vec(), log.write()).unwrap();
    assert_eq!(1, cask.count(0), "bin 0 should have 1 record");
}

#[test]
fn test_put_many() {
    let log = Log::new();
    let mut cask = cask(&log);
    let n: usize = 11;
    let m: usize = 27;
    put_many(&mut cask, &log, 0, n);
    put_many(&mut cask, &log, 1, m);
    assert_eq!(n, cask.count(0), "bin 0 should have {} records", n);
    assert_eq!(m, cask.count(1), "bin 1 should have {} records", m);
}

#[test]
fn test_get_one_of_one() {
    let log = Log::new();
    let mut cask = cask(&log);
    cask.put(0, b"hello".to_vec(), b"world".to_vec(), log.write()).unwrap();
    let res = cask.get(0, b"hello", log.read()).unwrap();
    assert_eq!(Some(b"world".to_vec()), res, "expected Some(b\"world\")");
}

#[test]
fn test_get_one_of_many() {
    let log = Log::new();
    let mut cask = cask(&log);
    put_many(&mut cask, &log, 0, 100);
    assert_eq!(Some(b"val-0".to_vec()), cask.get(0, b"key-0", log.read()).unwrap());
    assert_eq!(Some(b"val-42".to_vec()), cask.get(0, b"key-42", log.read()).unwrap());
    assert_eq!(None, cask.get(0, b"key-100", log.read()).unwrap());
}

#[test]
fn test_restore() {
    let log = Log::new();
    let mut cask = cask(&log);
    let num_in_bin_0: usize = 11;
    let num_in_bin_1: usize = 27;
    put_many(&mut cask, &log, 0, num_in_bin_0);
    put_many(&mut cask, &log, 1, num_in_bin_1);
    assert_eq!(num_in_bin_0, cask.count(0), "bin 0 should have {} records", num_in_bin_0);
    assert_eq!(num_in_bin_1, cask.count(1), "bin 1 should have {} records", num_in_bin_1);
    // restore
    let restored = Cask::open(&log.snapshot()).unwrap();
    assert_eq!(num_in_bin_0, restored.count(0), "bin 0 should have {} records", num_in_bin_0);
    assert_eq!(num_in_bin_1, restored.count(1), "bin 1 should have {} records", num_in_bin_1);
}

#[test]
fn test_scan() {
    let log = Log::new();
    let mut cask = cask(&log);
    cask.put(0, b"k1".to_vec(), b"v1".to_vec(), log.write()).unwrap();
    cask.put(0, b"k2".to_vec(), b"v2".to_vec(), log.write()).unwrap();
    cask.put(0, b"k3".to_vec(), b"v3".to_vec(), log.write()).unwrap();
    let result = cask.scan(&log.snapshot(), 0).unwrap();
    let expect = vec![b"v1".to_vec(), b"v2".to_vec(), b"v3".to_vec()];
    assert_eq!(expect, result);
}

#[test]
fn record_bytes_and_back() {
    let rec = LogRecord::new(5, b"ab".to_vec(), vec![7u8; 300]).unwrap();
    let bytes = rec.encode();
    assert_eq!(&bytes[..4], &[5u8, 2, 1, 44]);
    assert_eq!(bytes.len(), 4 + 2 + 300);
    let back = LogRecord::decode(&bytes);
    assert_eq!(back.bin, 5);
    assert_eq!(back.key, b"ab".to_vec());
    assert_eq!(back.val, vec![7u8; 300]);
}

#[test]
fn record_flag_keeps_six_bits() {
    let rec = LogRecord::new(64, b"k".to_vec(), b"v".to_vec()).unwrap();
    assert_eq!(LogRecord::decode(&rec.encode()).bin, 0);
}

#[test]
fn record_limits_are_errors() {
    assert!(matches!(LogRecord::new(128, vec![], vec![]), Err(Error::InternalError(m)) if m == "bin too large (max 127)"));
    assert!(matches!(LogRecord::new(0, vec![0; 256], vec![]), Err(Error::InternalError(m)) if m == "key too large (max 255 bytes)"));
    assert!(matches!(LogRecord::new(0, vec![], vec![0; 65536]), Err(Error::InternalError(m)) if m == "val too large (max 65535 bytes)"));
}

#[test]
fn later_put_wins_and_restores_so() {
    let log = Log::new();
    let mut cask = cask(&log);
    cask.put(2, b"k".to_vec(), b"old".to_vec(), log.write()).unwrap();
    cask.put(2, b"k".to_vec(), b"new".to_vec(), log.write()).unwrap();
    assert_eq!(cask.count(2), 1);
    assert_eq!(cask.get(2, b"k", log.read()).unwrap(), Some(b"new".to_vec()));
    let restored = Cask::open(&log.snapshot()).unwrap();
    assert_eq!(restored.get(2, b"k", log.read()).unwrap(), Some(b"new".to_vec()));
    assert_eq!(restored.scan(&log.snapshot(), 2).unwrap(), vec![b"old".to_vec(), b"new".to_vec()]);
}

#[test]
fn truncated_log_is_a_short_read() {
    let log = Log::new();
    let mut cask = cask(&log);
    cask.put(0, b"k".to_vec(), b"value".to_vec(), log.write()).unwrap();
    let mut bytes = log.snapshot();
    bytes.truncate(bytes.len() - 2);
    assert!(matches!(cask.scan(&bytes, 0), Err(Error::IoError(m)) if m == "failed to fill whole buffer"));
    // Restoring only reads keys, so a cut value does not stop it.
    assert!(Cask::open(&bytes).is_ok());
    bytes.truncate(16);
    assert!(matches!(Cask::open(&bytes), Err(Error::IoError(_))));
}

#[test]
fn head_of_new_log() {
    assert_eq!(Cask::new_log(), vec![b'M', b'O', b'N', b'A', 1, 0, 0, 0, 0, 0, 0, 0, 0]);
}

#[test]
fn log_writer_appends_the_encoded_record_and_keeps_failed_writes_out() {
    let record = LogRecord::new(1, b"k".to_vec(), b"v".to_vec()).unwrap();
    let bytes = record.encode();
    let mut sent: Vec<u8> = Vec::new();
    let mut w = LogWriter::new(10);
    let p = w
        .append(record, |b: Vec<u8>| {
            sent = b.clone();
            Ok(b.len())
        })
        .unwrap();
    assert_eq!(sent, bytes);
    assert_eq!(p.pos, 10);
    assert_eq!(p.len, bytes.len() as u64);
    assert_eq!(w.pos, 10 + bytes.len() as u64);

    let record = LogRecord::new(1, b"k".to_vec(), b"w".to_vec()).unwrap();
    let r = w.append(record, |_b: Vec<u8>| Err(Error::InternalError("disk full".to_string())));
    assert!(matches!(r, Err(Error::InternalError(m)) if m == "disk full"));
    assert_eq!(w.pos, 10 + bytes.len() as u64);
}
