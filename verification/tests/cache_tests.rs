use lbt::cache::{CacheBuffer, check_built, compute_fingerprint, needs_run, write_built};

fn hex(bytes: &[u8]) -> String {
    let mut s = String::new();
    for b in bytes {
        s.push_str(&format!("{:02x}", b));
    }
    s
}

#[test]
fn fingerprint_is_sha256_of_concatenated_bytes() {
    let inputs = vec![b"abc".to_vec()];
    let fp = compute_fingerprint(&inputs);
    assert_eq!(
        hex(&fp),
        "ba7816bf8f01cfea414140de5dae2223b00361a396177a9cb410ff61f20015ad"
    );
    let empty: Vec<Vec<u8>> = Vec::new();
    assert_eq!(
        hex(&compute_fingerprint(&empty)),
        "e3b0c44298fc1c149afbf4c8996fb92427ae41e4649b934ca495991b7852b855"
    );
}

#[test]
fn fingerprint_depends_only_on_concatenation() {
    let a = vec![b"ab".to_vec(), b"c".to_vec()];
    let b = vec![b"abc".to_vec()];
    assert_eq!(compute_fingerprint(&a), compute_fingerprint(&b));
}

#[test]
fn fingerprint_is_order_sensitive() {
    let a = vec![b"first".to_vec(), b"second".to_vec()];
    let b = vec![b"second".to_vec(), b"first".to_vec()];
    assert_ne!(compute_fingerprint(&a), compute_fingerprint(&b));
}

#[test]
fn unchanged_inputs_are_reported_built_after_write() {
    let mut cache = CacheBuffer::new();
    let inputs = vec![b"int main() {}".to_vec()];
    assert!(!check_built(&inputs, "build/main.o", &cache));
    write_built(&inputs, "build/main.o", &mut cache);
    assert!(check_built(&inputs, "build/main.o", &cache));
    assert!(!needs_run(true, false, false, true));
}

#[test]
fn one_changed_byte_forces_a_rerun() {
    let mut cache = CacheBuffer::new();
    let inputs = vec![b"int x = 1;".to_vec()];
    write_built(&inputs, "build/x.o", &mut cache);
    let touched = vec![b"int x = 2;".to_vec()];
    assert!(!check_built(&touched, "build/x.o", &cache));
    assert!(needs_run(false, false, false, true));
}

#[test]
fn upstream_rebuild_forces_a_rerun_despite_a_hit() {
    assert!(needs_run(true, false, true, true));
}

#[test]
fn missing_output_forces_a_rerun_despite_a_hit() {
    assert!(needs_run(true, false, false, false));
}

#[test]
fn forced_rebuild_runs_regardless() {
    assert!(needs_run(true, true, false, true));
}

#[test]
fn cache_entries_are_independent_per_output() {
    let mut cache = CacheBuffer::new();
    let a = vec![b"aaa".to_vec()];
    let b = vec![b"bbb".to_vec()];
    write_built(&a, "out/a.o", &mut cache);
    write_built(&b, "out/b.o", &mut cache);
    assert!(check_built(&a, "out/a.o", &cache));
    assert!(check_built(&b, "out/b.o", &cache));
    assert!(!check_built(&b, "out/a.o", &cache));
}

#[test]
fn cache_overwrites_keep_the_latest_fingerprint() {
    let mut cache = CacheBuffer::new();
    let v1 = vec![b"one".to_vec()];
    let v2 = vec![b"two".to_vec()];
    write_built(&v1, "out/a.o", &mut cache);
    write_built(&v2, "out/a.o", &mut cache);
    assert!(!check_built(&v1, "out/a.o", &cache));
    assert!(check_built(&v2, "out/a.o", &cache));
}

#[test]
fn cache_round_trips_through_its_entries() {
    let mut cache = CacheBuffer::new();
    let inputs = vec![b"data".to_vec()];
    write_built(&inputs, "out/d.o", &mut cache);
    let dumped = cache.entries.clone();
    let reloaded = CacheBuffer::from_entries(dumped);
    assert!(check_built(&inputs, "out/d.o", &reloaded));
}

#[test]
fn cache_read_returns_the_stored_digest() {
    let mut cache = CacheBuffer::new();
    let inputs = vec![b"zzz".to_vec()];
    write_built(&inputs, "out/z.o", &mut cache);
    let digest = cache.read("out/z.o").unwrap().clone();
    assert_eq!(digest, compute_fingerprint(&inputs));
    assert_eq!(digest.len(), 32);
    assert!(cache.read("out/other.o").is_none());
}
