use concurrency::{AtomicMetrix, DashMapMetrix, Metrix, MetrixError};

#[test]
fn metrix_counts_up_and_down() {
    let mut m = Metrix::new();
    m.inc("a");
    m.inc("b");
    m.inc("a");
    m.dec("c");
    let snap = m.snapshot();
    assert_eq!(snap, vec![("a".to_string(), 2), ("b".to_string(), 1), ("c".to_string(), -1)]);
    assert_eq!(m.to_string(), "{a: 2, b: 1, c: -1}\n");
}

#[test]
fn empty_metrix_text() {
    let m = Metrix::new();
    assert!(m.snapshot().is_empty());
    assert_eq!(m.to_string(), "{}\n");
}

#[test]
fn atomic_metrix_refuses_unknown_names() {
    let mut m = AtomicMetrix::new(&["x", "y", "x"]);
    assert_eq!(m.to_string(), "{x: 0, y: 0}\n");
    assert_eq!(m.inc("y"), Ok(()));
    assert_eq!(m.inc("y"), Ok(()));
    assert_eq!(m.dec("x"), Ok(()));
    assert_eq!(m.inc("z"), Err(MetrixError::KeyNotFound));
    assert_eq!(m.dec("z"), Err(MetrixError::KeyNotFound));
    assert_eq!(m.to_string(), "{x: -1, y: 2}\n");
}

#[test]
fn dash_map_metrix_counts() {
    let mut m = DashMapMetrix::new();
    assert_eq!(m.get("k"), None);
    assert_eq!(m.to_string(), "{}");
    m.inc("k");
    m.inc("k");
    m.dec("j");
    assert_eq!(m.get("k"), Some(2));
    assert_eq!(m.get("j"), Some(-1));
    let text = m.to_string();
    assert!(text == "{k: 2, j: -1}" || text == "{j: -1, k: 2}", "{}", text);
}

#[test]
fn counts_can_be_read_back() {
    let mut m = Metrix::new();
    m.inc("a");
    assert_eq!(m.get("a"), Some(1));
    assert_eq!(m.get("b"), None);
    let mut t = AtomicMetrix::new(&["a"]);
    t.dec("a").unwrap();
    assert_eq!(t.get("a"), Some(-1));
    assert_eq!(t.get("b"), None);
}
