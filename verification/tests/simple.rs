use lk_cmdline::Arg;

#[test]
fn arg_basic() {
    let arg = Arg::from_bytes(b"a=b");
    assert!(arg.param_matches(b"a"));
    assert!(!arg.param_matches(b"b"));

    assert_eq!(arg.param().as_slice(), b"a");
    assert_eq!(arg.value().map(|x| x.as_slice().to_vec()), Some(b"b".to_vec()));
}

#[test]
fn arg_no_val() {
    let arg = Arg::from_bytes(b"a");
    assert!(arg.param_matches(b"a"));
    assert!(!arg.param_matches(b"b"));

    assert_eq!(arg.param().as_slice(), b"a");
    assert!(arg.value().is_none());
}

#[test]
fn arg_dash() {
    let arg = Arg::from_bytes(b"a-b");
    assert!(arg.param_matches(b"a_b"));
    assert!(arg.param_matches(b"a-b"));
    assert!(!arg.param_matches(b"a"));

    assert_eq!(arg.param().as_slice(), b"a-b");
    assert!(arg.value().is_none());
}

#[test]
fn arg_quotes() {
    let arg = Arg::from_bytes(b"\"a \"x\" =  a\"");
    assert!(arg.param_matches(b"a x "));
    assert!(!arg.param_matches(b"a x"));

    assert_eq!(arg.param().as_slice(), b"a x ");
    assert_eq!(arg.value().map(|x| x.as_slice().to_vec()), Some(b"  a".to_vec()));
}
