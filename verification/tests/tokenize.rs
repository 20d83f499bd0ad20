use lk_cmdline::CmdLine;

#[test]
fn single_pair() {
    let line = CmdLine::from_str("a=b");
    let mut it = line.iter();
    let arg = it.next().expect("one argument");
    assert!(arg.param_matches(b"a"));
    assert!(!arg.param_matches(b"b"));
    assert_eq!(arg.param().as_slice(), b"a");
    assert_eq!(arg.value().expect("a value").as_slice(), b"b");
    assert!(it.next().is_none());
}

#[test]
fn single_name_without_value() {
    let line = CmdLine::from_str("a");
    let mut it = line.iter();
    let arg = it.next().expect("one argument");
    assert_eq!(arg.param().as_slice(), b"a");
    assert!(arg.value().is_none());
    assert!(it.next().is_none());
}

#[test]
fn dash_and_underscore_interchangeable() {
    let line = CmdLine::from_str("a-b");
    let mut it = line.iter();
    let arg = it.next().expect("one argument");
    assert!(arg.param_matches(b"a_b"));
    assert!(arg.param_matches(b"a-b"));
    assert!(!arg.param_matches(b"a"));
    assert!(it.next().is_none());
}

#[test]
fn quoted_token_with_embedded_separator() {
    let line = CmdLine::from_str("\"a \"x\" =  a\"");
    let mut it = line.iter();
    let arg = it.next().expect("one argument");
    assert_eq!(arg.param().as_slice(), b"a x ");
    assert_eq!(arg.value().expect("a value").as_slice(), b"  a");
    assert!(it.next().is_none());
}

#[test]
fn whitespace_only_yields_nothing() {
    let line = CmdLine::from_str(" \t  \n ");
    let mut it = line.iter();
    assert!(it.next().is_none());
    assert!(it.next().is_none());
}

#[test]
fn empty_input_yields_nothing() {
    let line = CmdLine::from_bytes(b"");
    assert!(line.iter().next().is_none());
}

#[test]
fn final_token_without_trailing_whitespace() {
    let line = CmdLine::from_str("a=b c=d");
    let mut it = line.iter();
    let first = it.next().expect("first argument");
    assert_eq!(first.param().as_slice(), b"a");
    assert_eq!(first.value().expect("a value").as_slice(), b"b");
    let second = it.next().expect("second argument");
    assert_eq!(second.param().as_slice(), b"c");
    assert_eq!(second.value().expect("a value").as_slice(), b"d");
    assert!(it.next().is_none());
}

#[test]
fn unterminated_quote_runs_to_end() {
    let line = CmdLine::from_str("a=\"b c");
    let mut it = line.iter();
    let arg = it.next().expect("one argument");
    assert_eq!(arg.param().as_slice(), b"a");
    assert_eq!(arg.value().expect("a value").as_slice(), b"b c");
    assert!(it.next().is_none());
}

#[test]
fn empty_value_after_separator() {
    let line = CmdLine::from_str("a=");
    let mut it = line.iter();
    let arg = it.next().expect("one argument");
    assert_eq!(arg.param().as_slice(), b"a");
    assert_eq!(arg.value().expect("a value").as_slice(), b"");
    assert!(it.next().is_none());
}

#[test]
fn value_keeps_later_separators() {
    let line = CmdLine::from_str("a=b=c");
    let mut it = line.iter();
    let arg = it.next().expect("one argument");
    assert_eq!(arg.param().as_slice(), b"a");
    assert_eq!(arg.value().expect("a value").as_slice(), b"b=c");
    assert!(it.next().is_none());
}

#[test]
fn iteration_is_restartable() {
    let line = CmdLine::from_str("x=1 y=2");
    let first_pass = line.iter().next().expect("an argument");
    let second_pass = line.iter().next().expect("an argument");
    assert_eq!(first_pass.param().as_slice(), second_pass.param().as_slice());
    assert_eq!(first_pass.param().as_slice(), b"x");
}

// Rejoining the tokens with single spaces collapses the whitespace runs of
// the original buffer but keeps token content and order.
#[test]
fn rejoined_tokens_collapse_whitespace() {
    let line = CmdLine::from_str("  foo   bar \t baz ");
    let mut it = line.iter();
    let mut rejoined: Vec<u8> = Vec::new();
    let mut first = true;
    while let Some(arg) = it.next() {
        if !first {
            rejoined.push(b' ');
        }
        first = false;
        // these tokens carry no `=` and no quotes, so the name is the
        // whole token
        assert!(arg.value().is_none());
        rejoined.extend_from_slice(arg.param().as_slice());
    }
    assert_eq!(rejoined, b"foo bar baz".to_vec());
}
