use lk_cmdline::Arg;
use lk_cmdline::Stripped;
use lk_cmdline::quoting::strip_quotes;

#[test]
fn quote_free_span_is_returned_identically() {
    let stripped = strip_quotes(b"abc def");
    assert_eq!(stripped.as_slice(), b"abc def");
    assert!(matches!(stripped, Stripped::Borrowed(_)));
}

#[test]
fn empty_span_strips_to_empty() {
    let stripped = strip_quotes(b"");
    assert_eq!(stripped.as_slice(), b"");
    assert!(matches!(stripped, Stripped::Borrowed(_)));
}

#[test]
fn quotes_are_elided_in_order() {
    let stripped = strip_quotes(b"\"a\"b\"c\"");
    assert_eq!(stripped.as_slice(), b"abc");
    assert!(matches!(stripped, Stripped::Owned(_)));
    assert_eq!(stripped.len(), 3);
}

#[test]
fn stripping_is_idempotent() {
    let once = strip_quotes(b"x\"y\"z");
    assert_eq!(once.as_slice(), b"xyz");
    let twice = strip_quotes(once.as_slice());
    assert_eq!(twice.as_slice(), b"xyz");
    assert!(matches!(twice, Stripped::Borrowed(_)));
}

#[test]
fn matching_swaps_any_subset_of_dashes() {
    let arg = Arg::from_bytes(b"x-y_z-w");
    // every mix of swapped and kept separator bytes still matches
    assert!(arg.param_matches(b"x-y_z-w"));
    assert!(arg.param_matches(b"x_y-z_w"));
    assert!(arg.param_matches(b"x_y_z_w"));
    assert!(arg.param_matches(b"x-y-z-w"));
    // other bytes stay significant
    assert!(!arg.param_matches(b"x-y_z-W"));
}

#[test]
fn matching_is_length_sensitive() {
    let arg = Arg::from_bytes(b"quiet");
    assert!(arg.param_matches(b"quiet"));
    assert!(!arg.param_matches(b"quietx"));
    assert!(!arg.param_matches(b"quiet "));
    assert!(!arg.param_matches(b"quie"));
}

#[test]
fn explicit_offset_agrees_with_scan() {
    let with_offset = Arg::with_eq_offs(b"k=v", 1);
    assert_eq!(with_offset.param().as_slice(), b"k");
    assert_eq!(with_offset.value().expect("a value").as_slice(), b"v");

    let no_value = Arg::with_eq_offs(b"flag", 4);
    assert_eq!(no_value.param().as_slice(), b"flag");
    assert!(no_value.value().is_none());
}

#[test]
fn separator_is_found_through_quotes() {
    // the separator scan does not skip quoted regions
    let arg = Arg::from_bytes(b"\"a=b\"");
    assert_eq!(arg.param().as_slice(), b"a");
    assert_eq!(arg.value().expect("a value").as_slice(), b"b");
}
