use bootc::cmdline::{add_param, param_key, param_parts, params, set_param};
use bootc::kernel::{
    canonical_key, find_first_cmdline_arg, is_valid_key_byte, is_valid_quoted_value_byte,
    is_valid_unquoted_value_byte, is_valid_value_byte, parse_cmdline, Parameter,
};
use std::borrow::Cow;

#[test]
fn test_find_first() {
    let kargs = &["foo=bar", "root=/dev/vda", "blah", "root=/dev/other"];
    assert_eq!(find_first_cmdline_arg(kargs, "root"), Some("/dev/vda"));
    assert_eq!(find_first_cmdline_arg(kargs, "nonexistent"), None);
}

#[test]
fn test_canonical_key() {
    assert_eq!(canonical_key(b"plain"), Cow::Borrowed(b"plain"));

    assert_eq!(
        canonical_key(b"underscores_are_unchanged"),
        Cow::Borrowed(b"underscores_are_unchanged")
    );

    assert_eq!(
        canonical_key(b"dashes-are-underscores"),
        Cow::<[u8]>::Owned(b"dashes_are_underscores".to_vec())
    );
}

#[test]
fn test_parameter_try_from() {
    let input = b"basic".as_slice();

    assert_eq!(
        Parameter::try_from(input),
        Ok(Parameter {
            key: b"basic",
            canonical_key: Cow::Borrowed(b"basic"),
            value: None
        })
    );

    let input = b"foo=bar".as_slice();
    assert_eq!(
        Parameter::try_from(input),
        Ok(Parameter {
            key: b"foo",
            canonical_key: Cow::Borrowed(b"foo"),
            value: Some(b"bar"),
        })
    );

    let input = b"quoted=\"with spaces\"".as_slice();
    assert_eq!(
        Parameter::try_from(input),
        Ok(Parameter {
            key: b"quoted",
            canonical_key: Cow::Borrowed(b"quoted"),
            value: Some(b"with spaces"),
        })
    );

    let input = b"key=this_should_\"stop_at_the_quote".as_slice();
    assert_eq!(
        Parameter::try_from(input),
        Ok(Parameter {
            key: b"key",
            canonical_key: Cow::Borrowed(b"key"),
            value: Some(b"this_should_"),
        })
    );

    let input = b"should$stop_before".as_slice();
    assert_eq!(
        Parameter::try_from(input),
        Ok(Parameter {
            key: b"should",
            canonical_key: Cow::Borrowed(b"should"),
            value: None,
        })
    );
}

#[test]
fn parameters_that_do_not_parse() {
    assert_eq!(
        Parameter::try_from(b"=x".as_slice()).err(),
        Some("Unable to parse parameter")
    );
    assert_eq!(
        Parameter::try_from(b"".as_slice()).err(),
        Some("Unable to parse parameter")
    );
}

#[test]
fn an_open_quote_ends_the_value() {
    let (rest, p) = Parameter::parse(b"a=\"open").unwrap();
    assert_eq!(p.key(), b"a");
    assert_eq!(p.value(), Some(b"".as_slice()));
    assert_eq!(rest, b"\"open");
}

#[test]
fn dashes_and_underscores_are_the_same() {
    let a = Parameter::try_from(b"a-delimited-param=x".as_slice()).unwrap();
    let b = Parameter::try_from(b"a_delimited_param=x".as_slice()).unwrap();
    let c = Parameter::try_from(b"a_delimited_param=y".as_slice()).unwrap();
    let d = Parameter::try_from(b"a_delimited_param".as_slice()).unwrap();
    assert_eq!(a, b);
    assert_ne!(a, c);
    assert_ne!(a, d);
    assert_eq!(a.key(), b"a-delimited-param");
}

#[test]
fn byte_classes() {
    assert!(is_valid_key_byte(b'a') && is_valid_key_byte(b'Z') && is_valid_key_byte(b'0'));
    assert!(is_valid_key_byte(b'-') && is_valid_key_byte(b'_') && !is_valid_key_byte(b'.'));
    assert!(is_valid_value_byte(b'!') && !is_valid_value_byte(b' ') && !is_valid_value_byte(b'"'));
    assert!(is_valid_unquoted_value_byte(b'~') && !is_valid_unquoted_value_byte(127));
    assert!(is_valid_quoted_value_byte(b' ') && !is_valid_quoted_value_byte(b'"'));
}

#[test]
fn command_line_words() {
    assert_eq!(
        parse_cmdline("  a=b\tc \n d"),
        vec!["a=b".to_string(), "c".to_string(), "d".to_string()]
    );
}

#[test]
fn parameters_keep_quoted_spaces() {
    assert_eq!(params(" a=\"x y\"  b "), vec!["a=\"x y\"", "b"]);
    assert_eq!(param_key("a-b=c"), "a_b");
    assert_eq!(add_param("a  b", "c=d"), "a b c=d");
}

#[test]
fn setting_a_parameter_keeps_the_others() {
    assert_eq!(set_param("a=1 k=2 b k=3", "k=9"), "a=1 k=9 b");
    assert_eq!(set_param("a=1 b", "k=9"), "a=1 b k=9");
    assert_eq!(set_param("a=\"k=2 x\" k-k=1", "k_k=9"), "a=\"k=2 x\" k_k=9");
    assert_eq!(set_param("rw \"k=2 x\" b", "k=9"), "rw k=9 b");
    assert_eq!(set_param("rw k=\"2 x\" b", "k=9"), "rw k=9 b");
}

#[test]
fn quotes_around_parameters() {
    for p in ["k=v", "\"k=v\"", "k=\"v\""] {
        assert_eq!(param_parts(p), ("k", Some("v")));
    }
    assert_eq!(param_parts("quiet"), ("quiet", None));
    assert_eq!(param_parts("\"quiet\""), ("quiet", None));
    assert_eq!(param_parts("k=\"a=b c\""), ("k", Some("a=b c")));
    // Only quotes that open are closed.
    assert_eq!(param_parts("k=v\""), ("k", Some("v\"")));
    assert_eq!(param_parts("k=\""), ("k", Some("")));
    assert_eq!(param_parts("\"k="), ("k", Some("")));
    assert_eq!(param_key("\"a-b=c\""), "a_b");
}
