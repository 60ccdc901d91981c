use mount_nom::parsers::{
    escaped_backslash, escaped_newline, escaped_space, escaped_tab, mount_opts, not_whitespace,
    parse_line, transform_escaped,
};
use mount_nom::{ErrorKind, Failure, Mount, ParseError};

fn rejection(failure: Failure, code: ErrorKind, input: &str) -> ParseError<'_> {
    ParseError { failure, code, input }
}

#[test]
fn test_not_whitespace() {
    assert_eq!(not_whitespace("abcd efg"), Ok((" efg", "abcd")));
    assert_eq!(not_whitespace("abcd\tefg"), Ok(("\tefg", "abcd")));
    assert_eq!(
        not_whitespace(" abcdefg"),
        Err(ParseError {
            failure: Failure::MalformedToken,
            input: " abcdefg",
            code: ErrorKind::IsNot
        })
    );
}

#[test]
fn test_escaped_space() {
    assert_eq!(escaped_space("040"), Ok(("", " ")));
    assert_eq!(
        escaped_space(" "),
        Err(ParseError {
            failure: Failure::UnescapeFailure,
            input: " ",
            code: ErrorKind::Tag
        })
    );
}

#[test]
fn test_escaped_backslash() {
    assert_eq!(escaped_backslash("\\"), Ok(("", "\\")));
    assert_eq!(
        escaped_backslash("not a backslash"),
        Err(ParseError {
            failure: Failure::UnescapeFailure,
            input: "not a backslash",
            code: ErrorKind::Char
        })
    );
}

#[test]
fn test_transform_escaped() {
    assert_eq!(
        transform_escaped("abc\\040def\\\\g\\040h"),
        Ok(("", String::from("abc def\\g h")))
    );
    assert_eq!(
        transform_escaped("\\bad"),
        Err(ParseError {
            failure: Failure::UnescapeFailure,
            input: "bad",
            code: ErrorKind::Tag
        })
    );
}

#[test]
fn test_mount_opts() {
    assert_eq!(
        mount_opts("a,bc,d\\040e"),
        Ok(("", vec!["a".to_string(), "bc".to_string(), "d e".to_string()]))
    );
}

#[test]
fn test_parse_line() {
    let mount1 = Mount {
        device: "device".to_string(),
        mount_point: "mount_point".to_string(),
        file_system_type: "file_system_type".to_string(),
        options: vec![
            "options".to_string(),
            "a".to_string(),
            "b=c".to_string(),
            "d e".to_string(),
        ],
    };
    let (_, mount2) =
        parse_line("device mount_point file_system_type options,a,b=c,d\\040e 0 0").unwrap();
    assert_eq!(mount1.device, mount2.device);
    assert_eq!(mount1.mount_point, mount2.mount_point);
    assert_eq!(mount1.file_system_type, mount2.file_system_type);
    assert_eq!(mount1.options, mount2.options);
}

#[test]
fn not_whitespace_takes_everything_up_to_the_end() {
    assert_eq!(not_whitespace("abcd"), Ok(("", "abcd")));
    assert_eq!(not_whitespace("a,b\\c"), Ok(("", "a,b\\c")));
}

#[test]
fn not_whitespace_rejects_empty_and_blank_starts() {
    assert_eq!(
        not_whitespace(""),
        Err(rejection(Failure::MalformedToken, ErrorKind::IsNot, ""))
    );
    assert_eq!(
        not_whitespace("\tabc"),
        Err(rejection(Failure::MalformedToken, ErrorKind::IsNot, "\tabc"))
    );
}

#[test]
fn not_whitespace_counts_characters_not_bytes() {
    assert_eq!(not_whitespace("données /mnt"), Ok((" /mnt", "données")));
    assert_eq!(not_whitespace("点\t点"), Ok(("\t点", "点")));
}

#[test]
fn escape_bodies_leave_what_follows_them() {
    assert_eq!(escaped_space("040rest"), Ok(("rest", " ")));
    assert_eq!(escaped_tab("011rest"), Ok(("rest", "\t")));
    assert_eq!(escaped_newline("012rest"), Ok(("rest", "\n")));
    assert_eq!(escaped_backslash("\\rest"), Ok(("rest", "\\")));
}

#[test]
fn escape_bodies_reject_anything_else() {
    assert_eq!(
        escaped_space("04"),
        Err(rejection(Failure::UnescapeFailure, ErrorKind::Tag, "04"))
    );
    assert_eq!(
        escaped_space("041"),
        Err(rejection(Failure::UnescapeFailure, ErrorKind::Tag, "041"))
    );
    assert_eq!(
        escaped_tab("012"),
        Err(rejection(Failure::UnescapeFailure, ErrorKind::Tag, "012"))
    );
    assert_eq!(
        escaped_newline("011"),
        Err(rejection(Failure::UnescapeFailure, ErrorKind::Tag, "011"))
    );
    assert_eq!(
        escaped_newline(""),
        Err(rejection(Failure::UnescapeFailure, ErrorKind::Tag, ""))
    );
    assert_eq!(
        escaped_backslash(""),
        Err(rejection(Failure::UnescapeFailure, ErrorKind::Char, ""))
    );
}

#[test]
fn transform_escaped_decodes_all_four_escapes() {
    assert_eq!(
        transform_escaped("a\\040b\\011c\\012d\\\\e"),
        Ok(("", String::from("a b\tc\nd\\e")))
    );
    assert_eq!(transform_escaped("\\040"), Ok(("", String::from(" "))));
    assert_eq!(transform_escaped("\\\\\\\\"), Ok(("", String::from("\\\\"))));
}

#[test]
fn transform_escaped_copies_plain_text() {
    assert_eq!(transform_escaped(""), Ok(("", String::new())));
    assert_eq!(transform_escaped("plain"), Ok(("", String::from("plain"))));
    assert_eq!(transform_escaped("040"), Ok(("", String::from("040"))));
    assert_eq!(transform_escaped("a b,c"), Ok(("", String::from("a b,c"))));
    assert_eq!(transform_escaped("é\\040点"), Ok(("", String::from("é 点"))));
}

#[test]
fn transform_escaped_rejects_a_trailing_backslash() {
    assert_eq!(
        transform_escaped("dev\\"),
        Err(rejection(
            Failure::UnescapeFailure,
            ErrorKind::EscapedTransform,
            "\\"
        ))
    );
    assert_eq!(
        transform_escaped("\\"),
        Err(rejection(
            Failure::UnescapeFailure,
            ErrorKind::EscapedTransform,
            "\\"
        ))
    );
}

#[test]
fn transform_escaped_rejects_unknown_bodies() {
    assert_eq!(
        transform_escaped("a\\04"),
        Err(rejection(Failure::UnescapeFailure, ErrorKind::Tag, "04"))
    );
    assert_eq!(
        transform_escaped("a\\041b"),
        Err(rejection(Failure::UnescapeFailure, ErrorKind::Tag, "041b"))
    );
    assert_eq!(
        transform_escaped("ok\\040then\\n"),
        Err(rejection(Failure::UnescapeFailure, ErrorKind::Tag, "n"))
    );
    assert_eq!(
        transform_escaped("a\\ b"),
        Err(rejection(Failure::UnescapeFailure, ErrorKind::Tag, " b"))
    );
}

#[test]
fn mount_opts_reads_a_single_option() {
    assert_eq!(mount_opts("defaults"), Ok(("", vec!["defaults".to_string()])));
}

#[test]
fn mount_opts_stops_at_a_blank() {
    assert_eq!(
        mount_opts("rw,noatime 0 0"),
        Ok((" 0 0", vec!["rw".to_string(), "noatime".to_string()]))
    );
    assert_eq!(mount_opts("rw\t0"), Ok(("\t0", vec!["rw".to_string()])));
}

#[test]
fn mount_opts_rejects_an_empty_option_behind_a_comma() {
    assert_eq!(
        mount_opts("a,,b"),
        Err(rejection(Failure::MalformedToken, ErrorKind::IsNot, ",b"))
    );
    assert_eq!(
        mount_opts("a,"),
        Err(rejection(Failure::MalformedToken, ErrorKind::IsNot, ""))
    );
    assert_eq!(
        mount_opts("a, b"),
        Err(rejection(Failure::MalformedToken, ErrorKind::IsNot, " b"))
    );
    assert_eq!(
        mount_opts("a,b,c,\t0"),
        Err(rejection(Failure::MalformedToken, ErrorKind::IsNot, "\t0"))
    );
    assert_eq!(
        mount_opts("a,b,,"),
        Err(rejection(Failure::MalformedToken, ErrorKind::IsNot, ","))
    );
}

#[test]
fn mount_opts_ends_only_at_a_blank_or_at_the_end() {
    for i in ["a", "a,b", "a b", "a,b\tc,d", "a,b c,,d"] {
        let (rest, _) = mount_opts(i).unwrap();
        assert!(rest.is_empty() || rest.starts_with(' ') || rest.starts_with('\t'), "{:?}", i);
    }
}

#[test]
fn mount_opts_rejects_an_empty_list() {
    assert_eq!(
        mount_opts(""),
        Err(rejection(Failure::EmptyOptionList, ErrorKind::IsNot, ""))
    );
    assert_eq!(
        mount_opts(",a"),
        Err(rejection(Failure::EmptyOptionList, ErrorKind::IsNot, ",a"))
    );
    assert_eq!(
        mount_opts(" a"),
        Err(rejection(Failure::EmptyOptionList, ErrorKind::IsNot, " a"))
    );
}

#[test]
fn mount_opts_rejects_an_option_that_cannot_be_decoded() {
    assert_eq!(
        mount_opts("a\\x,b"),
        Err(rejection(Failure::UnescapeFailure, ErrorKind::Tag, "x"))
    );
    assert_eq!(
        mount_opts("a,b\\x,c"),
        Err(rejection(Failure::UnescapeFailure, ErrorKind::Tag, "x"))
    );
    assert_eq!(
        mount_opts("a,b\\ 0 0"),
        Err(rejection(
            Failure::UnescapeFailure,
            ErrorKind::EscapedTransform,
            "\\"
        ))
    );
}

#[test]
fn mount_opts_decodes_each_option_on_its_own() {
    assert_eq!(
        mount_opts("a\\040b,c\\\\,d\\011e,f\\012"),
        Ok((
            "",
            vec![
                "a b".to_string(),
                "c\\".to_string(),
                "d\te".to_string(),
                "f\n".to_string()
            ]
        ))
    );
}
