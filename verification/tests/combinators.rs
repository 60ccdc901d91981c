use mount_nom::parsers::{mount_opts, not_whitespace, transform_escaped};
use mount_nom::{p, ErrorKind, Mount};
use nom::branch::alt;
use nom::bytes::complete::{escaped_transform, is_not, tag};
use nom::character::complete::{char, space0, space1};
use nom::combinator::{all_consuming, map_parser, recognize, value};
use nom::multi::separated_list1;
use nom::sequence::tuple;
use nom::IResult;

fn field(i: &str) -> IResult<&str, &str> {
    is_not(" \t")(i)
}

fn decoded(i: &str) -> IResult<&str, String> {
    escaped_transform(
        is_not("\\"),
        '\\',
        alt((
            recognize(char('\\')),
            value(" ", tag("040")),
            value("\t", tag("011")),
            value("\n", tag("012")),
        )),
    )(i)
}

fn options(i: &str) -> IResult<&str, Vec<String>> {
    separated_list1(char(','), map_parser(is_not(", \t"), decoded))(i)
}

fn line(i: &str) -> IResult<&str, Mount> {
    let (rest, found) = all_consuming(tuple((
        map_parser(field, decoded),
        space1,
        map_parser(field, decoded),
        space1,
        field,
        space1,
        options,
        space1,
        char('0'),
        space1,
        char('0'),
        space0,
    )))(i)?;
    let mount = Mount {
        device: found.0,
        mount_point: found.2,
        file_system_type: found.4.to_string(),
        options: found.6,
    };
    Ok((rest, mount))
}

fn code(kind: nom::error::ErrorKind) -> ErrorKind {
    match kind {
        nom::error::ErrorKind::IsNot => ErrorKind::IsNot,
        nom::error::ErrorKind::Tag => ErrorKind::Tag,
        nom::error::ErrorKind::Char => ErrorKind::Char,
        nom::error::ErrorKind::Space => ErrorKind::Space,
        nom::error::ErrorKind::Eof => ErrorKind::Eof,
        nom::error::ErrorKind::EscapedTransform => ErrorKind::EscapedTransform,
        other => panic!("unexpected error kind {:?}", other),
    }
}

fn outcome<T>(r: IResult<&str, T>) -> Result<(&str, T), (ErrorKind, &str)> {
    match r {
        Ok(found) => Ok(found),
        Err(nom::Err::Error(e)) => Err((code(e.code), e.input)),
        Err(other) => panic!("unexpected error {:?}", other.map(|e| e.code)),
    }
}

#[test]
fn fields_agree_with_the_combinators() {
    for i in ["abcd efg", "abcd\tefg", " abcdefg", "", "\t", "a", "a,b\\ c", "é点 x"] {
        assert_eq!(
            not_whitespace(i).map_err(|e| (e.code, e.input)),
            outcome(field(i)),
            "{:?}",
            i
        );
    }
}

#[test]
fn decoding_agrees_with_the_combinators() {
    for i in [
        "",
        "plain",
        "abc\\040def\\\\g\\040h",
        "\\bad",
        "\\",
        "a\\",
        "a\\\\",
        "\\\\\\",
        "\\04",
        "\\0400",
        "\\041",
        "\\011\\012",
        "\\01",
        "\\013",
        "a b\tc",
        "x\\ y",
        "é\\040点\\x",
    ] {
        assert_eq!(
            transform_escaped(i).map_err(|e| (e.code, e.input)),
            outcome(decoded(i)),
            "{:?}",
            i
        );
    }
}

#[test]
fn option_lists_agree_with_the_combinators() {
    for i in [
        "a,bc,d\\040e",
        "defaults",
        "rw,noatime 0 0",
        "a,b\tc,,d",
        "",
        ",a",
        " a",
        "a\\x,b",
        "a\\",
        "a=1,b=\\\\,c\\011d\te",
    ] {
        assert_eq!(
            mount_opts(i).map_err(|e| (e.code, e.input)),
            outcome(options(i)),
            "{:?}",
            i
        );
    }
}

#[test]
fn lines_agree_with_the_combinators() {
    for i in [
        "device mount_point file_system_type options,a,b=c,d\\040e 0 0",
        "/dev/sda1 / ext4 rw,relatime,errors=remount-ro 0 0",
        "proc\t/proc \t proc\t\tdefaults  0\t0",
        "dev mp fs opt 0 0 \t  ",
        "/dev/my\\040disk /mnt/a\\011b\\012c\\\\d vfat rw 0 0",
        "dev mp fu\\040se,x rw 0 0",
        "a,b c,d fs o 0 0",
        "",
        " dev mp fs opt 0 0",
        "dev",
        "dev ",
        "dev mp",
        "dev mp\t",
        "dev mp fs",
        "dev mp fs ",
        "dev mp fs ,a 0 0",
        "dev mp fs opt",
        "dev mp fs opt ",
        "dev mp fs opt 0",
        "dev mp fs opt 0 ",
        "dev mp fs opt 00",
        "dev mp fs opt 0 1",
        "dev mp fs opt 1 0",
        "dev mp fs opt 0 0 x",
        "dev mp fs opt 0 00",
        "dev mp fs opt 0 0\n",
        "dev\\ mp fs opt 0 0",
        "de\\v mp fs opt 0 0",
        "dev m\\04p fs opt 0 0",
        "dev mp fs o\\pt 0 0",
        "0 0",
        "dev mp fs 0 0",
    ] {
        let ours = p(i).map(|(rest, m)| (rest, m.device, m.mount_point, m.file_system_type, m.options));
        let theirs = outcome(line(i))
            .map(|(rest, m)| (rest, m.device, m.mount_point, m.file_system_type, m.options));
        assert_eq!(ours.map_err(|e| (e.code, e.input)), theirs, "{:?}", i);
    }
}

#[test]
fn an_undecodable_later_option_is_reported_where_the_combinators_give_up_the_list() {
    let i = "a,b\\x,c 0 0";
    assert_eq!(
        outcome(options(i)),
        Ok((",b\\x,c 0 0", vec!["a".to_string()]))
    );
    assert_eq!(
        mount_opts(i).map_err(|e| (e.code, e.input)),
        Err((ErrorKind::Tag, "x"))
    );
    let whole = "dev mp fs a,b\\x,c 0 0";
    assert!(line(whole).is_err());
    assert!(p(whole).is_err());
}

#[test]
fn an_empty_later_option_is_reported_where_the_combinators_give_up_the_list() {
    for (i, left) in [("a,,b", ",b"), ("a,", ""), ("a, b", " b")] {
        let (rest, found) = outcome(options(i)).unwrap();
        assert_eq!(found, vec!["a".to_string()]);
        assert_eq!(&rest[1..], left);
        assert_eq!(
            mount_opts(i).map_err(|e| (e.code, e.input)),
            Err((ErrorKind::IsNot, left))
        );
    }
    for whole in ["dev mp fs a,,b 0 0", "dev mp fs a, 0 0", "dev mp fs a,b,"] {
        assert!(line(whole).is_err());
        assert!(p(whole).is_err());
    }
}
