use mount_nom::parsers::{mount_opts, transform_escaped};
use mount_nom::{escape, p};

#[test]
fn escape_writes_the_four_escapes() {
    assert_eq!(escape(" "), "\\040");
    assert_eq!(escape("\t"), "\\011");
    assert_eq!(escape("\n"), "\\012");
    assert_eq!(escape("\\"), "\\\\");
    assert_eq!(escape("abc def\\g h"), "abc\\040def\\\\g\\040h");
    assert_eq!(escape("a\tb\nc"), "a\\011b\\012c");
}

#[test]
fn escape_keeps_every_other_character() {
    assert_eq!(escape(""), "");
    assert_eq!(escape("/dev/sda1"), "/dev/sda1");
    assert_eq!(escape("a,b=c"), "a,b=c");
    assert_eq!(escape("040"), "040");
    assert_eq!(escape("données\r点"), "données\r点");
}

#[test]
fn decoding_undoes_encoding() {
    for text in [
        "",
        "plain",
        " ",
        "  two  spaces  ",
        "back\\slash",
        "\\\\",
        "\\040",
        "tab\there",
        "line\nbreak",
        "all \t\n\\ of them",
        "a,b",
        "~!@#$%^&*()_+{}|:\"<>?`-=[];',./",
        "My Disk \\ backup",
        "é 点 \\ я",
    ] {
        let token = escape(text);
        assert!(!token.contains(' '), "{:?}", token);
        assert!(!token.contains('\t'), "{:?}", token);
        assert!(!token.contains('\n'), "{:?}", token);
        assert_eq!(
            transform_escaped(&token),
            Ok(("", text.to_string())),
            "{:?}",
            text
        );
    }
}

#[test]
fn every_printable_ascii_character_survives_encoding() {
    let text: String = (' '..='~').collect();
    assert_eq!(text.len(), 95);
    assert_eq!(transform_escaped(&escape(&text)), Ok(("", text.clone())));
}

#[test]
fn an_encoded_device_is_read_back_from_a_line() {
    let device = "/dev/disk/by-label/My Disk\\1";
    let mount_point = "/media/my disk\t1";
    let line = format!("{} {} vfat rw 0 0", escape(device), escape(mount_point));
    let (_, mount) = p(&line).unwrap();
    assert_eq!(mount.device, device);
    assert_eq!(mount.mount_point, mount_point);
}

#[test]
fn joined_options_are_read_back_in_order() {
    let lists: [&[&str]; 6] = [
        &["rw"],
        &["a", "bc", "d"],
        &["rw", "relatime", "errors=remount-ro"],
        &["b", "a", "b", "a"],
        &["uid=1000", "gid=1000", "umask=022", "点"],
        &["x\ny", "="],
    ];
    for list in lists {
        let joined = list.join(",");
        let expected: Vec<String> = list.iter().map(|o| o.to_string()).collect();
        assert_eq!(mount_opts(&joined), Ok(("", expected)), "{:?}", joined);
    }
}

#[test]
fn joined_encoded_options_are_read_back_in_order() {
    let list = ["user name=me", "path=C:\\dir", "a\tb", "plain"];
    let tokens: Vec<String> = list.iter().map(|o| escape(o)).collect();
    let joined = tokens.join(",");
    assert_eq!(joined, "user\\040name=me,path=C:\\\\dir,a\\011b,plain");
    let expected: Vec<String> = list.iter().map(|o| o.to_string()).collect();
    assert_eq!(mount_opts(&joined), Ok(("", expected)));
}
