use vstd::prelude::*;
use crate::chars::{lemma_run_len, scan, to_chars, CharClass};
use crate::error::{ErrorKind, Failure, ParseError, ParseErrorView};
use crate::grammar::{
    escape_body, listed, prefixed, spec_end, spec_escaped_backslash, spec_escaped_field,
    spec_escaped_newline, spec_escaped_space, spec_escaped_tab, spec_gap, spec_more_opts,
    spec_mount_opts, spec_not_whitespace, spec_parse_line, spec_paths, spec_run1,
    spec_trailer, spec_transform_escaped, spec_zero, starts_with3, unescape,
};
use crate::lemmas::{lemma_prefixed_empty, lemma_prefixed_twice, lemma_unescape_plain};
use crate::mount::{texts, Mount, MountView};

verus! {

/// What is left of `i` from the character at `pos` on.
fn tail<'a>(i: &'a str, chars: &Vec<char>, pos: usize) -> (rest: &'a str)
    requires
        chars@ == i@,
        pos <= chars.len(),
    ensures
        rest@ == i@.skip(pos as int),
{
    i.substring_char(pos, chars.len())
}

/// Whether the three characters `a`, `b`, `c` stand at `pos`.
fn octal_at(chars: &Vec<char>, pos: usize, a: char, b: char, c: char) -> (found: bool)
    requires
        pos <= chars.len(),
    ensures
        found == starts_with3(chars@.skip(pos as int), a, b, c),
{
    chars.len() - pos >= 3 && chars[pos] == a && chars[pos + 1] == b && chars[pos + 2] == c
}

/// The escape body at `pos`: the text it stands for and its length.
fn escape_at(chars: &Vec<char>, pos: usize) -> (found: Option<(&'static str, usize)>)
    requires
        pos <= chars.len(),
    ensures
        match found {
            Some((text, len)) => pos + len <= chars.len() && text@.len() == 1 && escape_body(
                chars@.skip(pos as int),
            ) == Some((text@[0], len as int)),
            None => escape_body(chars@.skip(pos as int)) is None,
        },
{
    proof {
        reveal_strlit("\\");
        reveal_strlit(" ");
        reveal_strlit("\t");
        reveal_strlit("\n");
    }
    if pos < chars.len() && chars[pos] == '\\' {
        Some(("\\", 1))
    } else if octal_at(chars, pos, '0', '4', '0') {
        Some((" ", 3))
    } else if octal_at(chars, pos, '0', '1', '1') {
        Some(("\t", 3))
    } else if octal_at(chars, pos, '0', '1', '2') {
        Some(("\n", 3))
    } else {
        None
    }
}

/// Matches one backslash at the start of `i`, the body of an escaped
/// backslash: gives what follows it, and the backslash.
pub fn escaped_backslash<'a>(i: &'a str) -> (r: Result<(&'a str, &'a str), ParseError<'a>>)
    ensures
        match r {
            Ok((rest, text)) => spec_escaped_backslash(i@) == Ok::<
                (Seq<char>, Seq<char>),
                ParseErrorView,
            >((rest@, text@)),
            Err(e) => spec_escaped_backslash(i@) == Err::<(Seq<char>, Seq<char>), ParseErrorView>(
                e@,
            ),
        },
{
    let chars = to_chars(i);
    if chars.len() >= 1 && chars[0] == '\\' {
        proof {
            reveal_strlit("\\");
            assert("\\"@ =~= seq!['\\']);
        }
        Ok((tail(i, &chars, 1), "\\"))
    } else {
        Err(ParseError { failure: Failure::UnescapeFailure, code: ErrorKind::Char, input: i })
    }
}

/// Matches the octal body `a b c` at the start of `i`: gives what follows
/// it, and `text`.
fn escaped_octal<'a>(i: &'a str, a: char, b: char, c: char, text: &'a str) -> (r: Result<
    (&'a str, &'a str),
    ParseError<'a>,
>)
    ensures
        match r {
            Ok((rest, out)) => out@ == text@ && starts_with3(i@, a, b, c) && rest@ == i@.skip(3),
            Err(e) => !starts_with3(i@, a, b, c) && e@ == (ParseErrorView {
                failure: Failure::UnescapeFailure,
                code: ErrorKind::Tag,
                input: i@,
            }),
        },
{
    let chars = to_chars(i);
    assert(chars@.skip(0) =~= i@);
    if octal_at(&chars, 0, a, b, c) {
        Ok((tail(i, &chars, 3), text))
    } else {
        Err(ParseError { failure: Failure::UnescapeFailure, code: ErrorKind::Tag, input: i })
    }
}

/// Matches `040` at the start of `i`, the body of an escaped space: gives
/// what follows it, and a space.
pub fn escaped_space<'a>(i: &'a str) -> (r: Result<(&'a str, &'a str), ParseError<'a>>)
    ensures
        match r {
            Ok((rest, text)) => spec_escaped_space(i@) == Ok::<
                (Seq<char>, Seq<char>),
                ParseErrorView,
            >((rest@, text@)),
            Err(e) => spec_escaped_space(i@) == Err::<
                (Seq<char>, Seq<char>),
                ParseErrorView,
            >(e@),
        },
{
    proof {
        reveal_strlit(" ");
        assert(" "@ =~= seq![' ']);
    }
    escaped_octal(i, '0', '4', '0', " ")
}

/// Matches `011` at the start of `i`, the body of an escaped tab: gives
/// what follows it, and a tab.
pub fn escaped_tab<'a>(i: &'a str) -> (r: Result<(&'a str, &'a str), ParseError<'a>>)
    ensures
        match r {
            Ok((rest, text)) => spec_escaped_tab(i@) == Ok::<
                (Seq<char>, Seq<char>),
                ParseErrorView,
            >((rest@, text@)),
            Err(e) => spec_escaped_tab(i@) == Err::<
                (Seq<char>, Seq<char>),
                ParseErrorView,
            >(e@),
        },
{
    proof {
        reveal_strlit("\t");
        assert("\t"@ =~= seq!['\t']);
    }
    escaped_octal(i, '0', '1', '1', "\t")
}

/// Matches `012` at the start of `i`, the body of an escaped newline: gives
/// what follows it, and a newline.
pub fn escaped_newline<'a>(i: &'a str) -> (r: Result<(&'a str, &'a str), ParseError<'a>>)
    ensures
        match r {
            Ok((rest, text)) => spec_escaped_newline(i@) == Ok::<
                (Seq<char>, Seq<char>),
                ParseErrorView,
            >((rest@, text@)),
            Err(e) => spec_escaped_newline(i@) == Err::<
                (Seq<char>, Seq<char>),
                ParseErrorView,
            >(e@),
        },
{
    proof {
        reveal_strlit("\n");
        assert("\n"@ =~= seq!['\n']);
    }
    escaped_octal(i, '0', '1', '2', "\n")
}

/// Decodes the token `i`: gives the text it stands for, and the empty rest.
///
/// A token with a backslash that no escape body follows is rejected.
pub fn transform_escaped<'a>(i: &'a str) -> (r: Result<(&'a str, String), ParseError<'a>>)
    ensures
        match r {
            Ok((rest, text)) => spec_transform_escaped(i@) == Ok::<
                (Seq<char>, Seq<char>),
                ParseErrorView,
            >((rest@, text@)),
            Err(e) => spec_transform_escaped(i@) == Err::<(Seq<char>, Seq<char>), ParseErrorView>(
                e@,
            ),
        },
{
    let chars = to_chars(i);
    let n: usize = chars.len();
    let mut out = String::new();
    let mut k: usize = 0;
    assert(i@.skip(0) =~= i@);
    proof {
        lemma_prefixed_empty(unescape(i@));
    }
    while k < n
        invariant
            k <= n,
            n == chars.len(),
            chars@ == i@,
            unescape(i@) == prefixed(out@, unescape(i@.skip(k as int))),
        decreases n - k,
    {
        let ghost s = i@.skip(k as int);
        let ghost before = out@;
        let e: usize = scan(&chars, k, CharClass::Plain);
        if e > k {
            proof {
                lemma_run_len(s, CharClass::Plain);
                lemma_unescape_plain(s, e - k);
                assert(s.take(e - k) =~= i@.subrange(k as int, e as int));
                assert(s.skip(e - k) =~= i@.skip(e as int));
                lemma_prefixed_twice(before, s.take(e - k), unescape(i@.skip(e as int)));
            }
            out.append(i.substring_char(k, e));
            k = e;
        } else {
            proof {
                lemma_run_len(s, CharClass::Plain);
                assert(s[0] == '\\');
            }
            if n - k == 1 {
                return Err(
                    ParseError {
                        failure: Failure::UnescapeFailure,
                        code: ErrorKind::EscapedTransform,
                        input: tail(i, &chars, k),
                    },
                );
            }
            assert(s.skip(1) =~= i@.skip(k + 1));
            match escape_at(&chars, k + 1) {
                Some((text, len)) => {
                    proof {
                        assert(s.skip(1 + len) =~= i@.skip(k + 1 + len));
                        assert(text@ =~= seq![text@[0]]);
                        lemma_prefixed_twice(before, text@, unescape(i@.skip(k + 1 + len)));
                    }
                    out.append(text);
                    k = k + 1 + len;
                },
                None => {
                    return Err(
                        ParseError {
                            failure: Failure::UnescapeFailure,
                            code: ErrorKind::Tag,
                            input: tail(i, &chars, k + 1),
                        },
                    );
                },
            }
        }
    }
    proof {
        assert(i@.skip(n as int) =~= Seq::<char>::empty());
        assert(out@ + Seq::<char>::empty() =~= out@);
    }
    Ok((tail(i, &chars, n), out))
}

/// Matches a run of one or more characters of `class` at `pos`: gives the
/// position behind the run.
fn run1_at<'a>(
    i: &'a str,
    chars: &Vec<char>,
    pos: usize,
    class: CharClass,
    failure: Failure,
    code: ErrorKind,
) -> (r: Result<usize, ParseError<'a>>)
    requires
        chars@ == i@,
        pos <= chars.len(),
    ensures
        match r {
            Ok(next) => pos < next <= chars.len() && spec_run1(
                i@.skip(pos as int),
                class,
                failure,
                code,
            ) == Ok::<(Seq<char>, Seq<char>), ParseErrorView>(
                (i@.skip(next as int), i@.subrange(pos as int, next as int)),
            ),
            Err(e) => spec_run1(i@.skip(pos as int), class, failure, code) == Err::<
                (Seq<char>, Seq<char>),
                ParseErrorView,
            >(e@),
        },
{
    let next: usize = scan(chars, pos, class);
    if next == pos {
        Err(ParseError { failure, code, input: tail(i, chars, pos) })
    } else {
        proof {
            let s = i@.skip(pos as int);
            assert(s.skip(next - pos) =~= i@.skip(next as int));
            assert(s.take(next - pos) =~= i@.subrange(pos as int, next as int));
        }
        Ok(next)
    }
}

/// Matches a gap at `pos`: gives the position behind it.
fn gap_at<'a>(i: &'a str, chars: &Vec<char>, pos: usize, failure: Failure) -> (r: Result<
    usize,
    ParseError<'a>,
>)
    requires
        chars@ == i@,
        pos <= chars.len(),
    ensures
        match r {
            Ok(next) => pos < next <= chars.len() && spec_gap(i@.skip(pos as int), failure) == Ok::<
                Seq<char>,
                ParseErrorView,
            >(i@.skip(next as int)),
            Err(e) => spec_gap(i@.skip(pos as int), failure) == Err::<Seq<char>, ParseErrorView>(
                e@,
            ),
        },
{
    run1_at(i, chars, pos, CharClass::Blank, failure, ErrorKind::Space)
}

/// Matches a field at `pos` and decodes it: gives the position behind it,
/// and the text it stands for.
fn escaped_field_at<'a>(i: &'a str, chars: &Vec<char>, pos: usize) -> (r: Result<
    (usize, String),
    ParseError<'a>,
>)
    requires
        chars@ == i@,
        pos <= chars.len(),
    ensures
        match r {
            Ok((next, text)) => pos < next <= chars.len() && spec_escaped_field(
                i@.skip(pos as int),
            ) == Ok::<(Seq<char>, Seq<char>), ParseErrorView>((i@.skip(next as int), text@)),
            Err(e) => spec_escaped_field(i@.skip(pos as int)) == Err::<
                (Seq<char>, Seq<char>),
                ParseErrorView,
            >(e@),
        },
{
    match run1_at(i, chars, pos, CharClass::Field, Failure::MalformedToken, ErrorKind::IsNot) {
        Err(e) => Err(e),
        Ok(next) => match transform_escaped(i.substring_char(pos, next)) {
            Err(e) => Err(e),
            Ok((_, text)) => Ok((next, text)),
        },
    }
}

/// Matches the literal field `0` at `pos`: gives the position behind it.
fn zero_at<'a>(i: &'a str, chars: &Vec<char>, pos: usize) -> (r: Result<usize, ParseError<'a>>)
    requires
        chars@ == i@,
        pos <= chars.len(),
    ensures
        match r {
            Ok(next) => pos < next <= chars.len() && spec_zero(i@.skip(pos as int)) == Ok::<
                Seq<char>,
                ParseErrorView,
            >(i@.skip(next as int)),
            Err(e) => spec_zero(i@.skip(pos as int)) == Err::<Seq<char>, ParseErrorView>(e@),
        },
{
    if pos < chars.len() && chars[pos] == '0' {
        assert(i@.skip(pos as int).skip(1) =~= i@.skip(pos + 1));
        Ok(pos + 1)
    } else {
        Err(
            ParseError {
                failure: Failure::GrammarMismatch,
                code: ErrorKind::Char,
                input: tail(i, chars, pos),
            },
        )
    }
}

/// Matches the end of the line at `pos`: gives the position of the end.
fn end_at<'a>(i: &'a str, chars: &Vec<char>, pos: usize) -> (r: Result<usize, ParseError<'a>>)
    requires
        chars@ == i@,
        pos <= chars.len(),
    ensures
        match r {
            Ok(next) => next == chars.len() && spec_end(i@.skip(pos as int)) == Ok::<
                Seq<char>,
                ParseErrorView,
            >(i@.skip(next as int)),
            Err(e) => spec_end(i@.skip(pos as int)) == Err::<Seq<char>, ParseErrorView>(e@),
        },
{
    let next: usize = scan(chars, pos, CharClass::Blank);
    assert(i@.skip(pos as int).skip(next - pos) =~= i@.skip(next as int));
    if next == chars.len() {
        Ok(next)
    } else {
        Err(
            ParseError {
                failure: Failure::GrammarMismatch,
                code: ErrorKind::Eof,
                input: tail(i, chars, next),
            },
        )
    }
}

/// Matches a field at the start of `i`: gives what follows it, and the field.
///
/// The field is everything up to the next space or tab. An input that
/// starts with a space or a tab, or is empty, is rejected.
pub fn not_whitespace<'a>(i: &'a str) -> (r: Result<(&'a str, &'a str), ParseError<'a>>)
    ensures
        match r {
            Ok((rest, token)) => spec_not_whitespace(i@) == Ok::<
                (Seq<char>, Seq<char>),
                ParseErrorView,
            >((rest@, token@)),
            Err(e) => spec_not_whitespace(i@) == Err::<(Seq<char>, Seq<char>), ParseErrorView>(e@),
        },
{
    let chars = to_chars(i);
    assert(i@.skip(0) =~= i@);
    match run1_at(i, &chars, 0, CharClass::Field, Failure::MalformedToken, ErrorKind::IsNot) {
        Err(e) => Err(e),
        Ok(next) => Ok((tail(i, &chars, next), i.substring_char(0, next))),
    }
}

/// Matches an option list at `pos`: gives the position behind it, and the
/// options in their order.
fn options_at<'a>(i: &'a str, chars: &Vec<char>, pos: usize) -> (r: Result<
    (usize, Vec<String>),
    ParseError<'a>,
>)
    requires
        chars@ == i@,
        pos <= chars.len(),
    ensures
        match r {
            Ok((next, options)) => pos < next <= chars.len() && options.len() >= 1
                && spec_mount_opts(i@.skip(pos as int)) == Ok::<
                (Seq<char>, Seq<Seq<char>>),
                ParseErrorView,
            >((i@.skip(next as int), texts(options@))),
            Err(e) => spec_mount_opts(i@.skip(pos as int)) == Err::<
                (Seq<char>, Seq<Seq<char>>),
                ParseErrorView,
            >(e@),
        },
{
    let n: usize = chars.len();
    let first = run1_at(
        i,
        chars,
        pos,
        CharClass::Item,
        Failure::EmptyOptionList,
        ErrorKind::IsNot,
    );
    let mut at: usize = match first {
        Err(e) => { return Err(e); },
        Ok(next) => next,
    };
    let mut options: Vec<String> = Vec::new();
    match transform_escaped(i.substring_char(pos, at)) {
        Err(e) => { return Err(e); },
        Ok((_, text)) => {
            options.push(text);
        },
    }
    assert(texts(options@) =~= seq![options@[0]@]);
    while at < n && chars[at] == ','
        invariant
            chars@ == i@,
            n == chars.len(),
            pos < at <= n,
            options.len() >= 1,
            spec_mount_opts(i@.skip(pos as int)) == listed(
                texts(options@),
                spec_more_opts(i@.skip(at as int)),
            ),
        decreases n - at,
    {
        let ghost s = i@.skip(at as int);
        let ghost before = texts(options@);
        assert(s.skip(1) =~= i@.skip(at + 1));
        let item = run1_at(
            i,
            chars,
            at + 1,
            CharClass::Item,
            Failure::MalformedToken,
            ErrorKind::IsNot,
        );
        let next: usize = match item {
            Err(e) => { return Err(e); },
            Ok(next) => next,
        };
        proof {
            lemma_run_len(s.skip(1), CharClass::Item);
            assert(s.skip(1).take(next - at - 1) =~= i@.subrange(at + 1, next as int));
            assert(s.skip(next - at) =~= i@.skip(next as int));
            assert(s.skip(1).skip(next - at - 1) =~= i@.skip(next as int));
        }
        match transform_escaped(i.substring_char(at + 1, next)) {
            Err(e) => { return Err(e); },
            Ok((_, text)) => {
                options.push(text);
                proof {
                    assert(texts(options@) =~= before + seq![text@]);
                    let more = spec_more_opts(i@.skip(next as int));
                    if let Ok((rest, after)) = more {
                        assert(before + (seq![text@] + after) =~= (before + seq![text@]) + after);
                    }
                }
                at = next;
            },
        }
    }
    proof {
        assert(texts(options@) + Seq::<Seq<char>>::empty() =~= texts(options@));
    }
    Ok((at, options))
}

/// Matches an option list at the start of `i`: gives what follows it, and
/// the options in their order, each decoded on its own.
///
/// The list is the text up to the next space or tab, split at every comma
/// into non-empty options. An input that starts with no option is rejected,
/// and so is a list with an empty option behind a comma, or with an option
/// that cannot be decoded.
pub fn mount_opts<'a>(i: &'a str) -> (r: Result<(&'a str, Vec<String>), ParseError<'a>>)
    ensures
        match r {
            Ok((rest, options)) => spec_mount_opts(i@) == Ok::<
                (Seq<char>, Seq<Seq<char>>),
                ParseErrorView,
            >((rest@, texts(options@))),
            Err(e) => spec_mount_opts(i@) == Err::<(Seq<char>, Seq<Seq<char>>), ParseErrorView>(
                e@,
            ),
        },
        r matches Ok((_, options)) ==> options.len() >= 1,
{
    let chars = to_chars(i);
    assert(i@.skip(0) =~= i@);
    match options_at(i, &chars, 0) {
        Err(e) => Err(e),
        Ok((next, options)) => Ok((tail(i, &chars, next), options)),
    }
}

/// Matches the device and the mount point at `pos`, each with the gap
/// behind it: gives the position behind the second gap, and the two texts.
fn paths_at<'a>(i: &'a str, chars: &Vec<char>, pos: usize) -> (r: Result<
    (usize, String, String),
    ParseError<'a>,
>)
    requires
        chars@ == i@,
        pos <= chars.len(),
    ensures
        match r {
            Ok((next, device, mount_point)) => pos < next <= chars.len() && spec_paths(
                i@.skip(pos as int),
            ) == Ok::<(Seq<char>, (Seq<char>, Seq<char>)), ParseErrorView>(
                (i@.skip(next as int), (device@, mount_point@)),
            ),
            Err(e) => spec_paths(i@.skip(pos as int)) == Err::<
                (Seq<char>, (Seq<char>, Seq<char>)),
                ParseErrorView,
            >(e@),
        },
{
    let (after_device, device) = match escaped_field_at(i, chars, pos) {
        Err(e) => { return Err(e); },
        Ok(found) => found,
    };
    let second: usize = match gap_at(i, chars, after_device, Failure::MalformedToken) {
        Err(e) => { return Err(e); },
        Ok(next) => next,
    };
    let (after_mount_point, mount_point) = match escaped_field_at(i, chars, second) {
        Err(e) => { return Err(e); },
        Ok(found) => found,
    };
    let next: usize = match gap_at(i, chars, after_mount_point, Failure::MalformedToken) {
        Err(e) => { return Err(e); },
        Ok(next) => next,
    };
    Ok((next, device, mount_point))
}

/// Matches what follows the options at `pos`: gives the position of the
/// end of the line.
fn trailer_at<'a>(i: &'a str, chars: &Vec<char>, pos: usize) -> (r: Result<usize, ParseError<'a>>)
    requires
        chars@ == i@,
        pos <= chars.len(),
    ensures
        match r {
            Ok(next) => next == chars.len() && spec_trailer(i@.skip(pos as int)) == Ok::<
                Seq<char>,
                ParseErrorView,
            >(i@.skip(next as int)),
            Err(e) => spec_trailer(i@.skip(pos as int)) == Err::<Seq<char>, ParseErrorView>(e@),
        },
{
    let dump: usize = match gap_at(i, chars, pos, Failure::GrammarMismatch) {
        Err(e) => { return Err(e); },
        Ok(next) => next,
    };
    let after_dump: usize = match zero_at(i, chars, dump) {
        Err(e) => { return Err(e); },
        Ok(next) => next,
    };
    let pass: usize = match gap_at(i, chars, after_dump, Failure::GrammarMismatch) {
        Err(e) => { return Err(e); },
        Ok(next) => next,
    };
    let after_pass: usize = match zero_at(i, chars, pass) {
        Err(e) => { return Err(e); },
        Ok(next) => next,
    };
    end_at(i, chars, after_pass)
}

/// Parses one line of a mount table: gives the entry it describes, and the
/// empty rest.
///
/// The line holds the device, the mount point, the file system type and the
/// options, then the two literal fields `0` and `0`, with spaces or tabs
/// between them; only spaces and tabs may follow. A line of any other shape
/// is rejected, with the first element that did not match and the input
/// that was left at that point.
pub fn parse_line<'a>(i: &'a str) -> (r: Result<(&'a str, Mount), ParseError<'a>>)
    ensures
        match r {
            Ok((rest, mount)) => spec_parse_line(i@) == Ok::<
                (Seq<char>, MountView),
                ParseErrorView,
            >((rest@, mount@)),
            Err(e) => spec_parse_line(i@) == Err::<(Seq<char>, MountView), ParseErrorView>(e@),
        },
        r matches Ok((rest, mount)) ==> rest@.len() == 0 && mount.options.len() >= 1,
{
    let chars = to_chars(i);
    assert(i@.skip(0) =~= i@);
    let (kind, device, mount_point) = match paths_at(i, &chars, 0) {
        Err(e) => { return Err(e); },
        Ok(found) => found,
    };
    let after_kind: usize = match run1_at(
        i,
        &chars,
        kind,
        CharClass::Field,
        Failure::MalformedToken,
        ErrorKind::IsNot,
    ) {
        Err(e) => { return Err(e); },
        Ok(next) => next,
    };
    let file_system_type = String::from_str(i.substring_char(kind, after_kind));
    let list: usize = match gap_at(i, &chars, after_kind, Failure::MalformedToken) {
        Err(e) => { return Err(e); },
        Ok(next) => next,
    };
    let (after_list, options) = match options_at(i, &chars, list) {
        Err(e) => { return Err(e); },
        Ok(found) => found,
    };
    let end: usize = match trailer_at(i, &chars, after_list) {
        Err(e) => { return Err(e); },
        Ok(next) => next,
    };
    let mount = Mount { device, mount_point, file_system_type, options };
    proof {
        assert(i@.skip(end as int).len() == 0);
        assert(mount@.options.len() == mount.options.len());
    }
    Ok((tail(i, &chars, end), mount))
}

} // verus!
