use vstd::prelude::*;
use crate::chars::{lemma_run_len, run_len, CharClass};
use crate::error::{ErrorKind, Failure, ParseErrorView};
use crate::mount::MountView;

verus! {

/// The rejection of `input` by the matcher `code`.
pub open spec fn rejected(failure: Failure, code: ErrorKind, input: Seq<char>) -> ParseErrorView {
    ParseErrorView { failure, code, input }
}

/// `head` put in front of a decoded text, or the rejection unchanged.
pub open spec fn prefixed(head: Seq<char>, tail: Result<Seq<char>, ParseErrorView>) -> Result<
    Seq<char>,
    ParseErrorView,
> {
    match tail {
        Ok(text) => Ok(head + text),
        Err(e) => Err(e),
    }
}

/// `head` put in front of the options that follow, or the rejection unchanged.
pub open spec fn listed(
    head: Seq<Seq<char>>,
    tail: Result<(Seq<char>, Seq<Seq<char>>), ParseErrorView>,
) -> Result<(Seq<char>, Seq<Seq<char>>), ParseErrorView> {
    match tail {
        Ok((rest, texts)) => Ok((rest, head + texts)),
        Err(e) => Err(e),
    }
}

/// Whether `s` starts with the three characters `a`, `b`, `c`.
pub open spec fn starts_with3(s: Seq<char>, a: char, b: char, c: char) -> bool {
    s.len() >= 3 && s[0] == a && s[1] == b && s[2] == c
}

/// The escape body at the start of `s`, the text right behind a backslash:
/// the character it stands for and the number of characters it takes.
///
/// A second backslash stands for a backslash; the octal bodies `040`, `011`
/// and `012` stand for a space, a tab and a newline. Nothing else is a body.
pub open spec fn escape_body(s: Seq<char>) -> Option<(char, int)> {
    if s.len() >= 1 && s[0] == '\\' {
        Some(('\\', 1))
    } else if starts_with3(s, '0', '4', '0') {
        Some((' ', 3))
    } else if starts_with3(s, '0', '1', '1') {
        Some(('\t', 3))
    } else if starts_with3(s, '0', '1', '2') {
        Some(('\n', 3))
    } else {
        None
    }
}

/// The text that the token `s` stands for.
///
/// Every character but a backslash stands for itself. A backslash and the
/// escape body behind it stand for one character. A backslash at the end of
/// the token is rejected with what is left from that backslash on; a
/// backslash followed by anything but an escape body is rejected with what
/// is left behind that backslash.
pub open spec fn unescape(s: Seq<char>) -> Result<Seq<char>, ParseErrorView>
    decreases s.len(),
{
    if s.len() == 0 {
        Ok(Seq::empty())
    } else if s[0] != '\\' {
        prefixed(seq![s[0]], unescape(s.skip(1)))
    } else if s.len() == 1 {
        Err(rejected(Failure::UnescapeFailure, ErrorKind::EscapedTransform, s))
    } else {
        match escape_body(s.skip(1)) {
            Some((c, n)) => prefixed(seq![c], unescape(s.skip(1 + n))),
            None => Err(rejected(Failure::UnescapeFailure, ErrorKind::Tag, s.skip(1))),
        }
    }
}

/// How one character is written in a token: a backslash, a space, a tab and
/// a newline by their escapes, any other character as it is.
pub open spec fn escape_char(c: char) -> Seq<char> {
    if c == '\\' {
        seq!['\\', '\\']
    } else if c == ' ' {
        seq!['\\', '0', '4', '0']
    } else if c == '\t' {
        seq!['\\', '0', '1', '1']
    } else if c == '\n' {
        seq!['\\', '0', '1', '2']
    } else {
        seq![c]
    }
}

/// The token that stands for the text `s`.
pub open spec fn spec_escape(s: Seq<char>) -> Seq<char>
    decreases s.len(),
{
    if s.len() == 0 {
        Seq::empty()
    } else {
        escape_char(s[0]) + spec_escape(s.skip(1))
    }
}

/// One backslash at the start of `s`: what follows it, and the backslash it stands for.
pub open spec fn spec_escaped_backslash(s: Seq<char>) -> Result<
    (Seq<char>, Seq<char>),
    ParseErrorView,
> {
    if s.len() >= 1 && s[0] == '\\' {
        Ok((s.skip(1), seq!['\\']))
    } else {
        Err(rejected(Failure::UnescapeFailure, ErrorKind::Char, s))
    }
}

/// The octal body `a b c` at the start of `s`: what follows it, and the
/// character `meaning` that it stands for.
pub open spec fn spec_escaped_octal(s: Seq<char>, a: char, b: char, c: char, meaning: char) -> Result<
    (Seq<char>, Seq<char>),
    ParseErrorView,
> {
    if starts_with3(s, a, b, c) {
        Ok((s.skip(3), seq![meaning]))
    } else {
        Err(rejected(Failure::UnescapeFailure, ErrorKind::Tag, s))
    }
}

/// The body `040` of an escaped space at the start of `s`.
pub open spec fn spec_escaped_space(s: Seq<char>) -> Result<(Seq<char>, Seq<char>), ParseErrorView> {
    spec_escaped_octal(s, '0', '4', '0', ' ')
}

/// The body `011` of an escaped tab at the start of `s`.
pub open spec fn spec_escaped_tab(s: Seq<char>) -> Result<(Seq<char>, Seq<char>), ParseErrorView> {
    spec_escaped_octal(s, '0', '1', '1', '\t')
}

/// The body `012` of an escaped newline at the start of `s`.
pub open spec fn spec_escaped_newline(s: Seq<char>) -> Result<
    (Seq<char>, Seq<char>),
    ParseErrorView,
> {
    spec_escaped_octal(s, '0', '1', '2', '\n')
}

/// A whole token decoded: nothing is left of it.
pub open spec fn spec_transform_escaped(s: Seq<char>) -> Result<
    (Seq<char>, Seq<char>),
    ParseErrorView,
> {
    match unescape(s) {
        Ok(text) => Ok((Seq::empty(), text)),
        Err(e) => Err(e),
    }
}

/// A run of one or more characters of `class` at the start of `s`: what
/// follows the run, and the run. An empty run is rejected with `s` itself.
pub open spec fn spec_run1(s: Seq<char>, class: CharClass, failure: Failure, code: ErrorKind) -> Result<
    (Seq<char>, Seq<char>),
    ParseErrorView,
> {
    let n = run_len(s, class) as int;
    if n == 0 {
        Err(rejected(failure, code, s))
    } else {
        Ok((s.skip(n), s.take(n)))
    }
}

/// A field: everything up to the next space or tab, at least one character.
pub open spec fn spec_not_whitespace(s: Seq<char>) -> Result<
    (Seq<char>, Seq<char>),
    ParseErrorView,
> {
    spec_run1(s, CharClass::Field, Failure::MalformedToken, ErrorKind::IsNot)
}

/// A field and the text it stands for.
pub open spec fn spec_escaped_field(s: Seq<char>) -> Result<
    (Seq<char>, Seq<char>),
    ParseErrorView,
> {
    match spec_not_whitespace(s) {
        Err(e) => Err(e),
        Ok((rest, token)) => match unescape(token) {
            Err(e) => Err(e),
            Ok(text) => Ok((rest, text)),
        },
    }
}

/// One or more spaces or tabs: what follows them. Where there is none, the
/// rejection says `failure`.
pub open spec fn spec_gap(s: Seq<char>, failure: Failure) -> Result<Seq<char>, ParseErrorView> {
    match spec_run1(s, CharClass::Blank, failure, ErrorKind::Space) {
        Err(e) => Err(e),
        Ok((rest, _)) => Ok(rest),
    }
}

/// The literal field `0`: what follows it.
pub open spec fn spec_zero(s: Seq<char>) -> Result<Seq<char>, ParseErrorView> {
    if s.len() >= 1 && s[0] == '0' {
        Ok(s.skip(1))
    } else {
        Err(rejected(Failure::GrammarMismatch, ErrorKind::Char, s))
    }
}

/// The end of the line: spaces and tabs, and nothing behind them.
pub open spec fn spec_end(s: Seq<char>) -> Result<Seq<char>, ParseErrorView> {
    let rest = s.skip(run_len(s, CharClass::Blank) as int);
    if rest.len() == 0 {
        Ok(rest)
    } else {
        Err(rejected(Failure::GrammarMismatch, ErrorKind::Eof, rest))
    }
}

/// The options that follow the first one: every comma has to be followed
/// by a non-empty option, which is decoded and added.
///
/// The list ends at the end of the text or before anything but a comma. A
/// comma with no option behind it is rejected as a malformed token, with
/// what is left behind that comma.
pub open spec fn spec_more_opts(s: Seq<char>) -> Result<(Seq<char>, Seq<Seq<char>>), ParseErrorView>
    decreases s.len(),
{
    if s.len() >= 1 && s[0] == ',' {
        let n = run_len(s.skip(1), CharClass::Item) as int;
        if n == 0 {
            Err(rejected(Failure::MalformedToken, ErrorKind::IsNot, s.skip(1)))
        } else {
            proof {
                lemma_run_len(s.skip(1), CharClass::Item);
            }
            match unescape(s.skip(1).take(n)) {
                Err(e) => Err(e),
                Ok(text) => listed(seq![text], spec_more_opts(s.skip(1 + n))),
            }
        }
    } else {
        Ok((s, Seq::empty()))
    }
}

/// The option list at the start of `s`: what follows it, and the options in
/// their order, each decoded on its own.
///
/// The list is one or more non-empty options with a comma between each two:
/// the text up to the next space or tab, split at every comma. Where `s`
/// starts with no option, the list is rejected as empty; an empty option
/// behind a comma is rejected as a malformed token; an option that cannot
/// be decoded is rejected as an unescape failure.
pub open spec fn spec_mount_opts(s: Seq<char>) -> Result<(Seq<char>, Seq<Seq<char>>), ParseErrorView> {
    match spec_run1(s, CharClass::Item, Failure::EmptyOptionList, ErrorKind::IsNot) {
        Err(e) => Err(e),
        Ok((rest, token)) => match unescape(token) {
            Err(e) => Err(e),
            Ok(text) => listed(seq![text], spec_more_opts(rest)),
        },
    }
}

/// What has to follow the options: a gap, `0`, a gap, `0`, and the end of the line.
pub open spec fn spec_trailer(s: Seq<char>) -> Result<Seq<char>, ParseErrorView> {
    match spec_gap(s, Failure::GrammarMismatch) {
        Err(e) => Err(e),
        Ok(dump) => match spec_zero(dump) {
            Err(e) => Err(e),
            Ok(s1) => match spec_gap(s1, Failure::GrammarMismatch) {
                Err(e) => Err(e),
                Ok(pass) => match spec_zero(pass) {
                    Err(e) => Err(e),
                    Ok(s2) => spec_end(s2),
                },
            },
        },
    }
}

/// The device and the mount point: two decoded fields with a gap between
/// them and a gap behind them.
pub open spec fn spec_paths(s: Seq<char>) -> Result<
    (Seq<char>, (Seq<char>, Seq<char>)),
    ParseErrorView,
> {
    match spec_escaped_field(s) {
        Err(e) => Err(e),
        Ok((s1, device)) => match spec_gap(s1, Failure::MalformedToken) {
            Err(e) => Err(e),
            Ok(s2) => match spec_escaped_field(s2) {
                Err(e) => Err(e),
                Ok((s3, mount_point)) => match spec_gap(s3, Failure::MalformedToken) {
                    Err(e) => Err(e),
                    Ok(s4) => Ok((s4, (device, mount_point))),
                },
            },
        },
    }
}

/// A mount table line: device, mount point, file system type and options,
/// then the two literal `0` fields, with nothing left behind them.
///
/// The device and the mount point are decoded, the type is taken as it is
/// written, and each option is decoded on its own. The first element that
/// does not match decides the rejection.
pub open spec fn spec_parse_line(s: Seq<char>) -> Result<(Seq<char>, MountView), ParseErrorView> {
    match spec_paths(s) {
        Err(e) => Err(e),
        Ok((s1, (device, mount_point))) => match spec_not_whitespace(s1) {
            Err(e) => Err(e),
            Ok((s2, file_system_type)) => match spec_gap(s2, Failure::MalformedToken) {
                Err(e) => Err(e),
                Ok(s3) => match spec_mount_opts(s3) {
                    Err(e) => Err(e),
                    Ok((s4, options)) => match spec_trailer(s4) {
                        Err(e) => Err(e),
                        Ok(rest) => Ok(
                            (rest, MountView { device, mount_point, file_system_type, options }),
                        ),
                    },
                },
            },
        },
    }
}

/// The fields of a text: its stretches without a space or a tab, in order.
pub open spec fn fields(s: Seq<char>) -> Seq<Seq<char>>
    decreases s.len(),
{
    let t = s.skip(run_len(s, CharClass::Blank) as int);
    let n = run_len(t, CharClass::Field) as int;
    if n == 0 {
        Seq::empty()
    } else {
        proof {
            lemma_run_len(s, CharClass::Blank);
            lemma_run_len(t, CharClass::Field);
        }
        seq![t.take(n)] + fields(t.skip(n))
    }
}

/// Every text of `tokens` with a comma in front of it, in order.
pub open spec fn comma_led(tokens: Seq<Seq<char>>) -> Seq<char>
    decreases tokens.len(),
{
    if tokens.len() == 0 {
        Seq::empty()
    } else {
        seq![','] + tokens[0] + comma_led(tokens.skip(1))
    }
}

/// The texts of `tokens` in order, with a comma between each two.
pub open spec fn joined(tokens: Seq<Seq<char>>) -> Seq<char> {
    if tokens.len() == 0 {
        Seq::empty()
    } else {
        tokens[0] + comma_led(tokens.skip(1))
    }
}

/// Each text of `options` written as a token.
pub open spec fn escaped_all(options: Seq<Seq<char>>) -> Seq<Seq<char>> {
    Seq::new(options.len(), |k: int| spec_escape(options[k]))
}

} // verus!
