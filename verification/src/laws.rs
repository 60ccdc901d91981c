use vstd::prelude::*;
use crate::chars::{all_in, lemma_run_len, lemma_run_len_is, run_len, CharClass};
use crate::error::{ErrorKind, Failure, ParseErrorView};
use crate::grammar::{
    comma_led, escape_body, escape_char, escaped_all, fields, joined, prefixed, rejected,
    spec_end, spec_escape, spec_escaped_field, spec_gap, spec_mount_opts, spec_not_whitespace,
    spec_parse_line, spec_paths, spec_zero, unescape,
};
use crate::lemmas::{
    lemma_escape_is_item, lemma_fields_after_gap, lemma_fields_after_token,
    lemma_fields_after_zero, lemma_fields_first, lemma_fields_of_end, lemma_gap_extends,
    lemma_gap_needs_blank, lemma_more_opts_comma_led, lemma_mount_opts_consumed,
    lemma_mount_opts_extends, lemma_paths_extends, lemma_run1_extends, lemma_run1_needs_one,
    lemma_run_len_concat, lemma_trailer_extends, lemma_unescape_plain_token,
};
use crate::mount::MountView;

verus! {

/// Decoding undoes encoding: the token written for a text stands for that
/// text, whatever characters the text holds.
pub proof fn lemma_unescape_escape(s: Seq<char>)
    ensures
        unescape(spec_escape(s)) == Ok::<Seq<char>, ParseErrorView>(s),
    decreases s.len(),
{
    if s.len() == 0 {
        assert(s =~= Seq::<char>::empty());
    } else {
        let c = s[0];
        let head = escape_char(c);
        let tail = spec_escape(s.skip(1));
        let e = head + tail;
        lemma_unescape_escape(s.skip(1));
        assert(seq![c] + s.skip(1) =~= s);
        assert(e[0] == head[0]);
        if c == '\\' || c == ' ' || c == '\t' || c == '\n' {
            let n = head.len() - 1;
            assert(e.len() >= 2);
            assert(e.skip(1)[0] == head[1]);
            if c != '\\' {
                assert(e.skip(1)[1] == head[2]);
                assert(e.skip(1)[2] == head[3]);
            }
            assert(escape_body(e.skip(1)) == Some((c, n)));
            assert(e.skip(1 + n) =~= tail);
            assert(unescape(e) == prefixed(seq![c], unescape(e.skip(1 + n))));
        } else {
            assert(e.skip(1) =~= tail);
            assert(unescape(e) == prefixed(seq![c], unescape(e.skip(1))));
        }
    }
}

/// A non-empty text written as a token is read back as one field: the
/// token holds no space and no tab, and its field stands for the text.
pub proof fn lemma_field_round_trip(s: Seq<char>)
    requires
        s.len() > 0,
    ensures
        spec_escaped_field(spec_escape(s)) == Ok::<(Seq<char>, Seq<char>), ParseErrorView>(
            (Seq::empty(), s),
        ),
{
    let token = spec_escape(s);
    lemma_escape_is_item(s);
    lemma_unescape_escape(s);
    assert(token.take(token.len() as int) =~= token);
    lemma_run_len_is(token, CharClass::Field, token.len() as int);
    assert(token.skip(token.len() as int) =~= Seq::<char>::empty());
}

/// Whether `text` can stand in an option list as it is: it is not empty and
/// holds no comma, no backslash, no space and no tab.
pub open spec fn is_plain_option(text: Seq<char>) -> bool {
    &&& text.len() > 0
    &&& all_in(text, CharClass::Item)
    &&& all_in(text, CharClass::Plain)
}

/// Whether `text` can stand in an option list once it is written as a
/// token: it is not empty and holds no comma.
pub open spec fn is_option(text: Seq<char>) -> bool {
    &&& text.len() > 0
    &&& forall|k: int| 0 <= k < text.len() ==> text[k] != ','
}

/// Joining tokens with commas and reading the list back gives the texts
/// that the tokens stand for, in the same order, with nothing left over.
pub proof fn lemma_joined_tokens(tokens: Seq<Seq<char>>, texts: Seq<Seq<char>>)
    requires
        tokens.len() > 0,
        tokens.len() == texts.len(),
        forall|k: int|
            0 <= k < tokens.len() ==> (#[trigger] tokens[k]).len() > 0 && all_in(
                tokens[k],
                CharClass::Item,
            ) && unescape(tokens[k]) == Ok::<Seq<char>, ParseErrorView>(texts[k]),
    ensures
        spec_mount_opts(joined(tokens)) == Ok::<(Seq<char>, Seq<Seq<char>>), ParseErrorView>(
            (Seq::empty(), texts),
        ),
{
    let first = tokens[0];
    let others = tokens.skip(1);
    let after = comma_led(others);
    let s = joined(tokens);
    assert(first.len() > 0);
    assert forall|k: int| 0 <= k < others.len() implies (#[trigger] others[k]).len() > 0 && all_in(
        others[k],
        CharClass::Item,
    ) && unescape(others[k]) == Ok::<Seq<char>, ParseErrorView>(texts.skip(1)[k]) by {
        assert(others[k] == tokens[k + 1]);
    }
    lemma_more_opts_comma_led(others, texts.skip(1));
    if after.len() > 0 {
        assert(after[0] == ',');
    }
    lemma_run_len_concat(first, after, CharClass::Item);
    let n = first.len() as int;
    assert(s.take(n) =~= first);
    assert(s.skip(n) =~= after);
    assert(seq![texts[0]] + texts.skip(1) =~= texts);
}

/// Joining options with commas and reading the list back gives the same
/// options in the same order, with nothing left over. This holds of one or
/// more options, each not empty and free of commas, backslashes, spaces and
/// tabs.
pub proof fn lemma_options_round_trip(options: Seq<Seq<char>>)
    requires
        options.len() > 0,
        forall|k: int| 0 <= k < options.len() ==> is_plain_option(#[trigger] options[k]),
    ensures
        spec_mount_opts(joined(options)) == Ok::<(Seq<char>, Seq<Seq<char>>), ParseErrorView>(
            (Seq::empty(), options),
        ),
{
    assert forall|k: int| 0 <= k < options.len() implies (#[trigger] options[k]).len() > 0
        && all_in(options[k], CharClass::Item) && unescape(options[k]) == Ok::<
        Seq<char>,
        ParseErrorView,
    >(options[k]) by {
        assert(is_plain_option(options[k]));
        lemma_unescape_plain_token(options[k]);
    }
    lemma_joined_tokens(options, options);
}

/// Writing each option as a token, joining the tokens with commas and
/// reading the list back gives the same options in the same order, with
/// nothing left over. This holds of one or more options, each not empty and
/// free of commas.
pub proof fn lemma_escaped_options_round_trip(options: Seq<Seq<char>>)
    requires
        options.len() > 0,
        forall|k: int| 0 <= k < options.len() ==> is_option(#[trigger] options[k]),
    ensures
        spec_mount_opts(joined(escaped_all(options))) == Ok::<
            (Seq<char>, Seq<Seq<char>>),
            ParseErrorView,
        >((Seq::empty(), options)),
{
    let tokens = escaped_all(options);
    assert forall|k: int| 0 <= k < tokens.len() implies (#[trigger] tokens[k]).len() > 0 && all_in(
        tokens[k],
        CharClass::Item,
    ) && unescape(tokens[k]) == Ok::<Seq<char>, ParseErrorView>(options[k]) by {
        assert(is_option(options[k]));
        lemma_escape_is_item(options[k]);
        lemma_unescape_escape(options[k]);
    }
    lemma_joined_tokens(tokens, options);
}

/// An accepted option list is the whole field that it starts: it takes
/// everything up to the next space or tab, so that no comma and no empty
/// option is left behind it.
pub proof fn lemma_option_list_is_whole_field(s: Seq<char>)
    requires
        spec_mount_opts(s) is Ok,
    ensures
        spec_mount_opts(s)->Ok_0.0 == s.skip(run_len(s, CharClass::Field) as int),
        spec_mount_opts(s)->Ok_0.1.len() >= 1,
{
    let rest = spec_mount_opts(s)->Ok_0.0;
    let m = s.len() - rest.len();
    lemma_mount_opts_consumed(s);
    if rest.len() > 0 {
        assert(rest[0] == s[m]);
    }
    lemma_run_len_is(s, CharClass::Field, m);
}

/// An accepted line is consumed to its end, and its entry has at least one
/// option.
pub proof fn lemma_accepted_line(line: Seq<char>)
    requires
        spec_parse_line(line) is Ok,
    ensures
        spec_parse_line(line)->Ok_0.0.len() == 0,
        spec_parse_line(line)->Ok_0.1.options.len() >= 1,
{
}

/// What is put behind an accepted line is held to be the end of the line:
/// the longer line gives the same entry where only spaces and tabs were
/// added, and is rejected where anything else was.
pub proof fn lemma_line_extended(line: Seq<char>, extra: Seq<char>)
    requires
        spec_parse_line(line) is Ok,
    ensures
        spec_parse_line(line + extra) == match spec_end(extra) {
            Ok(rest) => Ok((rest, spec_parse_line(line)->Ok_0.1)),
            Err(e) => Err::<(Seq<char>, MountView), ParseErrorView>(e),
        },
{
    let (s1, paths) = spec_paths(line)->Ok_0;
    let (s2, file_system_type) = spec_not_whitespace(s1)->Ok_0;
    let s3 = spec_gap(s2, Failure::MalformedToken)->Ok_0;
    let (s4, options) = spec_mount_opts(s3)->Ok_0;
    lemma_run1_needs_one(s1, CharClass::Field, Failure::MalformedToken, ErrorKind::IsNot);
    lemma_paths_extends(line, extra);
    lemma_gap_needs_blank(s2, Failure::MalformedToken);
    lemma_run1_extends(s1, extra, CharClass::Field, Failure::MalformedToken, ErrorKind::IsNot);
    lemma_run1_needs_one(s3, CharClass::Item, Failure::EmptyOptionList, ErrorKind::IsNot);
    lemma_gap_extends(s2, extra, Failure::MalformedToken);
    lemma_gap_needs_blank(s4, Failure::GrammarMismatch);
    lemma_mount_opts_extends(s3, extra);
    lemma_trailer_extends(s4, extra);
}

/// Nothing but spaces and tabs may follow the second `0`: a line that is
/// accepted is rejected once anything else is put behind it. The rejection
/// holds what is left from the first added character that is neither a
/// space nor a tab.
pub proof fn lemma_full_consumption(line: Seq<char>, extra: Seq<char>)
    requires
        spec_parse_line(line) is Ok,
        !all_in(extra, CharClass::Blank),
    ensures
        spec_parse_line(line + extra) == Err::<(Seq<char>, MountView), ParseErrorView>(
            rejected(
                Failure::GrammarMismatch,
                ErrorKind::Eof,
                extra.skip(run_len(extra, CharClass::Blank) as int),
            ),
        ),
{
    lemma_line_extended(line, extra);
    lemma_run_len(extra, CharClass::Blank);
    let b = run_len(extra, CharClass::Blank) as int;
    if b == extra.len() {
        assert(extra.take(b) =~= extra);
    }
}

/// Spaces and tabs may follow the second `0`: a line that is accepted
/// gives the same entry when spaces and tabs are put behind it.
pub proof fn lemma_trailing_blanks(line: Seq<char>, blanks: Seq<char>)
    requires
        spec_parse_line(line) is Ok,
        all_in(blanks, CharClass::Blank),
    ensures
        spec_parse_line(line + blanks) == spec_parse_line(line),
{
    lemma_line_extended(line, blanks);
    assert(blanks.take(blanks.len() as int) =~= blanks);
    lemma_run_len_is(blanks, CharClass::Blank, blanks.len() as int);
    assert(spec_end(blanks)->Ok_0 =~= spec_parse_line(line)->Ok_0.0);
}

/// An accepted line has exactly six fields, and the last two are `0`: a
/// line with fewer than four fields in front of the two last ones, or with
/// anything but `0` in one of those, is rejected. The first two fields are
/// the device and the mount point as they are written, the third is the
/// file system type.
pub proof fn lemma_arity(line: Seq<char>)
    requires
        spec_parse_line(line) is Ok,
    ensures
        fields(line).len() == 6,
        fields(line)[4] == seq!['0'],
        fields(line)[5] == seq!['0'],
        unescape(fields(line)[0]) == Ok::<Seq<char>, ParseErrorView>(
            spec_parse_line(line)->Ok_0.1.device,
        ),
        unescape(fields(line)[1]) == Ok::<Seq<char>, ParseErrorView>(
            spec_parse_line(line)->Ok_0.1.mount_point,
        ),
        fields(line)[2] == spec_parse_line(line)->Ok_0.1.file_system_type,
{
    let (a1, device) = spec_escaped_field(line)->Ok_0;
    let a2 = spec_gap(a1, Failure::MalformedToken)->Ok_0;
    let (a3, mount_point) = spec_escaped_field(a2)->Ok_0;
    let a4 = spec_gap(a3, Failure::MalformedToken)->Ok_0;
    let (a5, file_system_type) = spec_not_whitespace(a4)->Ok_0;
    let a6 = spec_gap(a5, Failure::MalformedToken)->Ok_0;
    let (a7, options) = spec_mount_opts(a6)->Ok_0;
    let a8 = spec_gap(a7, Failure::GrammarMismatch)->Ok_0;
    let a9 = spec_zero(a8)->Ok_0;
    let a10 = spec_gap(a9, Failure::GrammarMismatch)->Ok_0;
    let a11 = spec_zero(a10)->Ok_0;
    let f1 = spec_not_whitespace(line)->Ok_0.1;
    let f2 = spec_not_whitespace(a2)->Ok_0.1;
    lemma_fields_after_token(line, Failure::MalformedToken);
    lemma_fields_after_gap(a1, Failure::MalformedToken);
    lemma_fields_after_token(a2, Failure::MalformedToken);
    lemma_fields_after_gap(a3, Failure::MalformedToken);
    lemma_fields_after_token(a4, Failure::MalformedToken);
    lemma_fields_after_gap(a5, Failure::MalformedToken);
    lemma_mount_opts_consumed(a6);
    let m = a6.len() - a7.len();
    lemma_gap_needs_blank(a7, Failure::GrammarMismatch);
    assert(a7[0] == a6[m]);
    lemma_fields_first(a6, m);
    lemma_fields_after_gap(a7, Failure::GrammarMismatch);
    lemma_gap_needs_blank(a9, Failure::GrammarMismatch);
    assert(a9[0] == a8[1]);
    lemma_fields_after_zero(a8);
    lemma_fields_after_gap(a9, Failure::GrammarMismatch);
    lemma_fields_of_end(a11);
    if a11.len() > 0 {
        assert(a11[0] == a10[1]);
    }
    lemma_fields_after_zero(a10);
    assert(fields(line) =~= seq![
        f1,
        f2,
        file_system_type,
        a6.take(m),
        seq!['0'],
        seq!['0'],
    ]);
}

} // verus!
