use vstd::prelude::*;
use crate::chars::{all_in, lemma_run_len, lemma_run_len_is, run_len, CharClass};
use crate::error::{ErrorKind, Failure, ParseErrorView};
use crate::grammar::{
    comma_led, escape_char, fields, prefixed, spec_end, spec_escape, spec_escaped_field,
    spec_gap, spec_more_opts, spec_mount_opts, spec_not_whitespace, spec_paths, spec_run1,
    spec_trailer, spec_zero, unescape,
};

verus! {

/// Putting two heads in front, one after the other, is putting their
/// concatenation in front.
pub proof fn lemma_prefixed_twice(
    a: Seq<char>,
    b: Seq<char>,
    tail: Result<Seq<char>, ParseErrorView>,
)
    ensures
        prefixed(a, prefixed(b, tail)) == prefixed(a + b, tail),
{
    if let Ok(text) = tail {
        assert(a + (b + text) =~= (a + b) + text);
    }
}

/// Putting nothing in front changes nothing.
pub proof fn lemma_prefixed_empty(tail: Result<Seq<char>, ParseErrorView>)
    ensures
        prefixed(Seq::empty(), tail) == tail,
{
    if let Ok(text) = tail {
        assert(Seq::<char>::empty() + text =~= text);
    }
}

/// A stretch without a backslash at the start of a token stands for itself.
pub proof fn lemma_unescape_plain(s: Seq<char>, n: int)
    requires
        0 <= n <= s.len(),
        all_in(s.take(n), CharClass::Plain),
    ensures
        unescape(s) == prefixed(s.take(n), unescape(s.skip(n))),
    decreases n,
{
    if n == 0 {
        assert(s.skip(0) =~= s);
        assert(s.take(0) =~= Seq::<char>::empty());
        lemma_prefixed_empty(unescape(s));
    } else {
        let t = s.skip(1);
        assert(s[0] == s.take(n)[0]);
        assert forall|k: int| 0 <= k < n - 1 implies CharClass::Plain.has(
            #[trigger] t.take(n - 1)[k],
        ) by {
            assert(t.take(n - 1)[k] == s.take(n)[k + 1]);
        }
        lemma_unescape_plain(t, n - 1);
        assert(t.skip(n - 1) =~= s.skip(n));
        assert(seq![s[0]] + t.take(n - 1) =~= s.take(n));
        lemma_prefixed_twice(seq![s[0]], t.take(n - 1), unescape(s.skip(n)));
    }
}

/// A token without a backslash stands for itself.
pub proof fn lemma_unescape_plain_token(s: Seq<char>)
    requires
        all_in(s, CharClass::Plain),
    ensures
        unescape(s) == Ok::<Seq<char>, ParseErrorView>(s),
{
    assert(s.take(s.len() as int) =~= s);
    assert(s.skip(s.len() as int) =~= Seq::<char>::empty());
    lemma_unescape_plain(s, s.len() as int);
    assert(s + Seq::<char>::empty() =~= s);
}

/// A stretch of characters that need no escape is written as it is.
pub proof fn lemma_escape_literal(s: Seq<char>, n: int)
    requires
        0 <= n <= s.len(),
        all_in(s.take(n), CharClass::Literal),
    ensures
        spec_escape(s) == s.take(n) + spec_escape(s.skip(n)),
    decreases n,
{
    if n == 0 {
        assert(s.skip(0) =~= s);
        assert(s.take(0) + spec_escape(s) =~= spec_escape(s));
    } else {
        let t = s.skip(1);
        assert(s[0] == s.take(n)[0]);
        assert forall|k: int| 0 <= k < n - 1 implies CharClass::Literal.has(
            #[trigger] t.take(n - 1)[k],
        ) by {
            assert(t.take(n - 1)[k] == s.take(n)[k + 1]);
        }
        lemma_escape_literal(t, n - 1);
        assert(t.skip(n - 1) =~= s.skip(n));
        assert(seq![s[0]] + (t.take(n - 1) + spec_escape(s.skip(n))) =~= s.take(n) + spec_escape(
            s.skip(n),
        ));
    }
}

/// The token written for a text holds no space and no tab, and no comma
/// where the text holds none; it is empty only where the text is.
pub proof fn lemma_escape_is_item(s: Seq<char>)
    ensures
        all_in(spec_escape(s), CharClass::Field),
        (forall|k: int| 0 <= k < s.len() ==> s[k] != ',') ==> all_in(
            spec_escape(s),
            CharClass::Item,
        ),
        s.len() > 0 ==> spec_escape(s).len() > 0,
    decreases s.len(),
{
    if s.len() > 0 {
        let head = escape_char(s[0]);
        let tail = spec_escape(s.skip(1));
        lemma_escape_is_item(s.skip(1));
        assert forall|k: int| 0 <= k < (head + tail).len() implies CharClass::Field.has(
            #[trigger] (head + tail)[k],
        ) by {
            if k >= head.len() {
                assert((head + tail)[k] == tail[k - head.len()]);
            }
        }
        if forall|k: int| 0 <= k < s.len() ==> s[k] != ',' {
            assert forall|k: int| 0 <= k < s.skip(1).len() implies s.skip(1)[k] != ',' by {
                assert(s.skip(1)[k] == s[k + 1]);
            }
            assert forall|k: int| 0 <= k < (head + tail).len() implies CharClass::Item.has(
                #[trigger] (head + tail)[k],
            ) by {
                if k >= head.len() {
                    assert((head + tail)[k] == tail[k - head.len()]);
                }
            }
        }
    }
}

/// A run that is followed by a character outside its class, or by nothing,
/// is the run of the text that it starts.
pub proof fn lemma_run_len_concat(a: Seq<char>, b: Seq<char>, class: CharClass)
    requires
        all_in(a, class),
        b.len() > 0 ==> !class.has(b[0]),
    ensures
        run_len(a + b, class) == a.len(),
{
    let s = a + b;
    assert(s.take(a.len() as int) =~= a);
    if b.len() > 0 {
        assert(s[a.len() as int] == b[0]);
    }
    lemma_run_len_is(s, class, a.len() as int);
}

/// A run that ends before the end of its text is not changed by what is
/// put behind the text.
pub proof fn lemma_run_len_extends(s: Seq<char>, x: Seq<char>, class: CharClass)
    requires
        run_len(s, class) < s.len(),
    ensures
        run_len(s + x, class) == run_len(s, class),
{
    lemma_run_len(s, class);
    let n = run_len(s, class) as int;
    assert((s + x).take(n) =~= s.take(n));
    assert((s + x)[n] == s[n]);
    lemma_run_len_is(s + x, class, n);
}

/// A run that reaches the end of its text goes on into what is put behind it.
pub proof fn lemma_run_len_through(s: Seq<char>, x: Seq<char>, class: CharClass)
    requires
        run_len(s, class) == s.len(),
    ensures
        run_len(s + x, class) == s.len() + run_len(x, class),
{
    lemma_run_len(s, class);
    lemma_run_len(x, class);
    let n = (s.len() + run_len(x, class)) as int;
    assert(s.take(s.len() as int) =~= s);
    assert forall|k: int| 0 <= k < n implies class.has(#[trigger] (s + x).take(n)[k]) by {
        if k >= s.len() {
            assert((s + x).take(n)[k] == x.take(run_len(x, class) as int)[k - s.len()]);
        }
    }
    if n < (s + x).len() {
        assert((s + x)[n] == x[run_len(x, class) as int]);
    }
    lemma_run_len_is(s + x, class, n);
}

/// The result of a matcher when `x` is put behind what it left.
pub open spec fn followed<T>(r: Result<(Seq<char>, T), ParseErrorView>, x: Seq<char>) -> Result<
    (Seq<char>, T),
    ParseErrorView,
> {
    match r {
        Ok((rest, value)) => Ok((rest + x, value)),
        Err(e) => Err(e),
    }
}

/// Whether a matcher accepted and left something unconsumed.
pub open spec fn stopped_early<T>(r: Result<(Seq<char>, T), ParseErrorView>) -> bool {
    r matches Ok((rest, _)) && rest.len() > 0
}

/// A run of one or more characters is matched only where the text starts
/// with a character of the class.
pub proof fn lemma_run1_needs_one(s: Seq<char>, class: CharClass, failure: Failure, code: ErrorKind)
    requires
        spec_run1(s, class, failure, code) is Ok,
    ensures
        s.len() > 0,
        class.has(s[0]),
{
    lemma_run_len(s, class);
    assert(s.take(run_len(s, class) as int)[0] == s[0]);
}

/// A gap is matched only where the text starts with a space or a tab.
pub proof fn lemma_gap_needs_blank(s: Seq<char>, failure: Failure)
    requires
        spec_gap(s, failure) is Ok,
    ensures
        s.len() > 0,
        CharClass::Blank.has(s[0]),
{
    lemma_run1_needs_one(s, CharClass::Blank, failure, ErrorKind::Space);
}

/// A run that was matched and left something behind it is matched in the
/// same way when the text goes on.
pub proof fn lemma_run1_extends(
    s: Seq<char>,
    x: Seq<char>,
    class: CharClass,
    failure: Failure,
    code: ErrorKind,
)
    requires
        stopped_early(spec_run1(s, class, failure, code)),
    ensures
        spec_run1(s + x, class, failure, code) == followed(spec_run1(s, class, failure, code), x),
{
    lemma_run_len(s, class);
    let n = run_len(s, class) as int;
    lemma_run_len_extends(s, x, class);
    assert((s + x).take(n) =~= s.take(n));
    assert((s + x).skip(n) =~= s.skip(n) + x);
}

/// A gap that was matched and left something behind it is matched in the
/// same way when the text goes on.
pub proof fn lemma_gap_extends(s: Seq<char>, x: Seq<char>, failure: Failure)
    requires
        spec_gap(s, failure) matches Ok(rest) && rest.len() > 0,
    ensures
        spec_gap(s + x, failure) == Ok::<Seq<char>, ParseErrorView>(
            spec_gap(s, failure)->Ok_0 + x,
        ),
{
    lemma_run1_extends(s, x, CharClass::Blank, failure, ErrorKind::Space);
}

/// A field that was decoded and left something behind it is decoded in the
/// same way when the text goes on.
pub proof fn lemma_escaped_field_extends(s: Seq<char>, x: Seq<char>)
    requires
        stopped_early(spec_escaped_field(s)),
    ensures
        spec_escaped_field(s + x) == followed(spec_escaped_field(s), x),
{
    lemma_run1_extends(s, x, CharClass::Field, Failure::MalformedToken, ErrorKind::IsNot);
}

/// The device and the mount point, when they were matched and something is
/// left behind them, are matched in the same way when the text goes on.
pub proof fn lemma_paths_extends(s: Seq<char>, x: Seq<char>)
    requires
        stopped_early(spec_paths(s)),
    ensures
        spec_paths(s + x) == followed(spec_paths(s), x),
{
    let (s1, device) = spec_escaped_field(s)->Ok_0;
    let s2 = spec_gap(s1, Failure::MalformedToken)->Ok_0;
    let (s3, mount_point) = spec_escaped_field(s2)->Ok_0;
    lemma_gap_needs_blank(s1, Failure::MalformedToken);
    lemma_escaped_field_extends(s, x);
    lemma_run1_needs_one(s2, CharClass::Field, Failure::MalformedToken, ErrorKind::IsNot);
    lemma_gap_extends(s1, x, Failure::MalformedToken);
    lemma_gap_needs_blank(s3, Failure::MalformedToken);
    lemma_escaped_field_extends(s2, x);
    lemma_gap_extends(s3, x, Failure::MalformedToken);
}

/// What the options behind the first one consume is a prefix of the text
/// that holds no space and no tab; where they follow an option, they end
/// at the end of the text or before a space or a tab.
pub proof fn lemma_more_opts_consumed(s: Seq<char>)
    requires
        spec_more_opts(s) is Ok,
    ensures
        ({
            let rest = spec_more_opts(s)->Ok_0.0;
            &&& rest.len() <= s.len()
            &&& rest == s.skip(s.len() - rest.len())
            &&& all_in(s.take(s.len() - rest.len()), CharClass::Field)
            &&& (s.len() > 0 && !CharClass::Item.has(s[0])) ==> (rest.len() > 0
                ==> CharClass::Blank.has(rest[0]))
        }),
    decreases s.len(),
{
    let rest = spec_more_opts(s)->Ok_0.0;
    if s.len() >= 1 && s[0] == ',' {
        let n = run_len(s.skip(1), CharClass::Item) as int;
        let t = s.skip(1 + n);
        lemma_run_len(s.skip(1), CharClass::Item);
        lemma_more_opts_consumed(t);
        if t.len() > 0 {
            assert(t[0] == s.skip(1)[n]);
        }
        let m = s.len() - rest.len();
        assert(t.skip(t.len() - rest.len()) =~= s.skip(m));
        assert forall|k: int| 0 <= k < m implies CharClass::Field.has(#[trigger] s.take(m)[k]) by {
            if 1 <= k < 1 + n {
                assert(s.take(m)[k] == s.skip(1).take(n)[k - 1]);
            } else if k >= 1 + n {
                assert(s.take(m)[k] == t.take(t.len() - rest.len())[k - 1 - n]);
            }
        }
    } else {
        assert(s.skip(0) =~= s);
    }
}

/// What an option list consumes is a non-empty prefix of the text that
/// holds no space and no tab, and the list ends at the end of the text or
/// before a space or a tab: it is the whole field that it starts.
pub proof fn lemma_mount_opts_consumed(s: Seq<char>)
    requires
        spec_mount_opts(s) is Ok,
    ensures
        ({
            let rest = spec_mount_opts(s)->Ok_0.0;
            &&& rest.len() < s.len()
            &&& rest == s.skip(s.len() - rest.len())
            &&& all_in(s.take(s.len() - rest.len()), CharClass::Field)
            &&& rest.len() > 0 ==> CharClass::Blank.has(rest[0])
        }),
{
    let rest = spec_mount_opts(s)->Ok_0.0;
    let n = run_len(s, CharClass::Item) as int;
    let t = s.skip(n);
    lemma_run_len(s, CharClass::Item);
    lemma_more_opts_consumed(t);
    if t.len() > 0 {
        assert(t[0] == s[n]);
    }
    let m = s.len() - rest.len();
    assert(t.skip(t.len() - rest.len()) =~= s.skip(m));
    assert forall|k: int| 0 <= k < m implies CharClass::Field.has(#[trigger] s.take(m)[k]) by {
        if k < n {
            assert(s.take(m)[k] == s.take(n)[k]);
        } else {
            assert(s.take(m)[k] == t.take(t.len() - rest.len())[k - n]);
        }
    }
}

/// The options behind the first one, when they left something, are read
/// in the same way when the text goes on.
pub proof fn lemma_more_opts_extends(s: Seq<char>, x: Seq<char>)
    requires
        stopped_early(spec_more_opts(s)),
    ensures
        spec_more_opts(s + x) == followed(spec_more_opts(s), x),
    decreases s.len(),
{
    if s.len() >= 1 && s[0] == ',' {
        let n = run_len(s.skip(1), CharClass::Item) as int;
        let t = s.skip(1 + n);
        lemma_run_len(s.skip(1), CharClass::Item);
        lemma_more_opts_consumed(t);
        lemma_run_len_extends(s.skip(1), x, CharClass::Item);
        assert((s + x)[0] == s[0]);
        assert((s + x).skip(1) =~= s.skip(1) + x);
        assert((s + x).skip(1).take(n) =~= s.skip(1).take(n));
        assert((s + x).skip(1 + n) =~= t + x);
        lemma_more_opts_extends(t, x);
    } else {
        assert((s + x)[0] == s[0]);
    }
}

/// An option list, when it left something, is read in the same way when
/// the text goes on.
pub proof fn lemma_mount_opts_extends(s: Seq<char>, x: Seq<char>)
    requires
        stopped_early(spec_mount_opts(s)),
    ensures
        spec_mount_opts(s + x) == followed(spec_mount_opts(s), x),
{
    let n = run_len(s, CharClass::Item) as int;
    let t = s.skip(n);
    lemma_run_len(s, CharClass::Item);
    lemma_more_opts_consumed(t);
    lemma_run1_extends(s, x, CharClass::Item, Failure::EmptyOptionList, ErrorKind::IsNot);
    lemma_more_opts_extends(t, x);
}

/// Where the two `0` fields end a text, what is put behind the text is
/// held to be the end of the line.
pub proof fn lemma_trailer_extends(s: Seq<char>, x: Seq<char>)
    requires
        spec_trailer(s) is Ok,
    ensures
        spec_trailer(s + x) == spec_end(x),
{
    let dump = spec_gap(s, Failure::GrammarMismatch)->Ok_0;
    let s1 = spec_zero(dump)->Ok_0;
    let pass = spec_gap(s1, Failure::GrammarMismatch)->Ok_0;
    let s2 = spec_zero(pass)->Ok_0;
    lemma_gap_extends(s, x, Failure::GrammarMismatch);
    assert((dump + x).skip(1) =~= s1 + x);
    lemma_gap_needs_blank(s1, Failure::GrammarMismatch);
    lemma_gap_extends(s1, x, Failure::GrammarMismatch);
    assert((pass + x).skip(1) =~= s2 + x);
    lemma_run_len(s2, CharClass::Blank);
    lemma_run_len_through(s2, x, CharClass::Blank);
    lemma_run_len(x, CharClass::Blank);
    let b = run_len(x, CharClass::Blank) as int;
    assert((s2 + x).skip(s2.len() + b) =~= x.skip(b));
}

/// Tokens that each start with a comma are read back as the texts they
/// stand for.
pub proof fn lemma_more_opts_comma_led(tokens: Seq<Seq<char>>, texts: Seq<Seq<char>>)
    requires
        tokens.len() == texts.len(),
        forall|k: int|
            0 <= k < tokens.len() ==> (#[trigger] tokens[k]).len() > 0 && all_in(
                tokens[k],
                CharClass::Item,
            ) && unescape(tokens[k]) == Ok::<Seq<char>, ParseErrorView>(texts[k]),
    ensures
        spec_more_opts(comma_led(tokens)) == Ok::<(Seq<char>, Seq<Seq<char>>), ParseErrorView>(
            (Seq::empty(), texts),
        ),
    decreases tokens.len(),
{
    if tokens.len() == 0 {
        assert(texts =~= Seq::<Seq<char>>::empty());
    } else {
        let first = tokens[0];
        let others = tokens.skip(1);
        let after = comma_led(others);
        let s = comma_led(tokens);
        assert(first.len() > 0);
        assert forall|k: int| 0 <= k < others.len() implies (#[trigger] others[k]).len() > 0
            && all_in(others[k], CharClass::Item) && unescape(others[k]) == Ok::<
            Seq<char>,
            ParseErrorView,
        >(texts.skip(1)[k]) by {
            assert(others[k] == tokens[k + 1]);
        }
        lemma_more_opts_comma_led(others, texts.skip(1));
        assert(s.skip(1) =~= first + after);
        if after.len() > 0 {
            assert(after[0] == ',');
        }
        lemma_run_len_concat(first, after, CharClass::Item);
        let n = first.len() as int;
        assert(s.skip(1).take(n) =~= first);
        assert(s.skip(1 + n) =~= after);
        assert(seq![texts[0]] + texts.skip(1) =~= texts);
    }
}

/// A text that starts with a field has that field first, and then the
/// fields of what follows it.
pub proof fn lemma_fields_first(s: Seq<char>, n: int)
    requires
        0 < n <= s.len(),
        all_in(s.take(n), CharClass::Field),
        n < s.len() ==> CharClass::Blank.has(s[n]),
    ensures
        fields(s) == seq![s.take(n)] + fields(s.skip(n)),
{
    assert(s[0] == s.take(n)[0]);
    assert(s.take(0) =~= Seq::<char>::empty());
    lemma_run_len_is(s, CharClass::Blank, 0);
    assert(s.skip(0) =~= s);
    lemma_run_len_is(s, CharClass::Field, n);
}

/// A matched gap does not count among the fields.
pub proof fn lemma_fields_after_gap(s: Seq<char>, failure: Failure)
    requires
        spec_gap(s, failure) is Ok,
    ensures
        fields(s) == fields(spec_gap(s, failure)->Ok_0),
{
    lemma_run_len(s, CharClass::Blank);
    let t = s.skip(run_len(s, CharClass::Blank) as int);
    assert(t.take(0) =~= Seq::<char>::empty());
    if t.len() > 0 {
        assert(t[0] == s[run_len(s, CharClass::Blank) as int]);
    }
    lemma_run_len_is(t, CharClass::Blank, 0);
    assert(t.skip(0) =~= t);
}

/// A matched field with a gap behind it is the first field of the text.
pub proof fn lemma_fields_after_token(s: Seq<char>, failure: Failure)
    requires
        spec_not_whitespace(s) is Ok,
        spec_gap(spec_not_whitespace(s)->Ok_0.0, failure) is Ok,
    ensures
        fields(s) == seq![spec_not_whitespace(s)->Ok_0.1] + fields(spec_not_whitespace(s)->Ok_0.0),
{
    let n = run_len(s, CharClass::Field) as int;
    lemma_run_len(s, CharClass::Field);
    lemma_gap_needs_blank(s.skip(n), failure);
    assert(s.skip(n)[0] == s[n]);
    lemma_fields_first(s, n);
}

/// A matched `0` with a space, a tab or nothing behind it is the first
/// field of the text.
pub proof fn lemma_fields_after_zero(s: Seq<char>)
    requires
        spec_zero(s) is Ok,
        s.len() > 1 ==> CharClass::Blank.has(s[1]),
    ensures
        fields(s) == seq![seq!['0']] + fields(spec_zero(s)->Ok_0),
{
    assert(s.take(1) =~= seq!['0']);
    lemma_fields_first(s, 1);
}

/// A text that is accepted as the end of a line has no field.
pub proof fn lemma_fields_of_end(s: Seq<char>)
    requires
        spec_end(s) is Ok,
    ensures
        fields(s) == Seq::<Seq<char>>::empty(),
        s.len() > 0 ==> CharClass::Blank.has(s[0]),
{
    lemma_run_len(s, CharClass::Blank);
    let b = run_len(s, CharClass::Blank) as int;
    if s.len() > 0 {
        assert(s.take(b)[0] == s[0]);
    }
}

} // verus!
