use vstd::prelude::*;
use crate::chars::{lemma_run_len, scan, to_chars, CharClass};
use crate::grammar::{escape_char, spec_escape};
use crate::lemmas::lemma_escape_literal;

verus! {

/// The escape of a backslash, a space, a tab or a newline.
fn escape_of(c: char) -> (token: &'static str)
    requires
        !CharClass::Literal.has(c),
    ensures
        token@ == escape_char(c),
{
    proof {
        reveal_strlit("\\\\");
        reveal_strlit("\\040");
        reveal_strlit("\\011");
        reveal_strlit("\\012");
        assert("\\\\"@ =~= seq!['\\', '\\']);
        assert("\\040"@ =~= seq!['\\', '0', '4', '0']);
        assert("\\011"@ =~= seq!['\\', '0', '1', '1']);
        assert("\\012"@ =~= seq!['\\', '0', '1', '2']);
    }
    if c == '\\' {
        "\\\\"
    } else if c == ' ' {
        "\\040"
    } else if c == '\t' {
        "\\011"
    } else {
        "\\012"
    }
}

/// Writes `text` as a token of a mount table line: every backslash, space,
/// tab and newline by its escape, every other character as it is.
pub fn escape(text: &str) -> (token: String)
    ensures
        token@ == spec_escape(text@),
{
    let chars = to_chars(text);
    let n: usize = chars.len();
    let mut token = String::new();
    let mut k: usize = 0;
    assert(text@.skip(0) =~= text@);
    assert(Seq::<char>::empty() + spec_escape(text@) =~= spec_escape(text@));
    while k < n
        invariant
            k <= n,
            n == chars.len(),
            chars@ == text@,
            spec_escape(text@) == token@ + spec_escape(text@.skip(k as int)),
        decreases n - k,
    {
        let ghost s = text@.skip(k as int);
        let ghost before = token@;
        let e: usize = scan(&chars, k, CharClass::Literal);
        proof {
            lemma_run_len(s, CharClass::Literal);
        }
        if e > k {
            proof {
                lemma_escape_literal(s, e - k);
                assert(s.take(e - k) =~= text@.subrange(k as int, e as int));
                assert(s.skip(e - k) =~= text@.skip(e as int));
                assert(before + (s.take(e - k) + spec_escape(text@.skip(e as int))) =~= (before
                    + s.take(e - k)) + spec_escape(text@.skip(e as int)));
            }
            token.append(text.substring_char(k, e));
            k = e;
        } else {
            proof {
                assert(s[0] == chars@[k as int]);
                assert(s.skip(1) =~= text@.skip(k + 1));
                assert(before + (escape_char(s[0]) + spec_escape(s.skip(1))) =~= (before
                    + escape_char(s[0])) + spec_escape(s.skip(1)));
            }
            token.append(escape_of(chars[k]));
            k = k + 1;
        }
    }
    proof {
        assert(text@.skip(n as int) =~= Seq::<char>::empty());
        assert(token@ + Seq::<char>::empty() =~= token@);
    }
    token
}

} // verus!
