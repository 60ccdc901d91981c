use vstd::prelude::*;

verus! {

/// The sets of characters that the line grammar tells apart.
#[derive(Clone, Copy, Debug, PartialEq, Eq, Structural)]
pub enum CharClass {
    /// A space or a tab: what separates the fields of a line.
    Blank,
    /// Anything but a space or a tab: what a field is made of.
    Field,
    /// Anything but a space, a tab or a comma: what one option is made of.
    Item,
    /// Anything but a backslash: what is copied unchanged when a token is decoded.
    Plain,
    /// Anything but a backslash, a space, a tab or a newline: what is written
    /// unchanged when a text is encoded.
    Literal,
}

impl CharClass {
    /// Whether `c` belongs to the class.
    pub open spec fn has(self, c: char) -> bool {
        match self {
            CharClass::Blank => c == ' ' || c == '\t',
            CharClass::Field => !(c == ' ' || c == '\t'),
            CharClass::Item => !(c == ' ' || c == '\t' || c == ','),
            CharClass::Plain => c != '\\',
            CharClass::Literal => !(c == '\\' || c == ' ' || c == '\t' || c == '\n'),
        }
    }

    /// Tells whether `c` belongs to the class.
    pub fn contains(self, c: char) -> (b: bool)
        ensures
            b == self.has(c),
    {
        match self {
            CharClass::Blank => c == ' ' || c == '\t',
            CharClass::Field => !(c == ' ' || c == '\t'),
            CharClass::Item => !(c == ' ' || c == '\t' || c == ','),
            CharClass::Plain => c != '\\',
            CharClass::Literal => !(c == '\\' || c == ' ' || c == '\t' || c == '\n'),
        }
    }
}

/// The length of the longest prefix of `s` made of characters of `class`.
pub open spec fn run_len(s: Seq<char>, class: CharClass) -> nat
    decreases s.len(),
{
    if s.len() > 0 && class.has(s[0]) {
        1 + run_len(s.skip(1), class)
    } else {
        0
    }
}

/// Whether every character of `s` belongs to `class`.
pub open spec fn all_in(s: Seq<char>, class: CharClass) -> bool {
    forall|k: int| 0 <= k < s.len() ==> class.has(#[trigger] s[k])
}

/// A run is a prefix: it is made of characters of the class, and it ends at
/// the end of the text or before a character outside the class.
pub proof fn lemma_run_len(s: Seq<char>, class: CharClass)
    ensures
        run_len(s, class) <= s.len(),
        all_in(s.take(run_len(s, class) as int), class),
        run_len(s, class) < s.len() ==> !class.has(s[run_len(s, class) as int]),
    decreases s.len(),
{
    if s.len() > 0 && class.has(s[0]) {
        let t = s.skip(1);
        lemma_run_len(t, class);
        let n = run_len(t, class) as int;
        assert forall|k: int| 0 <= k < n + 1 implies class.has(#[trigger] s.take(n + 1)[k]) by {
            if k > 0 {
                assert(s.take(n + 1)[k] == t.take(n)[k - 1]);
            }
        }
        if n + 1 < s.len() {
            assert(s[n + 1] == t[n]);
        }
    }
}

/// The only prefix of `s` that is made of characters of the class and ends at
/// the end of `s` or before a character outside the class is the run.
pub proof fn lemma_run_len_is(s: Seq<char>, class: CharClass, n: int)
    requires
        0 <= n <= s.len(),
        all_in(s.take(n), class),
        n < s.len() ==> !class.has(s[n]),
    ensures
        run_len(s, class) == n,
    decreases n,
{
    if n > 0 {
        assert(s[0] == s.take(n)[0]);
        let t = s.skip(1);
        assert forall|k: int| 0 <= k < n - 1 implies class.has(#[trigger] t.take(n - 1)[k]) by {
            assert(t.take(n - 1)[k] == s.take(n)[k + 1]);
        }
        if n - 1 < t.len() {
            assert(t[n - 1] == s[n]);
        }
        lemma_run_len_is(t, class, n - 1);
    }
}

/// The characters of `s`, one vector element each.
pub(crate) fn to_chars(s: &str) -> (chars: Vec<char>)
    ensures
        chars@ == s@,
{
    let mut chars: Vec<char> = Vec::new();
    for c in it: s.chars()
        invariant
            it.seq() == s@,
            chars@ == s@.take(it.index() as int),
    {
        chars.push(c);
        assert(chars@ =~= s@.take(it.index() + 1));
    }
    assert(chars@ =~= s@);
    chars
}

/// The end of the run of `class` that starts at `start`.
pub(crate) fn scan(chars: &Vec<char>, start: usize, class: CharClass) -> (end: usize)
    requires
        start <= chars.len(),
    ensures
        start <= end <= chars.len(),
        end - start == run_len(chars@.skip(start as int), class),
{
    let mut end: usize = start;
    while end < chars.len() && class.contains(chars[end])
        invariant
            start <= end <= chars.len(),
            forall|k: int| start <= k < end ==> class.has(#[trigger] chars@[k]),
        decreases chars.len() - end,
    {
        end = end + 1;
    }
    proof {
        let s = chars@.skip(start as int);
        let n = end - start;
        assert forall|k: int| 0 <= k < n implies class.has(#[trigger] s.take(n)[k]) by {
            assert(s.take(n)[k] == chars@[start + k]);
        }
        if n < s.len() {
            assert(s[n] == chars@[end as int]);
        }
        lemma_run_len_is(s, class, n);
    }
    end
}

} // verus!
