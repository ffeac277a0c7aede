use vstd::prelude::*;

verus! {

/// The characters with Unicode's White_Space property.
pub open spec fn white_space(c: char) -> bool {
    ('\u{9}' <= c && c <= '\u{d}') || c == ' ' || c == '\u{85}' || c == '\u{a0}' || c
        == '\u{1680}' || ('\u{2000}' <= c && c <= '\u{200a}') || c == '\u{2028}' || c
        == '\u{2029}' || c == '\u{202f}' || c == '\u{205f}' || c == '\u{3000}'
}

pub fn is_white_space(c: char) -> (r: bool)
    ensures
        r == white_space(c),
{
    ('\u{9}' <= c && c <= '\u{d}') || c == ' ' || c == '\u{85}' || c == '\u{a0}' || c
        == '\u{1680}' || ('\u{2000}' <= c && c <= '\u{200a}') || c == '\u{2028}' || c
        == '\u{2029}' || c == '\u{202f}' || c == '\u{205f}' || c == '\u{3000}'
}

/// `s` without its trailing run of whitespace.
pub open spec fn trim_end(s: Seq<char>) -> Seq<char>
    decreases s.len(),
{
    if s.len() > 0 && white_space(s.last()) {
        trim_end(s.drop_last())
    } else {
        s
    }
}

/// `s` without its trailing run of non-whitespace.
pub open spec fn drop_word(s: Seq<char>) -> Seq<char>
    decreases s.len(),
{
    if s.len() > 0 && !white_space(s.last()) {
        drop_word(s.drop_last())
    } else {
        s
    }
}

/// Word-backspace: trailing whitespace goes, then the word before it; the
/// whitespace that precedes that word stays.
pub open spec fn word_backspace(s: Seq<char>) -> Seq<char> {
    drop_word(trim_end(s))
}

/// Whether `s` holds a character other than a newline or a tab.
pub open spec fn has_text(s: Seq<char>) -> bool {
    exists|i: int| 0 <= i < s.len() && s[i] != '\n' && s[i] != '\t'
}

proof fn lemma_trim_end_prefix(s: Seq<char>, k: int)
    requires
        0 <= k <= s.len(),
        forall|j: int| k <= j < s.len() ==> white_space(#[trigger] s[j]),
    ensures
        trim_end(s) == trim_end(s.subrange(0, k)),
    decreases s.len() - k,
{
    if k < s.len() {
        assert(s.drop_last() =~= s.subrange(0, s.len() - 1));
        lemma_trim_end_prefix(s.drop_last(), k);
        assert(s.drop_last().subrange(0, k) =~= s.subrange(0, k));
    } else {
        assert(s.subrange(0, k) =~= s);
    }
}

proof fn lemma_drop_word_prefix(s: Seq<char>, k: int)
    requires
        0 <= k <= s.len(),
        forall|j: int| k <= j < s.len() ==> !white_space(#[trigger] s[j]),
    ensures
        drop_word(s) == drop_word(s.subrange(0, k)),
    decreases s.len() - k,
{
    if k < s.len() {
        lemma_drop_word_prefix(s.drop_last(), k);
        assert(s.drop_last().subrange(0, k) =~= s.subrange(0, k));
    } else {
        assert(s.subrange(0, k) =~= s);
    }
}

/// Relies on `String::push`: appends one character.
#[verifier::external_body]
pub(crate) fn push_char(s: &mut String, c: char)
    ensures
        final(s)@ == old(s)@.push(c),
{
    s.push(c)
}

/// The first `n` characters of `s`.
fn prefix(s: &String, n: usize) -> (r: String)
    requires
        n <= s@.len(),
    ensures
        r@ == s@.subrange(0, n as int),
{
    s.as_str().substring_char(0, n).to_owned()
}

/// `s` without its last character; empty stays empty.
pub fn backspace(s: &String) -> (r: String)
    ensures
        r@ == if s@.len() == 0 { s@ } else { s@.drop_last() },
{
    let n = s.as_str().unicode_len();
    if n == 0 {
        s.clone()
    } else {
        prefix(s, n - 1)
    }
}

/// Removes the trailing whitespace of `s`, then the word before it.
pub fn ctrl_backspace_remaining(s: &String) -> (r: String)
    ensures
        r@ == word_backspace(s@),
{
    let text = s.as_str();
    let n = text.unicode_len();
    let mut end: usize = n;
    while end > 0 && is_white_space(text.get_char(end - 1))
        invariant
            end <= n == s@.len(),
            text@ == s@,
            forall|j: int| end <= j < n ==> white_space(#[trigger] s@[j]),
        decreases end,
    {
        end = end - 1;
    }
    proof {
        lemma_trim_end_prefix(s@, end as int);
        let t = s@.subrange(0, end as int);
        if end > 0 {
            assert(t.drop_last() =~= s@.subrange(0, end - 1));
        }
        assert(trim_end(t) == t);
    }
    let mut cut: usize = end;
    while cut > 0 && !is_white_space(text.get_char(cut - 1))
        invariant
            cut <= end <= n == s@.len(),
            text@ == s@,
            forall|j: int| cut <= j < end ==> !white_space(#[trigger] s@[j]),
        decreases cut,
    {
        cut = cut - 1;
    }
    proof {
        let t = s@.subrange(0, end as int);
        lemma_drop_word_prefix(t, cut as int);
        assert(t.subrange(0, cut as int) =~= s@.subrange(0, cut as int));
        let u = s@.subrange(0, cut as int);
        assert(drop_word(u) == u);
    }
    prefix(s, cut)
}

/// Whether `s` holds a character other than a newline or a tab.
pub fn contains_text(s: &String) -> (r: bool)
    ensures
        r == has_text(s@),
{
    let text = s.as_str();
    let n = text.unicode_len();
    let mut i: usize = 0;
    while i < n
        invariant
            i <= n == s@.len(),
            text@ == s@,
            forall|j: int| 0 <= j < i ==> s@[j] == '\n' || s@[j] == '\t',
        decreases n - i,
    {
        let c = text.get_char(i);
        if c != '\n' && c != '\t' {
            return true;
        }
        i = i + 1;
    }
    false
}

} // verus!
