//! Character-level text primitives: decimal numbers, white space, words and
//! substring search.
//!
//! Text is modelled by its characters, `Seq<char>`.

use vstd::prelude::*;

verus! {

/// `String::push` appends the given character to the end of the string.
pub assume_specification[ std::string::String::push ](s: &mut std::string::String, c: char)
    ensures
        final(s)@ == old(s)@.push(c),
;

/// The text that `String::from_utf8_lossy` makes of bytes that need not be UTF-8.
pub uninterp spec fn utf8_lossy(bytes: Seq<u8>) -> Seq<char>;

/// `String::from_utf8_lossy` gives text that depends on the bytes alone; of bytes that
/// are UTF-8 it gives the text that they encode. How many replacement characters stand
/// for which bytes that are not UTF-8 is left to the name of the result.
#[verifier::external_body]
pub(crate) fn text_from_utf8_lossy(bytes: &[u8]) -> (s: String)
    ensures
        s@ == utf8_lossy(bytes@),
        vstd::utf8::valid_utf8(bytes@) ==> s@ == vstd::utf8::decode_utf8(bytes@),
{
    String::from_utf8_lossy(bytes).to_string()
}

/// The characters of `s`, in order.
pub fn to_chars(s: &str) -> (chars: Vec<char>)
    ensures
        chars@ == s@,
{
    let mut chars: Vec<char> = Vec::new();
    for c in it: s.chars()
        invariant
            chars@ == it.seq().take(it.index() as int),
            it.seq() == s@,
    {
        chars.push(c);
    }
    chars
}

/// The string that holds the characters `chars[from..to]`.
pub fn from_chars(chars: &Vec<char>, from: usize, to: usize) -> (s: String)
    requires
        from <= to <= chars.len(),
    ensures
        s@ == chars@.subrange(from as int, to as int),
{
    let mut s = String::new();
    let mut i: usize = from;
    while i < to
        invariant
            from <= i <= to <= chars.len(),
            s@ == chars@.subrange(from as int, i as int),
        decreases to - i,
    {
        s.push(chars[i]);
        i += 1;
    }
    s
}

/// Whether two texts hold the same characters.
pub fn same_text(a: &str, b: &str) -> (same: bool)
    ensures
        same == (a@ == b@),
{
    a.to_owned() == b.to_owned()
}

/// The decimal digit `d`, as a character.
pub open spec fn digit(d: nat) -> char {
    (('0' as nat + d) as u8) as char
}

/// `n` written in decimal, without leading zeros.
pub open spec fn decimal(n: nat) -> Seq<char>
    decreases n,
{
    if n < 10 {
        seq![digit(n)]
    } else {
        decimal(n / 10).push(digit(n % 10))
    }
}

/// Appends `n`, written in decimal.
pub fn push_decimal(out: &mut String, n: u128)
    ensures
        final(out)@ == old(out)@ + decimal(n as nat),
    decreases n,
{
    if n >= 10 {
        push_decimal(out, n / 10);
    }
    out.push((48u8 + (n % 10) as u8) as char);
}

/// The characters with the Unicode `White_Space` property.
pub open spec fn white_space(c: char) -> bool {
    ||| '\u{9}' <= c <= '\u{d}'
    ||| c == '\u{20}'
    ||| c == '\u{85}'
    ||| c == '\u{a0}'
    ||| c == '\u{1680}'
    ||| '\u{2000}' <= c <= '\u{200a}'
    ||| c == '\u{2028}'
    ||| c == '\u{2029}'
    ||| c == '\u{202f}'
    ||| c == '\u{205f}'
    ||| c == '\u{3000}'
}

/// Whether `c` has the Unicode `White_Space` property.
pub fn is_white_space(c: char) -> (white: bool)
    ensures
        white == white_space(c),
{
    ('\u{9}' <= c && c <= '\u{d}') || c == '\u{20}' || c == '\u{85}' || c == '\u{a0}' || c
        == '\u{1680}' || ('\u{2000}' <= c && c <= '\u{200a}') || c == '\u{2028}' || c == '\u{2029}'
        || c == '\u{202f}' || c == '\u{205f}' || c == '\u{3000}'
}

/// Text made of white space alone (or empty): nothing is left of it once trimmed.
pub open spec fn blank(s: Seq<char>) -> bool {
    forall|i: int| 0 <= i < s.len() ==> white_space(#[trigger] s[i])
}

/// Whether nothing but white space stands in `s`.
pub fn is_blank(s: &str) -> (r: bool)
    ensures
        r == blank(s@),
{
    let chars = to_chars(s);
    let mut i: usize = 0;
    while i < chars.len()
        invariant
            i <= chars.len(),
            chars@ == s@,
            forall|j: int| 0 <= j < i ==> white_space(#[trigger] s@[j]),
        decreases chars.len() - i,
    {
        if !is_white_space(chars[i]) {
            assert(!white_space(s@[i as int]));
            return false;
        }
        i += 1;
    }
    true
}

/// Whether `needle` stands in `hay` at position `at`.
pub open spec fn occurs_at(hay: Seq<char>, needle: Seq<char>, at: int) -> bool {
    &&& 0 <= at
    &&& at + needle.len() <= hay.len()
    &&& hay.subrange(at, at + needle.len()) == needle
}

/// Whether `needle` stands somewhere in `hay`.
pub open spec fn occurs(hay: Seq<char>, needle: Seq<char>) -> bool {
    exists|at: int| occurs_at(hay, needle, at)
}

/// Whether `hay` contains `needle`.
pub fn contains_text(hay: &str, needle: &str) -> (found: bool)
    ensures
        found == occurs(hay@, needle@),
{
    let h = to_chars(hay);
    let n = to_chars(needle);
    if n.len() > h.len() {
        return false;
    }
    let last: usize = h.len() - n.len();
    let mut at: usize = 0;
    loop
        invariant
            h@ == hay@,
            n@ == needle@,
            last + n.len() == h.len(),
            at <= last,
            forall|k: int| 0 <= k < at ==> !occurs_at(hay@, needle@, k),
        decreases last - at,
    {
        let mut j: usize = 0;
        while j < n.len() && h[at + j] == n[j]
            invariant
                j <= n.len(),
                at + n.len() <= h.len(),
                forall|k: int| 0 <= k < j ==> h@[at + k] == n@[k],
            decreases n.len() - j,
        {
            j += 1;
        }
        if j == n.len() {
            assert(h@.subrange(at as int, at + n@.len()) =~= n@);
            assert(occurs_at(hay@, needle@, at as int));
            return true;
        }
        assert(!occurs_at(hay@, needle@, at as int)) by {
            assert(h@.subrange(at as int, at + n@.len())[j as int] == h@[at + j]);
        }
        if at == last {
            return false;
        }
        at += 1;
    }
}

/// The length of the longest prefix of `s` without white space.
pub open spec fn word_len(s: Seq<char>) -> nat
    decreases s.len(),
{
    if s.len() == 0 || white_space(s[0]) {
        0
    } else {
        1 + word_len(s.drop_first())
    }
}

/// The length of the longest prefix of `s` made of white space.
pub open spec fn gap_len(s: Seq<char>) -> nat
    decreases s.len(),
{
    if s.len() == 0 || !white_space(s[0]) {
        0
    } else {
        1 + gap_len(s.drop_first())
    }
}

/// `s` from its first character that is no white space on.
pub open spec fn after_gap(s: Seq<char>) -> Seq<char> {
    s.skip(gap_len(s) as int)
}

/// The first word of `s`: its characters between white space, or nothing.
pub open spec fn first_word(s: Seq<char>) -> Seq<char> {
    after_gap(s).take(word_len(after_gap(s)) as int)
}

/// What follows the first word of `s`.
pub open spec fn after_first_word(s: Seq<char>) -> Seq<char> {
    after_gap(s).skip(word_len(after_gap(s)) as int)
}

/// The length of the longest prefix of `s` without a line feed.
pub open spec fn line_len(s: Seq<char>) -> nat
    decreases s.len(),
{
    if s.len() == 0 || s[0] == '\n' {
        0
    } else {
        1 + line_len(s.drop_first())
    }
}

/// The first line of `s`, without its line feed.
pub open spec fn first_line(s: Seq<char>) -> Seq<char> {
    s.take(line_len(s) as int)
}

/// A prefix of `s` whose length `word_len` counts is as long as `n`, where
/// `s[..n]` has no white space and `n` ends the text or a white space stands there.
proof fn lemma_word_len(s: Seq<char>, n: int)
    requires
        0 <= n <= s.len(),
        forall|i: int| 0 <= i < n ==> !white_space(#[trigger] s[i]),
        n == s.len() || white_space(s[n]),
    ensures
        word_len(s) == n,
    decreases s.len(),
{
    if n > 0 {
        let t = s.drop_first();
        assert forall|i: int| 0 <= i < n - 1 implies !white_space(#[trigger] t[i]) by {
            assert(t[i] == s[i + 1]);
        }
        lemma_word_len(t, n - 1);
    }
}

proof fn lemma_gap_len(s: Seq<char>, n: int)
    requires
        0 <= n <= s.len(),
        forall|i: int| 0 <= i < n ==> white_space(#[trigger] s[i]),
        n == s.len() || !white_space(s[n]),
    ensures
        gap_len(s) == n,
    decreases s.len(),
{
    if n > 0 {
        let t = s.drop_first();
        assert forall|i: int| 0 <= i < n - 1 implies white_space(#[trigger] t[i]) by {
            assert(t[i] == s[i + 1]);
        }
        lemma_gap_len(t, n - 1);
    }
}

proof fn lemma_line_len(s: Seq<char>, n: int)
    requires
        0 <= n <= s.len(),
        forall|i: int| 0 <= i < n ==> #[trigger] s[i] != '\n',
        n == s.len() || s[n] == '\n',
    ensures
        line_len(s) == n,
    decreases s.len(),
{
    if n > 0 {
        let t = s.drop_first();
        assert forall|i: int| 0 <= i < n - 1 implies #[trigger] t[i] != '\n' by {
            assert(t[i] == s[i + 1]);
        }
        lemma_line_len(t, n - 1);
    }
}

/// The first line of `chars`.
pub fn take_line(chars: &Vec<char>) -> (line: Vec<char>)
    ensures
        line@ == first_line(chars@),
{
    let mut line: Vec<char> = Vec::new();
    let mut i: usize = 0;
    while i < chars.len() && chars[i] != '\n'
        invariant
            i <= chars.len(),
            line@ == chars@.take(i as int),
            forall|j: int| 0 <= j < i ==> #[trigger] chars@[j] != '\n',
        decreases chars.len() - i,
    {
        line.push(chars[i]);
        i += 1;
    }
    proof {
        lemma_line_len(chars@, i as int);
    }
    line
}

/// The first word of `chars[from..]`, and the position behind it.
pub fn take_word(chars: &Vec<char>, from: usize) -> (r: (String, usize))
    requires
        from <= chars.len(),
    ensures
        r.0@ == first_word(chars@.skip(from as int)),
        from <= r.1 <= chars.len(),
        chars@.skip(r.1 as int) == after_first_word(chars@.skip(from as int)),
{
    let ghost s = chars@.skip(from as int);
    let mut start: usize = from;
    while start < chars.len() && is_white_space(chars[start])
        invariant
            from <= start <= chars.len(),
            s == chars@.skip(from as int),
            forall|j: int| 0 <= j < start - from ==> white_space(#[trigger] s[j]),
        decreases chars.len() - start,
    {
        assert(s[start - from] == chars@[start as int]);
        start += 1;
    }
    proof {
        if start < chars.len() {
            assert(s[start - from] == chars@[start as int]);
        }
        lemma_gap_len(s, start - from);
    }
    let ghost rest = chars@.skip(start as int);
    assert(after_gap(s) =~= rest);
    let mut end: usize = start;
    while end < chars.len() && !is_white_space(chars[end])
        invariant
            start <= end <= chars.len(),
            rest == chars@.skip(start as int),
            forall|j: int| 0 <= j < end - start ==> !white_space(#[trigger] rest[j]),
        decreases chars.len() - end,
    {
        assert(rest[end - start] == chars@[end as int]);
        end += 1;
    }
    proof {
        if end < chars.len() {
            assert(rest[end - start] == chars@[end as int]);
        }
        lemma_word_len(rest, end - start);
        assert(rest.take(end - start) =~= chars@.subrange(start as int, end as int));
        assert(rest.skip(end - start) =~= chars@.skip(end as int));
    }
    (from_chars(chars, start, end), end)
}

// ---------------------------------------------------------------------------
// What holds of texts
// ---------------------------------------------------------------------------

/// The number that a reader makes of digits.
pub open spec fn digits_value(s: Seq<char>) -> int
    decreases s.len(),
{
    if s.len() == 0 {
        0
    } else {
        10 * digits_value(s.drop_last()) + (s.last() as int - '0' as int)
    }
}

/// A number in decimal is made of digits, has no leading zero but for 0 itself, and reads
/// back as the number.
pub proof fn law_decimal_reads_back(n: nat)
    ensures
        digits_value(decimal(n)) == n,
        decimal(n).len() > 0,
        forall|i: int| 0 <= i < decimal(n).len() ==> '0' <= #[trigger] decimal(n)[i] <= '9',
        n > 0 ==> decimal(n)[0] != '0',
        n == 0 ==> decimal(n) == seq!['0'],
    decreases n,
{
    reveal_with_fuel(digits_value, 2);
    if n < 10 {
        assert(decimal(n).drop_last() =~= Seq::empty());
    } else {
        law_decimal_reads_back(n / 10);
        assert(decimal(n).drop_last() =~= decimal(n / 10));
        assert(decimal(n)[0] == decimal(n / 10)[0]);
    }
}

/// Of the characters below 128, the space and those from the tabulator to the carriage
/// return are white space.
pub proof fn law_ascii_white_space(c: char)
    requires
        c as int <= 127,
    ensures
        white_space(c) <==> c == ' ' || c == '\t' || c == '\n' || c == '\r' || c as int == 11
            || c as int == 12,
{
}

/// Behind them, white space is the next line and the no-break space, the Ogham space, the
/// eleven spaces from 0x2000 on, the line and the paragraph separator, the narrow no-break
/// space, the mathematical space and the ideographic space. Nothing else is.
pub proof fn law_other_white_space(c: char)
    requires
        c as int > 127,
    ensures
        white_space(c) <==> {
            let n = c as int;
            ||| n == 0x85 || n == 0xa0
            ||| n == 0x1680
            ||| 0x2000 <= n <= 0x200a
            ||| n == 0x2028 || n == 0x2029
            ||| n == 0x202f || n == 0x205f
            ||| n == 0x3000
        },
{
}

/// The first word of a text, and what follows it: white space before the word is skipped,
/// and it ends at the next white space or with the text.
pub proof fn law_first_word(gap: Seq<char>, word: Seq<char>, rest: Seq<char>)
    requires
        forall|i: int| 0 <= i < gap.len() ==> white_space(#[trigger] gap[i]),
        forall|i: int| 0 <= i < word.len() ==> !white_space(#[trigger] word[i]),
        word.len() > 0,
        rest.len() > 0 ==> white_space(rest[0]),
    ensures
        first_word(gap + word + rest) == word,
        after_first_word(gap + word + rest) == rest,
{
    let s = gap + word + rest;
    let g = gap.len() as int;
    let w = word.len() as int;
    assert forall|i: int| 0 <= i < g implies white_space(#[trigger] s[i]) by {
        assert(s[i] == gap[i]);
    }
    assert(s[g] == word[0]);
    lemma_gap_len(s, g);
    let t = s.skip(g);
    assert(t =~= word + rest);
    assert forall|i: int| 0 <= i < w implies !white_space(#[trigger] t[i]) by {
        assert(t[i] == word[i]);
    }
    if rest.len() > 0 {
        assert(t[w] == rest[0]);
    }
    lemma_word_len(t, w);
    assert(t.take(w) =~= word);
    assert(t.skip(w) =~= rest);
}

/// A text without a word: nothing but white space.
pub proof fn law_no_word(s: Seq<char>)
    ensures
        blank(s) <==> forall|i: int| 0 <= i < s.len() ==> white_space(#[trigger] s[i]),
        blank(s) ==> first_word(s).len() == 0 && after_first_word(s).len() == 0,
{
    if blank(s) {
        lemma_gap_len(s, s.len() as int);
        assert(after_gap(s).len() == 0);
    }
}

/// The first line of a text ends before the first line feed, or with the text.
pub proof fn law_first_line(line: Seq<char>, rest: Seq<char>)
    requires
        forall|i: int| 0 <= i < line.len() ==> #[trigger] line[i] != '\n',
        rest.len() > 0 ==> rest[0] == '\n',
    ensures
        first_line(line + rest) == line,
{
    let s = line + rest;
    let n = line.len() as int;
    assert forall|i: int| 0 <= i < n implies #[trigger] s[i] != '\n' by {
        assert(s[i] == line[i]);
    }
    if rest.len() > 0 {
        assert(s[n] == rest[0]);
    }
    lemma_line_len(s, n);
    assert(s.take(n) =~= line);
}

/// A text holds another one exactly where it is that one with something before it and
/// something behind it, each possibly nothing.
pub proof fn law_occurs(hay: Seq<char>, needle: Seq<char>)
    ensures
        occurs(hay, needle) <==> exists|before: Seq<char>, after: Seq<char>|
            hay == #[trigger] (before + needle + after),
{
    if occurs(hay, needle) {
        let at = choose|at: int| occurs_at(hay, needle, at);
        let (before, after) = (hay.take(at), hay.skip(at + needle.len()));
        assert(hay =~= before + needle + after);
    }
    if exists|before: Seq<char>, after: Seq<char>| hay == #[trigger] (before + needle + after) {
        let (before, after) = choose|before: Seq<char>, after: Seq<char>|
            hay == #[trigger] (before + needle + after);
        let at = before.len() as int;
        assert(hay.subrange(at, at + needle.len()) =~= needle);
        assert(occurs_at(hay, needle, at));
    }
}

/// What occurs in a part of a text occurs in the text.
pub proof fn lemma_occurs_in_part(before: Seq<char>, part: Seq<char>, after: Seq<char>, needle: Seq<char>)
    requires
        occurs(part, needle),
    ensures
        occurs(before + part + after, needle),
{
    let at = choose|at: int| occurs_at(part, needle, at);
    let all = before + part + after;
    let there = before.len() + at;
    assert(all.subrange(there, there + needle.len()) =~= part.subrange(at, at + needle.len()));
    assert(occurs_at(all, needle, there));
}

} // verus!
