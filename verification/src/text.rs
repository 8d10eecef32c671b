//! Text primitives: views of strings as character sequences, trimming, splitting and
//! ASCII case folding.
use vstd::prelude::*;

verus! {

/// `String::push` appends one character at the end.
pub assume_specification[ String::push ](s: &mut String, c: char)
    ensures
        final(s)@ == old(s)@.push(c),
;

/// The characters with the Unicode `White_Space` property.
pub open spec fn whitespace(c: char) -> bool {
    let u = c as u32;
    ||| 0x09 <= u <= 0x0d
    ||| u == 0x20
    ||| u == 0x85
    ||| u == 0xa0
    ||| u == 0x1680
    ||| 0x2000 <= u <= 0x200a
    ||| u == 0x2028
    ||| u == 0x2029
    ||| u == 0x202f
    ||| u == 0x205f
    ||| u == 0x3000
}

/// `s` without its leading whitespace.
pub open spec fn trim_start(s: Seq<char>) -> Seq<char>
    decreases s.len(),
{
    if s.len() > 0 && whitespace(s.first()) {
        trim_start(s.drop_first())
    } else {
        s
    }
}

/// `s` without its trailing whitespace.
pub open spec fn trim_end(s: Seq<char>) -> Seq<char>
    decreases s.len(),
{
    if s.len() > 0 && whitespace(s.last()) {
        trim_end(s.drop_last())
    } else {
        s
    }
}

/// `s` without whitespace at either end.
pub open spec fn trimmed(s: Seq<char>) -> Seq<char> {
    trim_end(trim_start(s))
}

/// The position of the first `c` in `s`, or the length of `s` where there is none.
pub open spec fn first_index(s: Seq<char>, c: char) -> int
    decreases s.len(),
{
    if s.len() == 0 || s.first() == c {
        0
    } else {
        1 + first_index(s.drop_first(), c)
    }
}

/// What stands before and after the first `c` of `s`.
pub open spec fn split_at_first(s: Seq<char>, c: char) -> Option<(Seq<char>, Seq<char>)> {
    let i = first_index(s, c);
    if i < s.len() {
        Some((s.take(i), s.skip(i + 1)))
    } else {
        None
    }
}

/// `c` with `A` to `Z` mapped to `a` to `z`.
pub open spec fn ascii_lower(c: char) -> char {
    if 'A' <= c <= 'Z' {
        ((c as u32 + 32) as u32) as char
    } else {
        c
    }
}

/// `s` with every ASCII letter in lower case.
pub open spec fn ascii_lowered(s: Seq<char>) -> Seq<char> {
    s.map_values(|c: char| ascii_lower(c))
}

/// `s` without the `c`s it ends in.
pub open spec fn without_trailing(s: Seq<char>, c: char) -> Seq<char>
    decreases s.len(),
{
    if s.len() > 0 && s.last() == c {
        without_trailing(s.drop_last(), c)
    } else {
        s
    }
}

/// `s` ends in `suffix`.
pub open spec fn ends_in(s: Seq<char>, suffix: Seq<char>) -> bool {
    suffix.len() <= s.len() && s.skip(s.len() - suffix.len()) == suffix
}

/// The first index lies in the sequence exactly when the character occurs, and nothing
/// before it is that character.
pub proof fn lemma_first_index(s: Seq<char>, c: char)
    ensures
        0 <= first_index(s, c) <= s.len(),
        first_index(s, c) < s.len() ==> s[first_index(s, c)] == c,
        forall|j: int| 0 <= j < first_index(s, c) ==> s[j] != c,
    decreases s.len(),
{
    if s.len() > 0 && s.first() != c {
        let rest = s.drop_first();
        lemma_first_index(rest, c);
        assert forall|j: int| 0 <= j < first_index(s, c) implies s[j] != c by {
            if j > 0 {
                assert(s[j] == rest[j - 1]);
            }
        }
    }
}

/// The first index is the only position with those properties.
pub proof fn lemma_first_index_unique(s: Seq<char>, c: char, i: int)
    requires
        0 <= i <= s.len(),
        i < s.len() ==> s[i] == c,
        forall|j: int| 0 <= j < i ==> s[j] != c,
    ensures
        first_index(s, c) == i,
{
    lemma_first_index(s, c);
    let f = first_index(s, c);
    if f < i {
        assert(s[f] != c);
    }
    if i < f {
        assert(s[i] != c);
    }
}

/// Joining two texts with a separator that the first one lacks is undone by splitting.
pub proof fn lemma_split_of_join(a: Seq<char>, c: char, b: Seq<char>)
    requires
        !a.contains(c),
    ensures
        split_at_first(a + seq![c] + b, c) == Some((a, b)),
{
    let s = a + seq![c] + b;
    assert forall|j: int| 0 <= j < a.len() implies s[j] != c by {
        assert(s[j] == a[j]);
        assert(a.contains(a[j]));
    }
    lemma_first_index_unique(s, c, a.len() as int);
    assert(s.take(a.len() as int) =~= a);
    assert(s.skip(a.len() as int + 1) =~= b);
}

/// What splitting gives back, joined again, is the text.
pub proof fn lemma_join_of_split(s: Seq<char>, c: char)
    ensures
        split_at_first(s, c) matches Some((a, b)) ==> s == a + seq![c] + b && !a.contains(c),
{
    lemma_first_index(s, c);
    if let Some((a, b)) = split_at_first(s, c) {
        assert(s =~= a + seq![c] + b);
    }
}

/// What is left of a text after trimming its start begins with no whitespace.
proof fn lemma_trim_start(s: Seq<char>)
    ensures
        trim_start(s).len() > 0 ==> !whitespace(trim_start(s).first()),
    decreases s.len(),
{
    if s.len() > 0 && whitespace(s.first()) {
        lemma_trim_start(s.drop_first());
    }
}

/// What is left of a text after trimming its end ends in no whitespace and begins as the
/// text does.
proof fn lemma_trim_end(s: Seq<char>)
    ensures
        trim_end(s).len() > 0 ==> !whitespace(trim_end(s).last()) && trim_end(s).first()
            == s.first(),
        trim_end(s).len() <= s.len(),
    decreases s.len(),
{
    if s.len() > 0 && whitespace(s.last()) {
        lemma_trim_end(s.drop_last());
        if s.drop_last().len() > 0 {
            assert(s.drop_last().first() == s.first());
        }
    }
}

/// Trimming a trimmed text changes nothing.
pub proof fn lemma_trimmed_twice(s: Seq<char>)
    ensures
        trimmed(trimmed(s)) == trimmed(s),
{
    lemma_trim_start(s);
    lemma_trim_end(trim_start(s));
}

/// The characters of `s` in order.
pub fn chars_of(s: &str) -> (r: Vec<char>)
    ensures
        r@ == s@,
{
    let mut out: Vec<char> = Vec::new();
    for c in it: s.chars()
        invariant
            it.seq() == s@,
            out@ == s@.take(it.index() as int),
    {
        out.push(c);
    }
    out
}

/// Whether `c` has the Unicode `White_Space` property.
pub fn is_whitespace(c: char) -> (r: bool)
    ensures
        r == whitespace(c),
{
    let u: u32 = c as u32;
    (0x09 <= u && u <= 0x0d) || u == 0x20 || u == 0x85 || u == 0xa0 || u == 0x1680 || (0x2000 <= u
        && u <= 0x200a) || u == 0x2028 || u == 0x2029 || u == 0x202f || u == 0x205f || u == 0x3000
}

/// `s` without whitespace at either end.
pub fn trim(s: &str) -> (r: &str)
    ensures
        r@ == trimmed(s@),
{
    let chars: Vec<char> = chars_of(s);
    let mut from: usize = 0;
    assert(s@.skip(0) =~= s@);
    while from < chars.len() && is_whitespace(chars[from])
        invariant
            chars@ == s@,
            from <= chars@.len(),
            trim_start(s@) == trim_start(s@.skip(from as int)),
        decreases chars@.len() - from,
    {
        assert(s@.skip(from as int).drop_first() =~= s@.skip(from + 1));
        from = from + 1;
    }
    let ghost head = s@.skip(from as int);
    assert(trim_start(s@) == head);
    let mut to: usize = chars.len();
    assert(s@.subrange(from as int, to as int) =~= head);
    while from < to && is_whitespace(chars[to - 1])
        invariant
            chars@ == s@,
            from <= to <= chars@.len(),
            trim_end(head) == trim_end(s@.subrange(from as int, to as int)),
        decreases to,
    {
        assert(s@.subrange(from as int, to as int).drop_last() =~= s@.subrange(
            from as int,
            to - 1,
        ));
        to = to - 1;
    }
    s.substring_char(from, to)
}

/// What stands before and after the first `c` of `s`, if `c` occurs in it.
pub fn split_once<'a>(s: &'a str, c: char) -> (r: Option<(&'a str, &'a str)>)
    ensures
        match r {
            Some((a, b)) => split_at_first(s@, c) == Some((a@, b@)),
            None => split_at_first(s@, c) is None,
        },
{
    let chars: Vec<char> = chars_of(s);
    let mut i: usize = 0;
    while i < chars.len() && chars[i] != c
        invariant
            chars@ == s@,
            i <= chars@.len(),
            forall|j: int| 0 <= j < i ==> s@[j] != c,
        decreases chars@.len() - i,
    {
        i = i + 1;
    }
    proof {
        lemma_first_index_unique(s@, c, i as int);
    }
    if i < chars.len() {
        assert(s@.subrange(0, i as int) =~= s@.take(i as int));
        assert(s@.subrange(i + 1, s@.len() as int) =~= s@.skip(i + 1));
        Some((s.substring_char(0, i), s.substring_char(i + 1, chars.len())))
    } else {
        None
    }
}

/// Whether two texts hold the same characters.
pub fn same_text(a: &str, b: &str) -> (r: bool)
    ensures
        r == (a@ == b@),
{
    a.to_owned() == b.to_owned()
}

/// `c` in lower case where it is an ASCII letter.
pub fn lower_char(c: char) -> (r: char)
    ensures
        r == ascii_lower(c),
{
    if 'A' <= c && c <= 'Z' {
        (c as u8 + 32) as char
    } else {
        c
    }
}

/// `s` without the dots it ends in, every ASCII letter in lower case.
pub fn folded_host(s: &str) -> (r: Vec<char>)
    ensures
        r@ == ascii_lowered(without_trailing(s@, '.')),
{
    let chars: Vec<char> = chars_of(s);
    let mut to: usize = chars.len();
    assert(s@.take(to as int) =~= s@);
    while to > 0 && chars[to - 1] == '.'
        invariant
            chars@ == s@,
            to <= chars@.len(),
            without_trailing(s@, '.') == without_trailing(s@.take(to as int), '.'),
        decreases to,
    {
        assert(s@.take(to as int).drop_last() =~= s@.take(to - 1));
        to = to - 1;
    }
    let ghost kept = s@.take(to as int);
    let mut out: Vec<char> = Vec::new();
    let mut i: usize = 0;
    while i < to
        invariant
            chars@ == s@,
            i <= to <= chars@.len(),
            kept == s@.take(to as int),
            out@ == ascii_lowered(kept.take(i as int)),
        decreases to - i,
    {
        out.push(lower_char(chars[i]));
        i = i + 1;
        assert(out@ =~= ascii_lowered(kept.take(i as int)));
    }
    assert(kept.take(to as int) =~= kept);
    out
}

/// The characters that Unicode gives the property `White_Space`, one by one.
pub open spec fn unicode_spaces() -> Seq<char> {
    seq![
        '\u{9}', '\u{a}', '\u{b}', '\u{c}', '\u{d}', '\u{20}',
        '\u{85}', '\u{a0}', '\u{1680}', '\u{2000}', '\u{2001}', '\u{2002}',
        '\u{2003}', '\u{2004}', '\u{2005}', '\u{2006}', '\u{2007}', '\u{2008}',
        '\u{2009}', '\u{200a}', '\u{2028}', '\u{2029}', '\u{202f}', '\u{205f}',
        '\u{3000}',
    ]
}

/// Whitespace is what Unicode lists as such, and nothing else.
pub proof fn law_whitespace_is_what_unicode_lists(c: char)
    ensures
        whitespace(c) <==> unicode_spaces().contains(c),
{
    let listed = unicode_spaces();
    assert(listed[0] == '\u{9}');
    assert(listed[1] == '\u{a}');
    assert(listed[2] == '\u{b}');
    assert(listed[3] == '\u{c}');
    assert(listed[4] == '\u{d}');
    assert(listed[5] == '\u{20}');
    assert(listed[6] == '\u{85}');
    assert(listed[7] == '\u{a0}');
    assert(listed[8] == '\u{1680}');
    assert(listed[9] == '\u{2000}');
    assert(listed[10] == '\u{2001}');
    assert(listed[11] == '\u{2002}');
    assert(listed[12] == '\u{2003}');
    assert(listed[13] == '\u{2004}');
    assert(listed[14] == '\u{2005}');
    assert(listed[15] == '\u{2006}');
    assert(listed[16] == '\u{2007}');
    assert(listed[17] == '\u{2008}');
    assert(listed[18] == '\u{2009}');
    assert(listed[19] == '\u{200a}');
    assert(listed[20] == '\u{2028}');
    assert(listed[21] == '\u{2029}');
    assert(listed[22] == '\u{202f}');
    assert(listed[23] == '\u{205f}');
    assert(listed[24] == '\u{3000}');
    if listed.contains(c) {
        let i = choose|i: int| 0 <= i < listed.len() && listed[i] == c;
        assert(0 <= i < 25);
    }
}

/// Every character of `s` is whitespace.
pub open spec fn blank(s: Seq<char>) -> bool {
    forall|i: int| 0 <= i < s.len() ==> whitespace(#[trigger] s[i])
}

/// Whitespace in front of a text is trimmed from its start.
proof fn lemma_trim_start_of_blank(front: Seq<char>, s: Seq<char>)
    requires
        blank(front),
    ensures
        trim_start(front + s) == trim_start(s),
    decreases front.len(),
{
    if front.len() > 0 {
        let rest = front.drop_first();
        assert((front + s).drop_first() =~= rest + s);
        assert((front + s).first() == front[0]);
        assert forall|i: int| 0 <= i < rest.len() implies whitespace(#[trigger] rest[i]) by {
            assert(rest[i] == front[i + 1]);
        }
        lemma_trim_start_of_blank(rest, s);
    } else {
        assert(front + s =~= s);
    }
}

/// Whitespace behind a text is trimmed from its end.
proof fn lemma_trim_end_of_blank(s: Seq<char>, back: Seq<char>)
    requires
        blank(back),
    ensures
        trim_end(s + back) == trim_end(s),
    decreases back.len(),
{
    if back.len() > 0 {
        let rest = back.drop_last();
        assert((s + back).drop_last() =~= s + rest);
        assert((s + back).last() == back[back.len() - 1]);
        assert forall|i: int| 0 <= i < rest.len() implies whitespace(#[trigger] rest[i]) by {
            assert(rest[i] == back[i]);
        }
        lemma_trim_end_of_blank(s, rest);
    } else {
        assert(s + back =~= s);
    }
}

/// Trimming cuts off the whitespace at both ends of a text, and nothing else.
pub proof fn law_trimming_leaves_what_stands_between(
    front: Seq<char>,
    middle: Seq<char>,
    back: Seq<char>,
)
    requires
        blank(front),
        blank(back),
        middle.len() > 0 ==> !whitespace(middle.first()) && !whitespace(middle.last()),
    ensures
        trimmed(front + middle + back) == middle,
{
    assert(front + middle + back =~= front + (middle + back));
    lemma_trim_start_of_blank(front, middle + back);
    if middle.len() > 0 {
        assert((middle + back).first() == middle.first());
        lemma_trim_end_of_blank(middle, back);
    } else {
        assert(middle + back =~= back + middle);
        lemma_trim_start_of_blank(back, middle);
    }
}

/// A text is split at the first separator in it, and one without a separator is not split.
pub proof fn law_texts_are_split_at_their_first_separator(a: Seq<char>, c: char, b: Seq<char>)
    requires
        !a.contains(c),
    ensures
        split_at_first(a + seq![c] + b, c) == Some((a, b)),
        split_at_first(a, c) is None,
{
    lemma_split_of_join(a, c, b);
    lemma_first_index(a, c);
    if first_index(a, c) < a.len() {
        assert(a.contains(a[first_index(a, c)]));
    }
}

/// Folding turns each capital letter of the English alphabet into the small one, keeps every
/// other character, and goes through a text character by character.
pub proof fn law_folding_keeps_all_but_capitals(s: Seq<char>, i: int, k: int)
    requires
        0 <= i < s.len(),
        0 <= k < 26,
    ensures
        ascii_lowered(s).len() == s.len(),
        s[i] == "ABCDEFGHIJKLMNOPQRSTUVWXYZ"@[k] ==> ascii_lowered(s)[i]
            == "abcdefghijklmnopqrstuvwxyz"@[k],
        !"ABCDEFGHIJKLMNOPQRSTUVWXYZ"@.contains(s[i]) ==> ascii_lowered(s)[i] == s[i],
{
    reveal_strlit("ABCDEFGHIJKLMNOPQRSTUVWXYZ");
    reveal_strlit("abcdefghijklmnopqrstuvwxyz");
    let capitals = "ABCDEFGHIJKLMNOPQRSTUVWXYZ"@;
    let smalls = "abcdefghijklmnopqrstuvwxyz"@;
    assert forall|j: int| 0 <= j < 26 implies #[trigger] capitals[j] as int == 65 + j && smalls[j]
        as int == 97 + j by {
        assert(j == 0 || j == 1 || j == 2 || j == 3 || j == 4 || j == 5 || j == 6 || j == 7 ||
            j == 8 || j == 9 || j == 10 || j == 11 || j == 12 || j == 13 || j == 14 || j ==
            15 || j == 16 || j == 17 || j == 18 || j == 19 || j == 20 || j == 21 || j == 22
            || j == 23 || j == 24 || j == 25);
    }
    let c = s[i];
    if 'A' <= c <= 'Z' {
        assert(capitals[c as int - 65] == c);
    }
}

/// Of a text with any number of one character behind it, cutting off that character at the
/// end leaves the text.
pub proof fn law_trailing_characters_are_cut_off(kept: Seq<char>, tail: Seq<char>, c: char)
    requires
        kept.len() > 0 ==> kept.last() != c,
        forall|i: int| 0 <= i < tail.len() ==> #[trigger] tail[i] == c,
    ensures
        without_trailing(kept + tail, c) == kept,
    decreases tail.len(),
{
    if tail.len() > 0 {
        assert((kept + tail).last() == tail[tail.len() - 1]);
        assert((kept + tail).drop_last() =~= kept + tail.drop_last());
        law_trailing_characters_are_cut_off(kept, tail.drop_last(), c);
    } else {
        assert(kept + tail =~= kept);
    }
}

} // verus!
