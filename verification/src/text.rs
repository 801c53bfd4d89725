//! Helpers on texts, seen as sequences of characters.
use vstd::prelude::*;

verus! {

/// `String::push` appends one character.
pub assume_specification[ String::push ](s: &mut String, c: char)
    ensures
        final(s)@ == old(s)@.push(c),
;

/// `==` on string slices compares them character by character.
pub assume_specification[ <str as PartialEq>::eq ](a: &str, b: &str) -> (same: bool)
    ensures
        same == (a@ == b@),
;

/// The texts of a sequence of strings, in order.
pub open spec fn texts(strings: Seq<String>) -> Seq<Seq<char>> {
    Seq::new(strings.len(), |i: int| strings[i]@)
}

/// Whether a text is wrapped in quotes: it begins with a double quote and
/// ends with another one.
pub open spec fn is_wrapped(text: Seq<char>) -> bool {
    text.len() >= 2 && text[0] == '"' && text[text.len() - 1] == '"'
}

/// A text without the quotes that wrap it: as long as the text is wrapped
/// in quotes, the first and the last character are taken off. Nothing else
/// changes; a quote inside the text stays.
pub open spec fn without_quotes(text: Seq<char>) -> Seq<char>
    decreases text.len(),
{
    if is_wrapped(text) {
        without_quotes(text.subrange(1, text.len() - 1))
    } else {
        text
    }
}

/// A text that is not wrapped in quotes is left as it is.
pub proof fn lemma_without_quotes_keeps(text: Seq<char>)
    requires
        !is_wrapped(text),
    ensures
        without_quotes(text) == text,
{
}

/// Taking the quotes off a text that was put between two quotes gives what
/// taking them off the text itself gives: the text itself, if it is not
/// wrapped in quotes.
pub proof fn lemma_without_wrapping_quotes(inner: Seq<char>)
    ensures
        without_quotes(seq!['"'] + inner + seq!['"']) == without_quotes(inner),
        !is_wrapped(inner) ==> without_quotes(seq!['"'] + inner + seq!['"']) == inner,
{
    let wrapped = seq!['"'] + inner + seq!['"'];
    assert(wrapped[0] == '"');
    assert(wrapped[wrapped.len() - 1] == '"');
    assert(wrapped.subrange(1, wrapped.len() - 1) =~= inner);
}

/// How many pairs of quotes wrap a text.
pub open spec fn quote_depth(text: Seq<char>) -> nat
    decreases text.len(),
{
    if is_wrapped(text) {
        1 + quote_depth(text.subrange(1, text.len() - 1))
    } else {
        0
    }
}

/// What is left of a text without its quotes is the text between the pairs
/// of quotes that wrap it, character by character; it is not wrapped in
/// quotes, and stays as it is when its quotes are taken off again.
pub proof fn lemma_without_quotes(text: Seq<char>)
    ensures
        2 * quote_depth(text) <= text.len(),
        without_quotes(text) == text.subrange(
            quote_depth(text) as int,
            text.len() - quote_depth(text),
        ),
        !is_wrapped(without_quotes(text)),
        without_quotes(without_quotes(text)) == without_quotes(text),
    decreases text.len(),
{
    if is_wrapped(text) {
        let inner = text.subrange(1, text.len() - 1);
        let depth = quote_depth(inner);
        lemma_without_quotes(inner);
        assert(inner.subrange(depth as int, inner.len() - depth) =~= text.subrange(
            depth as int + 1,
            text.len() - (depth + 1),
        ));
    } else {
        assert(text =~= text.subrange(0, text.len() as int));
    }
}

/// The characters of a text, in order.
pub fn chars_of(text: &str) -> (chars: Vec<char>)
    ensures
        chars@ == text@,
{
    let mut chars: Vec<char> = Vec::new();
    for c in it: text.chars()
        invariant
            chars@ == text@.take(it.index() as int),
            it.seq() == text@,
    {
        chars.push(c);
    }
    chars
}

/// The text made of the characters from `from` up to `to`.
pub(crate) fn text_of(chars: &Vec<char>, from: usize, to: usize) -> (text: String)
    requires
        from <= to <= chars.len(),
    ensures
        text@ == chars@.subrange(from as int, to as int),
{
    let mut text = String::new();
    let mut i: usize = from;
    while i < to
        invariant
            from <= i <= to <= chars.len(),
            text@ == chars@.subrange(from as int, i as int),
        decreases to - i,
    {
        text.push(chars[i]);
        i += 1;
    }
    text
}

/// The characters from `from` up to `to`.
pub(crate) fn part_of(chars: &Vec<char>, from: usize, to: usize) -> (part: Vec<char>)
    requires
        from <= to <= chars.len(),
    ensures
        part@ == chars@.subrange(from as int, to as int),
{
    let mut part: Vec<char> = Vec::new();
    let mut i: usize = from;
    while i < to
        invariant
            from <= i <= to <= chars.len(),
            part@ == chars@.subrange(from as int, i as int),
        decreases to - i,
    {
        part.push(chars[i]);
        i += 1;
    }
    part
}

/// Whether `c` occurs among the characters.
pub fn has_char(chars: &Vec<char>, c: char) -> (found: bool)
    ensures
        found == chars@.contains(c),
{
    let mut i: usize = 0;
    while i < chars.len()
        invariant
            i <= chars.len(),
            forall|j: int| 0 <= j < i ==> chars@[j] != c,
        decreases chars.len() - i,
    {
        if chars[i] == c {
            return true;
        }
        i += 1;
    }
    false
}

/// Whether one of the strings holds the given text.
pub fn contains_text(list: &Vec<String>, text: &str) -> (found: bool)
    ensures
        found == texts(list@).contains(text@),
{
    let mut i: usize = 0;
    while i < list.len()
        invariant
            i <= list.len(),
            forall|j: int| 0 <= j < i ==> texts(list@)[j] != text@,
        decreases list.len() - i,
    {
        if *list[i].as_str() == *text {
            assert(texts(list@)[i as int] == text@);
            return true;
        }
        i += 1;
    }
    false
}

/// A copy of a list of strings.
pub fn copy_texts(list: &Vec<String>) -> (copy: Vec<String>)
    ensures
        texts(copy@) == texts(list@),
{
    let mut copy: Vec<String> = Vec::new();
    let mut i: usize = 0;
    while i < list.len()
        invariant
            i <= list.len(),
            copy@.len() == i,
            forall|j: int| 0 <= j < i ==> copy@[j]@ == list@[j]@,
        decreases list.len() - i,
    {
        copy.push(list[i].clone());
        i += 1;
    }
    assert(texts(copy@) =~= texts(list@));
    copy
}

/// One text followed by another.
pub fn concat(a: &str, b: &str) -> (joined: String)
    ensures
        joined@ == a@ + b@,
{
    let mut joined = a.to_string();
    joined.append(b);
    joined
}

/// Whether `chars` begins with `prefix`.
pub fn has_prefix(chars: &Vec<char>, prefix: &Vec<char>) -> (found: bool)
    ensures
        found == prefix@.is_prefix_of(chars@),
{
    if prefix.len() > chars.len() {
        return false;
    }
    let mut i: usize = 0;
    while i < prefix.len()
        invariant
            i <= prefix.len() <= chars.len(),
            forall|j: int| 0 <= j < i ==> chars@[j] == prefix@[j],
        decreases prefix.len() - i,
    {
        if chars[i] != prefix[i] {
            return false;
        }
        i += 1;
    }
    assert(chars@.subrange(0, prefix@.len() as int) =~= prefix@);
    true
}

/// Whether `chars` ends with `suffix`.
pub fn has_suffix(chars: &Vec<char>, suffix: &Vec<char>) -> (found: bool)
    ensures
        found == suffix@.is_suffix_of(chars@),
{
    if suffix.len() > chars.len() {
        return false;
    }
    let shift: usize = chars.len() - suffix.len();
    let mut i: usize = 0;
    while i < suffix.len()
        invariant
            i <= suffix.len() <= chars.len(),
            shift == chars.len() - suffix.len(),
            forall|j: int| 0 <= j < i ==> chars@[shift + j] == suffix@[j],
        decreases suffix.len() - i,
    {
        if chars[shift + i] != suffix[i] {
            assert(chars@.subrange(shift as int, chars@.len() as int)[i as int] != suffix@[i as int]);
            return false;
        }
        i += 1;
    }
    assert(chars@.subrange(shift as int, chars@.len() as int) =~= suffix@);
    true
}

/// The text without the quotes that wrap it.
pub fn strip_quotes(text: &str) -> (stripped: String)
    ensures
        stripped@ == without_quotes(text@),
{
    let chars = chars_of(text);
    let mut from: usize = 0;
    let mut to: usize = chars.len();
    proof {
        assert(chars@.subrange(0, chars@.len() as int) =~= text@);
    }
    while to - from >= 2 && chars[from] == '"' && chars[to - 1] == '"'
        invariant
            from <= to <= chars.len(),
            without_quotes(text@) == without_quotes(chars@.subrange(from as int, to as int)),
        decreases to - from,
    {
        proof {
            let part = chars@.subrange(from as int, to as int);
            assert(is_wrapped(part));
            assert(part.subrange(1, part.len() - 1) =~= chars@.subrange(from + 1, to - 1));
        }
        from += 1;
        to -= 1;
    }
    proof {
        let part = chars@.subrange(from as int, to as int);
        assert(!is_wrapped(part));
    }
    text_of(&chars, from, to)
}

} // verus!
