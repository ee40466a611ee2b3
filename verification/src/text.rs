//! Text as sequences of characters.
//!
//! The library reasons about text as `Seq<char>`, the view that a `str` and a
//! `String` share. This module holds the vocabulary the other modules write
//! their contracts in (trimming, words, lines, joining, numbers as text) and the
//! executable counterpart of each of those notions.

use vstd::prelude::*;

verus! {

// ---------------------------------------------------------------- conversion

/// The characters of a text, one by one.
pub fn to_chars(text: &str) -> (chars: Vec<char>)
    ensures
        chars@ == text@,
{
    let mut chars: Vec<char> = Vec::new();
    for c in it: text.chars()
        invariant
            chars@ == it.seq().take(it.index() as int),
            it.seq() == text@,
    {
        chars.push(c);
    }
    chars
}

/// The text made of the given characters.
pub fn to_text(chars: &[char]) -> (text: String)
    ensures
        text@ == chars@,
{
    let mut text = String::new();
    let mut i: usize = 0;
    while i < chars.len()
        invariant
            i <= chars.len(),
            text@ == chars@.take(i as int),
        decreases chars.len() - i,
    {
        text.push(chars[i]);
        i = i + 1;
    }
    text
}

/// The characters from `from` up to, not including, `to`.
pub fn slice_chars(chars: &[char], from: usize, to: usize) -> (part: Vec<char>)
    requires
        from <= to <= chars@.len(),
    ensures
        part@ == chars@.subrange(from as int, to as int),
{
    let mut part: Vec<char> = Vec::new();
    let mut i: usize = from;
    while i < to
        invariant
            from <= i <= to <= chars@.len(),
            part@ == chars@.subrange(from as int, i as int),
        decreases to - i,
    {
        part.push(chars[i]);
        i = i + 1;
    }
    part
}

/// An owned copy of a text.
pub fn copy_text(text: &str) -> (copy: String)
    ensures
        copy@ == text@,
{
    text.to_owned()
}

/// What an optional text reads as.
pub open spec fn optional(text: Option<String>) -> Option<Seq<char>> {
    match text {
        Some(value) => Some(value@),
        None => None,
    }
}

/// What an optional borrowed text reads as.
pub open spec fn optional_str(text: Option<&str>) -> Option<Seq<char>> {
    match text {
        Some(value) => Some(value@),
        None => None,
    }
}

/// What a list of texts reads as.
pub open spec fn texts(list: Seq<String>) -> Seq<Seq<char>> {
    list.map_values(|text: String| text@)
}

/// Appending to the list appends to what it reads as.
pub broadcast proof fn lemma_texts_push(list: Seq<String>, text: String)
    ensures
        #[trigger] texts(list.push(text)) == texts(list).push(text@),
{
    assert(texts(list.push(text)) =~= texts(list).push(text@));
}

/// A copy of an optional text.
pub fn copy_optional(text: &Option<String>) -> (copy: Option<String>)
    ensures
        optional(copy) == optional(*text),
{
    match text {
        Some(value) => Some(copy_text(value.as_str())),
        None => None,
    }
}

// ---------------------------------------------------------------- comparison

/// Do two lists of characters hold the same characters in the same order?
pub fn same_chars(a: &[char], b: &[char]) -> (same: bool)
    ensures
        same == (a@ == b@),
{
    if a.len() != b.len() {
        return false;
    }
    let mut i: usize = 0;
    while i < a.len()
        invariant
            i <= a.len(),
            a@.len() == b@.len(),
            a@.take(i as int) == b@.take(i as int),
        decreases a.len() - i,
    {
        if a[i] != b[i] {
            proof {
                assert(a@[i as int] != b@[i as int]);
            }
            return false;
        }
        proof {
            assert(a@.take(i + 1) =~= a@.take(i as int).push(a@[i as int]));
            assert(b@.take(i + 1) =~= b@.take(i as int).push(b@[i as int]));
        }
        i = i + 1;
    }
    proof {
        assert(a@ =~= a@.take(i as int));
        assert(b@ =~= b@.take(i as int));
    }
    true
}

/// Are two texts equal?
pub fn same_text(a: &str, b: &str) -> (same: bool)
    ensures
        same == (a@ == b@),
{
    let x = to_chars(a);
    let y = to_chars(b);
    same_chars(x.as_slice(), y.as_slice())
}

/// Does `text` begin with `prefix`?
pub open spec fn starts_with(text: Seq<char>, prefix: Seq<char>) -> bool {
    text.len() >= prefix.len() && text.take(prefix.len() as int) == prefix
}

/// Does the list of characters begin with `prefix`?
pub fn chars_start_with(text: &[char], prefix: &str) -> (found: bool)
    ensures
        found == starts_with(text@, prefix@),
{
    let head = to_chars(prefix);
    if text.len() < head.len() {
        return false;
    }
    let start = slice_chars(text, 0, head.len());
    same_chars(start.as_slice(), head.as_slice())
}

/// Does `needle` occur in `text` at position `at`?
pub open spec fn occurs_at<T>(text: Seq<T>, needle: Seq<T>, at: int) -> bool {
    0 <= at && at + needle.len() <= text.len() && text.subrange(at, at + needle.len()) == needle
}

/// Does `needle` occur anywhere in `text`?
pub open spec fn contains(text: Seq<char>, needle: Seq<char>) -> bool {
    exists|at: int| occurs_at(text, needle, at)
}

/// Does `needle` occur anywhere in `text`?
pub fn contains_text(text: &str, needle: &str) -> (found: bool)
    ensures
        found == contains(text@, needle@),
{
    let hay = to_chars(text);
    let pin = to_chars(needle);
    if hay.len() < pin.len() {
        return false;
    }
    let last: usize = hay.len() - pin.len();
    let mut at: usize = 0;
    while at < last
        invariant
            hay@ == text@,
            pin@ == needle@,
            at <= last,
            last == hay.len() - pin.len(),
            forall|k: int| 0 <= k < at ==> !occurs_at(hay@, pin@, k),
        decreases last - at,
    {
        let window = slice_chars(hay.as_slice(), at, at + pin.len());
        if same_chars(window.as_slice(), pin.as_slice()) {
            proof {
                assert(occurs_at(text@, needle@, at as int));
            }
            return true;
        }
        at = at + 1;
    }
    let window = slice_chars(hay.as_slice(), last, hay.len());
    let found = same_chars(window.as_slice(), pin.as_slice());
    proof {
        assert(found == occurs_at(text@, needle@, last as int));
    }
    found
}

// ------------------------------------------------------------------ trimming

/// The characters with the Unicode `White_Space` property.
pub open spec fn is_white(c: char) -> bool {
    let n = c as u32;
    ||| 0x9 <= n <= 0xd
    ||| n == 0x20
    ||| n == 0x85
    ||| n == 0xa0
    ||| n == 0x1680
    ||| 0x2000 <= n <= 0x200a
    ||| n == 0x2028
    ||| n == 0x2029
    ||| n == 0x202f
    ||| n == 0x205f
    ||| n == 0x3000
}

/// Is this character white space?
pub fn white(c: char) -> (is: bool)
    ensures
        is == is_white(c),
{
    let n: u32 = c as u32;
    (0x9 <= n && n <= 0xd) || n == 0x20 || n == 0x85 || n == 0xa0 || n == 0x1680 || (0x2000 <= n
        && n <= 0x200a) || n == 0x2028 || n == 0x2029 || n == 0x202f || n == 0x205f || n == 0x3000
}

/// The text without the white space it ends with.
pub open spec fn trim_end(text: Seq<char>) -> Seq<char>
    decreases text.len(),
{
    if text.len() > 0 && is_white(text.last()) {
        trim_end(text.drop_last())
    } else {
        text
    }
}

/// The text without the white space it begins with.
pub open spec fn trim_start(text: Seq<char>) -> Seq<char>
    decreases text.len(),
{
    if text.len() > 0 && is_white(text[0]) {
        trim_start(text.drop_first())
    } else {
        text
    }
}

/// The text without the white space around it.
pub open spec fn trim(text: Seq<char>) -> Seq<char> {
    trim_start(trim_end(text))
}

/// Is there nothing but white space in the text?
pub open spec fn is_blank(text: Seq<char>) -> bool {
    trim(text).len() == 0
}

/// The list of characters without the white space it ends with.
pub fn trim_end_chars(text: &[char]) -> (out: Vec<char>)
    ensures
        out@ == trim_end(text@),
{
    let mut end: usize = text.len();
    proof {
        assert(text@.take(end as int) =~= text@);
    }
    while end > 0 && white(text[end - 1])
        invariant
            end <= text.len(),
            trim_end(text@.take(end as int)) == trim_end(text@),
        decreases end,
    {
        proof {
            assert(text@.take(end as int).drop_last() =~= text@.take(end - 1));
        }
        end = end - 1;
    }
    let out = slice_chars(text, 0, end);
    proof {
        assert(out@ =~= text@.take(end as int));
    }
    out
}

/// The list of characters without the white space around it.
pub fn trim_chars(text: &[char]) -> (out: Vec<char>)
    ensures
        out@ == trim(text@),
{
    let body = trim_end_chars(text);
    let mut start: usize = 0;
    proof {
        assert(body@.skip(0) =~= body@);
    }
    while start < body.len() && white(body[start])
        invariant
            start <= body.len(),
            trim_start(body@.skip(start as int)) == trim_start(body@),
        decreases body.len() - start,
    {
        proof {
            assert(body@.skip(start as int).drop_first() =~= body@.skip(start + 1));
        }
        start = start + 1;
    }
    let out = slice_chars(body.as_slice(), start, body.len());
    proof {
        assert(out@ =~= body@.skip(start as int));
    }
    out
}

/// The text without the white space around it.
pub fn trimmed(text: &str) -> (out: String)
    ensures
        out@ == trim(text@),
{
    let chars = to_chars(text);
    to_text(trim_chars(chars.as_slice()).as_slice())
}

/// Is there nothing but white space in the text?
pub fn blank(text: &str) -> (is: bool)
    ensures
        is == is_blank(text@),
{
    let chars = to_chars(text);
    trim_chars(chars.as_slice()).len() == 0
}

/// What trimming leaves begins and ends with something visible, and lies within
/// the text.
pub proof fn lemma_trim_end(text: Seq<char>)
    ensures
        trim_end(text).len() <= text.len(),
        trim_end(text) == text.take(trim_end(text).len() as int),
        trim_end(text).len() > 0 ==> !is_white(trim_end(text).last()),
        forall|i: int| trim_end(text).len() <= i < text.len() ==> is_white(#[trigger] text[i]),
    decreases text.len(),
{
    if text.len() > 0 && is_white(text.last()) {
        lemma_trim_end(text.drop_last());
        let kept = trim_end(text);
        assert(text.drop_last().take(kept.len() as int) =~= text.take(kept.len() as int));
        assert forall|i: int| kept.len() <= i < text.len() implies is_white(#[trigger] text[i]) by {
            if i < text.len() - 1 {
                assert(text.drop_last()[i] == text[i]);
            }
        }
    } else {
        assert(text.take(text.len() as int) =~= text);
    }
}

/// The counterpart of `lemma_trim_end` at the beginning of the text.
pub proof fn lemma_trim_start(text: Seq<char>)
    ensures
        trim_start(text).len() <= text.len(),
        trim_start(text) == text.skip(text.len() - trim_start(text).len()),
        trim_start(text).len() > 0 ==> !is_white(trim_start(text)[0]),
        forall|i: int|
            0 <= i < text.len() - trim_start(text).len() ==> is_white(#[trigger] text[i]),
    decreases text.len(),
{
    if text.len() > 0 && is_white(text[0]) {
        lemma_trim_start(text.drop_first());
        let kept = trim_start(text);
        assert(text.drop_first().skip(text.len() - 1 - kept.len()) =~= text.skip(
            text.len() - kept.len(),
        ));
        assert forall|i: int| 0 <= i < text.len() - kept.len() implies is_white(
            #[trigger] text[i],
        ) by {
            if i > 0 {
                assert(text.drop_first()[i - 1] == text[i]);
            }
        }
    } else {
        assert(text.skip(0) =~= text);
    }
}

/// Where `trim` stands in the text, and what it leaves out.
pub proof fn lemma_trim(text: Seq<char>) -> (from: int)
    ensures
        0 <= from <= from + trim(text).len() <= text.len(),
        trim(text) == text.subrange(from, from + trim(text).len()),
        trim(text).len() > 0 ==> !is_white(trim(text)[0]) && !is_white(trim(text).last()),
        forall|i: int| 0 <= i < from ==> is_white(#[trigger] text[i]),
        forall|i: int| from + trim(text).len() <= i < text.len() ==> is_white(#[trigger] text[i]),
        is_blank(text) <==> (forall|i: int| 0 <= i < text.len() ==> is_white(#[trigger] text[i])),
{
    let body = trim_end(text);
    lemma_trim_end(text);
    lemma_trim_start(body);
    let from = body.len() - trim(text).len();
    assert(body.skip(from) =~= text.subrange(from, from + trim(text).len()));
    if trim(text).len() > 0 {
        assert(trim(text).last() == body.last());
    }
    assert forall|i: int| 0 <= i < from implies is_white(#[trigger] text[i]) by {
        assert(body[i] == text[i]);
    }
    if is_blank(text) {
        assert forall|i: int| 0 <= i < text.len() implies is_white(#[trigger] text[i]) by {
            if i < body.len() {
                assert(body[i] == text[i]);
            }
        }
    } else {
        assert(text[from] == trim(text)[0]);
    }
    from
}

/// Trimming what was already trimmed changes nothing.
pub proof fn lemma_trim_again(text: Seq<char>)
    ensures
        trim(trim(text)) == trim(text),
{
    let from = lemma_trim(text);
}

// ------------------------------------------------------------ words and lines

/// The words of a text: its runs of characters other than white space, in order.
/// A character opens a word where nothing or white space stands before it, and
/// otherwise continues the last one.
pub open spec fn words(text: Seq<char>) -> Seq<Seq<char>>
    decreases text.len(),
{
    if text.len() == 0 {
        Seq::empty()
    } else {
        let before = words(text.drop_last());
        let c = text.last();
        if is_white(c) {
            before
        } else if text.len() == 1 || is_white(text[text.len() - 2]) {
            before.push(seq![c])
        } else {
            before.drop_last().push(before.last().push(c))
        }
    }
}

/// The pieces one after the other, with `separator` between each two.
pub open spec fn join(pieces: Seq<Seq<char>>, separator: Seq<char>) -> Seq<char>
    decreases pieces.len(),
{
    if pieces.len() == 0 {
        Seq::empty()
    } else if pieces.len() == 1 {
        pieces[0]
    } else {
        join(pieces.drop_last(), separator) + separator + pieces.last()
    }
}

/// A text with each run of white space made a single space, and none around it.
pub open spec fn squeezed(text: Seq<char>) -> Seq<char> {
    join(words(text), seq![' '])
}

/// Every word has at least one character, and its end is where the text ends.
pub proof fn lemma_words_shape(text: Seq<char>)
    ensures
        forall|i: int| 0 <= i < words(text).len() ==> (#[trigger] words(text)[i]).len() > 0,
        text.len() > 0 && !is_white(text.last()) ==> words(text).len() > 0,
    decreases text.len(),
{
    if text.len() > 0 {
        lemma_words_shape(text.drop_last());
        if !is_white(text.last()) && text.len() > 1 && !is_white(text[text.len() - 2]) {
            assert(text.drop_last().last() == text[text.len() - 2]);
        }
    }
}

/// The words of a text.
pub fn split_words(text: &[char]) -> (out: Vec<Vec<char>>)
    ensures
        char_lists(out@) == words(text@),
{
    let mut out: Vec<Vec<char>> = Vec::new();
    let mut open: Vec<char> = Vec::new();
    let mut i: usize = 0;
    while i < text.len()
        invariant
            i <= text.len(),
            open@.len() > 0 <==> i > 0 && !is_white(text@[i - 1]),
            words(text@.take(i as int)) == if open@.len() > 0 {
                char_lists(out@).push(open@)
            } else {
                char_lists(out@)
            },
        decreases text.len() - i,
    {
        let c = text[i];
        let ghost lists = char_lists(out@);
        let ghost head = text@.take(i as int);
        let ghost longer = text@.take(i + 1);
        proof {
            assert(longer.drop_last() =~= head);
            assert(longer.last() == c);
            if i > 0 {
                assert(longer[longer.len() - 2] == text@[i - 1]);
            }
        }
        if white(c) {
            if open.len() > 0 {
                let ghost word = open@;
                out.push(open);
                open = Vec::new();
                proof {
                    assert(char_lists(out@) =~= lists.push(word));
                }
            }
        } else {
            let ghost word = open@;
            open.push(c);
            proof {
                if word.len() > 0 {
                    assert(words(head).drop_last() =~= lists);
                } else {
                    assert(open@ =~= seq![c]);
                }
            }
        }
        i = i + 1;
    }
    proof {
        assert(text@.take(text@.len() as int) =~= text@);
    }
    if open.len() > 0 {
        let ghost lists = char_lists(out@);
        let ghost word = open@;
        out.push(open);
        proof {
            assert(char_lists(out@) =~= lists.push(word));
        }
    }
    out
}

/// The text with each run of white space made a single space, and none around it.
pub fn squeeze(text: &[char]) -> (out: Vec<char>)
    ensures
        out@ == squeezed(text@),
{
    let mut out: Vec<char> = Vec::new();
    let mut i: usize = 0;
    while i < text.len()
        invariant
            i <= text.len(),
            out@ == squeezed(text@.take(i as int)),
        decreases text.len() - i,
    {
        let c = text[i];
        let ghost head = text@.take(i as int);
        let ghost longer = text@.take(i + 1);
        proof {
            assert(longer.drop_last() =~= head);
            assert(longer.last() == c);
            lemma_words_shape(head);
        }
        if !white(c) {
            if i == 0 || white(text[i - 1]) {
                proof {
                    assert(words(longer) == words(head).push(seq![c]));
                    assert(words(longer).drop_last() =~= words(head));
                    if words(head).len() > 0 {
                        lemma_join_not_empty(words(head), seq![' ']);
                    }
                }
                if out.len() > 0 {
                    out.push(' ');
                    out.push(c);
                    proof {
                        assert(out@ =~= squeezed(head) + seq![' '] + seq![c]);
                    }
                } else {
                    out.push(c);
                    proof {
                        assert(out@ =~= seq![c]);
                    }
                }
            } else {
                proof {
                    assert(head.last() == text@[i - 1]);
                    lemma_join_extends(words(head), seq![' '], c);
                }
                out.push(c);
            }
        }
        i = i + 1;
    }
    proof {
        assert(text@.take(text@.len() as int) =~= text@);
    }
    out
}

/// A join of pieces, the first of which is not empty, is not empty.
proof fn lemma_join_not_empty(pieces: Seq<Seq<char>>, separator: Seq<char>)
    requires
        pieces.len() > 0,
        forall|i: int| 0 <= i < pieces.len() ==> (#[trigger] pieces[i]).len() > 0,
    ensures
        join(pieces, separator).len() > 0,
{
    if pieces.len() > 1 {
        assert(pieces.last().len() > 0);
    }
}

/// Extending the last piece extends the join.
pub proof fn lemma_join_extends(pieces: Seq<Seq<char>>, separator: Seq<char>, c: char)
    requires
        pieces.len() > 0,
    ensures
        join(pieces.drop_last().push(pieces.last().push(c)), separator) == join(
            pieces,
            separator,
        ).push(c),
{
    let longer = pieces.drop_last().push(pieces.last().push(c));
    assert(longer.drop_last() =~= pieces.drop_last());
    if pieces.len() == 1 {
        assert(longer[0] == pieces[0].push(c));
    } else {
        let front = join(pieces.drop_last(), separator) + separator;
        assert(front + pieces.last().push(c) =~= (front + pieces.last()).push(c));
    }
}

/// The join of texts.
pub fn join_texts(pieces: &Vec<String>, separator: &str) -> (out: String)
    ensures
        out@ == join(texts(pieces@), separator@),
{
    let mut out = String::new();
    let mut i: usize = 0;
    while i < pieces.len()
        invariant
            i <= pieces.len(),
            out@ == join(texts(pieces@.take(i as int)), separator@),
        decreases pieces.len() - i,
    {
        let ghost head = texts(pieces@.take(i as int));
        let ghost longer = texts(pieces@.take(i + 1));
        proof {
            assert(longer =~= head.push(pieces@[i as int]@));
            assert(longer.drop_last() =~= head);
        }
        if i > 0 {
            out.append(separator);
        }
        out.append(pieces[i].as_str());
        i = i + 1;
    }
    proof {
        assert(pieces@.take(pieces@.len() as int) =~= pieces@);
    }
    out
}

/// What stands after the last line break of the text.
pub open spec fn after_breaks(text: Seq<char>) -> Seq<char>
    decreases text.len(),
{
    if text.len() == 0 || text.last() == '\n' {
        Seq::empty()
    } else {
        after_breaks(text.drop_last()).push(text.last())
    }
}

/// The line without the carriage return it ends with, if it ends with one.
pub open spec fn without_return(line: Seq<char>) -> Seq<char> {
    if line.len() > 0 && line.last() == '\r' {
        line.drop_last()
    } else {
        line
    }
}

/// The lines that a line break closes, without that break (`\n` or `\r\n`).
pub open spec fn closed_lines(text: Seq<char>) -> Seq<Seq<char>>
    decreases text.len(),
{
    if text.len() == 0 {
        Seq::empty()
    } else if text.last() == '\n' {
        closed_lines(text.drop_last()).push(without_return(after_breaks(text.drop_last())))
    } else {
        closed_lines(text.drop_last())
    }
}

/// The lines of a text, the last one with or without a break at its end.
pub open spec fn lines(text: Seq<char>) -> Seq<Seq<char>> {
    if after_breaks(text).len() > 0 {
        closed_lines(text).push(after_breaks(text))
    } else {
        closed_lines(text)
    }
}

/// What a list of lists of characters reads as.
pub open spec fn char_lists(list: Seq<Vec<char>>) -> Seq<Seq<char>> {
    list.map_values(|chars: Vec<char>| chars@)
}

/// The lines of a text.
pub fn split_lines(text: &[char]) -> (out: Vec<Vec<char>>)
    ensures
        char_lists(out@) == lines(text@),
{
    let mut out: Vec<Vec<char>> = Vec::new();
    let mut open: Vec<char> = Vec::new();
    let mut i: usize = 0;
    while i < text.len()
        invariant
            i <= text.len(),
            char_lists(out@) == closed_lines(text@.take(i as int)),
            open@ == after_breaks(text@.take(i as int)),
        decreases text.len() - i,
    {
        let c = text[i];
        let ghost lists = char_lists(out@);
        proof {
            assert(text@.take(i + 1).drop_last() =~= text@.take(i as int));
        }
        if c == '\n' {
            if open.len() > 0 && open[open.len() - 1] == '\r' {
                open.pop();
            }
            let ghost line = open@;
            out.push(open);
            open = Vec::new();
            proof {
                assert(char_lists(out@) =~= lists.push(line));
            }
        } else {
            open.push(c);
        }
        i = i + 1;
    }
    proof {
        assert(text@.take(text@.len() as int) =~= text@);
    }
    if open.len() > 0 {
        let ghost lists = char_lists(out@);
        let ghost line = open@;
        out.push(open);
        proof {
            assert(char_lists(out@) =~= lists.push(line));
        }
    }
    out
}

/// The pieces of a text between the separators: one more than there are of them.
pub open spec fn split_on(text: Seq<char>, separator: char) -> Seq<Seq<char>>
    decreases text.len(),
{
    if text.len() == 0 {
        seq![Seq::empty()]
    } else {
        let before = split_on(text.drop_last(), separator);
        if text.last() == separator {
            before.push(Seq::empty())
        } else {
            before.drop_last().push(before.last().push(text.last()))
        }
    }
}

/// The pieces of a text between the separators.
pub fn split_at_char(text: &[char], separator: char) -> (out: Vec<Vec<char>>)
    ensures
        char_lists(out@) == split_on(text@, separator),
{
    let mut out: Vec<Vec<char>> = Vec::new();
    let mut open: Vec<char> = Vec::new();
    let mut i: usize = 0;
    proof {
        assert(char_lists(out@).push(open@) =~= split_on(text@.take(0), separator));
    }
    while i < text.len()
        invariant
            i <= text.len(),
            char_lists(out@).push(open@) == split_on(text@.take(i as int), separator),
        decreases text.len() - i,
    {
        let c = text[i];
        let ghost lists = char_lists(out@);
        let ghost piece = open@;
        proof {
            assert(text@.take(i + 1).drop_last() =~= text@.take(i as int));
            assert(lists.push(piece).drop_last() =~= lists);
        }
        if c == separator {
            out.push(open);
            open = Vec::new();
            proof {
                assert(char_lists(out@) =~= lists.push(piece));
                assert(open@ =~= Seq::<char>::empty());
            }
        } else {
            open.push(c);
        }
        i = i + 1;
    }
    proof {
        assert(text@.take(text@.len() as int) =~= text@);
    }
    let ghost lists = char_lists(out@);
    let ghost piece = open@;
    out.push(open);
    proof {
        assert(char_lists(out@) =~= lists.push(piece));
    }
    out
}

/// Where `c` first occurs in the text, if it does.
pub open spec fn first_index(text: Seq<char>, c: char) -> Option<int>
    decreases text.len(),
{
    if text.len() == 0 {
        None
    } else {
        match first_index(text.drop_last(), c) {
            Some(at) => Some(at),
            None => if text.last() == c {
                Some(text.len() - 1)
            } else {
                None
            },
        }
    }
}

/// Where `c` first occurs in the text, if it does.
pub fn find_char(text: &[char], c: char) -> (at: Option<usize>)
    ensures
        match at {
            Some(i) => first_index(text@, c) == Some(i as int) && i < text@.len() && text@[i as int]
                == c,
            None => first_index(text@, c) is None,
        },
{
    let mut i: usize = 0;
    while i < text.len()
        invariant
            i <= text.len(),
            first_index(text@.take(i as int), c) is None,
        decreases text.len() - i,
    {
        proof {
            assert(text@.take(i + 1).drop_last() =~= text@.take(i as int));
        }
        if text[i] == c {
            proof {
                lemma_first_index_stays(text@, c, i + 1);
            }
            return Some(i);
        }
        i = i + 1;
    }
    proof {
        assert(text@.take(text@.len() as int) =~= text@);
    }
    None
}

/// A first occurrence in a prefix is the first occurrence in the whole.
proof fn lemma_first_index_stays(text: Seq<char>, c: char, n: int)
    requires
        0 <= n <= text.len(),
        first_index(text.take(n), c) is Some,
    ensures
        first_index(text, c) == first_index(text.take(n), c),
    decreases text.len() - n,
{
    if n == text.len() {
        assert(text.take(n) =~= text);
    } else {
        assert(text.take(n + 1).drop_last() =~= text.take(n));
        lemma_first_index_stays(text, c, n + 1);
    }
}

// ------------------------------------------------------------------- numbers

/// The character of a digit below sixteen, in lower case.
pub open spec fn digit_char(d: nat) -> char {
    if d < 10 {
        (48 + d) as char
    } else {
        (87 + d) as char
    }
}

/// The character of a digit below sixteen, in lower case.
fn digit(d: u8) -> (c: char)
    requires
        d < 16,
    ensures
        c == digit_char(d as nat),
{
    if d < 10 {
        (48 + d) as char
    } else {
        (87 + d) as char
    }
}

/// A number as decimal text.
pub open spec fn decimal(n: nat) -> Seq<char>
    decreases n,
{
    if n < 10 {
        seq![digit_char(n)]
    } else {
        decimal(n / 10).push(digit_char(n % 10))
    }
}

/// A number as decimal text.
pub fn decimal_text(n: u64) -> (text: String)
    ensures
        text@ == decimal(n as nat),
    decreases n,
{
    if n < 10 {
        let mut text = String::new();
        text.push(digit(n as u8));
        text
    } else {
        let mut text = decimal_text(n / 10);
        text.push(digit((n % 10) as u8));
        text
    }
}

/// A number as hexadecimal text.
pub open spec fn hexadecimal(n: nat) -> Seq<char>
    decreases n,
{
    if n < 16 {
        seq![digit_char(n)]
    } else {
        hexadecimal(n / 16).push(digit_char(n % 16))
    }
}

/// A number as hexadecimal text.
pub fn hexadecimal_text(n: u64) -> (text: String)
    ensures
        text@ == hexadecimal(n as nat),
    decreases n,
{
    if n < 16 {
        let mut text = String::new();
        text.push(digit(n as u8));
        text
    } else {
        let mut text = hexadecimal_text(n / 16);
        text.push(digit((n % 16) as u8));
        text
    }
}

/// The last `width` hexadecimal digits of a number, leading zeros written out.
pub open spec fn hex_digits(n: nat, width: nat) -> Seq<char>
    decreases width,
{
    if width == 0 {
        Seq::empty()
    } else {
        hex_digits(n / 16, (width - 1) as nat).push(digit_char(n % 16))
    }
}

/// The last `width` hexadecimal digits of a number, leading zeros written out.
pub fn hex_digits_text(n: u64, width: u8) -> (text: String)
    ensures
        text@ == hex_digits(n as nat, width as nat),
    decreases width,
{
    if width == 0 {
        String::new()
    } else {
        let mut text = hex_digits_text(n / 16, width - 1);
        text.push(digit((n % 16) as u8));
        text
    }
}

/// The number that a run of decimal digits writes; nothing if one is no digit.
pub open spec fn digits_value(digits: Seq<char>) -> Option<nat>
    decreases digits.len(),
{
    if digits.len() == 0 {
        Some(0)
    } else {
        match digits_value(digits.drop_last()) {
            Some(front) => if '0' <= digits.last() <= '9' {
                Some((front * 10 + (digits.last() as int - 48)) as nat)
            } else {
                None
            },
            None => None,
        }
    }
}

/// The size that a text writes in decimal, with an optional plus sign; nothing
/// where it writes none, or one that does not fit.
pub open spec fn parsed_size(text: Seq<char>) -> Option<usize> {
    let digits = if text.len() > 0 && text[0] == '+' {
        text.skip(1)
    } else {
        text
    };
    if digits.len() == 0 {
        None
    } else {
        match digits_value(digits) {
            Some(value) => if value <= usize::MAX {
                Some(value as usize)
            } else {
                None
            },
            None => None,
        }
    }
}

/// More digits never write a smaller number, nor mend a character that is none.
proof fn lemma_digits_grow(digits: Seq<char>, n: int)
    requires
        0 <= n <= digits.len(),
    ensures
        digits_value(digits.take(n)) is None ==> digits_value(digits) is None,
        digits_value(digits) is Some ==> digits_value(digits.take(n)) is Some && digits_value(
            digits,
        )->0 >= digits_value(digits.take(n))->0,
    decreases digits.len() - n,
{
    if n == digits.len() {
        assert(digits.take(n) =~= digits);
    } else {
        assert(digits.take(n + 1).drop_last() =~= digits.take(n));
        lemma_digits_grow(digits, n + 1);
    }
}

/// The size that a text writes in decimal, as `parsed_size` says.
pub fn parse_size(text: &[char]) -> (size: Option<usize>)
    ensures
        size == parsed_size(text@),
{
    let start: usize = if text.len() > 0 && text[0] == '+' {
        1
    } else {
        0
    };
    let digits = slice_chars(text, start, text.len());
    proof {
        assert(digits@ =~= text@.skip(start as int));
        assert(text@.skip(0) =~= text@);
    }
    if digits.len() == 0 {
        return None;
    }
    let mut value: usize = 0;
    let mut i: usize = 0;
    while i < digits.len()
        invariant
            i <= digits.len(),
            digits.len() > 0,
            digits@ == if text@.len() > 0 && text@[0] == '+' {
                text@.skip(1)
            } else {
                text@
            },
            digits_value(digits@.take(i as int)) == Some(value as nat),
        decreases digits.len() - i,
    {
        let c = digits[i];
        proof {
            assert(digits@.take(i + 1).drop_last() =~= digits@.take(i as int));
            lemma_digits_grow(digits@, i + 1);
        }
        if c < '0' || c > '9' {
            return None;
        }
        let d: usize = (c as u32 - 48) as usize;
        if value > (usize::MAX - d) / 10 {
            return None;
        }
        value = value * 10 + d;
        i = i + 1;
    }
    proof {
        assert(digits@.take(digits@.len() as int) =~= digits@);
    }
    Some(value)
}

// ---------------------------------------------------------------- ASCII case

/// The character in lower case, where it is one of the letters A to Z.
pub open spec fn ascii_lower_char(c: char) -> char {
    if 'A' <= c <= 'Z' {
        (c as u8 + 32) as char
    } else {
        c
    }
}

/// The text with its letters A to Z in lower case.
pub open spec fn ascii_lower(text: Seq<char>) -> Seq<char> {
    text.map_values(|c: char| ascii_lower_char(c))
}

/// The list of characters with its letters A to Z in lower case.
pub fn ascii_lower_chars(text: &[char]) -> (out: Vec<char>)
    ensures
        out@ == ascii_lower(text@),
{
    let mut out: Vec<char> = Vec::new();
    let mut i: usize = 0;
    while i < text.len()
        invariant
            i <= text.len(),
            out@ == ascii_lower(text@.take(i as int)),
        decreases text.len() - i,
    {
        let c = text[i];
        let low = if 'A' <= c && c <= 'Z' {
            (c as u8 + 32) as char
        } else {
            c
        };
        out.push(low);
        proof {
            assert(ascii_lower(text@.take(i + 1)) =~= ascii_lower(text@.take(i as int)).push(low));
        }
        i = i + 1;
    }
    proof {
        assert(text@.take(text@.len() as int) =~= text@);
    }
    out
}

// ------------------------------------------------------------------ addresses

/// The text without the slashes at its end.
pub open spec fn without_slashes(text: Seq<char>) -> Seq<char>
    decreases text.len(),
{
    if text.len() > 0 && text.last() == '/' {
        without_slashes(text.drop_last())
    } else {
        text
    }
}

/// The text without the slashes at its end.
pub fn trim_slashes(text: &str) -> (out: String)
    ensures
        out@ == without_slashes(text@),
{
    let chars = to_chars(text);
    let mut end: usize = chars.len();
    proof {
        assert(chars@.take(end as int) =~= chars@);
    }
    while end > 0 && chars[end - 1] == '/'
        invariant
            end <= chars.len(),
            without_slashes(chars@.take(end as int)) == without_slashes(chars@),
        decreases end,
    {
        proof {
            assert(chars@.take(end as int).drop_last() =~= chars@.take(end - 1));
        }
        end = end - 1;
    }
    let out = slice_chars(chars.as_slice(), 0, end);
    proof {
        assert(out@ =~= chars@.take(end as int));
    }
    to_text(out.as_slice())
}

/// The directory part of a path, with the separator at its end.
pub open spec fn directory_part(path: Seq<char>) -> Seq<char>
    decreases path.len(),
{
    if path.len() == 0 || path.last() == '/' || path.last() == '\\' {
        path
    } else {
        directory_part(path.drop_last())
    }
}

/// The directory part of a path, with the separator at its end.
pub fn directory_of(path: &str) -> (directory: String)
    ensures
        directory@ == directory_part(path@),
{
    let chars = to_chars(path);
    let mut end: usize = chars.len();
    proof {
        assert(chars@.take(end as int) =~= chars@);
    }
    while end > 0 && chars[end - 1] != '/' && chars[end - 1] != '\\'
        invariant
            end <= chars.len(),
            directory_part(chars@.take(end as int)) == directory_part(chars@),
        decreases end,
    {
        proof {
            assert(chars@.take(end as int).drop_last() =~= chars@.take(end - 1));
        }
        end = end - 1;
    }
    let directory = slice_chars(chars.as_slice(), 0, end);
    proof {
        assert(directory@ =~= chars@.take(end as int));
    }
    to_text(directory.as_slice())
}


// ----------------------------------------------------------- what is promised

/// What is split at a separator is joined by it again, and no piece holds it.
pub proof fn law_split_and_join(text: Seq<char>, separator: char)
    ensures
        split_on(text, separator).len() > 0,
        join(split_on(text, separator), seq![separator]) == text,
        forall|i: int|
            0 <= i < split_on(text, separator).len() ==> !(#[trigger] split_on(
                text,
                separator,
            )[i]).contains(separator),
    decreases text.len(),
{
    let pieces = split_on(text, separator);
    let glue = seq![separator];
    if text.len() == 0 {
        assert(join(pieces, glue) =~= text);
    } else {
        let front = text.drop_last();
        let c = text.last();
        let before = split_on(front, separator);
        law_split_and_join(front, separator);
        if c == separator {
            assert(pieces.drop_last() =~= before);
            assert(join(pieces, glue) =~= front + glue);
            assert(front + glue =~= text);
            assert forall|i: int| 0 <= i < pieces.len() implies !(#[trigger] pieces[i]).contains(
                separator,
            ) by {
                if i < before.len() {
                    assert(pieces[i] == before[i]);
                }
            }
        } else {
            assert(pieces.drop_last() =~= before.drop_last());
            assert(join(pieces, glue) =~= text) by {
                if before.len() == 1 {
                    assert(join(before, glue) == before[0]);
                    assert(pieces[0] =~= text);
                } else {
                    assert(join(pieces, glue) =~= join(before.drop_last(), glue) + glue
                        + before.last().push(c));
                    assert(front.push(c) =~= text);
                }
            }
            assert forall|i: int| 0 <= i < pieces.len() implies !(#[trigger] pieces[i]).contains(
                separator,
            ) by {
                if i < before.len() - 1 {
                    assert(pieces[i] == before[i]);
                } else {
                    let last = before[before.len() - 1];
                    assert(!last.contains(separator));
                    assert(pieces[i] == last.push(c));
                    if pieces[i].contains(separator) {
                        let k = choose|k: int|
                            0 <= k < pieces[i].len() && pieces[i][k] == separator;
                        assert(last[k] == separator);
                    }
                }
            }
        }
    }
}

/// No word holds white space, and none is empty; a text has no words exactly if there
/// is nothing but white space in it.
pub proof fn law_words_are_visible(text: Seq<char>)
    ensures
        forall|i: int, k: int|
            0 <= i < words(text).len() && 0 <= k < words(text)[i].len() ==> !is_white(
                #[trigger] words(text)[i][k],
            ),
        forall|i: int| 0 <= i < words(text).len() ==> (#[trigger] words(text)[i]).len() > 0,
        words(text).len() == 0 <==> is_blank(text),
    decreases text.len(),
{
    lemma_words_shape(text);
    let from = lemma_trim(text);
    let list = words(text);
    if text.len() > 0 {
        let front = text.drop_last();
        let before = words(front);
        law_words_are_visible(front);
        let other = lemma_trim(front);
        assert forall|i: int, k: int|
            0 <= i < list.len() && 0 <= k < list[i].len() implies !is_white(
            #[trigger] list[i][k],
        ) by {
            if i < before.len() && list[i] == before[i] {
                assert(!is_white(before[i][k]));
            } else if text.len() > 1 && !is_white(text.last()) && !is_white(
                text[text.len() - 2],
            ) {
                assert(front.last() == text[text.len() - 2]);
                lemma_words_shape(front);
                let last = before[before.len() - 1];
                if i == before.len() - 1 && k < last.len() {
                    assert(list[i][k] == last[k]);
                    assert(!is_white(before[before.len() - 1][k]));
                }
            }
        }
        if is_white(text.last()) {
            assert(forall|i: int|
                0 <= i < front.len() ==> is_white(#[trigger] front[i]) == is_white(text[i]));
            if is_blank(front) {
                assert forall|i: int| 0 <= i < text.len() implies is_white(#[trigger] text[i]) by {
                    if i < front.len() {
                        assert(is_white(front[i]));
                    }
                }
            }
            if is_blank(text) {
                assert forall|i: int| 0 <= i < front.len() implies is_white(
                    #[trigger] front[i],
                ) by {
                    assert(is_white(text[i]));
                }
            }
        } else {
            if is_blank(text) {
                assert(is_white(text[text.len() - 1]));
            }
        }
    }
}

/// What a digit below sixteen is written as.
pub proof fn law_digits(d: nat)
    requires
        d < 16,
    ensures
        digit_char(d) == "0123456789abcdef"@[d as int],
{
    reveal_strlit("0123456789abcdef");
}

/// The number that a text writes in a base, digit by digit.
pub open spec fn number_written(text: Seq<char>, base: nat) -> nat
    decreases text.len(),
{
    if text.len() == 0 {
        0
    } else {
        number_written(text.drop_last(), base) * base + if text.last() <= '9' {
            (text.last() as int - 48) as nat
        } else {
            (text.last() as int - 87) as nat
        }
    }
}

/// A number is written as that number, be it in decimal or in hexadecimal, with no
/// zero in front of it.
pub proof fn law_numbers_are_written(n: nat)
    ensures
        number_written(decimal(n), 10) == n,
        number_written(hexadecimal(n), 16) == n,
        n > 0 ==> decimal(n)[0] != '0' && hexadecimal(n)[0] != '0',
        decimal(0) == seq!['0'],
        hexadecimal(0) == seq!['0'],
    decreases n,
{
    lemma_decimal_written(n);
    lemma_hexadecimal_written(n);
}

proof fn lemma_decimal_written(n: nat)
    ensures
        decimal(n).len() > 0,
        number_written(decimal(n), 10) == n,
        n > 0 ==> decimal(n)[0] != '0',
    decreases n,
{
    if n < 10 {
        reveal_with_fuel(number_written, 2);
        assert(decimal(n).drop_last() =~= Seq::<char>::empty());
    } else {
        lemma_decimal_written(n / 10);
        assert(decimal(n).drop_last() =~= decimal(n / 10));
        assert(decimal(n)[0] == decimal(n / 10)[0]);
        assert(n / 10 * 10 + n % 10 == n);
    }
}

proof fn lemma_hexadecimal_written(n: nat)
    ensures
        hexadecimal(n).len() > 0,
        number_written(hexadecimal(n), 16) == n,
        n > 0 ==> hexadecimal(n)[0] != '0',
    decreases n,
{
    if n < 16 {
        reveal_with_fuel(number_written, 2);
        assert(hexadecimal(n).drop_last() =~= Seq::<char>::empty());
    } else {
        lemma_hexadecimal_written(n / 16);
        assert(hexadecimal(n).drop_last() =~= hexadecimal(n / 16));
        assert(hexadecimal(n)[0] == hexadecimal(n / 16)[0]);
        assert(n / 16 * 16 + n % 16 == n);
    }
}

/// A letter from A to Z becomes the one 32 places on, and no other character changes.
pub proof fn law_lower_case(text: Seq<char>, i: int)
    requires
        0 <= i < text.len(),
    ensures
        ascii_lower(text).len() == text.len(),
        'A' <= text[i] <= 'Z' ==> ascii_lower(text)[i] as int == text[i] as int + 32,
        !('A' <= text[i] <= 'Z') ==> ascii_lower(text)[i] == text[i],
{
}

/// The directory of a path is what stands up to its last separator, and that too.
pub proof fn law_directory(path: Seq<char>)
    ensures
        directory_part(path).len() <= path.len(),
        directory_part(path) == path.take(directory_part(path).len() as int),
        directory_part(path).len() > 0 ==> directory_part(path).last() == '/' || directory_part(
            path,
        ).last() == '\\',
        forall|i: int|
            directory_part(path).len() <= i < path.len() ==> (#[trigger] path[i]) != '/' && path[i]
                != '\\',
    decreases path.len(),
{
    let kept = directory_part(path);
    if path.len() == 0 || path.last() == '/' || path.last() == '\\' {
        assert(path.take(path.len() as int) =~= path);
    } else {
        let front = path.drop_last();
        law_directory(front);
        assert(front.take(kept.len() as int) =~= path.take(kept.len() as int));
        assert forall|i: int| kept.len() <= i < path.len() implies (#[trigger] path[i]) != '/'
            && path[i] != '\\' by {
            if i < front.len() {
                assert(front[i] == path[i]);
            }
        }
    }
}


/// Of the characters of ASCII, white space is the space and what stands from the
/// tabulator to the carriage return; of those behind them, the ones below are.
pub proof fn law_white_space(c: char)
    ensures
        (c as u32) < 0x80 ==> (is_white(c) <==> c == ' ' || '\t' <= c <= '\r'),
        is_white(c) && (c as u32) >= 0x80 ==> c == '\u{85}' || c == '\u{a0}' || c == '\u{1680}' || (
        '\u{2000}' <= c <= '\u{200a}') || c == '\u{2028}' || c == '\u{2029}' || c == '\u{202f}' || c
            == '\u{205f}' || c == '\u{3000}',
        c == '\u{85}' || c == '\u{a0}' || c == '\u{1680}' || ('\u{2000}' <= c <= '\u{200a}') || c
            == '\u{2028}' || c == '\u{2029}' || c == '\u{202f}' || c == '\u{205f}' || c == '\u{3000}'
            ==> is_white(c),
{
}

} // verus!
