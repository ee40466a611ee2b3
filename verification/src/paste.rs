//! Handing a transcription to the app in focus.
//!
//! Pasting through the clipboard is surer than typing letter by letter. What is
//! pasted is fitted to what stands before the caret, and a keyword at its end can
//! ask for it to be sent.

use vstd::prelude::*;

use crate::config::{SubmitKey, SubmitMode};
use crate::outside::{char_lower, is_upper, lower_char, lowercase};
use crate::text::{
    blank, copy_text, is_blank, is_white, lemma_trim_end, optional, same_text, slice_chars,
    to_chars, to_text, trim, trim_chars, trim_end, trim_end_chars, white,
};

verus! {

// ------------------------------------------------------- fitting to the caret

/// What stands after the last line break or carriage return.
pub open spec fn last_line(text: Seq<char>) -> Seq<char>
    decreases text.len(),
{
    if text.len() == 0 || text.last() == '\n' || text.last() == '\r' {
        Seq::empty()
    } else {
        last_line(text.drop_last()).push(text.last())
    }
}

/// Does a new sentence begin after this text? It does on a line with nothing on
/// it, and after what ends a sentence.
pub open spec fn sentence_begins(before: Seq<char>) -> bool {
    let line = trim_end(last_line(before));
    line.len() == 0 || line.last() == '.' || line.last() == '!' || line.last() == '?'
        || line.last() == '…'
}

/// Does a text keep its case? It does where there is nothing to lower: it is
/// empty, it does not begin in upper case, it begins with two upper case letters,
/// as an acronym does, or with the English pronoun standing alone.
pub open spec fn keeps_case(text: Seq<char>, first_upper: bool, second_upper: bool) -> bool {
    ||| text.len() == 0
    ||| text[0] == 'I' && (text.len() == 1 || is_white(text[1]) || text[1] == '\'')
    ||| !first_upper
    ||| text.len() > 1 && second_upper
}

/// The space that goes before a text: none at the beginning or after white space.
pub open spec fn lead(before: Seq<char>) -> Seq<char> {
    if before.len() == 0 || is_white(before.last()) {
        Seq::empty()
    } else {
        seq![' ']
    }
}

/// A text fitted to what stands before the caret, given whether it keeps its case
/// and its first character in lower case.
pub open spec fn fitted(
    text: Seq<char>,
    before: Option<Seq<char>>,
    keeps: bool,
    first_lower: Seq<char>,
) -> Seq<char> {
    match before {
        None => text,
        Some(context) => if sentence_begins(context) || keeps || text.len() == 0 {
            lead(context) + text
        } else {
            lead(context) + first_lower + text.skip(1)
        },
    }
}

/// What is known of the case of a text from its first two characters.
pub open spec fn keeps_own_case_of(text: Seq<char>) -> bool {
    keeps_case(
        text,
        text.len() > 0 && is_upper(text[0]),
        text.len() > 1 && is_upper(text[1]),
    )
}

/// The last line of a text, without the white space at its end.
fn current_line(before: &[char]) -> (line: Vec<char>)
    ensures
        line@ == trim_end(last_line(before@)),
{
    let mut line: Vec<char> = Vec::new();
    let mut i: usize = 0;
    while i < before.len()
        invariant
            i <= before.len(),
            line@ == last_line(before@.take(i as int)),
        decreases before.len() - i,
    {
        let c = before[i];
        proof {
            assert(before@.take(i + 1).drop_last() =~= before@.take(i as int));
        }
        if c == '\n' || c == '\r' {
            line = Vec::new();
        } else {
            line.push(c);
        }
        i = i + 1;
    }
    proof {
        assert(before@.take(before@.len() as int) =~= before@);
    }
    trim_end_chars(line.as_slice())
}

/// Does the text keep its case, given whether its first two characters are upper
/// case?
pub fn keeps_case_given(text: &str, first_upper: bool, second_upper: bool) -> (keeps: bool)
    ensures
        keeps == keeps_case(text@, first_upper, second_upper),
{
    let chars = to_chars(text);
    if chars.len() == 0 {
        return true;
    }
    if chars[0] == 'I' && (chars.len() == 1 || white(chars[1]) || chars[1] == '\'') {
        return true;
    }
    if !first_upper {
        return true;
    }
    chars.len() > 1 && second_upper
}

/// A text whose case must not be touched.
pub fn keeps_own_case(text: &str) -> (keeps: bool)
    ensures
        keeps == keeps_own_case_of(text@),
{
    let chars = to_chars(text);
    let first_upper = chars.len() > 0 && chars[0].is_uppercase();
    let second_upper = chars.len() > 1 && chars[1].is_uppercase();
    keeps_case_given(text, first_upper, second_upper)
}

/// Fits a text to what stands before the caret, given whether it keeps its case
/// and its first character in lower case.
pub fn fit_given(text: &str, before_caret: Option<&str>, keeps: bool, first_lower: &str) -> (out:
    String)
    ensures
        out@ == fitted(
            text@,
            match before_caret {
                Some(before) => Some(before@),
                None => None,
            },
            keeps,
            first_lower@,
        ),
{
    let before = match before_caret {
        Some(before) => to_chars(before),
        None => return copy_text(text),
    };
    let mut out = String::new();
    if before.len() > 0 && !white(before[before.len() - 1]) {
        out.push(' ');
    }
    proof {
        assert(out@ =~= lead(before@));
    }
    let line = current_line(before.as_slice());
    let starts_sentence = line.len() == 0 || {
        let last = line[line.len() - 1];
        last == '.' || last == '!' || last == '?' || last == '…'
    };
    let chars = to_chars(text);
    if starts_sentence || keeps || chars.len() == 0 {
        out.append(text);
        return out;
    }
    out.append(first_lower);
    let rest = slice_chars(chars.as_slice(), 1, chars.len());
    out.append(to_text(rest.as_slice()).as_str());
    proof {
        assert(rest@ =~= text@.skip(1));
    }
    out
}

/// Fits the spacing and the case of a transcription to what stands before the
/// caret:
///
/// 1. a space in front, unless there is one already;
/// 2. only the current line counts;
/// 3. a line that is empty, or that ends in `.`, `!`, `?` or `…`, begins a new
///    sentence, and the upper case stays;
/// 4. so it does for the English pronoun standing alone, and for a text that does
///    not begin with a single upper case letter;
/// 5. otherwise the first letter is lowered: the sentence goes on.
pub fn fit_to_context(text: &str, before_caret: Option<&str>) -> (out: String)
    ensures
        out@ == fitted(
            text@,
            match before_caret {
                Some(before) => Some(before@),
                None => None,
            },
            keeps_own_case_of(text@),
            char_lower(text@[0]),
        ),
{
    let chars = to_chars(text);
    let keeps = keeps_own_case(text);
    if chars.len() == 0 {
        fit_given(text, before_caret, keeps, "")
    } else {
        let lower = lower_char(chars[0]);
        fit_given(text, before_caret, keeps, lower.as_str())
    }
}

/// Without a context, a text is delivered as it is.
pub proof fn law_no_context_no_change(text: Seq<char>, keeps: bool, first_lower: Seq<char>)
    ensures
        fitted(text, None, keeps, first_lower) == text,
{
}

/// Fitting touches nothing but the spacing in front and the first character: what
/// follows that character comes out as it went in.
pub proof fn law_fitting_keeps_the_rest(
    text: Seq<char>,
    before: Seq<char>,
    keeps: bool,
    first_lower: Seq<char>,
)
    requires
        text.len() > 0,
    ensures
        fitted(text, Some(before), keeps, first_lower) == lead(before) + text || fitted(
            text,
            Some(before),
            keeps,
            first_lower,
        ) == lead(before) + first_lower + text.skip(1),
        keeps ==> fitted(text, Some(before), keeps, first_lower) == lead(before) + text,
{
}

proof fn lemma_last_line(before: Seq<char>, from: int)
    requires
        0 <= from <= before.len(),
        from > 0 ==> before[from - 1] == '\n' || before[from - 1] == '\r',
        forall|i: int|
            from <= i < before.len() ==> (#[trigger] before[i]) != '\n' && before[i] != '\r',
    ensures
        last_line(before) == before.skip(from),
    decreases before.len(),
{
    if from == before.len() {
        assert(before.skip(from) =~= Seq::<char>::empty());
    } else {
        let front = before.drop_last();
        assert(before[before.len() - 1] != '\n');
        lemma_last_line(front, from);
        assert(before.skip(from) =~= front.skip(from).push(before.last()));
    }
}

/// What stands on the current line decides the case, and nothing before that line
/// does. Let the line begin at `from`, and what can be seen on it end at `to`. A
/// text keeps its case where nothing can be seen on the line, and where that ends in
/// `.`, `!`, `?` or `…`. So it does where it does not begin in upper case, where its
/// second character is in upper case too, and where it begins with the English
/// pronoun standing alone. Any other text has its first character lowered. A space
/// goes in front where something other than white space stands right before the
/// caret.
pub proof fn law_the_line_decides(text: Seq<char>, before: Seq<char>, from: int, to: int)
    requires
        text.len() > 0,
        0 <= from <= to <= before.len(),
        from > 0 ==> before[from - 1] == '\n' || before[from - 1] == '\r',
        forall|i: int|
            from <= i < before.len() ==> (#[trigger] before[i]) != '\n' && before[i] != '\r',
        forall|i: int| to <= i < before.len() ==> is_white(#[trigger] before[i]),
        from < to ==> !is_white(before[to - 1]),
    ensures
        ({
            let space = if before.len() > 0 && !is_white(before[before.len() - 1]) {
                seq![' ']
            } else {
                Seq::empty()
            };
            let begins = from == to || before[to - 1] == '.' || before[to - 1] == '!' || before[to
                - 1] == '?' || before[to - 1] == '…';
            let pronoun = text[0] == 'I' && (text.len() == 1 || is_white(text[1]) || text[1]
                == '\'');
            let acronym = text.len() > 1 && is_upper(text[1]);
            fitted(text, Some(before), keeps_own_case_of(text), char_lower(text[0])) == if begins
                || pronoun || acronym || !is_upper(text[0]) {
                space + text
            } else {
                space + char_lower(text[0]) + text.subrange(1, text.len() as int)
            }
        }),
{
    lemma_last_line(before, from);
    let line = before.skip(from);
    let seen = trim_end(line);
    lemma_trim_end(line);
    if seen.len() < to - from {
        assert(is_white(line[to - from - 1]));
    }
    if seen.len() > to - from {
        assert(seen.last() == before[from + seen.len() - 1]);
    }
    if from < to {
        assert(seen.last() == before[to - 1]);
    }
    assert(text.skip(1) =~= text.subrange(1, text.len() as int));
}

/// An empty text stays empty, but for the space in front.
pub proof fn law_nothing_fits_anywhere(before: Seq<char>, keeps: bool, first_lower: Seq<char>)
    ensures
        fitted(Seq::empty(), Some(before), keeps, first_lower) == if before.len() > 0 && !is_white(
            before[before.len() - 1],
        ) {
            seq![' ']
        } else {
            Seq::empty()
        },
{
    assert(lead(before) + Seq::<char>::empty() =~= lead(before));
}

/// Two words never run together, and no space is doubled: a space goes in front
/// exactly where something other than white space stands before the caret.
pub proof fn law_one_space_in_front(before: Seq<char>)
    ensures
        lead(before).len() <= 1,
        lead(before) == seq![' '] <==> before.len() > 0 && !is_white(before.last()),
{
    if before.len() == 0 || is_white(before.last()) {
        assert(lead(before).len() == 0);
        assert(seq![' '].len() == 1);
    }
}

// ---------------------------------------------------------- sending by keyword

/// The characters that a transcription may put after the last word.
pub open spec fn is_trailing(c: char) -> bool {
    c == ' ' || c == '.' || c == '!' || c == '?' || c == '…' || c == ',' || c == ';' || c == ':'
        || c == '\n' || c == '\r' || c == '\t'
}

/// The text without the trailing characters at its end.
pub open spec fn without_trailing(text: Seq<char>) -> Seq<char>
    decreases text.len(),
{
    if text.len() > 0 && is_trailing(text.last()) {
        without_trailing(text.drop_last())
    } else {
        text
    }
}

/// The text before and after the place where the keyword would begin, if the text
/// ended in it.
pub open spec fn keyword_split(text: Seq<char>, keyword: Seq<char>) -> Option<
    (Seq<char>, Seq<char>),
> {
    let wanted = trim(keyword);
    let said = without_trailing(text);
    if wanted.len() == 0 || said.len() < wanted.len() {
        None
    } else {
        let at = said.len() - wanted.len();
        Some((said.take(at), said.skip(at)))
    }
}

/// What is left of the text before the keyword, where the tail is the keyword and
/// stands alone.
pub open spec fn before_keyword(head: Seq<char>, same: bool) -> Option<Seq<char>> {
    if !same || (head.len() > 0 && !is_white(head.last())) {
        None
    } else {
        Some(trim_end(head))
    }
}

/// The text without the keyword at its end, where it ends in the keyword in
/// whatever case.
pub open spec fn without_keyword(text: Seq<char>, keyword: Seq<char>) -> Option<Seq<char>> {
    match keyword_split(text, keyword) {
        None => None,
        Some((head, tail)) => before_keyword(head, lowercase(tail) == lowercase(trim(keyword))),
    }
}

fn trailing(c: char) -> (is: bool)
    ensures
        is == is_trailing(c),
{
    c == ' ' || c == '.' || c == '!' || c == '?' || c == '…' || c == ',' || c == ';' || c == ':'
        || c == '\n' || c == '\r' || c == '\t'
}

/// Splits the text where the keyword would begin, if the text ended in it.
pub fn split_at_keyword(text: &str, keyword: &str) -> (parts: Option<(String, String)>)
    ensures
        match parts {
            Some((head, tail)) => keyword_split(text@, keyword@) == Some((head@, tail@)),
            None => keyword_split(text@, keyword@) is None,
        },
{
    let raw = to_chars(keyword);
    let wanted = trim_chars(raw.as_slice());
    if wanted.len() == 0 {
        return None;
    }
    let chars = to_chars(text);
    let mut end: usize = chars.len();
    proof {
        assert(chars@.take(end as int) =~= chars@);
    }
    while end > 0 && trailing(chars[end - 1])
        invariant
            end <= chars.len(),
            without_trailing(chars@.take(end as int)) == without_trailing(chars@),
        decreases end,
    {
        proof {
            assert(chars@.take(end as int).drop_last() =~= chars@.take(end - 1));
        }
        end = end - 1;
    }
    if end < wanted.len() {
        return None;
    }
    let at: usize = end - wanted.len();
    let head = slice_chars(chars.as_slice(), 0, at);
    let tail = slice_chars(chars.as_slice(), at, end);
    proof {
        let said = chars@.take(end as int);
        assert(head@ =~= said.take(at as int));
        assert(tail@ =~= said.skip(at as int));
    }
    Some((to_text(head.as_slice()), to_text(tail.as_slice())))
}

/// What is left before the keyword, given whether the tail reads as the keyword.
pub fn strip_given(head: &str, same: bool) -> (left: Option<String>)
    ensures
        optional(left) == before_keyword(head@, same),
{
    if !same {
        return None;
    }
    let chars = to_chars(head);
    if chars.len() > 0 && !white(chars[chars.len() - 1]) {
        return None;
    }
    Some(to_text(trim_end_chars(chars.as_slice()).as_slice()))
}

/// Takes the keyword that asks for sending off the end of the text. The
/// punctuation that a transcription puts behind it does not count, its case does
/// not either, and it has to stand alone: a longer word that ends in it does not
/// ask for anything.
pub fn strip_submit_keyword(text: &str, keyword: &str) -> (left: Option<String>)
    ensures
        optional(left) == without_keyword(text@, keyword@),
{
    match split_at_keyword(text, keyword) {
        None => None,
        Some((head, tail)) => {
            let raw = to_chars(keyword);
            let wanted = to_text(trim_chars(raw.as_slice()).as_slice());
            let said = tail.as_str().to_lowercase();
            let asked = wanted.as_str().to_lowercase();
            strip_given(head.as_str(), same_text(said.as_str(), asked.as_str()))
        },
    }
}

/// The text to deliver and whether to send it.
pub open spec fn resolved(text: Seq<char>, mode: SubmitMode, keyword: Seq<char>) -> (
    Seq<char>,
    bool,
) {
    match mode {
        SubmitMode::Disabled => (text, false),
        SubmitMode::Auto => (text, true),
        SubmitMode::Keyword => match without_keyword(text, keyword) {
            Some(left) => (left, true),
            None => (text, false),
        },
    }
}

/// Decides whether the text is to be sent, and gives it without the keyword.
pub fn resolve_submit(text: &str, mode: SubmitMode, keyword: &str) -> (decision: (String, bool))
    ensures
        (decision.0@, decision.1) == resolved(text@, mode, keyword@),
{
    match mode {
        SubmitMode::Disabled => (copy_text(text), false),
        SubmitMode::Auto => (copy_text(text), true),
        SubmitMode::Keyword => match strip_submit_keyword(text, keyword) {
            Some(left) => (left, true),
            None => (copy_text(text), false),
        },
    }
}

proof fn lemma_without_trailing(said: Seq<char>, marks: Seq<char>)
    requires
        said.len() > 0,
        !is_trailing(said.last()),
        forall|i: int| 0 <= i < marks.len() ==> is_trailing(#[trigger] marks[i]),
    ensures
        without_trailing(said + marks) == said,
    decreases marks.len(),
{
    if marks.len() == 0 {
        assert(said + marks =~= said);
    } else {
        assert((said + marks).drop_last() =~= said + marks.drop_last());
        lemma_without_trailing(said, marks.drop_last());
    }
}

/// A keyword said at the end, with whatever punctuation the transcription puts
/// behind it, is taken off, and what was said before it is what is left.
pub proof fn law_keyword_is_taken_off(said: Seq<char>, keyword: Seq<char>, marks: Seq<char>)
    requires
        keyword.len() > 0,
        trim(keyword) == keyword,
        !is_trailing(keyword.last()),
        said.len() > 0 ==> !is_white(said.last()),
        forall|i: int| 0 <= i < marks.len() ==> is_trailing(#[trigger] marks[i]),
    ensures
        without_keyword(said + seq![' '] + keyword + marks, keyword) == Some(said),
        without_keyword(keyword + marks, keyword) == Some(Seq::<char>::empty()),
{
    let head = said + seq![' '];
    let full = head + keyword;
    assert(full.last() == keyword.last());
    lemma_without_trailing(full, marks);
    lemma_without_trailing(keyword, marks);
    assert(full.take(head.len() as int) =~= head);
    assert(full.skip(head.len() as int) =~= keyword);
    assert(head.last() == ' ');
    assert(head.drop_last() =~= said);
    assert(trim_end(head) == trim_end(said));
    assert(keyword.take(0) =~= Seq::<char>::empty());
    assert(keyword.skip(0) =~= keyword);
    assert(trim_end(Seq::<char>::empty()) == Seq::<char>::empty());
}

/// A keyword asks for nothing where it is the end of a longer word.
pub proof fn law_glued_keyword_asks_nothing(said: Seq<char>, keyword: Seq<char>)
    requires
        keyword.len() > 0,
        trim(keyword) == keyword,
        !is_trailing(keyword.last()),
        said.len() > 0,
        !is_white(said.last()),
    ensures
        without_keyword(said + keyword, keyword) is None,
{
    let full = said + keyword;
    lemma_without_trailing(full, Seq::empty());
    assert(full + Seq::<char>::empty() =~= full);
    assert(full.take(said.len() as int) =~= said);
}

/// Does the keyword stand from `at` to `end` at the end of the text? It does where
/// it is there in whatever case, with nothing or white space before it and nothing
/// but the marks of a transcription after it.
pub open spec fn keyword_stands(text: Seq<char>, keyword: Seq<char>, at: int, end: int) -> bool {
    &&& 0 <= at < end <= text.len()
    &&& end - at == trim(keyword).len()
    &&& lowercase(text.subrange(at, end)) == lowercase(trim(keyword))
    &&& at > 0 ==> is_white(text[at - 1])
    &&& !" .!?…,;:\n\r\t"@.contains(text[end - 1])
    &&& forall|i: int|
        end <= i < text.len() ==> " .!?…,;:\n\r\t"@.contains(#[trigger] text[i])
}

/// Does the text end in the keyword?
pub open spec fn ends_in_keyword(text: Seq<char>, keyword: Seq<char>) -> bool {
    exists|at: int, end: int| #[trigger] keyword_stands(text, keyword, at, end)
}

proof fn lemma_marks(c: char)
    ensures
        is_trailing(c) <==> " .!?…,;:\n\r\t"@.contains(c),
{
    reveal_strlit(" .!?…,;:\n\r\t");
    let marks = " .!?…,;:\n\r\t"@;
    assert(marks.len() == 11);
    assert(marks[0] == ' ' && marks[1] == '.' && marks[2] == '!' && marks[3] == '?');
    assert(marks[4] == '…' && marks[5] == ',' && marks[6] == ';' && marks[7] == ':');
    assert(marks[8] == '\n' && marks[9] == '\r' && marks[10] == '\t');
}

proof fn lemma_marks_at_the_end(text: Seq<char>)
    ensures
        without_trailing(text).len() > 0 ==> !is_trailing(without_trailing(text).last()),
        forall|i: int|
            without_trailing(text).len() <= i < text.len() ==> is_trailing(#[trigger] text[i]),
    decreases text.len(),
{
    if text.len() > 0 && is_trailing(text.last()) {
        lemma_marks_at_the_end(text.drop_last());
        assert forall|i: int| without_trailing(text).len() <= i < text.len() implies is_trailing(
            #[trigger] text[i],
        ) by {
            if i < text.len() - 1 {
                assert(text.drop_last()[i] == text[i]);
            }
        }
    }
}

/// A text is sent on its own where that is always wanted, never where it never is,
/// and, where a keyword asks for it, exactly if the text ends in the keyword. Then
/// what stood before the keyword is what is left, without the white space at its
/// end. A text that does not ask for it is left as it is.
pub proof fn law_the_keyword_decides(text: Seq<char>, keyword: Seq<char>, mode: SubmitMode)
    ensures
        mode == SubmitMode::Auto ==> resolved(text, mode, keyword) == (text, true),
        mode == SubmitMode::Disabled ==> resolved(text, mode, keyword) == (text, false),
        mode == SubmitMode::Keyword ==> {
            &&& resolved(text, mode, keyword).1 <==> ends_in_keyword(text, keyword)
            &&& forall|at: int, end: int| #[trigger]
                keyword_stands(text, keyword, at, end) ==> resolved(text, mode, keyword).0
                    == trim_end(text.take(at))
            &&& !ends_in_keyword(text, keyword) ==> resolved(text, mode, keyword).0 == text
        },
{
    if mode == SubmitMode::Keyword {
        let said = without_trailing(text);
        let wanted = trim(keyword);
        lemma_trailing_prefix(text);
        lemma_marks_at_the_end(text);
        assert forall|at: int, end: int| #[trigger] keyword_stands(text, keyword, at, end) implies {
            &&& resolved(text, mode, keyword).1
            &&& resolved(text, mode, keyword).0 == trim_end(text.take(at))
        } by {
            lemma_marks(text[end - 1]);
            if said.len() < end {
                assert(is_trailing(text[end - 1]));
            }
            if said.len() > end {
                assert(said.last() == text[said.len() - 1]);
                lemma_marks(text[said.len() - 1]);
            }
            assert(said.len() == end);
            assert(said.take(at) =~= text.take(at));
            assert(said.skip(at) =~= text.subrange(at, end));
        }
        if without_keyword(text, keyword) is Some {
            let end = said.len() as int;
            let at = end - wanted.len();
            assert(said.take(at) =~= text.take(at));
            assert(said.skip(at) =~= text.subrange(at, end));
            assert(said.last() == text[end - 1]);
            lemma_marks(text[end - 1]);
            assert forall|i: int| end <= i < text.len() implies " .!?…,;:\n\r\t"@.contains(
                #[trigger] text[i],
            ) by {
                lemma_marks(text[i]);
            }
            if at > 0 {
                assert(said.take(at).last() == text[at - 1]);
            }
            assert(keyword_stands(text, keyword, at, end));
        }
    }
}

/// Whatever is decided, nothing is added to the text, and only a keyword is taken
/// from it.
pub proof fn law_deciding_keeps_the_text(text: Seq<char>, mode: SubmitMode, keyword: Seq<char>)
    ensures
        resolved(text, mode, keyword).0 == text || (mode == SubmitMode::Keyword && resolved(
            text,
            mode,
            keyword,
        ).1 && resolved(text, mode, keyword).0 == text.take(
            resolved(text, mode, keyword).0.len() as int,
        ) && resolved(text, mode, keyword).0.len() < text.len()),
{
    if mode == SubmitMode::Keyword && without_keyword(text, keyword) is Some {
        let said = without_trailing(text);
        lemma_trailing_prefix(text);
        let (head, tail) = keyword_split(text, keyword)->0;
        lemma_trim_end(head);
        let left = trim_end(head);
        assert(head =~= text.take(head.len() as int));
        assert(left =~= text.take(left.len() as int));
    }
}

proof fn lemma_trailing_prefix(text: Seq<char>)
    ensures
        without_trailing(text).len() <= text.len(),
        without_trailing(text) == text.take(without_trailing(text).len() as int),
    decreases text.len(),
{
    if text.len() > 0 && is_trailing(text.last()) {
        lemma_trailing_prefix(text.drop_last());
        let kept = without_trailing(text);
        assert(text.drop_last().take(kept.len() as int) =~= text.take(kept.len() as int));
    } else {
        assert(text.take(text.len() as int) =~= text);
    }
}

// ----------------------------------------------------------- the clipboard

/// How often it is tried to get a text into the clipboard.
pub const CLIPBOARD_RETRIES: u32 = 3;

/// What came of one attempt to write to the clipboard.
#[derive(Debug)]
pub enum WriteAttempt {
    /// It was written, and this was read back.
    ReadBack(String),
    /// It was written, and could not be read back.
    Unreadable,
    /// It could not be written, for this reason.
    Refused(String),
}

impl WriteAttempt {
    /// Does the attempt count as good? It does where the text was read back. Where
    /// nothing could be read back, nothing says that the writing failed.
    pub open spec fn good(self, text: Seq<char>) -> bool {
        match self {
            WriteAttempt::ReadBack(read) => read@ == text,
            WriteAttempt::Unreadable => true,
            WriteAttempt::Refused(_) => false,
        }
    }
}

/// What follows an attempt.
#[derive(Debug)]
pub enum WriteStep {
    /// The text is there.
    Done,
    /// It is to be tried again.
    Again,
    /// It is given up, for this reason.
    Failed(String),
}

/// Writing to the clipboard with a look at what arrived: another process may hold
/// it, and the writing fail without a word.
#[derive(Debug)]
pub struct Clipboard {
    pub tentativas: u32,
    pub ultimo_erro: Option<String>,
}

impl Clipboard {
    /// There is another attempt to make.
    pub open spec fn open(self) -> bool {
        self.tentativas < CLIPBOARD_RETRIES
    }

    pub fn new() -> (escrita: Clipboard)
        ensures
            escrita.tentativas == 0,
            escrita.ultimo_erro is None,
            escrita.open(),
    {
        Clipboard { tentativas: 0, ultimo_erro: None }
    }

    /// Takes what came of an attempt to write `text`. The text is there where it
    /// was read back; where nothing could be read back, it is taken to be there.
    /// After the last attempt it is given up: with the last reason that was given
    /// for a refusal, if there was one.
    pub fn set_text_verified(&mut self, text: &str, attempt: WriteAttempt) -> (step: WriteStep)
        requires
            old(self).open(),
        ensures
            final(self).tentativas == old(self).tentativas + 1,
            step is Done <==> match attempt {
                WriteAttempt::ReadBack(read) => read@ == text@,
                WriteAttempt::Unreadable => true,
                WriteAttempt::Refused(_) => false,
            },
            step is Again ==> old(self).tentativas < 2,
            step is Failed ==> old(self).tentativas >= 2,
            optional(final(self).ultimo_erro) == match attempt {
                WriteAttempt::Refused(reason) => Some(reason@),
                _ => optional(old(self).ultimo_erro),
            },
            match step {
                WriteStep::Done => attempt.good(text@),
                WriteStep::Again => !attempt.good(text@) && final(self).open(),
                WriteStep::Failed(reason) => !attempt.good(text@) && !final(self).open()
                    && reason@ == match optional(final(self).ultimo_erro) {
                    Some(told) => told,
                    None => "a área de transferência não confirmou o texto após 3 tentativas"@,
                },
            },
    {
        self.tentativas = self.tentativas + 1;
        match attempt {
            WriteAttempt::Unreadable => {
                return WriteStep::Done;
            },
            WriteAttempt::ReadBack(lido) => {
                if same_text(lido.as_str(), text) {
                    return WriteStep::Done;
                }
            },
            WriteAttempt::Refused(motivo) => {
                self.ultimo_erro = Some(motivo);
            },
        }
        if self.tentativas < CLIPBOARD_RETRIES {
            return WriteStep::Again;
        }
        match &self.ultimo_erro {
            Some(motivo) => WriteStep::Failed(copy_text(motivo.as_str())),
            None => WriteStep::Failed(
                copy_text("a área de transferência não confirmou o texto após 3 tentativas"),
            ),
        }
    }
}

/// Where a text came from.
#[derive(Debug, Clone, Copy, PartialEq, Eq, Structural)]
pub enum SelectionSource {
    /// The copy brought something new.
    Selection,
    /// Nothing was copied: this was in the clipboard before. It happens in
    /// terminals, where the shortcut interrupts and does not copy.
    ClipboardFallback,
}

/// What copying the selection gave.
#[derive(Debug)]
pub struct Selection {
    pub text: String,
    pub source: SelectionSource,
    /// What is put back into the clipboard.
    pub restore: Option<String>,
}

/// What was in the clipboard, where it could be read.
pub open spec fn clipboard_before(previous: Option<Seq<char>>) -> Seq<char> {
    match previous {
        Some(text) => text,
        None => Seq::empty(),
    }
}

/// Did something new arrive in the clipboard?
pub open spec fn arrived(before: Seq<char>, after: Seq<char>) -> bool {
    !is_blank(after) && after != before
}

/// Did something new arrive in the clipboard? Asked at short intervals, in place
/// of a guess at how long a copy takes.
pub fn selection_arrived(previous: &Option<String>, after: &str) -> (yes: bool)
    ensures
        yes == arrived(clipboard_before(optional(*previous)), after@),
        yes <==> !is_blank(after@) && (*previous matches Some(before) ==> after@ != before@),
{
    if blank(after) {
        return false;
    }
    match previous {
        Some(before) => !same_text(after, before.as_str()),
        None => true,
    }
}

/// What copying the selection gave: the new text, and then what was there before
/// is put back; or, where nothing new came, what was there before.
pub fn copy_selection_with_source(previous: Option<String>, after: String) -> (selection: Selection)
    ensures
        ({
            let before = clipboard_before(optional(previous));
            if arrived(before, after@) {
                &&& selection.text@ == after@
                &&& selection.source == SelectionSource::Selection
                &&& optional(selection.restore) == optional(previous)
            } else {
                &&& selection.text@ == before
                &&& selection.source == SelectionSource::ClipboardFallback
                &&& selection.restore is None
            }
        }),
        selection.source == SelectionSource::Selection <==> !is_blank(after@) && (previous matches
            Some(before) ==> after@ != before@),
        selection.source == SelectionSource::Selection ==> selection.text@ == after@ && match (
            selection.restore,
            previous,
        ) {
            (Some(restored), Some(before)) => restored@ == before@,
            (None, None) => true,
            _ => false,
        },
        selection.source == SelectionSource::ClipboardFallback ==> selection.restore is None
            && match previous {
            Some(before) => selection.text@ == before@,
            None => selection.text@.len() == 0,
        },
{
    if selection_arrived(&previous, after.as_str()) {
        Selection { text: after, source: SelectionSource::Selection, restore: previous }
    } else {
        let text = match previous {
            Some(before) => before,
            None => String::new(),
        };
        Selection { text, source: SelectionSource::ClipboardFallback, restore: None }
    }
}

/// The text alone, for who does not care where it came from.
pub fn copy_selection(selection: Selection) -> (text: String)
    ensures
        text == selection.text,
{
    selection.text
}

// ----------------------------------------------------------------- the keyboard

/// The keys that are pressed for the user.
#[derive(Debug, Clone, Copy, PartialEq, Eq, Structural)]
pub enum KeyName {
    Alt,
    Shift,
    Meta,
    Control,
    Return,
    Letter(char),
}

#[derive(Debug, Clone, Copy, PartialEq, Eq, Structural)]
pub enum KeyAction {
    Press,
    Release,
    Click,
}

/// One step of a sequence of keys.
#[derive(Debug, Clone, Copy, PartialEq, Eq, Structural)]
pub enum KeyStep {
    /// A wait, in milliseconds.
    Wait(u64),
    Key(KeyName, KeyAction),
}

/// Between writing to the clipboard and pasting: the change is told to those who
/// watch it a moment later.
pub const PASTE_SETTLE_MS: u64 = 30;

/// Between pasting and sending: the app has to have taken the paste.
pub const SUBMIT_DELAY_MS: u64 = 50;

/// Between letting go of the keys of the shortcut and copying.
pub const MODIFIER_SETTLE_MS: u64 = 45;

/// How often, and for how long, the clipboard is looked at after copying.
pub const COPY_POLL_MS: u64 = 25;

pub const COPY_TIMEOUT_MS: u64 = 650;

/// The keys that copy a selection. The keys of the shortcut are let go first: the
/// user still holds them, and the app would take another combination.
pub fn copy_keys() -> (steps: Vec<KeyStep>)
    ensures
        steps@ == seq![
            KeyStep::Key(KeyName::Alt, KeyAction::Release),
            KeyStep::Key(KeyName::Shift, KeyAction::Release),
            KeyStep::Key(KeyName::Meta, KeyAction::Release),
            KeyStep::Key(KeyName::Control, KeyAction::Release),
            KeyStep::Wait(45),
            KeyStep::Key(KeyName::Control, KeyAction::Press),
            KeyStep::Key(KeyName::Letter('c'), KeyAction::Click),
            KeyStep::Key(KeyName::Control, KeyAction::Release),
        ],
{
    vec![
        KeyStep::Key(KeyName::Alt, KeyAction::Release),
        KeyStep::Key(KeyName::Shift, KeyAction::Release),
        KeyStep::Key(KeyName::Meta, KeyAction::Release),
        KeyStep::Key(KeyName::Control, KeyAction::Release),
        KeyStep::Wait(MODIFIER_SETTLE_MS),
        KeyStep::Key(KeyName::Control, KeyAction::Press),
        KeyStep::Key(KeyName::Letter('c'), KeyAction::Click),
        KeyStep::Key(KeyName::Control, KeyAction::Release),
    ]
}

/// The keys that paste.
pub open spec fn paste_only() -> Seq<KeyStep> {
    seq![
        KeyStep::Wait(PASTE_SETTLE_MS),
        KeyStep::Key(KeyName::Control, KeyAction::Press),
        KeyStep::Key(KeyName::Letter('v'), KeyAction::Click),
        KeyStep::Key(KeyName::Control, KeyAction::Release),
    ]
}

/// The keys that send.
pub open spec fn send_with(key: SubmitKey) -> Seq<KeyStep> {
    match key {
        SubmitKey::Enter => seq![
            KeyStep::Wait(SUBMIT_DELAY_MS),
            KeyStep::Key(KeyName::Return, KeyAction::Click),
        ],
        SubmitKey::ShiftEnter => seq![
            KeyStep::Wait(SUBMIT_DELAY_MS),
            KeyStep::Key(KeyName::Shift, KeyAction::Press),
            KeyStep::Key(KeyName::Return, KeyAction::Click),
            KeyStep::Key(KeyName::Shift, KeyAction::Release),
        ],
    }
}

/// The keys that paste what is in the clipboard and, where asked, send it.
pub open spec fn keys_of_paste(submit: Option<SubmitKey>) -> Seq<KeyStep> {
    match submit {
        None => paste_only(),
        Some(key) => paste_only() + send_with(key),
    }
}

/// The keys that paste what is in the clipboard and, where asked, send it.
pub fn paste(submit: Option<SubmitKey>) -> (steps: Vec<KeyStep>)
    ensures
        steps@ == keys_of_paste(submit),
{
    let mut steps = vec![
        KeyStep::Wait(PASTE_SETTLE_MS),
        KeyStep::Key(KeyName::Control, KeyAction::Press),
        KeyStep::Key(KeyName::Letter('v'), KeyAction::Click),
        KeyStep::Key(KeyName::Control, KeyAction::Release),
    ];
    match submit {
        None => {},
        Some(SubmitKey::Enter) => {
            steps.push(KeyStep::Wait(SUBMIT_DELAY_MS));
            steps.push(KeyStep::Key(KeyName::Return, KeyAction::Click));
        },
        Some(SubmitKey::ShiftEnter) => {
            steps.push(KeyStep::Wait(SUBMIT_DELAY_MS));
            steps.push(KeyStep::Key(KeyName::Shift, KeyAction::Press));
            steps.push(KeyStep::Key(KeyName::Return, KeyAction::Click));
            steps.push(KeyStep::Key(KeyName::Shift, KeyAction::Release));
        },
    }
    proof {
        assert(steps@ =~= keys_of_paste(submit));
    }
    steps
}

/// How many times a key was pressed and not let go again.
pub open spec fn held(steps: Seq<KeyStep>, key: KeyName) -> int
    decreases steps.len(),
{
    if steps.len() == 0 {
        0
    } else {
        held(steps.drop_last(), key) + match steps.last() {
            KeyStep::Key(name, KeyAction::Press) => if name == key {
                1int
            } else {
                0
            },
            KeyStep::Key(name, KeyAction::Release) => if name == key {
                -1int
            } else {
                0
            },
            _ => 0,
        }
    }
}

/// How often a key goes down on its own or is struck.
pub open spec fn strokes(steps: Seq<KeyStep>, key: KeyName) -> nat
    decreases steps.len(),
{
    if steps.len() == 0 {
        0
    } else {
        strokes(steps.drop_last(), key) + match steps.last() {
            KeyStep::Key(name, KeyAction::Press) => if name == key {
                1nat
            } else {
                0
            },
            KeyStep::Key(name, KeyAction::Click) => if name == key {
                1nat
            } else {
                0
            },
            _ => 0,
        }
    }
}

/// What is in the clipboard is pasted once: after a wait of 30 milliseconds, the
/// letter is struck with the control key held. It is sent only where a key is given:
/// after a wait of 50 milliseconds, the return key is struck once, with the shift
/// key held if that is asked for, and not otherwise.
pub proof fn law_pasted_once_and_sent_if_asked(submit: Option<SubmitKey>)
    ensures
        ({
            let steps = keys_of_paste(submit);
            &&& steps.len() >= 4 && steps[0] == KeyStep::Wait(30)
            &&& steps[2] == KeyStep::Key(KeyName::Letter('v'), KeyAction::Click)
            &&& held(steps.take(2), KeyName::Control) == 1
            &&& held(steps.take(4), KeyName::Control) == 0
            &&& strokes(steps, KeyName::Letter('v')) == 1
            &&& strokes(steps, KeyName::Control) == 1
            &&& strokes(steps, KeyName::Return) == if submit is Some {
                1nat
            } else {
                0
            }
            &&& strokes(steps, KeyName::Shift) == if submit == Some(SubmitKey::ShiftEnter) {
                1nat
            } else {
                0
            }
            &&& submit is None ==> steps.len() == 4
            &&& submit is Some ==> steps[4] == KeyStep::Wait(50)
            &&& submit == Some(SubmitKey::Enter) ==> steps.len() == 6
            &&& submit == Some(SubmitKey::ShiftEnter) ==> steps.len() == 8 && steps[6]
                == KeyStep::Key(KeyName::Return, KeyAction::Click) && held(
                steps.take(6),
                KeyName::Shift,
            ) == 1
        }),
{
    reveal_with_fuel(held, 9);
    reveal_with_fuel(strokes, 9);
    let steps = keys_of_paste(submit);
    assert(steps.take(2) =~= paste_only().take(2));
    assert(steps.take(4) =~= paste_only());
}

/// Pasting and sending leave no key held down.
pub proof fn law_no_key_stays_down(submit: Option<SubmitKey>, key: KeyName)
    ensures
        held(keys_of_paste(submit), key) == 0,
{
    reveal_with_fuel(held, 9);
    let steps = keys_of_paste(submit);
    match submit {
        None => {
            assert(steps =~= paste_only());
        },
        Some(SubmitKey::Enter) => {
            assert(steps =~= seq![
                KeyStep::Wait(PASTE_SETTLE_MS),
                KeyStep::Key(KeyName::Control, KeyAction::Press),
                KeyStep::Key(KeyName::Letter('v'), KeyAction::Click),
                KeyStep::Key(KeyName::Control, KeyAction::Release),
                KeyStep::Wait(SUBMIT_DELAY_MS),
                KeyStep::Key(KeyName::Return, KeyAction::Click),
            ]);
        },
        Some(SubmitKey::ShiftEnter) => {
            assert(steps =~= seq![
                KeyStep::Wait(PASTE_SETTLE_MS),
                KeyStep::Key(KeyName::Control, KeyAction::Press),
                KeyStep::Key(KeyName::Letter('v'), KeyAction::Click),
                KeyStep::Key(KeyName::Control, KeyAction::Release),
                KeyStep::Wait(SUBMIT_DELAY_MS),
                KeyStep::Key(KeyName::Shift, KeyAction::Press),
                KeyStep::Key(KeyName::Return, KeyAction::Click),
                KeyStep::Key(KeyName::Shift, KeyAction::Release),
            ]);
        },
    }
}

} // verus!
