//! A request as it travels: what a client writes is what the bridge reads.

use vstd::prelude::*;
use vstd::utf8::{
    decode_utf8, encode_utf8, encode_utf8_decode_utf8, encode_utf8_valid_utf8, is_ascii_chars,
    is_ascii_chars_encode_utf8, valid_utf8,
};

use crate::bridge::{
    fields_of, first_occurrence, head_bytes, head_of, header_end, lemma_first_occurrence,
    read_with, with_field, Fields, HeadView, ReadView, RequestView, MAX_CORPO,
};
use crate::text::{
    after_breaks, ascii_lower, closed_lines, decimal, digit_char, digits_value, first_index,
    is_white, lemma_trim, lines, occurs_at, parsed_size, trim, trim_end, trim_start,
    without_return, words,
};

verus! {

// ------------------------------------------------------------- what is written

/// The lines, each with what ends a line.
pub open spec fn ended(list: Seq<Seq<char>>) -> Seq<char>
    decreases list.len(),
{
    if list.len() == 0 {
        Seq::empty()
    } else {
        ended(list.drop_last()) + list.last() + seq!['\r', '\n']
    }
}

/// A head that is made of these lines: an empty one ends it.
pub open spec fn head_text(list: Seq<Seq<char>>) -> Seq<char> {
    ended(list) + seq!['\r', '\n']
}

/// A header line.
pub open spec fn header_line(name: Seq<char>, value: Seq<char>) -> Seq<char> {
    name + seq![':'] + (seq![' '] + value)
}

/// The first line of a request.
pub open spec fn request_line(method: Seq<char>, path: Seq<char>) -> Seq<char> {
    method + seq![' '] + path + seq![' '] + "HTTP/1.1"@
}

/// The lines of a request. The header that has no value is left out.
pub open spec fn request_lines(
    method: Seq<char>,
    path: Seq<char>,
    origin: Option<Seq<char>>,
    token: Option<Seq<char>>,
    size: nat,
) -> Seq<Seq<char>> {
    let first = seq![request_line(method, path)];
    let second = match origin {
        Some(value) => first.push(header_line("Origin"@, value)),
        None => first,
    };
    let third = match token {
        Some(value) => second.push(header_line("X-Vox-Token"@, value)),
        None => second,
    };
    third.push(header_line("Content-Length"@, decimal(size)))
}

/// A request as it goes over the connection.
pub open spec fn written(request: RequestView) -> Seq<u8> {
    encode_utf8(
        head_text(
            request_lines(
                request.method,
                request.path,
                request.origin,
                request.token,
                request.body.len(),
            ),
        ),
    ) + request.body
}

/// Is this a line of ASCII, with something on it and nothing that ends it?
pub open spec fn is_line(line: Seq<char>) -> bool {
    line.len() > 0 && is_ascii_chars(line) && forall|i: int|
        0 <= i < line.len() ==> #[trigger] line[i] != '\r' && line[i] != '\n'
}

/// Is this a word of ASCII?
pub open spec fn is_word(word: Seq<char>) -> bool {
    is_line(word) && forall|i: int| 0 <= i < word.len() ==> !is_white(#[trigger] word[i])
}

/// Is this what a header can carry: a line of ASCII, or nothing, with no white
/// space around it?
pub open spec fn is_value(value: Option<Seq<char>>) -> bool {
    match value {
        Some(text) => (text.len() == 0 || is_line(text)) && trim(text) == text,
        None => true,
    }
}

/// Is this a request that can be written: words for the method and the path, values
/// for the headers, and a body within the limit?
pub open spec fn can_be_written(request: RequestView) -> bool {
    &&& is_word(request.method)
    &&& is_word(request.path)
    &&& is_value(request.origin)
    &&& is_value(request.token)
    &&& request.body.len() <= MAX_CORPO
}

// ------------------------------------------------------------------- the lines

proof fn lemma_lines_append(text: Seq<char>, more: Seq<char>)
    requires
        forall|i: int| 0 <= i < more.len() ==> #[trigger] more[i] != '\n',
    ensures
        after_breaks(text + more) == after_breaks(text) + more,
        closed_lines(text + more) == closed_lines(text),
    decreases more.len(),
{
    if more.len() == 0 {
        assert(text + more =~= text);
        assert(after_breaks(text) + more =~= after_breaks(text));
    } else {
        let front = more.drop_last();
        assert forall|i: int| 0 <= i < front.len() implies #[trigger] front[i] != '\n' by {
            assert(front[i] == more[i]);
        }
        lemma_lines_append(text, front);
        assert((text + more).drop_last() =~= text + front);
        assert(more[more.len() - 1] != '\n');
        assert(after_breaks(text + more) =~= after_breaks(text) + more);
    }
}

/// Closing a line adds it to the lines that are closed.
proof fn lemma_line_closed(text: Seq<char>, line: Seq<char>)
    requires
        after_breaks(text).len() == 0,
        forall|i: int| 0 <= i < line.len() ==> #[trigger] line[i] != '\r' && line[i] != '\n',
    ensures
        closed_lines(text + line + seq!['\r', '\n']) == closed_lines(text).push(line),
        after_breaks(text + line + seq!['\r', '\n']).len() == 0,
{
    let returned = line.push('\r');
    let full = text + line + seq!['\r', '\n'];
    assert(full.drop_last() =~= text + returned);
    assert forall|i: int| 0 <= i < returned.len() implies #[trigger] returned[i] != '\n' by {
        if i < line.len() {
            assert(returned[i] == line[i]);
        }
    }
    lemma_lines_append(text, returned);
    assert(after_breaks(text) + returned =~= returned);
    assert(without_return(returned) =~= line);
}

proof fn lemma_lines_of_ended(list: Seq<Seq<char>>)
    requires
        forall|i: int| 0 <= i < list.len() ==> is_line(#[trigger] list[i]),
    ensures
        closed_lines(ended(list)) == list,
        after_breaks(ended(list)).len() == 0,
    decreases list.len(),
{
    if list.len() == 0 {
        assert(closed_lines(ended(list)) =~= list);
    } else {
        let front = list.drop_last();
        assert forall|i: int| 0 <= i < front.len() implies is_line(#[trigger] front[i]) by {
            assert(front[i] == list[i]);
        }
        lemma_lines_of_ended(front);
        assert(is_line(list[list.len() - 1]));
        lemma_line_closed(ended(front), list.last());
        assert(front.push(list.last()) =~= list);
    }
}

/// The lines of a head are the lines that it is made of, and the empty one.
proof fn lemma_lines_of_head(list: Seq<Seq<char>>)
    requires
        forall|i: int| 0 <= i < list.len() ==> is_line(#[trigger] list[i]),
    ensures
        lines(head_text(list)) == list.push(Seq::empty()),
{
    let none = Seq::<char>::empty();
    lemma_lines_of_ended(list);
    lemma_line_closed(ended(list), none);
    assert(ended(list) + none + seq!['\r', '\n'] =~= head_text(list));
}

/// Within the lines no empty line stands: after a line break comes no return.
proof fn lemma_no_gap(list: Seq<Seq<char>>)
    requires
        forall|i: int| 0 <= i < list.len() ==> is_line(#[trigger] list[i]),
    ensures
        forall|k: int|
            0 <= k && k + 1 < ended(list).len() && #[trigger] ended(list)[k] == '\n' ==> ended(
                list,
            )[k + 1] != '\r',
        list.len() > 0 ==> ended(list).len() >= 2 && ended(list).last() == '\n' && ended(
            list,
        )[ended(list).len() - 2] == '\r',
        is_ascii_chars(ended(list)),
    decreases list.len(),
{
    if list.len() > 0 {
        let front = list.drop_last();
        let line = list.last();
        assert forall|i: int| 0 <= i < front.len() implies is_line(#[trigger] front[i]) by {
            assert(front[i] == list[i]);
        }
        lemma_no_gap(front);
        assert(is_line(list[list.len() - 1]));
        let start = ended(front);
        let all = ended(list);
        assert(all =~= start + line + seq!['\r', '\n']);
        assert forall|k: int| 0 <= k && k + 1 < all.len() && #[trigger] all[k] == '\n' implies all[k
            + 1] != '\r' by {
            if k + 1 < start.len() {
                assert(all[k] == start[k]);
                assert(all[k + 1] == start[k + 1]);
            } else if k + 1 == start.len() {
                assert(all[k + 1] == line[0]);
            } else if k < start.len() + line.len() {
                assert(all[k] == line[k - start.len()]);
            }
        }
        assert forall|i: int| 0 <= i < all.len() implies '\0' <= #[trigger] all[i] <= '\u{7f}' by {
            if i < start.len() {
                assert(all[i] == start[i]);
            } else if i < start.len() + line.len() {
                assert(all[i] == line[i - start.len()]);
            }
        }
    }
}

// ------------------------------------------------------------------- the words

proof fn lemma_one_more_word(text: Seq<char>, word: Seq<char>)
    requires
        text.len() == 0 || is_white(text.last()),
        word.len() > 0,
        forall|i: int| 0 <= i < word.len() ==> !is_white(#[trigger] word[i]),
    ensures
        words(text + word) == words(text).push(word),
    decreases word.len(),
{
    let full = text + word;
    let front = word.drop_last();
    assert(full.drop_last() =~= text + front);
    assert(!is_white(word[word.len() - 1]));
    if word.len() == 1 {
        assert(text + front =~= text);
        assert(word =~= seq![word.last()]);
        if text.len() > 0 {
            assert(full[full.len() - 2] == text.last());
        }
    } else {
        assert forall|i: int| 0 <= i < front.len() implies !is_white(#[trigger] front[i]) by {
            assert(front[i] == word[i]);
        }
        lemma_one_more_word(text, front);
        assert(full[full.len() - 2] == word[word.len() - 2]);
        assert(words(text).push(front).drop_last() =~= words(text));
        assert(front.push(word.last()) =~= word);
    }
}

proof fn lemma_request_line(method: Seq<char>, path: Seq<char>)
    requires
        is_word(method),
        is_word(path),
    ensures
        words(request_line(method, path)) == seq![method, path, "HTTP/1.1"@],
        is_line(request_line(method, path)),
{
    reveal_strlit("HTTP/1.1");
    let none = Seq::<char>::empty();
    let space = seq![' '];
    lemma_one_more_word(none, method);
    assert(none + method =~= method);
    let first = method + space;
    assert(first.drop_last() =~= method);
    assert(words(first) == words(method));
    lemma_one_more_word(first, path);
    let second = first + path;
    let third = second + space;
    assert(third.drop_last() =~= second);
    assert(words(third) == words(second));
    lemma_one_more_word(third, "HTTP/1.1"@);
    let line = request_line(method, path);
    assert(line =~= third + "HTTP/1.1"@);
    assert(words(none) =~= Seq::<Seq<char>>::empty());
    assert(words(line) =~= seq![method, path, "HTTP/1.1"@]);
    assert forall|i: int| 0 <= i < line.len() implies '\0' <= #[trigger] line[i] <= '\u{7f}'
        && line[i] != '\r' && line[i] != '\n' by {
        if i < method.len() {
            assert(line[i] == method[i]);
        } else if i == method.len() {
        } else if i < method.len() + 1 + path.len() {
            assert(line[i] == path[i - method.len() - 1]);
        } else if i == method.len() + 1 + path.len() {
        } else {
            assert(line[i] == "HTTP/1.1"@[i - method.len() - path.len() - 2]);
        }
    }
}

// ----------------------------------------------------------------- the headers

proof fn lemma_first_index(name: Seq<char>, rest: Seq<char>, c: char)
    requires
        forall|i: int| 0 <= i < name.len() ==> #[trigger] name[i] != c,
    ensures
        first_index(name + seq![c] + rest, c) == Some(name.len() as int),
    decreases name.len() + rest.len(),
{
    let full = name + seq![c] + rest;
    if rest.len() > 0 {
        lemma_first_index(name, rest.drop_last(), c);
        assert(full.drop_last() =~= name + seq![c] + rest.drop_last());
    } else {
        assert(full.drop_last() =~= name);
        lemma_not_in(name, c);
    }
}

proof fn lemma_not_in(text: Seq<char>, c: char)
    requires
        forall|i: int| 0 <= i < text.len() ==> #[trigger] text[i] != c,
    ensures
        first_index(text, c) is None,
    decreases text.len(),
{
    if text.len() > 0 {
        let front = text.drop_last();
        assert forall|i: int| 0 <= i < front.len() implies #[trigger] front[i] != c by {
            assert(front[i] == text[i]);
        }
        lemma_not_in(front, c);
        assert(text[text.len() - 1] != c);
    }
}

/// What is trimmed begins and ends with something visible.
proof fn lemma_trimmed_ends(value: Seq<char>)
    requires
        trim(value) == value,
        value.len() > 0,
    ensures
        !is_white(value[0]),
        !is_white(value.last()),
{
    let from = lemma_trim(value);
}

/// A space in front of a value is no part of it.
proof fn lemma_trim_space(value: Seq<char>)
    requires
        trim(value) == value,
    ensures
        trim(seq![' '] + value) == value,
{
    let spaced = seq![' '] + value;
    assert(spaced.len() == value.len() + 1);
    assert(spaced[0] == ' ');
    assert(is_white(' '));
    if value.len() == 0 {
        let none = spaced.drop_last();
        assert(none.len() == 0);
        assert(spaced.last() == ' ');
        assert(trim_end(spaced) == trim_end(none));
        assert(trim_end(none) == none);
        assert(trim_start(none) == none);
        assert(none =~= value);
    } else {
        lemma_trimmed_ends(value);
        assert(spaced.last() == value.last());
        assert(trim_end(spaced) == spaced);
        assert(spaced.drop_first() =~= value);
        assert(trim_start(spaced) == trim_start(value));
        assert(trim_start(value) == value);
    }
}

/// What a header line says.
proof fn lemma_header_line(fields: Fields, name: Seq<char>, value: Seq<char>)
    requires
        forall|i: int| 0 <= i < name.len() ==> #[trigger] name[i] != ':',
        trim(value) == value,
    ensures
        with_field(fields, header_line(name, value)) == {
            let lower = ascii_lower(name);
            if lower == "origin"@ {
                Fields { origin: Some(value), ..fields }
            } else if lower == "x-vox-token"@ {
                Fields { token: Some(value), ..fields }
            } else if lower == "content-length"@ {
                Fields {
                    size: match parsed_size(value) {
                        Some(size) => size,
                        None => 0,
                    },
                    ..fields
                }
            } else {
                fields
            }
        },
{
    let rest = seq![' '] + value;
    let line = header_line(name, value);
    lemma_first_index(name, rest, ':');
    lemma_trim_space(value);
    assert(line.take(name.len() as int) =~= name);
    assert(line.skip(name.len() as int + 1) =~= rest);
}

proof fn lemma_header_is_line(name: Seq<char>, value: Seq<char>)
    requires
        is_line(name),
        value.len() == 0 || is_line(value),
    ensures
        is_line(header_line(name, value)),
{
    let line = header_line(name, value);
    assert forall|i: int| 0 <= i < line.len() implies '\0' <= #[trigger] line[i] <= '\u{7f}'
        && line[i] != '\r' && line[i] != '\n' by {
        if i < name.len() {
            assert(line[i] == name[i]);
        } else if i > name.len() + 1 {
            assert(line[i] == value[i - name.len() - 2]);
        }
    }
}

/// The names of the headers, and what they are in lower case.
proof fn lemma_header_names()
    ensures
        is_line("Origin"@),
        is_line("X-Vox-Token"@),
        is_line("Content-Length"@),
        forall|i: int| 0 <= i < "Origin"@.len() ==> #[trigger] "Origin"@[i] != ':',
        forall|i: int| 0 <= i < "X-Vox-Token"@.len() ==> #[trigger] "X-Vox-Token"@[i] != ':',
        forall|i: int| 0 <= i < "Content-Length"@.len() ==> #[trigger] "Content-Length"@[i] != ':',
        ascii_lower("Origin"@) == "origin"@,
        ascii_lower("X-Vox-Token"@) == "x-vox-token"@,
        ascii_lower("Content-Length"@) == "content-length"@,
        "x-vox-token"@ != "origin"@,
        "content-length"@ != "origin"@,
        "content-length"@ != "x-vox-token"@,
{
    reveal_strlit("Origin");
    reveal_strlit("X-Vox-Token");
    reveal_strlit("Content-Length");
    reveal_strlit("origin");
    reveal_strlit("x-vox-token");
    reveal_strlit("content-length");
    assert(ascii_lower("Origin"@) =~= "origin"@);
    assert(ascii_lower("X-Vox-Token"@) =~= "x-vox-token"@);
    assert(ascii_lower("Content-Length"@) =~= "content-length"@);
}

// ------------------------------------------------------------------- the number

/// A number in decimal is read back as that number.
proof fn lemma_decimal_reads_back(n: nat)
    ensures
        decimal(n).len() > 0,
        digits_value(decimal(n)) == Some(n),
        forall|i: int| 0 <= i < decimal(n).len() ==> '0' <= #[trigger] decimal(n)[i] <= '9',
    decreases n,
{
    let last = digit_char(n % 10);
    assert('0' <= last <= '9');
    assert(last as int - 48 == n % 10);
    if n < 10 {
        assert(decimal(n).drop_last() =~= Seq::<char>::empty());
        reveal_with_fuel(digits_value, 2);
    } else {
        lemma_decimal_reads_back(n / 10);
        assert(decimal(n).drop_last() =~= decimal(n / 10));
        assert(n / 10 * 10 + n % 10 == n);
    }
}

proof fn lemma_size_reads_back(n: nat)
    requires
        n <= MAX_CORPO,
    ensures
        parsed_size(decimal(n)) == Some(n as usize),
        trim(decimal(n)) == decimal(n),
        is_line(decimal(n)),
{
    let digits = decimal(n);
    lemma_decimal_reads_back(n);
    assert('0' <= digits[0] <= '9');
    assert('0' <= digits[digits.len() - 1] <= '9');
    assert(!is_white(digits[0]));
    assert(!is_white(digits.last()));
    assert(trim_end(digits) == digits);
    assert(trim_start(digits) == digits);
}

// ------------------------------------------------------------------- the request

proof fn lemma_fields_push(list: Seq<Seq<char>>, line: Seq<char>)
    requires
        list.len() > 0,
    ensures
        fields_of(list.push(line).skip(1)) == with_field(fields_of(list.skip(1)), line),
{
    let rest = list.push(line).skip(1);
    assert(rest.drop_last() =~= list.skip(1));
}

/// What the lines of a request say.
proof fn lemma_request_lines(
    method: Seq<char>,
    path: Seq<char>,
    origin: Option<Seq<char>>,
    token: Option<Seq<char>>,
    size: nat,
)
    requires
        is_word(method),
        is_word(path),
        is_value(origin),
        is_value(token),
        size <= MAX_CORPO,
    ensures
        ({
            let list = request_lines(method, path, origin, token, size);
            &&& list.len() > 0
            &&& list[0] == request_line(method, path)
            &&& forall|i: int| 0 <= i < list.len() ==> is_line(#[trigger] list[i])
            &&& fields_of(list.skip(1)) == (Fields { origin, token, size: size as usize })
        }),
{
    lemma_request_line(method, path);
    lemma_header_names();
    lemma_size_reads_back(size);
    let nothing = Fields { origin: None, token: None, size: 0 };
    let first = seq![request_line(method, path)];
    assert(first.skip(1) =~= Seq::<Seq<char>>::empty());
    assert(fields_of(first.skip(1)) == nothing);
    let second = match origin {
        Some(value) => first.push(header_line("Origin"@, value)),
        None => first,
    };
    if origin is Some {
        let value = origin->0;
        lemma_header_line(nothing, "Origin"@, value);
        lemma_header_is_line("Origin"@, value);
        lemma_fields_push(first, header_line("Origin"@, value));
    }
    let after_origin = Fields { origin, ..nothing };
    assert(fields_of(second.skip(1)) == after_origin);
    let third = match token {
        Some(value) => second.push(header_line("X-Vox-Token"@, value)),
        None => second,
    };
    if token is Some {
        let value = token->0;
        lemma_header_line(after_origin, "X-Vox-Token"@, value);
        lemma_header_is_line("X-Vox-Token"@, value);
        lemma_fields_push(second, header_line("X-Vox-Token"@, value));
    }
    let after_token = Fields { token, ..after_origin };
    assert(fields_of(third.skip(1)) == after_token);
    lemma_header_line(after_token, "Content-Length"@, decimal(size));
    lemma_header_is_line("Content-Length"@, decimal(size));
    lemma_fields_push(third, header_line("Content-Length"@, decimal(size)));
}

/// What a head says that is made of the lines of a request.
proof fn lemma_head_of_request(
    method: Seq<char>,
    path: Seq<char>,
    origin: Option<Seq<char>>,
    token: Option<Seq<char>>,
    size: nat,
)
    requires
        is_word(method),
        is_word(path),
        is_value(origin),
        is_value(token),
        size <= MAX_CORPO,
    ensures
        head_of(head_text(request_lines(method, path, origin, token, size))) == (HeadView {
            method,
            path,
            fields: Fields { origin, token, size: size as usize },
        }),
{
    let list = request_lines(method, path, origin, token, size);
    lemma_request_lines(method, path, origin, token, size);
    lemma_request_line(method, path);
    lemma_lines_of_head(list);
    let all = list.push(Seq::empty());
    assert(all[0] == list[0]);
    lemma_fields_push(list, Seq::empty());
    assert(first_index(Seq::<char>::empty(), ':') is None);
}

/// The head ends where its last line does, whatever follows it.
proof fn lemma_head_ends(list: Seq<Seq<char>>, more: Seq<u8>)
    requires
        list.len() > 0,
        forall|i: int| 0 <= i < list.len() ==> is_line(#[trigger] list[i]),
    ensures
        ({
            let head = encode_utf8(head_text(list));
            &&& head.len() >= 4
            &&& first_occurrence(head + more, header_end(), 0) == Some(head.len() - 4)
        }),
{
    let body = ended(list);
    let text = head_text(list);
    let head = encode_utf8(text);
    let raw = head + more;
    let pattern = header_end();
    lemma_no_gap(list);
    assert(is_ascii_chars(text)) by {
        assert forall|i: int| 0 <= i < text.len() implies '\0' <= #[trigger] text[i] <= '\u{7f}' by {
            if i < body.len() {
                assert(text[i] == body[i]);
            }
        }
    }
    is_ascii_chars_encode_utf8(text);
    let at = head.len() - 4;
    assert(text[at] == body[body.len() - 2]);
    assert(text[at + 1] == body[body.len() - 1]);
    assert(raw.subrange(at, at + 4) =~= pattern) by {
        assert(raw[at] == text[at] as u8);
        assert(raw[at + 1] == text[at + 1] as u8);
        assert(raw[at + 2] == text[at + 2] as u8);
        assert(raw[at + 3] == text[at + 3] as u8);
    }
    assert(occurs_at(raw, pattern, at));
    assert forall|k: int| 0 <= k < at implies !occurs_at(raw, pattern, k) by {
        if occurs_at(raw, pattern, k) {
            let window = raw.subrange(k, k + 4);
            assert(window[1] == raw[k + 1]);
            assert(window[2] == raw[k + 2]);
            assert(raw[k + 1] == text[k + 1] as u8);
            assert(raw[k + 2] == text[k + 2] as u8);
            assert(text[k + 1] == '\n');
            assert(text[k + 2] == '\r');
            assert(body[k + 1] == '\n');
            assert(body[k + 2] == '\r');
        }
    }
    lemma_first_occurrence(raw, pattern, 0);
}

/// What is written is what is read: a request that is sent as it should be is read
/// as that request once all of it has come, whatever else arrives behind it.
pub proof fn law_what_is_written_is_read(request: RequestView, more: Seq<u8>, closed: bool)
    requires
        can_be_written(request),
    ensures
        ({
            let raw = written(request) + more;
            &&& valid_utf8(head_bytes(raw))
            &&& read_with(raw, decode_utf8(head_bytes(raw)), closed) == ReadView::Ready(request)
        }),
{
    let RequestView { method, path, origin, token, body } = request;
    let list = request_lines(method, path, origin, token, body.len());
    let text = head_text(list);
    let head = encode_utf8(text);
    let raw = written(request) + more;
    lemma_request_lines(method, path, origin, token, body.len());
    lemma_head_ends(list, body + more);
    assert(raw =~= head + (body + more));
    assert(raw.take(head.len() as int) =~= head);
    encode_utf8_valid_utf8(text);
    encode_utf8_decode_utf8(text);
    lemma_head_of_request(method, path, origin, token, body.len());
    assert(raw.skip(head.len() as int) =~= body + more);
    assert((body + more).take(body.len() as int) =~= body);
}


/// A size is read as it is written, with a plus in front of it or without.
pub proof fn law_sizes_are_read(n: nat)
    requires
        n <= usize::MAX,
    ensures
        parsed_size(decimal(n)) == Some(n as usize),
        parsed_size(seq!['+'] + decimal(n)) == Some(n as usize),
{
    let digits = decimal(n);
    lemma_decimal_reads_back(n);
    assert('0' <= digits[0] <= '9');
    let signed = seq!['+'] + digits;
    assert(signed[0] == '+');
    assert(signed.skip(1) =~= digits);
}

/// What is no run of digits is no size, but for a plus in front of it.
pub proof fn law_only_digits_are_a_size(text: Seq<char>, i: int)
    requires
        parsed_size(text) is Some,
        0 <= i < text.len(),
    ensures
        '0' <= text[i] <= '9' || (i == 0 && text[0] == '+' && text.len() > 1),
{
    let digits = if text[0] == '+' {
        text.skip(1)
    } else {
        text
    };
    lemma_all_digits(digits);
    if text[0] == '+' {
        if i > 0 {
            assert(digits[i - 1] == text[i]);
        }
    } else {
        assert(digits[i] == text[i]);
    }
}

proof fn lemma_all_digits(digits: Seq<char>)
    requires
        digits_value(digits) is Some,
    ensures
        forall|i: int| 0 <= i < digits.len() ==> '0' <= #[trigger] digits[i] <= '9',
    decreases digits.len(),
{
    if digits.len() > 0 {
        let front = digits.drop_last();
        lemma_all_digits(front);
        assert forall|i: int| 0 <= i < digits.len() implies '0' <= #[trigger] digits[i] <= '9' by {
            if i < front.len() {
                assert(front[i] == digits[i]);
            }
        }
    }
}

} // verus!
