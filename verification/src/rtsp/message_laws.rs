//! What the parser reads of a message's text is what the message says.

use vstd::prelude::*;

use crate::number::{
    decimal_spec, is_digit_spec, lemma_decimal, lemma_parse_decimal, lemma_parse_number_bound,
    parse_number_spec,
};
use crate::rtsp::headers::{
    distinct, lemma_lookup_put, lemma_position, lemma_put_distinct, lookup, position, put, Field,
};
use crate::rtsp::message::{
    blank_line, fields_text, lemma_blank_line, message_text, named_version, parse_field,
    parse_fields, parse_message, parse_status_line, status_line_text, version_text, MessageError,
    MessageView, RtspFirstLine, RtspStatusLine, RtspVersion, StatusLineView,
};
use crate::text::{
    crlf, find_spec, is_whitespace_spec, join_spec, lemma_find_bound, split_spec, trim_spec,
    words_spec,
};
use crate::text_laws::{lemma_join, lemma_split_front};
use crate::text_lemmas::{
    is_word, lemma_find_behind, lemma_join_in_parts, lemma_join_split,
    lemma_joined_words_hold_spaces_only, lemma_not_found, lemma_not_found_before,
    lemma_part_not_found, lemma_single_word, lemma_split_behind, lemma_split_join,
    lemma_split_pieces,
    lemma_trim_behind_space, lemma_trim_is_part, lemma_trim_trimmed, lemma_words_across_space,
    lemma_words_are_words, lemma_words_of_joined, occurs_at, starts_once,
};

verus! {

/// A status line whose message, where it has one, is made of words one space apart.
pub open spec fn well_formed_status_line(line: StatusLineView) -> bool {
    line.msg matches Some(msg) ==> words_spec(msg).len() > 0 && join_spec(
        words_spec(msg),
        seq![' '],
    ) == msg
}

/// A field that a header line can carry: no colon in its name, no line end in it, and no white
/// space around its name or its value.
pub open spec fn well_formed_field(field: Field) -> bool {
    &&& trim_spec(field.0) == field.0
    &&& trim_spec(field.1) == field.1
    &&& find_spec(field.0, seq![':']) is None
    &&& find_spec(field.0, crlf()) is None
    &&& find_spec(field.1, crlf()) is None
}

/// What stands behind the empty line of a message.
pub open spec fn body_text(body: Option<Seq<char>>) -> Seq<char> {
    match body {
        Some(body) => body + crlf(),
        None => seq![],
    }
}

spec fn field_line(field: Field) -> Seq<char> {
    field.0 + seq![':', ' '] + field.1
}

spec fn field_lines(fields: Seq<Field>) -> Seq<Seq<char>> {
    fields.map_values(|field: Field| field_line(field))
}

/// A version is one word, and it names that version.
pub proof fn lemma_version_text(version: RtspVersion)
    ensures
        words_spec(version_text(version)) == seq![version_text(version)],
        named_version(version_text(version)) == Some(version),
        forall|i: int|
            0 <= i < version_text(version).len() ==> #[trigger] version_text(version)[i] != '\n',
{
    reveal_strlit("RTSP/1.0");
    reveal_strlit("RTSP/2.0");
    assert("RTSP/1.0"@ =~= seq!['R', 'T', 'S', 'P', '/', '1', '.', '0']);
    assert("RTSP/2.0"@ =~= seq!['R', 'T', 'S', 'P', '/', '2', '.', '0']);
    assert("RTSP/1.0"@[5] != "RTSP/2.0"@[5]);
    assert(forall|i: int|
        0 <= i < version_text(version).len() ==> !is_whitespace_spec(
            #[trigger] version_text(version)[i],
        ));
    assert(is_whitespace_spec('\n'));
    lemma_single_word(version_text(version));
}

proof fn lemma_digits_are_a_word(n: int)
    requires
        n >= 0,
    ensures
        words_spec(decimal_spec(n)) == seq![decimal_spec(n)],
        forall|i: int| 0 <= i < decimal_spec(n).len() ==> #[trigger] decimal_spec(n)[i] != '\n',
{
    lemma_decimal(n);
    assert forall|i: int| 0 <= i < decimal_spec(n).len() implies !is_whitespace_spec(
        #[trigger] decimal_spec(n)[i],
    ) && decimal_spec(n)[i] != '\n' by {
        assert(is_digit_spec(decimal_spec(n)[i]));
    }
    lemma_single_word(decimal_spec(n));
}

/// A status line is read back from its text.
pub proof fn lemma_status_line_round_trip(line: StatusLineView)
    requires
        well_formed_status_line(line),
    ensures
        parse_status_line(status_line_text(line)) == Ok::<_, MessageError<Seq<char>>>(line),
{
    let version = version_text(line.version);
    let code = decimal_spec(line.status_code as int);
    let s = status_line_text(line);
    lemma_version_text(line.version);
    lemma_digits_are_a_word(line.status_code as int);
    lemma_parse_decimal(line.status_code as int, u32::MAX as int);
    match line.msg {
        None => {
            assert(s =~= version + seq![' '] + code);
            lemma_words_across_space(version, code);
            assert(words_spec(s) =~= seq![version, code]);
        },
        Some(msg) => {
            let rest = code + seq![' '] + msg;
            assert(s =~= version + seq![' '] + rest);
            lemma_words_across_space(version, rest);
            lemma_words_across_space(code, msg);
            assert(words_spec(s) =~= seq![version, code] + words_spec(msg));
            assert(words_spec(s).skip(2) =~= words_spec(msg));
        },
    }
}

proof fn lemma_status_line_is_one_line(line: StatusLineView)
    requires
        well_formed_status_line(line),
    ensures
        find_spec(status_line_text(line), crlf()) is None,
{
    let s = status_line_text(line);
    lemma_version_text(line.version);
    lemma_digits_are_a_word(line.status_code as int);
    assert forall|i: int| 0 <= i < s.len() implies #[trigger] s[i] != '\n' by {
        let version = version_text(line.version);
        let code = decimal_spec(line.status_code as int);
        if i < version.len() {
            assert(s[i] == version[i]);
        } else if i == version.len() {
        } else if i < version.len() + 1 + code.len() {
            assert(s[i] == code[i - version.len() - 1]);
        } else if let Some(msg) = line.msg {
            let k = i - version.len() - 1 - code.len();
            if k > 0 {
                assert(s[i] == msg[k - 1]);
                lemma_joined_words_hold_spaces_only(msg, k - 1);
            }
        }
    }
    lemma_not_found(s, crlf());
    assert forall|i: int| !(#[trigger] occurs_at(s, crlf(), i)) by {
        if occurs_at(s, crlf(), i) {
            assert(s[i + 1] == crlf()[1]);
        }
    }
}

proof fn lemma_field_line(field: Field)
    requires
        well_formed_field(field),
    ensures
        field_line(field).len() > 0,
        find_spec(field_line(field), crlf()) is None,
        parse_field(field_line(field)) == Some(field),
{
    let (name, value) = field;
    let line = field_line(field);
    let behind = seq![' '] + value;
    assert(line =~= name + seq![':'] + behind);
    lemma_find_behind(name, seq![':'], behind);
    assert(line.take(name.len() as int) =~= name);
    assert(line.skip(name.len() as int + 1) =~= behind);
    lemma_trim_behind_space(value);
    lemma_not_found(name, crlf());
    lemma_not_found(value, crlf());
    lemma_not_found(line, crlf());
    assert forall|i: int| !(#[trigger] occurs_at(line, crlf(), i)) by {
        if occurs_at(line, crlf(), i) {
            assert(line[i + 0] == crlf()[0]);
            assert(line[i + 1] == crlf()[1]);
            let n = name.len() as int;
            if i + 1 < n {
                assert(name[i + 0] == '\r' && name[i + 1] == '\n');
                assert(occurs_at(name, crlf(), i));
            } else if i > n + 1 {
                let k = i - n - 2;
                assert(value[k + 0] == '\r' && value[k + 1] == '\n');
                assert(occurs_at(value, crlf(), k));
            }
        }
    }
}

proof fn lemma_split_fields(fields: Seq<Field>, tail: Seq<char>)
    requires
        forall|i: int| 0 <= i < fields.len() ==> well_formed_field(#[trigger] fields[i]),
    ensures
        split_spec(fields_text(fields) + tail, crlf()) == field_lines(fields) + split_spec(
            tail,
            crlf(),
        ),
    decreases fields.len(),
{
    if fields.len() == 0 {
        assert(fields_text(fields) + tail =~= tail);
        assert(field_lines(fields) + split_spec(tail, crlf()) =~= split_spec(tail, crlf()));
    } else {
        let front = fields.drop_last();
        let line = field_line(fields.last());
        let longer = line + crlf() + tail;
        assert(fields_text(fields) + tail =~= fields_text(front) + longer);
        assert forall|i: int| 0 <= i < front.len() implies well_formed_field(
            #[trigger] front[i],
        ) by {
            assert(front[i] == fields[i]);
        }
        lemma_split_fields(front, longer);
        assert(well_formed_field(fields[fields.len() - 1]));
        lemma_field_line(fields.last());
        lemma_split_behind(line, crlf(), tail);
        assert(field_lines(front) + (seq![line] + split_spec(tail, crlf())) =~= field_lines(fields)
            + split_spec(tail, crlf()));
    }
}

proof fn lemma_parse_field_lines(fields: Seq<Field>)
    requires
        distinct(fields),
        forall|i: int| 0 <= i < fields.len() ==> well_formed_field(#[trigger] fields[i]),
    ensures
        parse_fields(field_lines(fields)) == Ok::<_, Seq<char>>(fields),
    decreases fields.len(),
{
    if fields.len() == 0 {
        assert(field_lines(fields) =~= seq![]);
        assert(fields =~= seq![]);
    } else {
        let front = fields.drop_last();
        assert forall|i: int| 0 <= i < front.len() implies well_formed_field(
            #[trigger] front[i],
        ) by {
            assert(front[i] == fields[i]);
        }
        assert forall|i: int, j: int|
            0 <= i < front.len() && 0 <= j < front.len() && i != j implies (#[trigger] front[i]).0
            != (#[trigger] front[j]).0 by {
            assert(fields[i].0 != fields[j].0);
        }
        lemma_parse_field_lines(front);
        assert(well_formed_field(fields[fields.len() - 1]));
        lemma_field_line(fields.last());
        let lines = field_lines(fields);
        assert(lines.drop_last() =~= field_lines(front));
        assert(lines.last() == field_line(fields.last()));
        lemma_position(front, fields.last().0);
        if let Some(i) = position(front, fields.last().0) {
            assert(fields[i].0 != fields[fields.len() - 1].0);
        }
        assert(put(front, fields.last().0, fields.last().1) =~= fields);
    }
}

proof fn lemma_blank_line_is(lines: Seq<Seq<char>>, i: int, blank: int)
    requires
        0 <= i <= blank < lines.len(),
        lines[blank].len() == 0,
        forall|k: int| i <= k < blank ==> (#[trigger] lines[k]).len() > 0,
    ensures
        blank_line(lines, i) == blank,
    decreases blank - i,
{
    if i < blank {
        assert(lines[i].len() > 0);
        lemma_blank_line_is(lines, i + 1, blank);
    }
}

/// A response is read back from its text: the status line and the headers as they were, and as
/// the body what stands behind the empty line, with one line end more.
pub proof fn lemma_response_round_trip(
    line: StatusLineView,
    headers: Seq<Field>,
    body: Option<Seq<char>>,
)
    requires
        well_formed_status_line(line),
        distinct(headers),
        forall|i: int| 0 <= i < headers.len() ==> well_formed_field(#[trigger] headers[i]),
    ensures
        ({
            let text = message_text(status_line_text(line), headers, body);
            parse_message::<RtspStatusLine>(text) == Ok::<_, MessageError<Seq<char>>>(
                MessageView {
                    first_line: line,
                    headers,
                    body: Some(body_text(body) + crlf()),
                },
            )
        }),
{
    let first = status_line_text(line);
    let rest = body_text(body);
    let s = message_text(first, headers, body);
    assert(starts_once(crlf()));
    let behind_headers = crlf() + rest;
    let behind_first = fields_text(headers) + behind_headers;
    assert(s =~= first + crlf() + behind_first);
    lemma_status_line_is_one_line(line);
    lemma_split_behind(first, crlf(), behind_first);
    lemma_split_fields(headers, behind_headers);
    let none: Seq<char> = seq![];
    lemma_not_found(none, crlf());
    assert forall|i: int| !(#[trigger] occurs_at(none, crlf(), i)) by {}
    assert(behind_headers =~= none + crlf() + rest);
    lemma_split_behind(none, crlf(), rest);
    lemma_join_split(rest, crlf());
    let lines = split_spec(s, crlf());
    let n = headers.len() as int;
    assert(lines =~= seq![first] + field_lines(headers) + seq![none] + split_spec(rest, crlf()));
    assert forall|k: int| 1 <= k < n + 1 implies (#[trigger] lines[k]).len() > 0 by {
        assert(well_formed_field(headers[k - 1]));
        lemma_field_line(headers[k - 1]);
        assert(lines[k] == field_line(headers[k - 1]));
    }
    lemma_blank_line_is(lines, 1, n + 1);
    assert(lines.subrange(1, n + 1) =~= field_lines(headers));
    lemma_parse_field_lines(headers);
    assert(lines.skip(n + 2) =~= split_spec(rest, crlf()));
    lemma_status_line_round_trip(line);
}

proof fn lemma_parsed_field(line: Seq<char>)
    requires
        find_spec(line, crlf()) is None,
    ensures
        parse_field(line) matches Some(field) ==> well_formed_field(field),
{
    if let Some(i) = find_spec(line, seq![':']) {
        lemma_find_bound(line, seq![':']);
        let name = line.take(i);
        let value = line.skip(i + 1);
        assert(name =~= line.subrange(0, i));
        assert(value =~= line.subrange(i + 1, line.len() as int));
        lemma_part_not_found(line, 0, i, crlf());
        lemma_part_not_found(line, i + 1, line.len() as int, crlf());
        lemma_not_found_before(line, seq![':']);
        let (a, b) = lemma_trim_is_part(name);
        lemma_part_not_found(name, a, b, crlf());
        lemma_part_not_found(name, a, b, seq![':']);
        let (c, d) = lemma_trim_is_part(value);
        lemma_part_not_found(value, c, d, crlf());
        lemma_trim_trimmed(name);
        lemma_trim_trimmed(value);
    }
}

proof fn lemma_parsed_fields(lines: Seq<Seq<char>>)
    requires
        forall|i: int| 0 <= i < lines.len() ==> find_spec(#[trigger] lines[i], crlf()) is None,
    ensures
        parse_fields(lines) matches Ok(fields) ==> distinct(fields) && forall|i: int|
            0 <= i < fields.len() ==> well_formed_field(#[trigger] fields[i]),
    decreases lines.len(),
{
    if lines.len() > 0 {
        let front = lines.drop_last();
        assert forall|i: int| 0 <= i < front.len() implies find_spec(
            #[trigger] front[i],
            crlf(),
        ) is None by {
            assert(front[i] == lines[i]);
        }
        lemma_parsed_fields(front);
        assert(find_spec(lines[lines.len() - 1], crlf()) is None);
        lemma_parsed_field(lines.last());
        if let Ok(before) = parse_fields(front) {
            if let Some((name, value)) = parse_field(lines.last()) {
                let after = put(before, name, value);
                lemma_put_distinct(before, name, value);
                lemma_position(before, name);
                assert forall|i: int| 0 <= i < after.len() implies well_formed_field(
                    #[trigger] after[i],
                ) by {
                    if i < before.len() {
                        assert(well_formed_field(before[i]));
                    }
                }
            }
        }
    }
}

/// Whatever text a response is read from, its status line and its headers are well formed, and no
/// header is repeated.
pub proof fn lemma_parsed_response_is_well_formed(buf: Seq<char>)
    ensures
        parse_message::<RtspStatusLine>(buf) matches Ok(response) ==> {
            &&& well_formed_status_line(response.first_line)
            &&& distinct(response.headers)
            &&& forall|i: int|
                0 <= i < response.headers.len() ==> well_formed_field(
                    #[trigger] response.headers[i],
                )
        },
{
    let lines = split_spec(buf, crlf());
    lemma_split_pieces(buf, crlf());
    if let Ok(response) = parse_message::<RtspStatusLine>(buf) {
        let elems = words_spec(lines[0]);
        let rest = elems.skip(2);
        lemma_words_are_words(lines[0]);
        assert forall|i: int| 0 <= i < rest.len() implies is_word(#[trigger] rest[i]) by {
            assert(rest[i] == elems[i + 2]);
        }
        lemma_words_of_joined(rest);
        let blank = blank_line(lines, 1);
        lemma_join_split(buf, crlf());
        lemma_blank_line(lines, 1);
        let header_lines = lines.subrange(1, blank);
        assert forall|i: int| 0 <= i < header_lines.len() implies find_spec(
            #[trigger] header_lines[i],
            crlf(),
        ) is None by {
            assert(header_lines[i] == lines[i + 1]);
        }
        lemma_parsed_fields(header_lines);
    }
}

/// A response that was read, written out again and read again has the same status line and the
/// same headers.
pub proof fn lemma_parsed_response_round_trip(buf: Seq<char>)
    ensures
        parse_message::<RtspStatusLine>(buf) matches Ok(response) ==> parse_message::<
            RtspStatusLine,
        >(message_text(status_line_text(response.first_line), response.headers, response.body))
            == Ok::<_, MessageError<Seq<char>>>(
            MessageView { body: Some(body_text(response.body) + crlf()), ..response },
        ),
{
    if let Ok(response) = parse_message::<RtspStatusLine>(buf) {
        lemma_parsed_response_is_well_formed(buf);
        lemma_response_round_trip(response.first_line, response.headers, response.body);
    }
}

/// A text in which no empty line ends the headers is no message.
pub proof fn lemma_refused_without_blank_line<FirstLine: RtspFirstLine>(buf: Seq<char>)
    requires
        find_spec(buf, crlf() + crlf()) is None,
    ensures
        parse_message::<FirstLine>(buf) is Err,
{
    let lines = split_spec(buf, crlf());
    let blank = blank_line(lines, 1);
    lemma_join_split(buf, crlf());
    lemma_blank_line(lines, 1);
    if blank + 1 < lines.len() {
        let rest = lines.skip(blank);
        lemma_join_in_parts(lines, blank, crlf());
        lemma_join_in_parts(rest, 1, crlf());
        let before = join_spec(lines.take(blank), crlf());
        let behind = join_spec(rest.skip(1), crlf());
        assert(rest.take(1)[0] == lines[blank]);
        assert(lines[blank] =~= seq![]);
        assert(buf =~= before + crlf() + crlf() + behind);
        let at = before.len() as int;
        assert forall|k: int| 0 <= k < 4 implies buf[at + k] == (crlf() + crlf())[k] by {
            assert(buf[at + k] == (crlf() + crlf())[k]);
        }
        assert(occurs_at(buf, crlf() + crlf(), at));
        lemma_not_found(buf, crlf() + crlf());
    }
}

/// A header line is read at its first colon, whatever white space stands around what is before and
/// behind it; a line without a colon is none.
pub proof fn lemma_field_is_read(name: Seq<char>, value: Seq<char>)
    requires
        find_spec(name, seq![':']) is None,
    ensures
        parse_field(name + seq![':'] + value) == Some((trim_spec(name), trim_spec(value))),
        parse_field(name) is None,
{
    let line = name + seq![':'] + value;
    lemma_find_behind(name, seq![':'], value);
    assert(line.take(name.len() as int) =~= name);
    assert(line.skip(name.len() as int + 1) =~= value);
}

/// Each header line sets the field that it writes and no other; the first line that writes none is
/// the error, whatever follows. No lines write no fields.
pub proof fn lemma_field_lines_are_read(
    lines: Seq<Seq<char>>,
    line: Seq<char>,
    other: Seq<char>,
)
    ensures
        parse_fields(seq![]) == Ok::<Seq<Field>, Seq<char>>(seq![]),
        match parse_fields(lines) {
            Err(bad) => parse_fields(lines.push(line)) == Err::<Seq<Field>, _>(bad),
            Ok(before) => match parse_field(line) {
                None => parse_fields(lines.push(line)) == Err::<Seq<Field>, _>(line),
                Some((name, value)) => parse_fields(lines.push(line)) matches Ok(after) && (
                distinct(before) ==> distinct(after) && lookup(after, other) == (if other == name {
                    Some(value)
                } else {
                    lookup(before, other)
                }) && (lookup(before, name) is None ==> after == before.push((name, value)))),
            },
        },
{
    assert(lines.push(line).drop_last() =~= lines);
    if let Ok(before) = parse_fields(lines) {
        if let Some((name, value)) = parse_field(line) {
            if distinct(before) {
                lemma_put_distinct(before, name, value);
                lemma_lookup_put(before, name, value, other);
            }
        }
    }
}

/// A text that is a first line, header lines, an empty line and a rest reads as these: the first
/// line's error comes first, then that of the header lines, and everything behind the empty line
/// is the body, with one line end more.
pub proof fn lemma_message_is_read<FirstLine: RtspFirstLine>(
    first: Seq<char>,
    lines: Seq<Seq<char>>,
    rest: Seq<char>,
)
    requires
        find_spec(first, crlf()) is None,
        forall|i: int|
            0 <= i < lines.len() ==> (#[trigger] lines[i]).len() > 0 && find_spec(
                lines[i],
                crlf(),
            ) is None,
    ensures
        ({
            let text = join_spec(seq![first] + lines + seq![seq![], rest], seq!['\r', '\n']);
            match (FirstLine::parse_line(first), parse_fields(lines)) {
                (Err(error), _) => parse_message::<FirstLine>(text) == Err::<
                    MessageView<FirstLine::V>,
                    _,
                >(error),
                (Ok(_), Err(line)) => parse_message::<FirstLine>(text) == Err::<
                    MessageView<FirstLine::V>,
                    _,
                >(MessageError::InvalidHeaderLine(line)),
                (Ok(first_line), Ok(headers)) => parse_message::<FirstLine>(text) == Ok::<
                    _,
                    MessageError<Seq<char>>,
                >(
                    MessageView {
                        first_line,
                        headers,
                        body: Some(rest + seq!['\r', '\n']),
                    },
                ),
            }
        }),
{
    let none: Seq<char> = seq![];
    let front = seq![first] + lines + seq![none];
    assert(seq![first] + lines + seq![none, rest] =~= front.push(rest));
    lemma_not_found(none, crlf());
    assert forall|i: int| !(#[trigger] occurs_at(none, crlf(), i)) by {}
    assert forall|i: int| 0 <= i < front.len() implies find_spec(
        #[trigger] front[i],
        crlf(),
    ) is None by {
        if 0 < i <= lines.len() {
            assert(front[i] == lines[i - 1]);
        }
    }
    assert(starts_once(crlf()));
    lemma_split_front(front, rest, crlf());
    lemma_join_split(rest, crlf());
    let all = front + split_spec(rest, crlf());
    let n = lines.len() as int;
    assert forall|k: int| 1 <= k < n + 1 implies (#[trigger] all[k]).len() > 0 by {
        assert(all[k] == lines[k - 1]);
    }
    lemma_blank_line_is(all, 1, n + 1);
    assert(all.subrange(1, n + 1) =~= lines);
    assert(all.skip(n + 2) =~= split_spec(rest, crlf()));
}

/// A text that ends before an empty line is ended is refused: with the first line's error, else
/// that of the header lines, else for want of the empty line. That a line end follows the last
/// line makes no difference.
pub proof fn lemma_unended_message_is_refused<FirstLine: RtspFirstLine>(
    first: Seq<char>,
    lines: Seq<Seq<char>>,
)
    requires
        find_spec(first, crlf()) is None,
        forall|i: int|
            0 <= i < lines.len() ==> (#[trigger] lines[i]).len() > 0 && find_spec(
                lines[i],
                crlf(),
            ) is None,
    ensures
        ({
            let error = match (FirstLine::parse_line(first), parse_fields(lines)) {
                (Err(error), _) => error,
                (Ok(_), Err(line)) => MessageError::InvalidHeaderLine(line),
                (Ok(_), Ok(_)) => MessageError::NoBlankLine,
            };
            let text = join_spec(seq![first] + lines, seq!['\r', '\n']);
            &&& parse_message::<FirstLine>(text) == Err::<MessageView<FirstLine::V>, _>(error)
            &&& parse_message::<FirstLine>(text + seq!['\r', '\n']) == Err::<
                MessageView<FirstLine::V>,
                _,
            >(error)
        }),
{
    let none: Seq<char> = seq![];
    let all = seq![first] + lines;
    let ended = all.push(none);
    let n = lines.len() as int;
    assert(starts_once(crlf()));
    lemma_not_found(none, crlf());
    assert forall|i: int| !(#[trigger] occurs_at(none, crlf(), i)) by {}
    assert forall|i: int| 0 <= i < all.len() implies find_spec(
        #[trigger] all[i],
        crlf(),
    ) is None by {
        if i > 0 {
            assert(all[i] == lines[i - 1]);
        }
    }
    assert forall|i: int| 0 <= i < ended.len() implies find_spec(
        #[trigger] ended[i],
        crlf(),
    ) is None by {
        if i < all.len() {
            assert(ended[i] == all[i]);
        }
    }
    lemma_split_join(all, crlf());
    lemma_split_join(ended, crlf());
    lemma_join(all, none, crlf());
    assert(join_spec(all, crlf()) + crlf() + none =~= join_spec(all, crlf()) + crlf());
    assert forall|k: int| 1 <= k < n + 1 implies (#[trigger] all[k]).len() > 0 by {
        assert(all[k] == lines[k - 1]);
    }
    assert forall|k: int| 1 <= k < n + 1 implies (#[trigger] ended[k]).len() > 0 by {
        assert(ended[k] == lines[k - 1]);
    }
    lemma_blank_line(all, 1);
    lemma_blank_line_is(ended, 1, n + 1);
    assert(all.subrange(1, n + 1) =~= lines);
    assert(ended.subrange(1, n + 1) =~= lines);
}

/// A status line is read by its words: a version, a number, and a message made of the rest.
pub proof fn lemma_status_line_is_read(line: Seq<char>)
    ensures
        ({
            let w = words_spec(line);
            let one = "RTSP/1.0"@;
            let two = "RTSP/2.0"@;
            &&& w.len() < 2 ==> parse_status_line(line) == Err::<StatusLineView, _>(
                MessageError::InvalidStatusLine(line),
            )
            &&& w.len() >= 2 && w[0] != one && w[0] != two ==> parse_status_line(line) == Err::<
                StatusLineView,
                _,
            >(MessageError::InvalidVersion(w[0]))
            &&& w.len() >= 2 && (w[0] == one || w[0] == two) ==> match parse_number_spec(
                w[1],
                0xffff_ffff,
            ) {
                None => parse_status_line(line) == Err::<StatusLineView, _>(
                    MessageError::<Seq<char>>::InvalidStatusCode,
                ),
                Some(code) => parse_status_line(line) matches Ok(parsed) && parsed.status_code
                    == code && (parsed.version is Rtsp10) == (w[0] == one) && (match parsed.msg {
                    None => w.len() == 2,
                    Some(msg) => w.len() > 2 && msg == join_spec(w.skip(2), seq![' ']),
                }),
            }
        }),
{
    lemma_version_text(RtspVersion::Rtsp10);
    lemma_version_text(RtspVersion::Rtsp20);
    let w = words_spec(line);
    if w.len() >= 2 {
        lemma_parse_number_bound(w[1], 0xffff_ffff);
    }
}

/// The lines of a message's text: the first line, a line for each header with a colon and a space
/// between name and value, an empty line, and the body with a line end behind it.
pub proof fn lemma_lines_of_a_message(
    first_line: Seq<char>,
    headers: Seq<Field>,
    lines: Seq<Seq<char>>,
    body: Seq<char>,
)
    requires
        lines.len() == headers.len(),
        forall|i: int|
            0 <= i < headers.len() ==> #[trigger] lines[i] == headers[i].0 + seq![':', ' ']
                + headers[i].1,
    ensures
        message_text(first_line, headers, Some(body)) == join_spec(
            seq![first_line] + lines + seq![seq![], body + seq!['\r', '\n']],
            seq!['\r', '\n'],
        ),
        message_text(first_line, headers, None) == join_spec(
            seq![first_line] + lines + seq![seq![], seq![]],
            seq!['\r', '\n'],
        ),
{
    let none: Seq<char> = seq![];
    let rest = body + crlf();
    let front = seq![first_line] + lines;
    lemma_joined_header_lines(first_line, headers, lines);
    lemma_join(front, none, crlf());
    lemma_join(front.push(none), rest, crlf());
    lemma_join(front.push(none), none, crlf());
    assert(front.push(none).push(rest) =~= front + seq![none, rest]);
    assert(front.push(none).push(none) =~= front + seq![none, none]);
    assert(join_spec(front.push(none).push(rest), crlf()) =~= message_text(
        first_line,
        headers,
        Some(body),
    ));
    assert(join_spec(front.push(none).push(none), crlf()) =~= message_text(
        first_line,
        headers,
        None,
    ));
}

proof fn lemma_joined_header_lines(
    first_line: Seq<char>,
    headers: Seq<Field>,
    lines: Seq<Seq<char>>,
)
    requires
        lines.len() == headers.len(),
        forall|i: int|
            0 <= i < headers.len() ==> #[trigger] lines[i] == headers[i].0 + seq![':', ' ']
                + headers[i].1,
    ensures
        join_spec(seq![first_line] + lines, crlf()) + crlf() == first_line + crlf() + fields_text(
            headers,
        ),
    decreases headers.len(),
{
    if headers.len() == 0 {
        assert(seq![first_line] + lines =~= seq![first_line]);
        assert(first_line + crlf() + fields_text(headers) =~= first_line + crlf());
    } else {
        let front = headers.drop_last();
        let front_lines = lines.drop_last();
        let last = lines.last();
        assert(lines[lines.len() - 1] == headers.last().0 + seq![':', ' '] + headers.last().1);
        assert forall|i: int| 0 <= i < front.len() implies #[trigger] front_lines[i] == front[i].0
            + seq![':', ' '] + front[i].1 by {
            assert(front_lines[i] == lines[i]);
        }
        lemma_joined_header_lines(first_line, front, front_lines);
        assert(seq![first_line] + lines =~= (seq![first_line] + front_lines).push(last));
        lemma_join(seq![first_line] + front_lines, last, crlf());
        assert(join_spec(seq![first_line] + lines, crlf()) + crlf() =~= first_line + crlf()
            + fields_text(headers));
    }
}

/// The text of a status line: the version, the code and the message, one space apart.
pub proof fn lemma_status_line_parts(line: StatusLineView)
    ensures
        ({
            let version = match line.version {
                RtspVersion::Rtsp10 => "RTSP/1.0"@,
                RtspVersion::Rtsp20 => "RTSP/2.0"@,
            };
            let code = decimal_spec(line.status_code as int);
            match line.msg {
                None => status_line_text(line) == join_spec(seq![version, code], seq![' ']),
                Some(msg) => status_line_text(line) == join_spec(
                    seq![version, code, msg],
                    seq![' '],
                ),
            }
        }),
{
    let version = version_text(line.version);
    let code = decimal_spec(line.status_code as int);
    let msg = match line.msg {
        Some(msg) => msg,
        None => seq![],
    };
    lemma_join(seq![version], code, seq![' ']);
    lemma_join(seq![version, code], msg, seq![' ']);
    assert(seq![version].push(code) =~= seq![version, code]);
    assert(seq![version, code].push(msg) =~= seq![version, code, msg]);
    if line.msg is Some {
        assert(status_line_text(line) =~= join_spec(seq![version, code, msg], seq![' ']));
    } else {
        assert(status_line_text(line) =~= join_spec(seq![version, code], seq![' ']));
    }
}

} // verus!
