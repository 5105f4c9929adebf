//! RTSP messages: their first lines, their text form, and the parser of responses.

use vstd::prelude::*;

use crate::number::{decimal, decimal_spec, parse_number, parse_number_spec};
use crate::rtsp::headers::{put, Field, Headers};
use crate::text::{
    crlf, find, find_spec, join_from, join_spec, same_text, split, split_spec, texts, trim,
    trim_spec, words, words_spec,
};

verus! {

/// What is sent over the wire as text.
pub trait ToText {
    /// The text.
    spec fn text(&self) -> Seq<char>;

    fn to_string(&self) -> (r: String)
        ensures
            r@ == self.text(),
    ;
}

/// The methods that a client requests.
#[derive(Debug, Clone, Copy, PartialEq, Eq, PartialOrd, Ord, Structural)]
pub enum RtspMethod {
    Describe,
    Options,
    Play,
    Setup,
}

/// The name of a method.
pub open spec fn method_text(method: RtspMethod) -> Seq<char> {
    match method {
        RtspMethod::Describe => "DESCRIBE"@,
        RtspMethod::Options => "OPTIONS"@,
        RtspMethod::Play => "PLAY"@,
        RtspMethod::Setup => "SETUP"@,
    }
}

impl RtspMethod {
    /// The name of the method.
    pub fn as_str(&self) -> (r: &'static str)
        ensures
            r@ == method_text(*self),
    {
        match self {
            RtspMethod::Describe => "DESCRIBE",
            RtspMethod::Options => "OPTIONS",
            RtspMethod::Play => "PLAY",
            RtspMethod::Setup => "SETUP",
        }
    }
}

impl ToText for RtspMethod {
    open spec fn text(&self) -> Seq<char> {
        method_text(*self)
    }

    fn to_string(&self) -> (r: String) {
        self.as_str().to_owned()
    }
}

/// The versions of the protocol.
#[derive(Debug, Clone, Copy, PartialEq, Eq, PartialOrd, Ord, Hash, Structural)]
pub enum RtspVersion {
    Rtsp10,
    Rtsp20,
}

/// The name of a version.
pub open spec fn version_text(version: RtspVersion) -> Seq<char> {
    match version {
        RtspVersion::Rtsp10 => "RTSP/1.0"@,
        RtspVersion::Rtsp20 => "RTSP/2.0"@,
    }
}

impl ToText for RtspVersion {
    open spec fn text(&self) -> Seq<char> {
        version_text(*self)
    }

    fn to_string(&self) -> (r: String) {
        match self {
            RtspVersion::Rtsp10 => "RTSP/1.0".to_owned(),
            RtspVersion::Rtsp20 => "RTSP/2.0".to_owned(),
        }
    }
}

/// Why a text is no RTSP message; `T` is the type of the text that is quoted.
#[derive(Debug, PartialEq, Eq)]
pub enum MessageError<T> {
    /// The status line, quoted, has fewer than two words.
    InvalidStatusLine(T),
    /// The first word of the status line, quoted, names no version.
    InvalidVersion(T),
    /// The second word of the status line is no number of 32 bits.
    InvalidStatusCode,
    /// A header line, quoted, has no colon.
    InvalidHeaderLine(T),
    /// No empty line ends the headers.
    NoBlankLine,
}

impl View for MessageError<String> {
    type V = MessageError<Seq<char>>;

    open spec fn view(&self) -> MessageError<Seq<char>> {
        match self {
            MessageError::InvalidStatusLine(line) => MessageError::InvalidStatusLine(line@),
            MessageError::InvalidVersion(word) => MessageError::InvalidVersion(word@),
            MessageError::InvalidStatusCode => MessageError::InvalidStatusCode,
            MessageError::InvalidHeaderLine(line) => MessageError::InvalidHeaderLine(line@),
            MessageError::NoBlankLine => MessageError::NoBlankLine,
        }
    }
}

/// The first line of a message that is received.
pub trait RtspFirstLine: Sized + View {
    /// What a line means.
    spec fn parse_line(line: Seq<char>) -> Result<<Self as View>::V, MessageError<Seq<char>>>;

    fn parse(line: &str) -> (r: Result<Self, MessageError<String>>)
        ensures
            match r {
                Ok(first_line) => Self::parse_line(line@) == Ok::<_, MessageError<Seq<char>>>(
                    first_line@,
                ),
                Err(error) => Self::parse_line(line@) == Err::<<Self as View>::V, _>(error@),
            },
    ;
}

/// The status line of a response.
#[derive(Debug, Clone)]
pub struct RtspStatusLine {
    pub version: RtspVersion,
    pub status_code: u32,
    pub msg: Option<String>,
}

/// A status line as plain values.
#[verifier::ext_equal]
pub struct StatusLineView {
    pub version: RtspVersion,
    pub status_code: u32,
    pub msg: Option<Seq<char>>,
}

/// The characters of an optional text.
pub open spec fn optional_text(text: Option<String>) -> Option<Seq<char>> {
    match text {
        Some(s) => Some(s@),
        None => None,
    }
}

impl View for RtspStatusLine {
    type V = StatusLineView;

    open spec fn view(&self) -> StatusLineView {
        StatusLineView {
            version: self.version,
            status_code: self.status_code,
            msg: optional_text(self.msg),
        }
    }
}

/// The version that `word` names.
pub open spec fn named_version(word: Seq<char>) -> Option<RtspVersion> {
    if word == "RTSP/1.0"@ {
        Some(RtspVersion::Rtsp10)
    } else if word == "RTSP/2.0"@ {
        Some(RtspVersion::Rtsp20)
    } else {
        None
    }
}

/// What a status line means: the version, the status code and, where more words follow, a
/// message made of them.
pub open spec fn parse_status_line(line: Seq<char>) -> Result<
    StatusLineView,
    MessageError<Seq<char>>,
> {
    let elems = words_spec(line);
    if elems.len() < 2 {
        Err(MessageError::InvalidStatusLine(line))
    } else {
        match (named_version(elems[0]), parse_number_spec(elems[1], u32::MAX as int)) {
            (None, _) => Err(MessageError::InvalidVersion(elems[0])),
            (Some(_), None) => Err(MessageError::InvalidStatusCode),
            (Some(version), Some(code)) => Ok(
                StatusLineView {
                    version,
                    status_code: code as u32,
                    msg: if elems.len() == 2 {
                        None
                    } else {
                        Some(join_spec(elems.skip(2), seq![' ']))
                    },
                },
            ),
        }
    }
}

/// The text of a status line.
pub open spec fn status_line_text(line: StatusLineView) -> Seq<char> {
    version_text(line.version) + seq![' '] + decimal_spec(line.status_code as int) + (
    match line.msg {
        Some(msg) => seq![' '] + msg,
        None => seq![],
    })
}

impl RtspFirstLine for RtspStatusLine {
    open spec fn parse_line(line: Seq<char>) -> Result<StatusLineView, MessageError<Seq<char>>> {
        parse_status_line(line)
    }

    fn parse(first_line: &str) -> (r: Result<Self, MessageError<String>>) {
        let elems = words(first_line);
        if elems.len() < 2 {
            return Err(MessageError::InvalidStatusLine(first_line.to_owned()));
        }
        assert(texts(elems@)[0] == elems@[0]@ && texts(elems@)[1] == elems@[1]@);
        let version = if same_text(elems[0], "RTSP/1.0") {
            RtspVersion::Rtsp10
        } else if same_text(elems[0], "RTSP/2.0") {
            RtspVersion::Rtsp20
        } else {
            return Err(MessageError::InvalidVersion(elems[0].to_owned()));
        };
        let status_code = match parse_number(elems[1], u32::MAX as u64) {
            Some(code) => code as u32,
            None => return Err(MessageError::InvalidStatusCode),
        };
        let msg = if elems.len() == 2 {
            None
        } else {
            proof {
                reveal_strlit(" ");
                assert(" "@ =~= seq![' ']);
            }
            Some(join_from(&elems, 2, " "))
        };
        Ok(RtspStatusLine { version, status_code, msg })
    }
}

impl ToText for RtspStatusLine {
    open spec fn text(&self) -> Seq<char> {
        status_line_text(self@)
    }

    fn to_string(&self) -> (r: String) {
        proof {
            reveal_strlit(" ");
            assert(" "@ =~= seq![' ']);
        }
        let mut s = self.version.to_string();
        s.append(" ");
        s.append(decimal(self.status_code as u64).as_str());
        if let Some(msg) = &self.msg {
            s.append(" ");
            s.append(msg.as_str());
        }
        assert(s@ =~= self.text());
        s
    }
}

/// An RTSP message.
#[derive(Debug, Clone)]
pub struct RtspMessage<FirstLine> {
    pub first_line: FirstLine,
    pub headers: Headers,
    pub body: Option<String>,
}

/// A response.
pub type RtspResponse = RtspMessage<RtspStatusLine>;

/// A message as plain values.
#[verifier::ext_equal]
pub struct MessageView<L> {
    pub first_line: L,
    pub headers: Seq<Field>,
    pub body: Option<Seq<char>>,
}

impl<FirstLine: View> View for RtspMessage<FirstLine> {
    type V = MessageView<FirstLine::V>;

    open spec fn view(&self) -> MessageView<FirstLine::V> {
        MessageView {
            first_line: self.first_line@,
            headers: self.headers.fields(),
            body: optional_text(self.body),
        }
    }
}

/// The index of the first empty line from index `i` on, or the number of lines.
pub open spec fn blank_line(lines: Seq<Seq<char>>, i: int) -> int
    decreases lines.len() - i,
{
    if i >= lines.len() {
        lines.len() as int
    } else if lines[i].len() == 0 {
        i
    } else {
        blank_line(lines, i + 1)
    }
}

/// What a header line means: what stands before the first colon and what stands behind it.
pub open spec fn parse_field(line: Seq<char>) -> Option<Field> {
    match find_spec(line, seq![':']) {
        Some(i) => Some((trim_spec(line.take(i)), trim_spec(line.skip(i + 1)))),
        None => None,
    }
}

/// The fields of header lines, or the first line that is none. Where a name is repeated, the last
/// value counts.
pub open spec fn parse_fields(lines: Seq<Seq<char>>) -> Result<Seq<Field>, Seq<char>>
    decreases lines.len(),
{
    if lines.len() == 0 {
        Ok(seq![])
    } else {
        match parse_fields(lines.drop_last()) {
            Err(line) => Err(line),
            Ok(fields) => match parse_field(lines.last()) {
                None => Err(lines.last()),
                Some(field) => Ok(put(fields, field.0, field.1)),
            },
        }
    }
}

/// What the lines behind the first one mean, given what the first one means. The headers end with
/// an empty line that is itself ended; every line behind it counts for the body, each with its
/// end.
pub open spec fn parse_lines<L>(
    first: Result<L, MessageError<Seq<char>>>,
    lines: Seq<Seq<char>>,
) -> Result<MessageView<L>, MessageError<Seq<char>>> {
    let blank = blank_line(lines, 1);
    match (first, parse_fields(lines.subrange(1, blank))) {
        (Err(error), _) => Err(error),
        (Ok(_), Err(line)) => Err(MessageError::InvalidHeaderLine(line)),
        (Ok(first_line), Ok(headers)) => if blank + 1 < lines.len() {
            Ok(
                MessageView {
                    first_line,
                    headers,
                    body: Some(join_spec(lines.skip(blank + 1), crlf()) + crlf()),
                },
            )
        } else {
            Err(MessageError::NoBlankLine)
        },
    }
}

/// What a text means as a message.
pub open spec fn parse_message<FirstLine: RtspFirstLine>(buf: Seq<char>) -> Result<
    MessageView<FirstLine::V>,
    MessageError<Seq<char>>,
> {
    let lines = split_spec(buf, crlf());
    parse_lines(FirstLine::parse_line(lines[0]), lines)
}

/// Header fields, each on a line of its own.
pub open spec fn fields_text(fields: Seq<Field>) -> Seq<char>
    decreases fields.len(),
{
    if fields.len() == 0 {
        seq![]
    } else {
        fields_text(fields.drop_last()) + fields.last().0 + seq![':', ' '] + fields.last().1
            + crlf()
    }
}

/// The text of a message with the given first line.
pub open spec fn message_text(
    first_line: Seq<char>,
    headers: Seq<Field>,
    body: Option<Seq<char>>,
) -> Seq<char> {
    first_line + crlf() + fields_text(headers) + crlf() + (match body {
        Some(body) => body + crlf(),
        None => seq![],
    })
}

proof fn lemma_parse_fields_prefix(lines: Seq<Seq<char>>, n: int)
    requires
        0 <= n <= lines.len(),
    ensures
        parse_fields(lines.take(n)) matches Err(line) ==> parse_fields(lines) == Err::<
            Seq<Field>,
            _,
        >(line),
    decreases lines.len() - n,
{
    if n < lines.len() {
        assert(lines.take(n + 1).drop_last() =~= lines.take(n));
        lemma_parse_fields_prefix(lines, n + 1);
    } else {
        assert(lines.take(n) =~= lines);
    }
}

/// The first empty line is empty, and no line before it is.
pub proof fn lemma_blank_line(lines: Seq<Seq<char>>, i: int)
    requires
        0 <= i <= lines.len(),
    ensures
        i <= blank_line(lines, i) <= lines.len(),
        forall|k: int| i <= k < blank_line(lines, i) ==> (#[trigger] lines[k]).len() > 0,
        blank_line(lines, i) < lines.len() ==> lines[blank_line(lines, i)].len() == 0,
    decreases lines.len() - i,
{
    if i < lines.len() && lines[i].len() != 0 {
        lemma_blank_line(lines, i + 1);
    }
}

/// Each line from index `from` on with its end.
fn lines_with_ends(lines: &Vec<&str>, from: usize) -> (r: String)
    requires
        from < lines@.len(),
    ensures
        r@ == join_spec(texts(lines@).skip(from as int), crlf()) + crlf(),
{
    proof {
        reveal_strlit("\r\n");
        assert("\r\n"@ =~= crlf());
    }
    let ghost all = texts(lines@);
    let mut acc = String::new();
    let mut i: usize = from;
    assert(acc@ + (join_spec(all.skip(from as int), crlf()) + crlf()) =~= join_spec(
        all.skip(from as int),
        crlf(),
    ) + crlf());
    while i < lines.len()
        invariant
            from <= i <= lines@.len(),
            all == texts(lines@),
            "\r\n"@ == crlf(),
            join_spec(all.skip(from as int), crlf()) + crlf() == acc@ + (if i == lines@.len() {
                seq![]
            } else {
                join_spec(all.skip(i as int), crlf()) + crlf()
            }),
        decreases lines@.len() - i,
    {
        let ghost before = acc@;
        acc.append(lines[i]);
        acc.append("\r\n");
        proof {
            let line = lines@[i as int]@;
            assert(all.skip(i as int).drop_first() =~= all.skip(i + 1));
            let rest: Seq<char> = if i + 1 == lines@.len() {
                seq![]
            } else {
                join_spec(all.skip(i + 1), crlf()) + crlf()
            };
            assert(join_spec(all.skip(i as int), crlf()) + crlf() =~= line + crlf() + rest);
            assert(before + (line + crlf() + rest) =~= before + line + crlf() + rest);
        }
        i += 1;
    }
    assert(acc@ + Seq::<char>::empty() =~= acc@);
    acc
}

impl<FirstLine: RtspFirstLine> RtspMessage<FirstLine> {
    /// Parses a message. `buf` must contain the whole message.
    pub fn parse(buf: &str) -> (r: Result<Self, MessageError<String>>)
        ensures
            match r {
                Ok(message) => parse_message::<FirstLine>(buf@) == Ok::<_, MessageError<Seq<char>>>(
                    message@,
                ),
                Err(error) => parse_message::<FirstLine>(buf@) == Err::<
                    MessageView<FirstLine::V>,
                    _,
                >(error@),
            },
    {
        proof {
            reveal_strlit("\r\n");
            assert("\r\n"@ =~= crlf());
            reveal_strlit(":");
            assert(":"@ =~= seq![':']);
        }
        let lines = split(buf, "\r\n");
        let ghost all = texts(lines@);
        assert(all[0] == lines@[0]@);
        let first_line = match FirstLine::parse(lines[0]) {
            Ok(first_line) => first_line,
            Err(error) => return Err(error),
        };
        let ghost blank = blank_line(all, 1);
        proof {
            lemma_blank_line(all, 1);
        }
        let mut headers = Headers::new();
        let mut i: usize = 1;
        assert(all.subrange(1, 1) =~= seq![]);
        while i < lines.len() && !lines[i].is_empty()
            invariant
                1 <= i <= blank <= lines.len(),
                all == texts(lines@),
                blank == blank_line(all, 1),
                i < blank ==> all[i as int].len() > 0,
                blank < lines.len() ==> all[blank].len() == 0,
                forall|k: int| 1 <= k < blank ==> (#[trigger] all[k]).len() > 0,
                ":"@ == seq![':'],
                parse_fields(all.subrange(1, i as int)) == Ok::<_, Seq<char>>(headers.fields()),
                FirstLine::parse_line(all[0]) == Ok::<_, MessageError<Seq<char>>>(first_line@),
                all == split_spec(buf@, crlf()),
            decreases lines.len() - i,
        {
            let line = lines[i];
            assert(all[i as int] == line@);
            let ghost through = all.subrange(1, i + 1);
            assert(through.drop_last() =~= all.subrange(1, i as int));
            assert(through.last() == line@);
            match find(line, ":") {
                Some(at) => {
                    let end = line.unicode_len();
                    let name = trim(line.substring_char(0, at));
                    let value = trim(line.substring_char(at + 1, end));
                    assert(line@.subrange(0, at as int) =~= line@.take(at as int));
                    assert(line@.subrange(at + 1, end as int) =~= line@.skip(at + 1));
                    headers.insert(name.to_owned(), value.to_owned());
                },
                None => {
                    proof {
                        assert(all.subrange(1, blank).take(i as int) =~= through);
                        lemma_parse_fields_prefix(all.subrange(1, blank), i as int);
                    }
                    return Err(MessageError::InvalidHeaderLine(line.to_owned()));
                },
            }
            i += 1;
        }
        assert(i == blank);
        // The piece behind the last line end is no line: it ends nothing.
        if lines.len() - i <= 1 {
            return Err(MessageError::NoBlankLine);
        }
        let body = lines_with_ends(&lines, i + 1);
        Ok(RtspMessage { first_line, headers, body: Some(body) })
    }
}

impl<FirstLine: ToText> ToText for RtspMessage<FirstLine> {
    open spec fn text(&self) -> Seq<char> {
        message_text(self.first_line.text(), self.headers.fields(), optional_text(self.body))
    }

    fn to_string(&self) -> (r: String) {
        proof {
            reveal_strlit("\r\n");
            assert("\r\n"@ =~= crlf());
            reveal_strlit(": ");
            assert(": "@ =~= seq![':', ' ']);
        }
        let ghost fields = self.headers.fields();
        let mut s = self.first_line.to_string();
        s.append("\r\n");
        let ghost start = s@;
        let n: usize = self.headers.len();
        let mut i: usize = 0;
        assert(fields.take(0) =~= seq![]);
        assert(start + fields_text(fields.take(0)) =~= start);
        while i < n
            invariant
                i <= n == fields.len(),
                fields == self.headers.fields(),
                "\r\n"@ == crlf(),
                ": "@ == seq![':', ' '],
                s@ == start + fields_text(fields.take(i as int)),
            decreases n - i,
        {
            let (name, value) = self.headers.field(i);
            let ghost before = s@;
            s.append(name);
            s.append(": ");
            s.append(value);
            s.append("\r\n");
            i += 1;
            proof {
                assert(fields.take(i as int).drop_last() =~= fields.take(i - 1));
                assert(s@ =~= start + fields_text(fields.take(i as int)));
            }
        }
        assert(fields.take(n as int) =~= fields);
        s.append("\r\n");
        if let Some(body) = &self.body {
            s.append(body.as_str());
            s.append("\r\n");
        }
        assert(s@ =~= self.text());
        s
    }
}

} // verus!
