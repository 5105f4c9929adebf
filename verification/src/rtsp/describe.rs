//! The response to a DESCRIBE request, and the session description in its body.

use vstd::prelude::*;

use crate::rtsp::message::{optional_text, RtspResponse};
use crate::text::{
    chars, find_spec, join_from, join_spec, same_text, split, split_spec, texts,
};
use crate::text_lemmas::{lemma_char_not_found, lemma_split_join, lemma_split_pieces};

verus! {

/// An attribute of a media description.
#[derive(Debug)]
pub struct Attribute {
    pub attribute: String,
    pub value: Option<String>,
}

/// A media description.
#[derive(Debug)]
pub struct Media {
    /// The type of the media, such as "video".
    pub media: String,
    pub attributes: Vec<Attribute>,
}

/// What the client reads of a session description.
#[derive(Debug)]
pub struct SessionDescription {
    pub medias: Vec<Media>,
}

/// An attribute as plain values: its name and its value.
pub type AttributeView = (Seq<char>, Option<Seq<char>>);

/// A media description as plain values: its type and its attributes.
pub type MediaView = (Seq<char>, Seq<AttributeView>);

impl View for Attribute {
    type V = AttributeView;

    open spec fn view(&self) -> AttributeView {
        (self.attribute@, optional_text(self.value))
    }
}

impl View for Media {
    type V = MediaView;

    open spec fn view(&self) -> MediaView {
        (self.media@, self.attributes@.map_values(|attribute: Attribute| attribute@))
    }
}

impl View for SessionDescription {
    type V = Seq<MediaView>;

    open spec fn view(&self) -> Seq<MediaView> {
        self.medias@.map_values(|media: Media| media@)
    }
}

/// A line without the carriage return that it may end with.
pub open spec fn without_return(line: Seq<char>) -> Seq<char> {
    if line.len() > 0 && line.last() == '\r' {
        line.drop_last()
    } else {
        line
    }
}

/// Whether a line has the form of a description line: a type of one character, an equals sign,
/// and a value.
pub open spec fn is_description_line(line: Seq<char>) -> bool {
    line.len() >= 2 && line[0] <= '\u{7f}' && line[0] != '=' && line[1] == '='
}

/// The index of the first description line from index `i` on that does not start a media
/// description and has a line of another form right in front of it. `stray` says whether line `i`
/// has such a line in front of it; two of them in a row are an error, and nothing behind them is
/// read.
pub open spec fn line_behind_stray(lines: Seq<Seq<char>>, i: int, stray: bool) -> Option<int>
    decreases lines.len() - i,
{
    if i >= lines.len() {
        None
    } else {
        let line = without_return(lines[i]);
        if line.len() == 0 {
            line_behind_stray(lines, i + 1, stray)
        } else if !is_description_line(line) {
            if stray {
                None
            } else {
                line_behind_stray(lines, i + 1, true)
            }
        } else if stray && line[0] != 'm' {
            Some(i)
        } else {
            line_behind_stray(lines, i + 1, false)
        }
    }
}

/// The index of the first line from index `i` on that is not empty, or the number of lines.
pub open spec fn first_line(lines: Seq<Seq<char>>, i: int) -> int
    decreases lines.len() - i,
{
    if i >= lines.len() {
        lines.len() as int
    } else if without_return(lines[i]).len() == 0 {
        first_line(lines, i + 1)
    } else {
        i
    }
}

/// The index of the line of a body that the description parser must not come to: behind the
/// version line, the first one with a stray line in front of it. Where the body does not begin with
/// the version line, that is an error, and nothing more is read.
pub open spec fn unreadable_line_spec(body: Seq<char>) -> Option<int> {
    let lines = split_spec(body, seq!['\n']);
    let first = first_line(lines, 0);
    if first < lines.len() && without_return(lines[first]) == "v=0"@ {
        line_behind_stray(lines, first + 1, false)
    } else {
        None
    }
}

/// Whether a body can be handed to the description parser whole.
pub open spec fn is_readable_spec(body: Seq<char>) -> bool {
    unreadable_line_spec(body) is None
}

/// What of a body can be handed to the description parser: all of it, or the lines before the one
/// that the parser must not come to, each with its end. The parser reads lines in order and finds
/// no fault in the end of the text, so an error that it returns for this part is the one for the
/// whole body.
pub open spec fn readable_part_spec(body: Seq<char>) -> Seq<char> {
    match unreadable_line_spec(body) {
        None => body,
        Some(k) => join_spec(split_spec(body, seq!['\n']).take(k).push(seq![]), seq!['\n']),
    }
}

/// Why a response to DESCRIBE describes no session; `T` is the type of the parser's message.
#[derive(Debug, PartialEq, Eq)]
pub enum DescribeError<T> {
    /// There is no version line, or no body that could hold one.
    NoVersion,
    /// The body is no session description. The parser's message names the line and what is wrong
    /// with it.
    Malformed(T),
}

impl View for DescribeError<String> {
    type V = DescribeError<Seq<char>>;

    open spec fn view(&self) -> DescribeError<Seq<char>> {
        match self {
            DescribeError::NoVersion => DescribeError::NoVersion,
            DescribeError::Malformed(message) => DescribeError::Malformed(message@),
        }
    }
}

/// The media descriptions in a session description of the Session Description Protocol, or the
/// reason why the text is none.
pub uninterp spec fn session_of(body: Seq<char>) -> Result<
    Seq<MediaView>,
    DescribeError<Seq<char>>,
>;

/// `sdp_types::Session::parse` on the UTF-8 bytes of the text: of the session that it returns the
/// `medias`, with the `media` and the `attributes` of each; of another error than `NoVersion` its
/// message, which tells any two of them apart. The contract says that they depend on the text
/// alone. The outside function panics where a line that is not of the form `type=value` has been
/// passed over and what follows starts no media description. The precondition leaves out every
/// text with such lines, also where an error in a line before them would be returned first; its
/// callers hand over what stands before them.
#[verifier::external_body]
fn parse_session(body: &str) -> (r: Result<SessionDescription, DescribeError<String>>)
    requires
        is_readable_spec(body@),
    ensures
        match r {
            Ok(session) => session_of(body@) == Ok::<_, DescribeError<Seq<char>>>(session@),
            Err(error) => session_of(body@) == Err::<Seq<MediaView>, _>(error@),
        },
{
    let session = sdp_types::Session::parse(body.as_bytes()).map_err(|error| match error {
        sdp_types::ParserError::NoVersion => DescribeError::NoVersion,
        error => DescribeError::Malformed(error.to_string()),
    })?;
    let attribute = |a: sdp_types::Attribute| Attribute { attribute: a.attribute, value: a.value };
    let media = |m: sdp_types::Media| Media {
        media: m.media,
        attributes: m.attributes.into_iter().map(attribute).collect(),
    };
    Ok(SessionDescription { medias: session.medias.into_iter().map(media).collect() })
}

proof fn lemma_line_behind_stray(lines: Seq<Seq<char>>, i: int, stray: bool)
    requires
        0 <= i,
    ensures
        line_behind_stray(lines, i, stray) matches Some(k) ==> i <= k < lines.len()
            && line_behind_stray(lines.take(k).push(seq![]), i, stray) is None,
    decreases lines.len() - i,
{
    if let Some(k) = line_behind_stray(lines, i, stray) {
        let front = lines.take(k).push(seq![]);
        let line = without_return(lines[i]);
        if line.len() == 0 {
            lemma_line_behind_stray(lines, i + 1, stray);
        } else if !is_description_line(line) {
            lemma_line_behind_stray(lines, i + 1, true);
        } else if stray && line[0] != 'm' {
            assert(front[i].len() == 0);
            assert(line_behind_stray(front, i + 1, stray) is None);
        } else {
            lemma_line_behind_stray(lines, i + 1, false);
        }
        if i < k {
            assert(front[i] == lines[i]);
        }
    }
}

/// The first line that is not empty is one of the lines, or there is none.
pub proof fn lemma_first_line_bound(lines: Seq<Seq<char>>, i: int)
    requires
        0 <= i <= lines.len(),
    ensures
        i <= first_line(lines, i) <= lines.len(),
    decreases lines.len() - i,
{
    if i < lines.len() && without_return(lines[i]).len() == 0 {
        lemma_first_line_bound(lines, i + 1);
    }
}

proof fn lemma_first_line(lines: Seq<Seq<char>>, front: Seq<Seq<char>>, i: int)
    requires
        0 <= i,
        first_line(lines, i) < front.len() - 1 < lines.len(),
        forall|k: int| 0 <= k < front.len() - 1 ==> #[trigger] front[k] == lines[k],
    ensures
        i <= first_line(lines, i),
        first_line(front, i) == first_line(lines, i),
    decreases lines.len() - i,
{
    if i < lines.len() && without_return(lines[i]).len() == 0 {
        lemma_first_line(lines, front, i + 1);
        assert(front[i] == lines[i]);
    } else if i < lines.len() {
        assert(front[i] == lines[i]);
    }
}

/// The readable part of a body can be handed to the description parser.
pub proof fn lemma_readable_part(body: Seq<char>)
    ensures
        is_readable_spec(readable_part_spec(body)),
        unreadable_line_spec(body) matches Some(k) ==> 0 < k < split_spec(
            body,
            seq!['\n'],
        ).len(),
{
    if let Some(k) = unreadable_line_spec(body) {
        let lines = split_spec(body, seq!['\n']);
        let front = lines.take(k).push(seq![]);
        let first = first_line(lines, 0);
        lemma_first_line_bound(lines, 0);
        lemma_line_behind_stray(lines, first + 1, false);
        lemma_split_pieces(body, seq!['\n']);
        let none: Seq<char> = seq![];
        lemma_char_not_found(none, '\n');
        assert forall|i: int| 0 <= i < front.len() implies find_spec(
            #[trigger] front[i],
            seq!['\n'],
        ) is None by {
            if i < k {
                assert(front[i] == lines[i]);
            }
        }
        lemma_split_join(front, seq!['\n']);
        lemma_first_line(lines, front, 0);
    }
}

/// The index of the line of a body that the description parser must not come to.
fn unreadable_line(body: &str) -> (r: Option<usize>)
    ensures
        match r {
            Some(k) => unreadable_line_spec(body@) == Some(k as int),
            None => unreadable_line_spec(body@) is None,
        },
{
    proof {
        reveal_strlit("\n");
        assert("\n"@ =~= seq!['\n']);
    }
    let lines = split(body, "\n");
    let ghost all = texts(lines@);
    let ghost first = first_line(all, 0);
    let mut i: usize = 0;
    let mut at_version: bool = true;
    let mut stray: bool = false;
    while i < lines.len()
        invariant
            i <= lines.len(),
            all == texts(lines@),
            all == split_spec(body@, seq!['\n']),
            first == first_line(all, 0),
            at_version ==> !stray && first == first_line(all, i as int),
            !at_version ==> first < lines.len() && without_return(all[first]) == "v=0"@
                && line_behind_stray(all, first + 1, false) == line_behind_stray(
                all,
                i as int,
                stray,
            ),
        decreases lines.len() - i,
    {
        proof {
            reveal_strlit("v=0");
        }
        let line = chars(lines[i]);
        assert(all[i as int] == line@);
        let n: usize = if line.len() > 0 && line[line.len() - 1] == '\r' {
            line.len() - 1
        } else {
            line.len()
        };
        let ghost stripped = without_return(all[i as int]);
        assert(stripped =~= line@.take(n as int));
        assert(forall|k: int| 0 <= k < n ==> #[trigger] stripped[k] == line@[k]);
        if n > 0 {
            if at_version {
                if !(n == 3 && line[0] == 'v' && line[1] == '=' && line[2] == '0') {
                    assert(stripped != "v=0"@) by {
                        if stripped == "v=0"@ {
                            assert(stripped.len() == n);
                            assert(stripped[0] == 'v' && stripped[1] == '=' && stripped[2] == '0');
                        }
                    }
                    return None;
                }
                assert(stripped =~= "v=0"@);
                at_version = false;
            } else if !(n >= 2 && line[0] <= '\u{7f}' && line[0] != '=' && line[1] == '=') {
                if stray {
                    return None;
                }
                stray = true;
            } else if stray && line[0] != 'm' {
                return Some(i);
            } else {
                stray = false;
            }
        }
        i += 1;
    }
    None
}

/// Whether a body can be handed to the description parser whole.
pub fn is_readable(body: &str) -> (r: bool)
    ensures
        r == is_readable_spec(body@),
{
    unreadable_line(body).is_none()
}

/// What of a body can be handed to the description parser.
pub fn readable_part(body: &str) -> (r: String)
    ensures
        r@ == readable_part_spec(body@),
{
    match unreadable_line(body) {
        None => body.to_owned(),
        Some(k) => {
            proof {
                reveal_strlit("\n");
                assert("\n"@ =~= seq!['\n']);
                reveal_strlit("");
                assert(""@ =~= seq![]);
                lemma_readable_part(body@);
            }
            let mut lines = split(body, "\n");
            let ghost all = texts(lines@);
            lines.truncate(k);
            lines.push("");
            assert(texts(lines@).skip(0) =~= all.take(k as int).push(seq![]));
            join_from(&lines, 0, "\n")
        },
    }
}

/// A response to DESCRIBE, with the session that it describes.
#[derive(Debug)]
pub struct DescribeResponse {
    pub response: RtspResponse,
    pub sdp_session: SessionDescription,
}

/// What the body of a response to DESCRIBE describes.
pub open spec fn described(body: Option<Seq<char>>) -> Result<
    Seq<MediaView>,
    DescribeError<Seq<char>>,
> {
    match body {
        None => Err(DescribeError::NoVersion),
        Some(body) => session_of(readable_part_spec(body)),
    }
}

/// Whether the description parser comes to an end on a body: it can be handed over whole, or the
/// part of it that can holds an error.
pub open spec fn can_describe_spec(body: Option<Seq<char>>) -> bool {
    body matches Some(body) ==> is_readable_spec(body) || session_of(
        readable_part_spec(body),
    ) is Err
}

/// Whether the description parser comes to an end on the body of a response.
pub fn can_describe(response: &RtspResponse) -> (r: bool)
    ensures
        r == can_describe_spec(response@.body),
{
    match &response.body {
        Some(body) => {
            proof {
                lemma_readable_part(body@);
            }
            let part = readable_part(body.as_str());
            is_readable(body.as_str()) || parse_session(part.as_str()).is_err()
        },
        None => true,
    }
}

/// The first media description of the given type.
pub open spec fn first_media(medias: Seq<MediaView>, media: Seq<char>) -> Option<MediaView>
    decreases medias.len(),
{
    if medias.len() == 0 {
        None
    } else if medias[0].0 == media {
        Some(medias[0])
    } else {
        first_media(medias.drop_first(), media)
    }
}

/// The first attribute of the given name.
pub open spec fn first_attribute(
    attributes: Seq<AttributeView>,
    attribute: Seq<char>,
) -> Option<AttributeView>
    decreases attributes.len(),
{
    if attributes.len() == 0 {
        None
    } else if attributes[0].0 == attribute {
        Some(attributes[0])
    } else {
        first_attribute(attributes.drop_first(), attribute)
    }
}

/// The track of a session's video: the value of the first `control` attribute of the first
/// `video` media description.
pub open spec fn video_track_spec(medias: Seq<MediaView>) -> Option<Seq<char>> {
    match first_media(medias, "video"@) {
        None => None,
        Some(media) => match first_attribute(media.1, "control"@) {
            None => None,
            Some(attribute) => attribute.1,
        },
    }
}

impl DescribeResponse {
    /// Reads the session description in the body of a response.
    pub fn try_from(response: RtspResponse) -> (r: Result<DescribeResponse, DescribeError<String>>)
        requires
            can_describe_spec(response@.body),
        ensures
            match r {
                Ok(describe) => described(response@.body) == Ok::<_, DescribeError<Seq<char>>>(
                    describe.sdp_session@,
                ) && describe.response == response,
                Err(error) => described(response@.body) == Err::<Seq<MediaView>, _>(error@),
            },
    {
        match &response.body {
            Some(body) => {
                proof {
                    lemma_readable_part(body@);
                }
                match parse_session(readable_part(body.as_str()).as_str()) {
                    Ok(sdp_session) => Ok(DescribeResponse { response, sdp_session }),
                    Err(error) => Err(error),
                }
            },
            None => Err(DescribeError::NoVersion),
        }
    }

    /// The session that is described.
    pub fn session(&self) -> (r: &SessionDescription)
        ensures
            *r == self.sdp_session,
    {
        &self.sdp_session
    }
}

impl SessionDescription {
    /// The track of the session's video.
    pub fn video_track(&self) -> (r: Option<&str>)
        ensures
            match video_track_spec(self@) {
                Some(track) => r matches Some(t) && t@ == track,
                None => r is None,
            },
    {
        let ghost medias = self@;
        let mut i: usize = 0;
        assert(medias.skip(0) =~= medias);
        while i < self.medias.len() && !same_text(self.medias[i].media.as_str(), "video")
            invariant
                i <= self.medias.len(),
                medias == self@,
                first_media(medias, "video"@) == first_media(medias.skip(i as int), "video"@),
            decreases self.medias.len() - i,
        {
            assert(medias.skip(i as int).drop_first() =~= medias.skip(i + 1));
            i += 1;
        }
        if i == self.medias.len() {
            return None;
        }
        let attributes = &self.medias[i].attributes;
        let ghost views = medias[i as int].1;
        let mut k: usize = 0;
        assert(views.skip(0) =~= views);
        while k < attributes.len() && !same_text(attributes[k].attribute.as_str(), "control")
            invariant
                k <= attributes.len(),
                views == attributes@.map_values(|attribute: Attribute| attribute@),
                first_attribute(views, "control"@) == first_attribute(
                    views.skip(k as int),
                    "control"@,
                ),
            decreases attributes.len() - k,
        {
            assert(views.skip(k as int).drop_first() =~= views.skip(k + 1));
            k += 1;
        }
        if k == attributes.len() {
            return None;
        }
        match &attributes[k].value {
            Some(value) => Some(value.as_str()),
            None => None,
        }
    }
}

} // verus!
