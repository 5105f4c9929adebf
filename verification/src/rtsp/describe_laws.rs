//! What the client finds in a session description, said over the positions in it.

use vstd::prelude::*;

use crate::rtsp::describe::{
    can_describe_spec, described, first_attribute, first_line, first_media, is_description_line,
    is_readable_spec, lemma_first_line_bound, lemma_readable_part, line_behind_stray,
    readable_part_spec, session_of, unreadable_line_spec, video_track_spec, without_return,
    AttributeView, DescribeError, MediaView,
};
use crate::rtsp::message::{MessageView, StatusLineView};
use crate::rtsp::stream::{described_track, StreamError, TrackError};
use crate::text::{join_spec, split_spec};
use crate::text_laws::lemma_join;
use crate::text_lemmas::{lemma_join_in_parts, lemma_join_split};

verus! {

proof fn lemma_first_media_at(medias: Seq<MediaView>, media: Seq<char>, i: int)
    requires
        0 <= i <= medias.len(),
        forall|k: int| 0 <= k < i ==> (#[trigger] medias[k]).0 != media,
        i < medias.len() ==> medias[i].0 == media,
    ensures
        i < medias.len() ==> first_media(medias, media) == Some(medias[i]),
        i == medias.len() ==> first_media(medias, media) is None,
    decreases i,
{
    if i > 0 {
        let rest = medias.drop_first();
        assert(medias[0].0 != media);
        assert forall|k: int| 0 <= k < i - 1 implies (#[trigger] rest[k]).0 != media by {
            assert(rest[k] == medias[k + 1]);
        }
        lemma_first_media_at(rest, media, i - 1);
    }
}

proof fn lemma_first_attribute_at(attributes: Seq<AttributeView>, name: Seq<char>, k: int)
    requires
        0 <= k <= attributes.len(),
        forall|j: int| 0 <= j < k ==> (#[trigger] attributes[j]).0 != name,
        k < attributes.len() ==> attributes[k].0 == name,
    ensures
        k < attributes.len() ==> first_attribute(attributes, name) == Some(attributes[k]),
        k == attributes.len() ==> first_attribute(attributes, name) is None,
    decreases k,
{
    if k > 0 {
        let rest = attributes.drop_first();
        assert(attributes[0].0 != name);
        assert forall|j: int| 0 <= j < k - 1 implies (#[trigger] rest[j]).0 != name by {
            assert(rest[j] == attributes[j + 1]);
        }
        lemma_first_attribute_at(rest, name, k - 1);
    }
}

/// The video track is, character for character, the value of the first `control` attribute of the
/// first `video` media description.
pub proof fn lemma_video_track(medias: Seq<MediaView>, i: int, k: int)
    requires
        0 <= i < medias.len(),
        medias[i].0 == "video"@,
        forall|j: int| 0 <= j < i ==> (#[trigger] medias[j]).0 != "video"@,
        0 <= k < medias[i].1.len(),
        medias[i].1[k].0 == "control"@,
        forall|j: int| 0 <= j < k ==> (#[trigger] medias[i].1[j]).0 != "control"@,
    ensures
        video_track_spec(medias) == medias[i].1[k].1,
{
    lemma_first_media_at(medias, "video"@, i);
    lemma_first_attribute_at(medias[i].1, "control"@, k);
}

/// There is no video track where no media description is for video, or where the first one that is
/// has no `control` attribute, whatever the others have.
pub proof fn lemma_no_video_track(medias: Seq<MediaView>, i: int)
    requires
        0 <= i <= medias.len(),
        forall|j: int| 0 <= j < i ==> (#[trigger] medias[j]).0 != "video"@,
        i < medias.len() ==> medias[i].0 == "video"@ && forall|j: int|
            0 <= j < medias[i].1.len() ==> (#[trigger] medias[i].1[j]).0 != "control"@,
    ensures
        video_track_spec(medias) is None,
{
    lemma_first_media_at(medias, "video"@, i);
    if i < medias.len() {
        lemma_first_attribute_at(medias[i].1, "control"@, medias[i].1.len() as int);
    }
}

/// A response to DESCRIBE gives the video track of the session that its body describes; without a
/// body there is no version, and the description parser's error is the response's.
pub proof fn lemma_described_track(response: MessageView<StatusLineView>, body: Seq<char>)
    ensures
        response.body is None ==> described_track(response) == Err::<Seq<char>, _>(
            TrackError::Description(DescribeError::<Seq<char>>::NoVersion),
        ),
        response.body == Some(body) && is_readable_spec(body) ==> match session_of(body) {
            Err(error) => described_track(response) == Err::<Seq<char>, _>(
                TrackError::Description(error),
            ),
            Ok(medias) => match video_track_spec(medias) {
                Some(track) => described_track(response) == Ok::<_, TrackError<Seq<char>>>(track),
                None => described_track(response) == Err::<Seq<char>, _>(
                    TrackError::<Seq<char>>::Stream(StreamError::NoVideo),
                ),
            },
        },
        described(Some(body)) == session_of(readable_part_spec(body)),
        is_readable_spec(body) ==> described(Some(body)) == session_of(body),
        can_describe_spec(None),
        can_describe_spec(Some(body)) == (is_readable_spec(body) || session_of(
            readable_part_spec(body),
        ) is Err),
        response.body == Some(body) ==> match session_of(readable_part_spec(body)) {
            Err(error) => described_track(response) == Err::<Seq<char>, _>(
                TrackError::Description(error),
            ),
            Ok(medias) => described_track(response) == (match video_track_spec(medias) {
                Some(track) => Ok::<_, TrackError<Seq<char>>>(track),
                None => Err(TrackError::Stream(StreamError::NoVideo)),
            }),
        },
{
}

/// What can be read of a body is where it starts; it is all of the body exactly where the body can
/// be read whole, and else it ends with a line end.
pub proof fn lemma_readable_part_is_prefix(body: Seq<char>)
    ensures
        ({
            let part = readable_part_spec(body);
            &&& part.len() <= body.len()
            &&& part == body.take(part.len() as int)
            &&& is_readable_spec(body) ==> part == body
            &&& !is_readable_spec(body) ==> part.len() > 0 && part.last() == '\n'
        }),
{
    let part = readable_part_spec(body);
    if let Some(k) = unreadable_line_spec(body) {
        let lines = split_spec(body, seq!['\n']);
        lemma_readable_part(body);
        lemma_join_split(body, seq!['\n']);
        lemma_join_in_parts(lines, k, seq!['\n']);
        lemma_join(lines.take(k), seq![], seq!['\n']);
        let front = join_spec(lines.take(k), seq!['\n']);
        assert(part =~= front + seq!['\n']);
        assert(part =~= body.take(part.len() as int));
    } else {
        assert(part =~= body.take(part.len() as int));
    }
}

/// Whether a line of a body is of the form `type=value`, with a type of one character.
pub open spec fn has_type(line: Seq<char>) -> bool {
    &&& line.len() >= 2
    &&& line[0] as int <= 127
    &&& line[0] != '='
    &&& line[1] == '='
}

/// Whether a line of a body is empty but for a carriage return at its end.
pub open spec fn is_blank(line: Seq<char>) -> bool {
    line.len() == 0 || line == seq!['\r']
}

proof fn lemma_line_forms(line: Seq<char>)
    ensures
        (without_return(line).len() == 0) == is_blank(line),
        !is_blank(line) ==> is_description_line(without_return(line)) == has_type(line),
        !is_blank(line) ==> without_return(line)[0] == line[0],
{
    if line.len() == 1 && line[0] == '\r' {
        assert(line =~= seq!['\r']);
    }
    if line.len() > 0 && line.last() == '\r' {
        let stripped = line.drop_last();
        if line.len() > 1 {
            assert(stripped[0] == line[0]);
        }
        if line.len() > 2 {
            assert(stripped[1] == line[1]);
        }
    }
}

proof fn lemma_nothing_stray(lines: Seq<Seq<char>>, i: int)
    requires
        0 <= i,
        forall|k: int|
            i <= k < lines.len() ==> is_blank(#[trigger] lines[k]) || has_type(lines[k]),
    ensures
        line_behind_stray(lines, i, false) is None,
    decreases lines.len() - i,
{
    if i < lines.len() {
        lemma_line_forms(lines[i]);
        assert(is_blank(lines[i]) || has_type(lines[i]));
        lemma_nothing_stray(lines, i + 1);
    }
}

/// A body whose lines all are of the form `type=value`, or empty, can be read whole.
pub proof fn lemma_ordinary_body_is_readable(body: Seq<char>)
    requires
        forall|k: int|
            0 <= k < split_spec(body, seq!['\n']).len() ==> is_blank(
                #[trigger] split_spec(body, seq!['\n'])[k],
            ) || has_type(split_spec(body, seq!['\n'])[k]),
    ensures
        is_readable_spec(body),
        readable_part_spec(body) == body,
{
    let lines = split_spec(body, seq!['\n']);
    lemma_first_line_bound(lines, 0);
    lemma_nothing_stray(lines, first_line(lines, 0) + 1);
}

proof fn lemma_first_line_at(lines: Seq<Seq<char>>, i: int, first: int)
    requires
        0 <= i <= first < lines.len(),
        forall|j: int| i <= j < first ==> is_blank(#[trigger] lines[j]),
        !is_blank(lines[first]),
    ensures
        first_line(lines, i) == first,
    decreases first - i,
{
    lemma_line_forms(lines[i]);
    if i < first {
        assert(is_blank(lines[i]));
        lemma_first_line_at(lines, i + 1, first);
    }
}

/// A body whose first line that is not empty is another one than the version line can be read
/// whole: nothing behind that line is looked at.
pub proof fn lemma_body_of_another_version(body: Seq<char>, first: int)
    requires
        ({
            let lines = split_spec(body, seq!['\n']);
            &&& 0 <= first < lines.len()
            &&& forall|j: int| 0 <= j < first ==> is_blank(#[trigger] lines[j])
            &&& !is_blank(lines[first])
            &&& lines[first] != seq!['v', '=', '0']
            &&& lines[first] != seq!['v', '=', '0', '\r']
        }),
    ensures
        is_readable_spec(body),
        readable_part_spec(body) == body,
{
    let line = split_spec(body, seq!['\n'])[first];
    reveal_strlit("v=0");
    assert("v=0"@ =~= seq!['v', '=', '0']);
    lemma_first_line_at(split_spec(body, seq!['\n']), 0, first);
    if without_return(line) == "v=0"@ {
        if line.last() == '\r' {
            assert(line =~= line.drop_last().push('\r'));
            assert(line =~= seq!['v', '=', '0', '\r']);
        }
    }
}

/// Whether a line is neither empty nor of the form `type=value`.
pub open spec fn is_stray(line: Seq<char>) -> bool {
    !is_blank(line) && !has_type(line)
}

/// Whether, from line `from` on, the last line before line `i` that is not empty is a stray one.
pub open spec fn stray_before(lines: Seq<Seq<char>>, from: int, i: int) -> bool {
    exists|s: int|
        from <= s < i && is_stray(#[trigger] lines[s]) && forall|j: int|
            s < j < i ==> is_blank(#[trigger] lines[j])
}

/// Whether line `k` has a stray line in front of it and starts no media description.
pub open spec fn must_not_come(lines: Seq<Seq<char>>, from: int, k: int) -> bool {
    !is_blank(lines[k]) && has_type(lines[k]) && lines[k][0] != 'm' && stray_before(lines, from, k)
}

/// Whether line `k` is the second of two stray lines in a row.
pub open spec fn is_second_stray(lines: Seq<Seq<char>>, from: int, k: int) -> bool {
    is_stray(lines[k]) && stray_before(lines, from, k)
}

proof fn lemma_stray_before_next(lines: Seq<Seq<char>>, from: int, i: int)
    requires
        0 <= from <= i < lines.len(),
    ensures
        stray_before(lines, from, i + 1) == (if is_blank(lines[i]) {
            stray_before(lines, from, i)
        } else {
            is_stray(lines[i])
        }),
        !stray_before(lines, from, from),
{
    if is_blank(lines[i]) {
        if stray_before(lines, from, i + 1) {
            let s = choose|s: int|
                from <= s < i + 1 && is_stray(#[trigger] lines[s]) && forall|j: int|
                    s < j < i + 1 ==> is_blank(#[trigger] lines[j]);
            assert(s < i);
            assert(from <= s < i && is_stray(lines[s]));
        }
        if stray_before(lines, from, i) {
            let s = choose|s: int|
                from <= s < i && is_stray(#[trigger] lines[s]) && forall|j: int|
                    s < j < i ==> is_blank(#[trigger] lines[j]);
            assert(from <= s < i + 1 && is_stray(lines[s]));
        }
    } else {
        if stray_before(lines, from, i + 1) {
            let s = choose|s: int|
                from <= s < i + 1 && is_stray(#[trigger] lines[s]) && forall|j: int|
                    s < j < i + 1 ==> is_blank(#[trigger] lines[j]);
            if s < i {
                assert(is_blank(lines[i]));
            }
        }
        if is_stray(lines[i]) {
            assert(from <= i < i + 1 && is_stray(lines[i]));
        }
    }
}

proof fn lemma_line_behind_stray_is(lines: Seq<Seq<char>>, from: int, i: int, stray: bool)
    requires
        0 <= from <= i <= lines.len(),
        stray == stray_before(lines, from, i),
        forall|j: int| from <= j < i ==> !(#[trigger] must_not_come(lines, from, j)),
        forall|j: int| from <= j < i ==> !(#[trigger] is_second_stray(lines, from, j)),
    ensures
        match line_behind_stray(lines, i, stray) {
            Some(k) => {
                &&& from <= k < lines.len()
                &&& must_not_come(lines, from, k)
                &&& forall|j: int| from <= j < k ==> !(#[trigger] must_not_come(lines, from, j))
                &&& forall|j: int| from <= j < k ==> !(#[trigger] is_second_stray(lines, from, j))
            },
            None => forall|k: int|
                from <= k < lines.len() && #[trigger] must_not_come(lines, from, k) ==> exists|
                    t: int,
                |
                    from <= t < k && #[trigger] is_second_stray(lines, from, t),
        },
    decreases lines.len() - i,
{
    if i < lines.len() {
        lemma_line_forms(lines[i]);
        lemma_stray_before_next(lines, from, i);
        let line = lines[i];
        if is_stray(line) && stray {
            assert(is_second_stray(lines, from, i));
            assert forall|k: int|
                from <= k < lines.len() && #[trigger] must_not_come(lines, from, k) implies exists|
                t: int,
            |
                from <= t < k && #[trigger] is_second_stray(lines, from, t) by {
                assert(k > i);
                assert(from <= i < k && is_second_stray(lines, from, i));
            }
        } else if !must_not_come(lines, from, i) {
            assert(!is_second_stray(lines, from, i));
            lemma_line_behind_stray_is(lines, from, i + 1, stray_before(lines, from, i + 1));
        }
    }
}

/// What the description parser must not come to, in full: behind the version line, the first line
/// with a stray line in front of it that starts no media description, unless two stray lines in a
/// row stand before it. A stray line in front of a media description does no harm.
pub proof fn lemma_unreadable_line_is(body: Seq<char>, version: int)
    requires
        ({
            let lines = split_spec(body, seq!['\n']);
            &&& 0 <= version < lines.len()
            &&& forall|j: int| 0 <= j < version ==> is_blank(#[trigger] lines[j])
            &&& lines[version] == seq!['v', '=', '0'] || lines[version] == seq![
                'v',
                '=',
                '0',
                '\r',
            ]
        }),
    ensures
        ({
            let lines = split_spec(body, seq!['\n']);
            let from = version + 1;
            match unreadable_line_spec(body) {
                Some(k) => {
                    &&& from <= k < lines.len()
                    &&& must_not_come(lines, from, k)
                    &&& forall|j: int|
                        from <= j < k ==> !(#[trigger] must_not_come(lines, from, j))
                    &&& forall|j: int|
                        from <= j < k ==> !(#[trigger] is_second_stray(lines, from, j))
                    &&& readable_part_spec(body) == join_spec(lines.take(k), seq!['\n'])
                        + seq!['\n']
                },
                None => {
                    &&& readable_part_spec(body) == body
                    &&& forall|k: int|
                        from <= k < lines.len() && #[trigger] must_not_come(lines, from, k)
                            ==> exists|t: int|
                            from <= t < k && #[trigger] is_second_stray(lines, from, t)
                },
            }
        }),
{
    let lines = split_spec(body, seq!['\n']);
    let from = version + 1;
    reveal_strlit("v=0");
    assert("v=0"@ =~= seq!['v', '=', '0']);
    assert(without_return(lines[version]) =~= "v=0"@);
    lemma_first_line_at(lines, 0, version);
    assert(!stray_before(lines, from, from));
    lemma_line_behind_stray_is(lines, from, from, false);
    if let Some(k) = unreadable_line_spec(body) {
        let s = choose|s: int|
            from <= s < k && is_stray(#[trigger] lines[s]) && forall|j: int|
                s < j < k ==> is_blank(#[trigger] lines[j]);
        assert(k > 0);
        lemma_join(lines.take(k), seq![], seq!['\n']);
        assert(readable_part_spec(body) =~= join_spec(lines.take(k), seq!['\n']) + seq!['\n']);
    }
}

} // verus!
