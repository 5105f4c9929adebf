//! The buffer that a response is read into.

use vstd::prelude::*;

verus! {

/// What kept a socket from reading, as far as the reader tells it apart.
#[derive(Debug, Clone, Copy, PartialEq, Eq, Structural)]
pub enum ReadErrorKind {
    /// Nothing is there to be read yet.
    WouldBlock,
    /// The other side sends no more.
    UnexpectedEof,
    Other,
}

/// A response that is being read. What a read gives goes behind the bytes counted so far, where
/// the buffer has room for `buf_size` bytes.
#[derive(Debug)]
pub struct ResponseReader {
    buf: Vec<u8>,
    size: usize,
    buf_size: usize,
}

/// A reader as plain values.
#[verifier::ext_equal]
pub struct ReaderView {
    pub buf: Seq<u8>,
    /// How many bytes have been counted.
    pub size: nat,
    pub buf_size: nat,
}

impl View for ResponseReader {
    type V = ReaderView;

    closed spec fn view(&self) -> ReaderView {
        ReaderView {
            buf: self.buf@,
            size: self.size as nat,
            buf_size: self.buf_size as nat,
        }
    }
}

/// What follows a read.
#[derive(Debug)]
pub enum ReadStep {
    /// There may be more to read.
    More(ResponseReader),
    /// The response, complete.
    Done(Vec<u8>),
}

/// What follows a read, as plain values.
#[verifier::ext_equal]
pub enum ReadStepView {
    More(ReaderView),
    Done(Seq<u8>),
}

impl View for ReadStep {
    type V = ReadStepView;

    open spec fn view(&self) -> ReadStepView {
        match self {
            ReadStep::More(reader) => ReadStepView::More(reader@),
            ReadStep::Done(response) => ReadStepView::Done(response@),
        }
    }
}

/// `n` zero bytes.
pub open spec fn zeros(n: nat) -> Seq<u8> {
    Seq::new(n, |i: int| 0u8)
}

/// A reader that has read nothing.
pub open spec fn empty_reader(buf_size: nat) -> ReaderView {
    ReaderView { buf: zeros(buf_size), size: 0, buf_size }
}

/// What a reader makes of bytes that were read: they follow those counted so far. A read of
/// `buf_size` bytes may have left some behind; any other ends the response.
pub open spec fn after_data(reader: ReaderView, data: Seq<u8>) -> ReadStepView {
    let buf = reader.buf.take(reader.size as int) + data;
    if data.len() == reader.buf_size {
        ReadStepView::More(
            ReaderView {
                buf: buf + zeros(reader.buf_size),
                size: reader.size + data.len(),
                ..reader
            },
        )
    } else {
        ReadStepView::Done(buf)
    }
}

/// What a reader makes of a read that failed; `None` where it fails with it. The end of what is
/// sent ends the response if there is any of it.
pub open spec fn after_failure(reader: ReaderView, kind: ReadErrorKind) -> Option<ReadStepView> {
    match kind {
        ReadErrorKind::WouldBlock => Some(ReadStepView::More(reader)),
        ReadErrorKind::UnexpectedEof => if reader.size > 0 {
            Some(ReadStepView::Done(reader.buf.take(reader.size as int)))
        } else {
            None
        },
        ReadErrorKind::Other => None,
    }
}

impl ResponseReader {
    #[verifier::type_invariant]
    spec fn has_room(&self) -> bool {
        self.buf@.len() == self.size + self.buf_size
    }

    /// A reader that has read nothing.
    pub fn new(buf_size: usize) -> (r: ResponseReader)
        ensures
            r@ == empty_reader(buf_size as nat),
    {
        let buf = vec![0u8; buf_size];
        assert(buf@ =~= zeros(buf_size as nat));
        ResponseReader { buf, size: 0, buf_size }
    }

    /// How many bytes can be read at once.
    pub fn room(&self) -> (r: usize)
        ensures
            r == self@.buf_size,
    {
        self.buf_size
    }

    /// Takes in what a read gave.
    pub fn on_read<E>(self, read: Result<&[u8], (ReadErrorKind, E)>) -> (r: Result<ReadStep, E>)
        requires
            read matches Ok(data) ==> data@.len() <= self@.buf_size,
        ensures
            match read {
                Ok(data) => r matches Ok(step) && step@ == after_data(self@, data@),
                Err((kind, error)) => match after_failure(self@, kind) {
                    Some(after) => r matches Ok(step) && step@ == after,
                    None => r == Err::<ReadStep, _>(error),
                },
            },
    {
        proof {
            use_type_invariant(&self);
        }
        let ghost before = self@;
        let size: usize = self.size;
        let buf_size: usize = self.buf_size;
        match read {
            Ok(data) => {
                let mut buf = self.buf;
                buf.truncate(size);
                buf.extend_from_slice(data);
                assert(buf@ =~= before.buf.take(size as int) + data@);
                if data.len() == buf_size {
                    let size = buf.len();
                    let mut more = vec![0u8; buf_size];
                    assert(more@ =~= zeros(buf_size as nat));
                    buf.append(&mut more);
                    Ok(ReadStep::More(ResponseReader { buf, size, buf_size }))
                } else {
                    Ok(ReadStep::Done(buf))
                }
            },
            Err((kind, error)) => match kind {
                ReadErrorKind::WouldBlock => Ok(ReadStep::More(self)),
                ReadErrorKind::UnexpectedEof => {
                    if size > 0 {
                        let mut buf = self.buf;
                        buf.truncate(size);
                        Ok(ReadStep::Done(buf))
                    } else {
                        Err(error)
                    }
                },
                ReadErrorKind::Other => Err(error),
            },
        }
    }
}

/// What one read of a socket gives.
pub enum ReadEvent {
    Data(Seq<u8>),
    Failure(ReadErrorKind),
}

/// What follows one read; `None` where the reader fails with it.
pub open spec fn after_event(reader: ReaderView, event: ReadEvent) -> Option<ReadStepView> {
    match event {
        ReadEvent::Data(data) => Some(after_data(reader, data)),
        ReadEvent::Failure(kind) => after_failure(reader, kind),
    }
}

/// What follows several reads. Once the response is complete or the reader has failed, nothing
/// more is read.
pub open spec fn after_events(reader: ReaderView, events: Seq<ReadEvent>) -> Option<ReadStepView>
    decreases events.len(),
{
    if events.len() == 0 {
        Some(ReadStepView::More(reader))
    } else {
        match after_events(reader, events.drop_last()) {
            Some(ReadStepView::More(next)) => after_event(next, events.last()),
            ended => ended,
        }
    }
}

/// The bytes that several reads give, in the order received.
pub open spec fn received(events: Seq<ReadEvent>) -> Seq<u8>
    decreases events.len(),
{
    if events.len() == 0 {
        seq![]
    } else {
        let before = received(events.drop_last());
        match events.last() {
            ReadEvent::Data(data) => before + data,
            ReadEvent::Failure(_) => before,
        }
    }
}

/// Whether a read may leave bytes behind: it gives `buf_size` bytes, or finds none yet.
pub open spec fn goes_on(event: ReadEvent, buf_size: nat) -> bool {
    match event {
        ReadEvent::Data(data) => data.len() == buf_size,
        ReadEvent::Failure(kind) => kind == ReadErrorKind::WouldBlock,
    }
}

/// As long as reads may leave bytes behind, the reader holds every byte received, in order, and
/// has room for `buf_size` more.
pub proof fn lemma_reading_goes_on(buf_size: nat, events: Seq<ReadEvent>)
    requires
        forall|i: int| 0 <= i < events.len() ==> goes_on(#[trigger] events[i], buf_size),
    ensures
        after_events(empty_reader(buf_size), events) matches Some(ReadStepView::More(reader))
            && reader.buf == received(events) + zeros(buf_size) && reader.size == received(
            events,
        ).len() && reader.buf_size == buf_size,
    decreases events.len(),
{
    if events.len() == 0 {
        assert(received(events) + zeros(buf_size) =~= zeros(buf_size));
    } else {
        let front = events.drop_last();
        assert forall|i: int| 0 <= i < front.len() implies goes_on(
            #[trigger] front[i],
            buf_size,
        ) by {
            assert(front[i] == events[i]);
        }
        lemma_reading_goes_on(buf_size, front);
        assert(goes_on(events[events.len() - 1], buf_size));
        let so_far = received(front);
        assert((so_far + zeros(buf_size)).take(so_far.len() as int) =~= so_far);
    }
}

/// A response of any size is read as it was sent: after any number of reads that may leave bytes
/// behind, a shorter read or an empty one gives all bytes in the order received, and so does the
/// end of what is sent, if anything was.
pub proof fn lemma_response_is_read_whole(buf_size: nat, events: Seq<ReadEvent>, last: ReadEvent)
    requires
        forall|i: int| 0 <= i < events.len() ==> goes_on(#[trigger] events[i], buf_size),
        match last {
            ReadEvent::Data(data) => data.len() < buf_size,
            ReadEvent::Failure(kind) => kind == ReadErrorKind::UnexpectedEof && received(
                events,
            ).len() > 0,
        },
    ensures
        after_events(empty_reader(buf_size), events.push(last)) == Some(
            ReadStepView::Done(received(events.push(last))),
        ),
{
    let all = events.push(last);
    let so_far = received(events);
    lemma_reading_goes_on(buf_size, events);
    assert(all.drop_last() =~= events);
    assert((so_far + zeros(buf_size)).take(so_far.len() as int) =~= so_far);
}

/// What is read follows the bytes counted so far, and nothing else becomes of either: a full read
/// counts for them, and any other makes them the response, as the end of what is sent does.
pub proof fn lemma_read_bytes_follow(reader: ReaderView, data: Seq<u8>)
    requires
        reader.size <= reader.buf.len(),
    ensures
        ({
            let counted = reader.buf.subrange(0, reader.size as int);
            match after_data(reader, data) {
                ReadStepView::More(next) => {
                    &&& data.len() == reader.buf_size
                    &&& next.size == reader.size + data.len()
                    &&& next.size <= next.buf.len()
                    &&& next.buf.subrange(0, next.size as int) == counted + data
                    &&& next.buf_size == reader.buf_size
                },
                ReadStepView::Done(response) => data.len() != reader.buf_size && response == counted
                    + data,
            }
        }),
        reader.size > 0 ==> after_failure(reader, ReadErrorKind::UnexpectedEof) == Some(
            ReadStepView::Done(reader.buf.subrange(0, reader.size as int)),
        ),
{
    let counted = reader.buf.subrange(0, reader.size as int);
    assert(counted =~= reader.buf.take(reader.size as int));
    if let ReadStepView::More(next) = after_data(reader, data) {
        assert(next.buf.subrange(0, next.size as int) =~= counted + data);
    }
}

/// A read that finds nothing yet changes nothing. The end of what is sent is a failure where
/// nothing came before it, and every other failure is one.
pub proof fn lemma_read_failures(reader: ReaderView)
    ensures
        after_failure(reader, ReadErrorKind::WouldBlock) == Some(ReadStepView::More(reader)),
        after_failure(reader, ReadErrorKind::Other) is None,
        (after_failure(reader, ReadErrorKind::UnexpectedEof) is None) == (reader.size == 0),
        after_events(reader, seq![]) == Some(ReadStepView::More(reader)),
        empty_reader(reader.buf_size).size == 0,
{
}

} // verus!
