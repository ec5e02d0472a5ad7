//! Reading a file in pieces, one at a time.
use vstd::prelude::*;

verus! {

/// Where the file is.
#[derive(Clone, Copy, PartialEq, Eq, Structural, Debug)]
pub enum ReaderState {
    /// At hand.
    Ready,
    /// Given to a read that has not come back.
    Taken,
    /// Given to a piece that is being read in the background.
    Reading,
}

/// What to do when the next piece is asked for.
#[derive(Clone, Copy, PartialEq, Eq, Structural, Debug)]
pub enum ReadStart {
    /// Start reading a piece of at most so many bytes.
    Start(usize),
    /// Wait for the piece that is being read.
    Wait,
    /// The file is not at hand: it is read twice.
    DoubleRead,
}

/// How reading a piece ended.
#[derive(Clone, Copy, PartialEq, Eq, Structural, Debug)]
pub enum ReadEnd {
    /// With so many bytes.
    Bytes(usize),
    /// With an error of the file.
    FileError,
    /// The reader itself was lost, and the file with it.
    Lost,
}

/// What the reader is given.
#[derive(Clone, Copy, PartialEq, Eq, Structural, Debug)]
pub enum ReadResult {
    /// The piece.
    Piece,
    /// The file has ended.
    EndOfFile,
    /// An error.
    Error,
}

/// What the stream makes of a piece: an empty one ends it.
pub open spec fn stream_result(end: ReadEnd) -> ReadResult {
    match end {
        ReadEnd::Bytes(n) => if n == 0 {
            ReadResult::EndOfFile
        } else {
            ReadResult::Piece
        },
        _ => ReadResult::Error,
    }
}

/// Reads a file in pieces.
#[derive(Debug)]
pub struct FileReader {
    state: ReaderState,
    capacity: usize,
}

impl FileReader {
    /// Where the file is.
    pub closed spec fn at(&self) -> ReaderState {
        self.state
    }

    /// How long a piece can be.
    pub closed spec fn piece(&self) -> usize {
        self.capacity
    }

    /// The file is at hand.
    pub fn new(capacity: usize) -> (r: FileReader)
        ensures
            r.at() == ReaderState::Ready,
            r.piece() == capacity,
    {
        FileReader { state: ReaderState::Ready, capacity }
    }

    /// A single piece is asked for.
    pub fn read(&mut self) -> (r: ReadStart)
        ensures
            final(self).piece() == old(self).piece(),
            if old(self).at() == ReaderState::Ready {
                r == ReadStart::Start(old(self).piece()) && final(self).at() == ReaderState::Taken
            } else {
                r == ReadStart::DoubleRead && final(self).at() == old(self).at()
            },
    {
        match self.state {
            ReaderState::Ready => {
                self.state = ReaderState::Taken;
                ReadStart::Start(self.capacity)
            },
            _ => ReadStart::DoubleRead,
        }
    }

    /// A single piece was read. An empty one is handed on.
    pub fn read_done(&mut self, end: ReadEnd) -> (r: ReadResult)
        requires
            old(self).at() == ReaderState::Taken,
        ensures
            final(self).piece() == old(self).piece(),
            final(self).at() == if end == ReadEnd::Lost {
                ReaderState::Taken
            } else {
                ReaderState::Ready
            },
            r == if end is Bytes {
                ReadResult::Piece
            } else {
                ReadResult::Error
            },
    {
        match end {
            ReadEnd::Bytes(_) => {
                self.state = ReaderState::Ready;
                ReadResult::Piece
            },
            ReadEnd::FileError => {
                self.state = ReaderState::Ready;
                ReadResult::Error
            },
            ReadEnd::Lost => ReadResult::Error,
        }
    }

    /// The next piece of the stream is asked for.
    pub fn poll_next(&mut self) -> (r: ReadStart)
        ensures
            final(self).piece() == old(self).piece(),
            match old(self).at() {
                ReaderState::Ready => r == ReadStart::Start(old(self).piece()) && final(self).at()
                    == ReaderState::Reading,
                ReaderState::Taken => r == ReadStart::DoubleRead && final(self).at()
                    == ReaderState::Taken,
                ReaderState::Reading => r == ReadStart::Wait && final(self).at()
                    == ReaderState::Reading,
            },
    {
        match self.state {
            ReaderState::Ready => {
                self.state = ReaderState::Reading;
                ReadStart::Start(self.capacity)
            },
            ReaderState::Taken => ReadStart::DoubleRead,
            ReaderState::Reading => ReadStart::Wait,
        }
    }

    /// A piece of the stream was read. An empty one ends the stream.
    pub fn poll_done(&mut self, end: ReadEnd) -> (r: ReadResult)
        requires
            old(self).at() == ReaderState::Reading,
        ensures
            final(self).piece() == old(self).piece(),
            final(self).at() == if end == ReadEnd::Lost {
                ReaderState::Reading
            } else {
                ReaderState::Ready
            },
            r == stream_result(end),
    {
        match end {
            ReadEnd::Bytes(n) => {
                self.state = ReaderState::Ready;
                if n == 0 {
                    ReadResult::EndOfFile
                } else {
                    ReadResult::Piece
                }
            },
            ReadEnd::FileError => {
                self.state = ReaderState::Ready;
                ReadResult::Error
            },
            ReadEnd::Lost => ReadResult::Error,
        }
    }
}

/// How far into the file some reads have come. One that fails does not come any further.
pub open spec fn position(ends: Seq<ReadEnd>) -> int
    decreases ends.len(),
{
    if ends.len() == 0 {
        0
    } else {
        position(ends.drop_last()) + match ends.last() {
            ReadEnd::Bytes(n) => n as int,
            _ => 0,
        }
    }
}

/// Whether a file of some length can give such an end to a read that starts at a place: no more bytes
/// than were asked for, no more than are left, and none only where none is left.
pub open spec fn file_gives(len: int, at: int, capacity: usize, end: ReadEnd) -> bool {
    end matches ReadEnd::Bytes(n) ==> n <= capacity && at + n <= len && (n == 0 ==> at == len)
}

/// Whether a file of some length can give such ends to reads that follow each other.
pub open spec fn file_gives_all(len: int, capacity: usize, ends: Seq<ReadEnd>) -> bool {
    forall|i: int|
        0 <= i < ends.len() ==> file_gives(len, position(ends.take(i)), capacity, #[trigger] ends[i])
}

/// The pieces that the stream hands out.
pub open spec fn handed_out(file: Seq<u8>, ends: Seq<ReadEnd>) -> Seq<Seq<u8>>
    decreases ends.len(),
{
    if ends.len() == 0 {
        Seq::empty()
    } else {
        let before = handed_out(file, ends.drop_last());
        match stream_result(ends.last()) {
            ReadResult::Piece => before.push(file.subrange(position(ends.drop_last()), position(ends))),
            _ => before,
        }
    }
}

/// The pieces that the stream hands out are the file as far as it was read, in order and with nothing
/// left out; none is empty, and none longer than it may be. The stream ends only at the end of the
/// file, and then they are the whole file.
pub proof fn pieces_make_up_the_file(file: Seq<u8>, capacity: usize, ends: Seq<ReadEnd>)
    requires
        file_gives_all(file.len() as int, capacity, ends),
    ensures
        0 <= position(ends) <= file.len(),
        crate::util::joined(handed_out(file, ends)) == file.take(position(ends)),
        forall|i: int|
            0 <= i < handed_out(file, ends).len() ==> 1 <= (#[trigger] handed_out(file, ends)[i]).len()
                <= capacity,
        ends.len() > 0 && stream_result(ends.last()) == ReadResult::EndOfFile ==> crate::util::joined(
            handed_out(file, ends),
        ) == file,
    decreases ends.len(),
{
    if ends.len() > 0 {
        let before = ends.drop_last();
        assert forall|i: int| 0 <= i < before.len() implies file_gives(
            file.len() as int,
            position(before.take(i)),
            capacity,
            #[trigger] before[i],
        ) by {
            assert(before[i] == ends[i]);
            assert(before.take(i) =~= ends.take(i));
        }
        pieces_make_up_the_file(file, capacity, before);
        assert(ends.take(ends.len() - 1) =~= before);
        assert(ends[ends.len() - 1] == ends.last());
        let pieces = handed_out(file, ends);
        if stream_result(ends.last()) == ReadResult::Piece {
            let piece = file.subrange(position(before), position(ends));
            assert(pieces.drop_last() =~= handed_out(file, before));
            assert(file.take(position(before)) + piece =~= file.take(position(ends)));
        }
        assert(file.take(file.len() as int) =~= file);
    } else {
        assert(file.take(0) =~= Seq::empty());
    }
}

/// A file is read by one reader at a time: while a piece is read in the background the next one is waited for,
/// and no other read begins; when it is done, or has failed, the file is at hand again.
pub proof fn file_is_read_once_at_a_time(
    capacity: usize,
    start: FileReader,
    a: &mut FileReader,
    b: &mut FileReader,
    c: &mut FileReader,
    d: &mut FileReader,
    e: &mut FileReader,
    end: ReadEnd,
    r: (ReadStart, ReadStart, ReadStart, ReadResult, ReadStart),
)
    requires
        call_ensures(FileReader::new, (capacity,), start),
        *old(a) == start,
        call_ensures(FileReader::poll_next, (a,), r.0),
        *old(b) == *final(a),
        call_ensures(FileReader::poll_next, (b,), r.1),
        *old(c) == *final(b),
        call_ensures(FileReader::read, (c,), r.2),
        *old(d) == *final(c),
        call_ensures(FileReader::poll_done, (d, end), r.3),
        *old(e) == *final(d),
        call_ensures(FileReader::poll_next, (e,), r.4),
    ensures
        r.0 == ReadStart::Start(capacity),
        r.1 == ReadStart::Wait,
        r.2 == ReadStart::DoubleRead,
        r.3 == ReadResult::EndOfFile <==> end == ReadEnd::Bytes(0),
        r.3 == ReadResult::Error <==> end == ReadEnd::FileError || end == ReadEnd::Lost,
        end != ReadEnd::Lost ==> r.4 == ReadStart::Start(capacity),
        end == ReadEnd::Lost ==> r.4 == ReadStart::Wait,
{
}

/// A single piece is read from a file that is at hand, and handed on even if it is empty; a file that is lost
/// is not read again.
pub proof fn single_piece_is_handed_on(
    capacity: usize,
    start: FileReader,
    a: &mut FileReader,
    b: &mut FileReader,
    c: &mut FileReader,
    end: ReadEnd,
    r: (ReadStart, ReadResult, ReadStart),
)
    requires
        call_ensures(FileReader::new, (capacity,), start),
        *old(a) == start,
        call_ensures(FileReader::read, (a,), r.0),
        *old(b) == *final(a),
        call_ensures(FileReader::read_done, (b, end), r.1),
        *old(c) == *final(b),
        call_ensures(FileReader::read, (c,), r.2),
    ensures
        r.0 == ReadStart::Start(capacity),
        r.1 == ReadResult::Piece <==> end is Bytes,
        r.1 == ReadResult::Error <==> !(end is Bytes),
        end != ReadEnd::Lost ==> r.2 == ReadStart::Start(capacity),
        end == ReadEnd::Lost ==> r.2 == ReadStart::DoubleRead,
{
}

} // verus!
