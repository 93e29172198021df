//! Bodies that come in chunks: gathering one, and passing one on.
//!
//! A reader or a relay works on the bytes that have arrived and says when it
//! needs more of them. Where the next bytes come from is its caller's concern.
use crate::boundary::{debug_quoted, debug_text, lossy_text};
use crate::bytes::{crlf, find_bytes, least, least_of, take_front};
use crate::error::{Error, ErrorView};
use crate::number::{
    digits, digits_read_back, lemma_digits_are_digits, read_unsigned, unsigned_up_to,
};
use crate::text::{
    before, chars_of, find_first, first_at, includes, is_space, lemma_first_at, lemma_place_of,
    lemma_place_stays, lossy, occurs, place_of, text_of, trim, trimmed, Class,
};
use vstd::prelude::*;
use vstd::slice::slice_subrange;
use vstd::string::{StrSliceExecFns, StringExecFns};
use vstd::utf8::{
    encode_utf8, encode_utf8_decode_utf8, encode_utf8_valid_utf8, is_ascii_chars,
    is_ascii_chars_encode_utf8,
};

verus! {

/// How many bytes are asked for while a line is incomplete.
pub const LINE_READ: usize = 1024;

/// How many bytes are asked for at most while a chunk is incomplete.
pub const DATA_READ: usize = 0x8000;

/// How many bytes an incomplete line may have waiting.
pub const LINE_LIMIT: usize = 0x4000;

/// What comes next in a body that comes in chunks.
#[derive(Debug, Clone, Copy, PartialEq, Eq, Structural)]
pub enum Phase {
    /// The line that gives the size of a chunk.
    Size,
    /// So many more bytes of a chunk.
    Data(usize),
    /// The end of the line after a chunk.
    End,
    /// A line after the last chunk.
    Trailer,
    /// Nothing: the body has ended.
    Done,
}

impl Phase {
    /// How many bytes are asked for next.
    pub open spec fn asks(self) -> nat {
        match self {
            Phase::Data(left) => least(left as nat, DATA_READ as nat),
            _ => LINE_READ as nat,
        }
    }

    /// How many bytes to ask for next.
    pub fn wanted(self) -> (r: usize)
        ensures
            r == self.asks(),
    {
        match self {
            Phase::Data(left) => least_of(left, DATA_READ),
            _ => LINE_READ,
        }
    }

    /// What is wrong with `data` as the next bytes, where `waiting` bytes have
    /// not been used: there are none, or the line gets too long.
    pub open spec fn refuses(self, waiting: nat, data: Seq<u8>) -> Option<ErrorView> {
        match self {
            Phase::Data(_) => if data.len() == 0 {
                Some(ErrorView::Http("unexpected eof reading body"@))
            } else {
                None
            },
            _ => if data.len() == 0 {
                Some(ErrorView::Http("eof reading chunk line"@))
            } else if waiting + data.len() > LINE_LIMIT {
                Some(ErrorView::Http("chunk line too long"@))
            } else {
                None
            },
        }
    }

    /// Puts the bytes that arrived behind those that wait. No bytes mean that
    /// the peer has closed the connection.
    pub fn feed(self, leftover: &mut Vec<u8>, data: &[u8]) -> (r: Result<(), Error>)
        ensures
            final(leftover)@ == old(leftover)@ + data@,
            match r {
                Ok(_) => self.refuses(old(leftover)@.len(), data@) is None,
                Err(e) => self.refuses(old(leftover)@.len(), data@) == Some(e@),
            },
    {
        leftover.extend_from_slice(data);
        assert(leftover@ == old(leftover)@ + data@);
        match self {
            Phase::Data(_) => {
                if data.len() == 0 {
                    return Err(Error::Http("unexpected eof reading body".to_owned()));
                }
            },
            _ => {
                if data.len() == 0 {
                    return Err(Error::Http("eof reading chunk line".to_owned()));
                }
                if leftover.len() > LINE_LIMIT {
                    return Err(Error::Http("chunk line too long".to_owned()));
                }
            },
        }
        Ok(())
    }

    /// Whether bytes of a chunk are due, rather than a line.
    pub open spec fn rank(self) -> nat {
        if self is Data {
            1
        } else {
            0
        }
    }
}

/// The line that `buf` starts with, if it is complete.
pub open spec fn line_in(buf: Seq<u8>) -> Option<Seq<char>> {
    let p = place_of(buf, crlf());
    if p < 0 {
        None
    } else {
        Some(lossy(buf.take(p)))
    }
}

/// What follows the first line of `buf`.
pub open spec fn past_line(buf: Seq<u8>) -> Seq<u8> {
    buf.skip(place_of(buf, crlf()) + 2)
}

/// Takes a complete line out of `leftover`.
pub fn take_line(leftover: &mut Vec<u8>) -> (r: Option<String>)
    ensures
        match r {
            Some(line) => {
                &&& line_in(old(leftover)@) == Some(line@)
                &&& final(leftover)@ == past_line(old(leftover)@)
                &&& final(leftover)@.len() + 2 <= old(leftover)@.len()
            },
            None => line_in(old(leftover)@) is None && final(leftover)@ == old(leftover)@,
        },
{
    let end: [u8; 2] = [13, 10];
    assert(end@ == crlf());
    match find_bytes(leftover.as_slice(), end.as_slice()) {
        Some(p) => {
            let line = lossy_text(slice_subrange(leftover.as_slice(), 0, p));
            assert(leftover@.subrange(0, p as int) == leftover@.take(p as int));
            assert(p + 2 <= leftover.len());
            let _ = take_front(leftover, p + 2);
            Some(line)
        },
        None => None,
    }
}

/// The part of a size line that gives the size.
pub open spec fn size_text(line: Seq<char>) -> Seq<char> {
    trim(before(line, Class::One(';')))
}

/// The size that a size line gives, in hexadecimal.
pub open spec fn size_of(line: Seq<char>) -> Option<nat> {
    unsigned_up_to(size_text(line), 16, usize::MAX as nat)
}

/// What is said of a size line that gives no size.
pub open spec fn size_fault(line: Seq<char>) -> ErrorView {
    ErrorView::Http("bad chunk size "@ + debug_quoted(size_text(line)))
}

/// Reads the size out of a size line.
pub fn read_size(line: &str) -> (r: Result<usize, Error>)
    ensures
        match r {
            Ok(n) => size_of(line@) == Some(n as nat),
            Err(e) => size_of(line@) is None && e@ == size_fault(line@),
        },
{
    let text = chars_of(line);
    let i: usize = find_first(text.as_slice(), Class::One(';'));
    let size = trimmed(slice_subrange(text.as_slice(), 0, i));
    assert(text@.subrange(0, i as int) == before(line@, Class::One(';')));
    match read_unsigned(size, 16, usize::MAX as u64) {
        Some(n) => Ok(n as usize),
        None => {
            let mut message = "bad chunk size ".to_owned();
            message.append(debug_text(text_of(size).as_str()).as_str());
            Err(Error::Http(message))
        },
    }
}

/// Where the gathering of a body has got to: what comes next, what has been
/// gathered, and what waits to be used.
#[verifier::ext_equal]
pub struct Gathering {
    pub phase: Phase,
    pub body: Seq<u8>,
    pub waiting: Seq<u8>,
}

/// How a run over the bytes that have arrived ends.
pub enum Halt {
    /// The body has ended.
    Done,
    /// More bytes are needed.
    More,
    /// The bytes are refused.
    Fault(ErrorView),
}

impl Gathering {
    /// The state before any byte of the body.
    pub open spec fn start(waiting: Seq<u8>) -> Gathering {
        Gathering { phase: Phase::Size, body: Seq::empty(), waiting }
    }

    /// `self` with another phase, past a line.
    pub open spec fn past(self, phase: Phase) -> Gathering {
        Gathering { phase, waiting: past_line(self.waiting), ..self }
    }

    /// `self` with `more` bytes behind those that wait.
    pub open spec fn with(self, more: Seq<u8>) -> Gathering {
        Gathering { waiting: self.waiting + more, ..self }
    }

    /// The bytes of the chunk that have arrived, of the `left` bytes that are
    /// due.
    pub open spec fn filled(self, left: usize) -> Gathering {
        let n = least(self.waiting.len(), left as nat) as int;
        Gathering {
            phase: if n == left {
                Phase::End
            } else {
                Phase::Data((left - n) as usize)
            },
            body: self.body + self.waiting.take(n),
            waiting: self.waiting.skip(n),
        }
    }

    /// How long the body will be when the chunk that is being read is complete.
    pub open spec fn due(self) -> nat {
        match self.phase {
            Phase::Data(left) => self.body.len() + left as nat,
            _ => self.body.len(),
        }
    }

    /// One step, for a body of at most `max` bytes: the state after it, and
    /// whether the run ends there.
    pub open spec fn step(self, max: nat) -> (Gathering, Option<Halt>) {
        match self.phase {
            Phase::Done => (self, Some(Halt::Done)),
            Phase::Data(left) => if left > 0 && self.waiting.len() == 0 {
                (self, Some(Halt::More))
            } else {
                (self.filled(left), None)
            },
            _ => match line_in(self.waiting) {
                None => (self, Some(Halt::More)),
                Some(line) => match self.phase {
                    Phase::End => (self.past(Phase::Size), None),
                    Phase::Trailer => (self.past(Phase::Done), None),
                    _ => match size_of(line) {
                        None => (self.past(Phase::Size), Some(Halt::Fault(size_fault(line)))),
                        Some(size) => if size == 0 {
                            (self.past(Phase::Trailer), None)
                        } else if self.body.len() + size > max {
                            (
                                self.past(Phase::Size),
                                Some(Halt::Fault(ErrorView::Http("chunked body too large"@))),
                            )
                        } else {
                            (self.past(Phase::Data(size as usize)), None)
                        },
                    },
                },
            },
        }
    }

    /// Steps as long as the bytes that have arrived allow.
    pub open spec fn run(self, max: nat) -> (Gathering, Halt)
        decreases self.waiting.len(), self.phase.rank(),
    {
        let (next, halt) = self.step(max);
        match halt {
            Some(h) => (next, h),
            None => {
                proof {
                    lemma_place_of(self.waiting, crlf());
                }
                next.run(max)
            },
        }
    }
}

/// Gathers a body that comes in chunks.
#[derive(Debug)]
pub struct ChunkedReader {
    pub phase: Phase,
    pub body: Vec<u8>,
    pub max: usize,
}

impl ChunkedReader {
    /// The reader's state, with the bytes that wait.
    pub open spec fn with(&self, waiting: Seq<u8>) -> Gathering {
        Gathering { phase: self.phase, body: self.body@, waiting }
    }

    /// A reader for a body of at most `max` bytes.
    pub fn new(max: usize) -> (r: ChunkedReader)
        ensures
            r.max == max,
            forall|waiting: Seq<u8>| #[trigger] r.with(waiting) == Gathering::start(waiting),
    {
        let r = ChunkedReader { phase: Phase::Size, body: Vec::new(), max };
        assert(r.body@ == Seq::<u8>::empty());
        r
    }

    /// Reads on in the bytes that have arrived. Tells whether the body has
    /// ended.
    pub fn advance(&mut self, leftover: &mut Vec<u8>) -> (r: Result<bool, Error>)
        ensures
            final(self).max == old(self).max,
            ({
                let (end, halt) = old(self).with(old(leftover)@).run(old(self).max as nat);
                &&& final(self).with(final(leftover)@) == end
                &&& match r {
                    Ok(done) => halt == if done {
                        Halt::Done
                    } else {
                        Halt::More
                    },
                    Err(e) => halt == Halt::Fault(e@),
                }
            }),
    {
        loop
            invariant
                self.max == old(self).max,
                self.with(leftover@).run(self.max as nat) == old(self).with(old(leftover)@).run(
                    self.max as nat,
                ),
            decreases leftover@.len(), self.phase.rank(),
        {
            let ghost before = self.with(leftover@);
            proof {
                lemma_place_of(leftover@, crlf());
            }
            match self.phase {
                Phase::Done => {
                    return Ok(true);
                },
                Phase::Data(left) => {
                    if left > 0 && leftover.len() == 0 {
                        return Ok(false);
                    }
                    let n: usize = least_of(leftover.len(), left);
                    let piece = take_front(leftover, n);
                    self.body.extend_from_slice(piece.as_slice());
                    self.phase = if n == left {
                        Phase::End
                    } else {
                        Phase::Data(left - n)
                    };
                    assert(self.with(leftover@) == before.filled(left));
                },
                _ => {
                    match take_line(leftover) {
                        None => {
                            return Ok(false);
                        },
                        Some(line) => {
                            match self.phase {
                                Phase::End => {
                                    self.phase = Phase::Size;
                                    assert(self.with(leftover@) == before.past(Phase::Size));
                                },
                                Phase::Trailer => {
                                    self.phase = Phase::Done;
                                    assert(self.with(leftover@) == before.past(Phase::Done));
                                },
                                _ => {
                                    match read_size(line.as_str()) {
                                        Err(e) => {
                                            assert(self.with(leftover@) == before.past(
                                                Phase::Size,
                                            ));
                                            return Err(e);
                                        },
                                        Ok(size) => {
                                            if size == 0 {
                                                self.phase = Phase::Trailer;
                                                assert(self.with(leftover@) == before.past(
                                                    Phase::Trailer,
                                                ));
                                            } else if size > self.max || self.body.len() > self.max
                                                - size {
                                                assert(self.with(leftover@) == before.past(
                                                    Phase::Size,
                                                ));
                                                return Err(
                                                    Error::Http(
                                                        "chunked body too large".to_owned(),
                                                    ),
                                                );
                                            } else {
                                                self.phase = Phase::Data(size);
                                                assert(self.with(leftover@) == before.past(
                                                    Phase::Data(size),
                                                ));
                                            }
                                        },
                                    }
                                },
                            }
                        },
                    }
                },
            }
        }
    }
}

/// Where the passing on of a body has got to: what comes next, what is held
/// back of a chunk that is incomplete, what waits to be used, and what has been
/// passed on.
#[verifier::ext_equal]
pub struct Passing {
    pub phase: Phase,
    pub held: Seq<u8>,
    pub waiting: Seq<u8>,
    pub sent: Seq<u8>,
}

impl Passing {
    /// The state before any byte of the body.
    pub open spec fn start(waiting: Seq<u8>) -> Passing {
        Passing { phase: Phase::Size, held: Seq::empty(), waiting, sent: Seq::empty() }
    }

    /// `self` with another phase, past a line, with `text` passed on as a line.
    pub open spec fn past(self, phase: Phase, text: Seq<char>) -> Passing {
        Passing {
            phase,
            waiting: past_line(self.waiting),
            sent: self.sent + encode_utf8(text) + crlf(),
            ..self
        }
    }

    /// `self` with `more` bytes behind those that wait.
    pub open spec fn with(self, more: Seq<u8>) -> Passing {
        Passing { waiting: self.waiting + more, ..self }
    }

    /// The bytes of the chunk that have arrived, of the `left` bytes that are
    /// due. A chunk is passed on when it is complete.
    pub open spec fn filled(self, left: usize) -> Passing {
        let n = least(self.waiting.len(), left as nat) as int;
        let held = self.held + self.waiting.take(n);
        if n == left {
            Passing {
                phase: Phase::End,
                held: Seq::empty(),
                waiting: self.waiting.skip(n),
                sent: self.sent + held,
            }
        } else {
            Passing {
                phase: Phase::Data((left - n) as usize),
                held,
                waiting: self.waiting.skip(n),
                ..self
            }
        }
    }

    /// One step: the state after it, and whether the run ends there.
    pub open spec fn step(self) -> (Passing, Option<Halt>) {
        match self.phase {
            Phase::Done => (self, Some(Halt::Done)),
            Phase::Data(left) => if left > 0 && self.waiting.len() == 0 {
                (self, Some(Halt::More))
            } else {
                (self.filled(left), None)
            },
            _ => match line_in(self.waiting) {
                None => (self, Some(Halt::More)),
                Some(line) => match self.phase {
                    Phase::End => (self.past(Phase::Size, Seq::empty()), None),
                    Phase::Trailer => (
                        self.past(
                            if line.len() == 0 {
                                Phase::Done
                            } else {
                                Phase::Trailer
                            },
                            line,
                        ),
                        None,
                    ),
                    _ => match size_of(line) {
                        None => (self.past(Phase::Size, line), Some(Halt::Fault(size_fault(line)))),
                        Some(size) => if size == 0 {
                            (self.past(Phase::Trailer, line), None)
                        } else {
                            (self.past(Phase::Data(size as usize), line), None)
                        },
                    },
                },
            },
        }
    }

    /// Steps as long as the bytes that have arrived allow.
    pub open spec fn run(self) -> (Passing, Halt)
        decreases self.waiting.len(), self.phase.rank(),
    {
        let (next, halt) = self.step();
        match halt {
            Some(h) => (next, h),
            None => {
                proof {
                    lemma_place_of(self.waiting, crlf());
                }
                next.run()
            },
        }
    }
}

/// Passes on a body that comes in chunks.
#[derive(Debug)]
pub struct ChunkedRelay {
    pub phase: Phase,
    pub held: Vec<u8>,
}

fn push_line(out: &mut Vec<u8>, text: &str)
    ensures
        final(out)@ == old(out)@ + encode_utf8(text@) + crlf(),
{
    let line = text.as_bytes_vec();
    out.extend_from_slice(line.as_slice());
    out.push(13);
    out.push(10);
    assert(out@ == old(out)@ + encode_utf8(text@) + crlf());
}

impl ChunkedRelay {
    /// The relay's state, with the bytes that wait and those passed on.
    pub open spec fn with(&self, waiting: Seq<u8>, sent: Seq<u8>) -> Passing {
        Passing { phase: self.phase, held: self.held@, waiting, sent }
    }

    /// A relay before any byte of the body.
    pub fn new() -> (r: ChunkedRelay)
        ensures
            forall|waiting: Seq<u8>| #[trigger]
                r.with(waiting, Seq::empty()) == Passing::start(waiting),
    {
        let r = ChunkedRelay { phase: Phase::Size, held: Vec::new() };
        assert(r.held@ == Seq::<u8>::empty());
        r
    }

    /// Reads on in the bytes that have arrived, and appends to `out` what is
    /// to be passed on. Tells whether the body has ended. What is appended
    /// before a fault is to be passed on too.
    pub fn advance(&mut self, leftover: &mut Vec<u8>, out: &mut Vec<u8>) -> (r: Result<
        bool,
        Error,
    >)
        ensures
            ({
                let (end, halt) = old(self).with(old(leftover)@, old(out)@).run();
                &&& final(self).with(final(leftover)@, final(out)@) == end
                &&& match r {
                    Ok(done) => halt == if done {
                        Halt::Done
                    } else {
                        Halt::More
                    },
                    Err(e) => halt == Halt::Fault(e@),
                }
            }),
    {
        loop
            invariant
                self.with(leftover@, out@).run() == old(self).with(
                    old(leftover)@,
                    old(out)@,
                ).run(),
            decreases leftover@.len(), self.phase.rank(),
        {
            let ghost before = self.with(leftover@, out@);
            proof {
                lemma_place_of(leftover@, crlf());
            }
            match self.phase {
                Phase::Done => {
                    return Ok(true);
                },
                Phase::Data(left) => {
                    if left > 0 && leftover.len() == 0 {
                        return Ok(false);
                    }
                    let n: usize = least_of(leftover.len(), left);
                    let piece = take_front(leftover, n);
                    self.held.extend_from_slice(piece.as_slice());
                    if n == left {
                        out.extend_from_slice(self.held.as_slice());
                        self.held.clear();
                        self.phase = Phase::End;
                    } else {
                        self.phase = Phase::Data(left - n);
                    }
                    assert(self.with(leftover@, out@) == before.filled(left));
                },
                _ => {
                    match take_line(leftover) {
                        None => {
                            return Ok(false);
                        },
                        Some(line) => {
                            match self.phase {
                                Phase::End => {
                                    push_line(out, "");
                                    self.phase = Phase::Size;
                                    proof {
                                        reveal_strlit("");
                                        assert(""@ == Seq::<char>::empty());
                                        assert(self.with(leftover@, out@) == before.past(
                                            Phase::Size,
                                            Seq::empty(),
                                        ));
                                    }
                                },
                                Phase::Trailer => {
                                    push_line(out, line.as_str());
                                    if line.as_str().is_empty() {
                                        self.phase = Phase::Done;
                                    }
                                    assert(self.with(leftover@, out@) == before.past(
                                        self.phase,
                                        line@,
                                    ));
                                },
                                _ => {
                                    push_line(out, line.as_str());
                                    match read_size(line.as_str()) {
                                        Err(e) => {
                                            assert(self.with(leftover@, out@) == before.past(
                                                Phase::Size,
                                                line@,
                                            ));
                                            return Err(e);
                                        },
                                        Ok(size) => {
                                            self.phase = if size == 0 {
                                                Phase::Trailer
                                            } else {
                                                Phase::Data(size)
                                            };
                                            assert(self.with(leftover@, out@) == before.past(
                                                self.phase,
                                                line@,
                                            ));
                                        },
                                    }
                                },
                            }
                        },
                    }
                },
            }
        }
    }
}

proof fn lemma_line_stays(a: Seq<u8>, b: Seq<u8>)
    requires
        line_in(a) is Some,
    ensures
        line_in(a + b) == line_in(a),
        past_line(a + b) == past_line(a) + b,
        past_line(a).len() < a.len(),
{
    lemma_place_stays(a, b, crlf());
    lemma_place_of(a, crlf());
    let p = place_of(a, crlf());
    assert((a + b).take(p) == a.take(p));
    assert((a + b).skip(p + 2) == a.skip(p + 2) + b);
}

/// How the bytes of a body arrive makes no difference: a run over some of them
/// that goes on when the rest has arrived ends as a run over all of them does.
pub proof fn gathering_goes_on(g: Gathering, more: Seq<u8>, max: nat)
    ensures
        g.with(more).run(max) == match g.run(max) {
            (end, Halt::More) => end.with(more).run(max),
            (end, halt) => (end.with(more), halt),
        },
    decreases g.waiting.len(), g.phase.rank(),
{
    let (next, halt) = g.step(max);
    let all = g.with(more);
    match g.phase {
        Phase::Done => {},
        Phase::Data(left) => {
            if halt is None {
                let n = least(g.waiting.len(), left as nat) as int;
                if n == left {
                    assert(all.waiting.take(n) == g.waiting.take(n));
                    assert(all.waiting.skip(n) == g.waiting.skip(n) + more);
                    assert(all.step(max).0 == next.with(more));
                    gathering_goes_on(next, more, max);
                } else {
                    assert(next.waiting.len() == 0);
                    assert(next.run(max) == (next, Halt::More));
                    if more.len() == 0 {
                        assert(all == g);
                        assert(next.with(more) == next);
                    } else {
                        let rest = (left - n) as usize;
                        assert(next.with(more).waiting == more);
                        let m = least(more.len(), rest as nat) as int;
                        assert(all.waiting.take(n + m) == g.waiting + more.take(m));
                        assert(all.waiting.skip(n + m) == more.skip(m));
                        assert(g.waiting.take(n) == g.waiting);
                        assert(g.body + (g.waiting + more.take(m)) == g.body + g.waiting
                            + more.take(m));
                        assert(all.filled(left) == next.with(more).filled(rest));
                    }
                }
            }
        },
        _ => {
            if line_in(g.waiting) is Some {
                lemma_line_stays(g.waiting, more);
                assert(all.step(max).0 == next.with(more));
                if halt is None {
                    gathering_goes_on(next, more, max);
                }
            }
        },
    }
}

/// How the bytes of a body arrive makes no difference to what is passed on: a
/// run over some of them that goes on when the rest has arrived ends as a run
/// over all of them does.
pub proof fn passing_goes_on(g: Passing, more: Seq<u8>)
    ensures
        g.with(more).run() == match g.run() {
            (end, Halt::More) => end.with(more).run(),
            (end, halt) => (end.with(more), halt),
        },
    decreases g.waiting.len(), g.phase.rank(),
{
    let (next, halt) = g.step();
    let all = g.with(more);
    match g.phase {
        Phase::Done => {},
        Phase::Data(left) => {
            if halt is None {
                let n = least(g.waiting.len(), left as nat) as int;
                if n == left {
                    assert(all.waiting.take(n) == g.waiting.take(n));
                    assert(all.waiting.skip(n) == g.waiting.skip(n) + more);
                    assert(all.step().0 == next.with(more));
                    passing_goes_on(next, more);
                } else {
                    assert(next.waiting.len() == 0);
                    assert(next.run() == (next, Halt::More));
                    if more.len() == 0 {
                        assert(all == g);
                        assert(next.with(more) == next);
                    } else {
                        let rest = (left - n) as usize;
                        assert(next.with(more).waiting == more);
                        let m = least(more.len(), rest as nat) as int;
                        assert(all.waiting.take(n + m) == g.waiting + more.take(m));
                        assert(all.waiting.skip(n + m) == more.skip(m));
                        assert(g.waiting.take(n) == g.waiting);
                        assert(g.held + (g.waiting + more.take(m)) == g.held + g.waiting
                            + more.take(m));
                        assert(all.filled(left) == next.with(more).filled(rest));
                    }
                }
            }
        },
        _ => {
            if line_in(g.waiting) is Some {
                lemma_line_stays(g.waiting, more);
                assert(all.step().0 == next.with(more));
                if halt is None {
                    passing_goes_on(next, more);
                }
            }
        },
    }
}

/// What has been gathered, with what is due of the chunk that is being read,
/// never comes to more than the limit.
pub proof fn gathering_keeps_to_its_limit(g: Gathering, max: nat)
    requires
        g.due() <= max,
    ensures
        g.run(max).0.due() <= max,
    decreases g.waiting.len(), g.phase.rank(),
{
    let (next, halt) = g.step(max);
    lemma_place_of(g.waiting, crlf());
    if halt is None {
        gathering_keeps_to_its_limit(next, max);
    }
}

/// A chunk as it is sent: the line that gives its size, and its bytes.
pub struct Chunk {
    pub line: Seq<char>,
    pub data: Seq<u8>,
}

/// A line as it is sent.
pub open spec fn line_bytes(line: Seq<char>) -> Seq<u8> {
    encode_utf8(line) + crlf()
}

/// Whether a text can be sent as one line.
pub open spec fn is_line(line: Seq<char>) -> bool {
    !occurs(encode_utf8(line), crlf())
}

impl Chunk {
    /// Whether the line gives the size of the chunk, which is not the last.
    pub open spec fn valid(self) -> bool {
        &&& is_line(self.line)
        &&& size_of(self.line) == Some(self.data.len())
        &&& self.data.len() > 0
    }

    /// The chunk as it is sent.
    pub open spec fn bytes(self) -> Seq<u8> {
        line_bytes(self.line) + self.data + crlf()
    }
}

/// Chunks as they are sent.
pub open spec fn chunk_bytes(chunks: Seq<Chunk>) -> Seq<u8>
    decreases chunks.len(),
{
    if chunks.len() == 0 {
        Seq::empty()
    } else {
        chunks[0].bytes() + chunk_bytes(chunks.drop_first())
    }
}

/// What the chunks hold, one after the other.
pub open spec fn chunk_data(chunks: Seq<Chunk>) -> Seq<u8>
    decreases chunks.len(),
{
    if chunks.len() == 0 {
        Seq::empty()
    } else {
        chunks[0].data + chunk_data(chunks.drop_first())
    }
}

/// Lines as they are sent.
pub open spec fn lines_bytes(lines: Seq<Seq<char>>) -> Seq<u8>
    decreases lines.len(),
{
    if lines.len() == 0 {
        Seq::empty()
    } else {
        line_bytes(lines[0]) + lines_bytes(lines.drop_first())
    }
}

proof fn lemma_first_crlf(a: Seq<u8>, rest: Seq<u8>)
    requires
        !occurs(a, crlf()),
    ensures
        place_of(a + crlf() + rest, crlf()) == a.len(),
    decreases a.len(),
{
    let s = a + crlf() + rest;
    if a.len() == 0 {
        assert(s.take(2) == crlf());
        assert(crlf().is_prefix_of(s));
    } else {
        let t = a.drop_first();
        assert(s.drop_first() == t + crlf() + rest);
        assert forall|i: int| 0 <= i <= t.len() implies !crlf().is_prefix_of(
            #[trigger] t.skip(i),
        ) by {
            assert(t.skip(i) == a.skip(i + 1));
        }
        lemma_first_crlf(t, rest);
        if crlf().is_prefix_of(s) {
            assert(s[0] == crlf()[0] && s[1] == crlf()[1]);
            assert(a.skip(0) == a);
            if a.len() == 1 {
                assert(s[1] == crlf()[0]);
            } else {
                assert(a.take(2) == crlf());
                assert(crlf().is_prefix_of(a.skip(0)));
            }
        }
    }
}

proof fn lemma_line(line: Seq<char>, rest: Seq<u8>)
    requires
        is_line(line),
    ensures
        line_in(line_bytes(line) + rest) == Some(line),
        past_line(line_bytes(line) + rest) == rest,
{
    let a = encode_utf8(line);
    let buf = line_bytes(line) + rest;
    lemma_first_crlf(a, rest);
    assert(buf.take(a.len() as int) == a);
    assert(buf.skip(a.len() as int + 2) == rest);
    encode_utf8_valid_utf8(line);
    encode_utf8_decode_utf8(line);
}

proof fn lemma_empty_line()
    ensures
        is_line(Seq::empty()),
        encode_utf8(Seq::empty()) == Seq::<u8>::empty(),
{
    let none = Seq::<u8>::empty();
    assert(encode_utf8(Seq::empty()) == none);
    assert forall|i: int| 0 <= i <= none.len() implies !crlf().is_prefix_of(
        #[trigger] none.skip(i),
    ) by {
        assert(none.skip(i).len() == 0);
    }
}

proof fn lemma_chunk_is_gathered(c: Chunk, after: Seq<u8>, body: Seq<u8>, max: usize)
    requires
        c.valid(),
        body.len() + c.data.len() <= max,
    ensures
        (Gathering { phase: Phase::Size, body, waiting: c.bytes() + after }).run(max as nat) == (
        Gathering { phase: Phase::Size, body: body + c.data, waiting: after }).run(max as nat),
{
    let g = Gathering { phase: Phase::Size, body, waiting: c.bytes() + after };
    let m = max as nat;
    let a1 = c.data + (crlf() + after);
    assert(g.waiting == line_bytes(c.line) + a1);
    lemma_line(c.line, a1);
    let size = c.data.len() as usize;
    let g1 = g.past(Phase::Data(size));
    assert(g.step(m) == (g1, None::<Halt>));
    assert(g.run(m) == g1.run(m));
    assert(a1.take(size as int) == c.data);
    assert(a1.skip(size as int) == crlf() + after);
    let g2 = g1.filled(size);
    assert(g1.step(m) == (g2, None::<Halt>));
    assert(g1.run(m) == g2.run(m));
    lemma_empty_line();
    lemma_line(Seq::empty(), after);
    assert(line_bytes(Seq::empty()) + after == crlf() + after);
    let g3 = g2.past(Phase::Size);
    assert(g2.step(m) == (g3, None::<Halt>));
    assert(g2.run(m) == g3.run(m));
    assert(g3 == (Gathering { phase: Phase::Size, body: body + c.data, waiting: after }));
}

proof fn lemma_chunk_is_passed_on(c: Chunk, after: Seq<u8>, sent: Seq<u8>)
    requires
        c.valid(),
    ensures
        (Passing {
            phase: Phase::Size,
            held: Seq::empty(),
            waiting: c.bytes() + after,
            sent,
        }).run() == (Passing {
            phase: Phase::Size,
            held: Seq::empty(),
            waiting: after,
            sent: sent + c.bytes(),
        }).run(),
{
    let p = Passing {
        phase: Phase::Size,
        held: Seq::empty(),
        waiting: c.bytes() + after,
        sent,
    };
    let a1 = c.data + (crlf() + after);
    assert(p.waiting == line_bytes(c.line) + a1);
    lemma_line(c.line, a1);
    let size = c.data.len() as usize;
    let p1 = p.past(Phase::Data(size), c.line);
    assert(p.step() == (p1, None::<Halt>));
    assert(p.run() == p1.run());
    assert(a1.take(size as int) == c.data);
    assert(a1.skip(size as int) == crlf() + after);
    let p2 = p1.filled(size);
    assert(p1.step() == (p2, None::<Halt>));
    assert(p1.run() == p2.run());
    lemma_empty_line();
    lemma_line(Seq::empty(), after);
    assert(line_bytes(Seq::empty()) + after == crlf() + after);
    let p3 = p2.past(Phase::Size, Seq::empty());
    assert(p2.step() == (p3, None::<Halt>));
    assert(p2.run() == p3.run());
    assert(p3.sent == sent + c.bytes());
}

/// A number in hexadecimal is a line that gives that size.
pub proof fn hexadecimal_gives_the_size(n: nat)
    requires
        n <= usize::MAX,
    ensures
        is_line(digits(n, 16)),
        size_of(digits(n, 16)) == Some(n),
{
    let s = digits(n, 16);
    lemma_digits_are_digits(n, 16);
    digits_read_back(n, 16);
    let k = Class::One(';');
    lemma_first_at(s, k);
    assert(first_at(s, k) == s.len()) by {
        if includes(s, k) {
            let i = choose|i: int| 0 <= i < s.len() && #[trigger] k.holds(s[i]);
            assert(s[i] == ';');
        }
    }
    assert(before(s, k) == s);
    assert(!is_space(s[0]) && !is_space(s.last()));
    assert(trim(s) == s);
    assert(is_ascii_chars(s));
    is_ascii_chars_encode_utf8(s);
    let b = encode_utf8(s);
    assert forall|i: int| 0 <= i <= b.len() implies !crlf().is_prefix_of(#[trigger] b.skip(i)) by {
        if crlf().is_prefix_of(b.skip(i)) {
            assert(b.skip(i)[0] == crlf()[0]);
            assert(b[i] == 13u8);
            assert(s[i] as u32 == 13);
        }
    }
}

/// A body that is sent in chunks is gathered as it was before it was cut: the
/// bytes of the chunks one after the other, as far as they keep to the limit.
#[verifier::rlimit(30)]
pub proof fn chunks_are_gathered(
    chunks: Seq<Chunk>,
    last: Seq<char>,
    trailer: Seq<char>,
    rest: Seq<u8>,
    body: Seq<u8>,
    max: usize,
)
    requires
        forall|i: int| 0 <= i < chunks.len() ==> (#[trigger] chunks[i]).valid(),
        is_line(last),
        size_of(last) == Some(0nat),
        is_line(trailer),
        body.len() + chunk_data(chunks).len() <= max,
    ensures
        (Gathering {
            phase: Phase::Size,
            body,
            waiting: chunk_bytes(chunks) + line_bytes(last) + line_bytes(trailer) + rest,
        }).run(max as nat) == (
            Gathering { phase: Phase::Done, body: body + chunk_data(chunks), waiting: rest },
            Halt::Done,
        ),
    decreases chunks.len(),
{
    let end = line_bytes(last) + (line_bytes(trailer) + rest);
    let g = Gathering {
        phase: Phase::Size,
        body,
        waiting: chunk_bytes(chunks) + line_bytes(last) + line_bytes(trailer) + rest,
    };
    if chunks.len() == 0 {
        assert(g.waiting == end);
        lemma_line(last, line_bytes(trailer) + rest);
        let g1 = g.past(Phase::Trailer);
        assert(g.run(max as nat) == g1.run(max as nat));
        lemma_line(trailer, rest);
        let g2 = g1.past(Phase::Done);
        assert(g1.run(max as nat) == g2.run(max as nat));
        assert(body + chunk_data(chunks) == body);
    } else {
        let c = chunks[0];
        let tail = chunks.drop_first();
        let after = chunk_bytes(tail) + line_bytes(last) + line_bytes(trailer) + rest;
        assert(g.waiting == c.bytes() + after);
        lemma_chunk_is_gathered(c, after, body, max);
        assert forall|i: int| 0 <= i < tail.len() implies (#[trigger] tail[i]).valid() by {
            assert(tail[i] == chunks[i + 1]);
        }
        chunks_are_gathered(tail, last, trailer, rest, body + c.data, max);
        assert(body + c.data + chunk_data(tail) == body + chunk_data(chunks));
    }
}

proof fn lemma_trailers_are_passed_on(lines: Seq<Seq<char>>, rest: Seq<u8>, sent: Seq<u8>)
    requires
        forall|i: int| 0 <= i < lines.len() ==> is_line(#[trigger] lines[i]) && lines[i].len() > 0,
    ensures
        (Passing {
            phase: Phase::Trailer,
            held: Seq::empty(),
            waiting: lines_bytes(lines) + crlf() + rest,
            sent,
        }).run() == (
            Passing {
                phase: Phase::Done,
                held: Seq::empty(),
                waiting: rest,
                sent: sent + (lines_bytes(lines) + crlf()),
            },
            Halt::Done,
        ),
    decreases lines.len(),
{
    let p = Passing {
        phase: Phase::Trailer,
        held: Seq::empty(),
        waiting: lines_bytes(lines) + crlf() + rest,
        sent,
    };
    lemma_empty_line();
    if lines.len() == 0 {
        lemma_line(Seq::empty(), rest);
        assert(p.waiting == line_bytes(Seq::empty()) + rest);
        let p1 = p.past(Phase::Done, Seq::empty());
        assert(p.run() == p1.run());
        assert(p1.sent == sent + (lines_bytes(lines) + crlf()));
    } else {
        let tail = lines.drop_first();
        let after = lines_bytes(tail) + crlf() + rest;
        assert(p.waiting == line_bytes(lines[0]) + after);
        lemma_line(lines[0], after);
        let p1 = p.past(Phase::Trailer, lines[0]);
        assert(p.run() == p1.run());
        assert forall|i: int| 0 <= i < tail.len() implies is_line(#[trigger] tail[i])
            && tail[i].len() > 0 by {
            assert(tail[i] == lines[i + 1]);
        }
        lemma_trailers_are_passed_on(tail, rest, p1.sent);
        assert(p1.sent + (lines_bytes(tail) + crlf()) == sent + (lines_bytes(lines) + crlf()));
    }
}

/// A body that is sent in chunks is passed on byte for byte, with the lines
/// that follow the last chunk, up to the blank line.
#[verifier::rlimit(40)]
pub proof fn chunks_are_passed_on(
    chunks: Seq<Chunk>,
    last: Seq<char>,
    trailers: Seq<Seq<char>>,
    rest: Seq<u8>,
    sent: Seq<u8>,
)
    requires
        forall|i: int| 0 <= i < chunks.len() ==> (#[trigger] chunks[i]).valid(),
        is_line(last),
        size_of(last) == Some(0nat),
        forall|i: int|
            0 <= i < trailers.len() ==> is_line(#[trigger] trailers[i]) && trailers[i].len() > 0,
    ensures
        ({
            let body = chunk_bytes(chunks) + line_bytes(last) + lines_bytes(trailers) + crlf();
            (Passing {
                phase: Phase::Size,
                held: Seq::empty(),
                waiting: body + rest,
                sent,
            }).run() == (
                Passing {
                    phase: Phase::Done,
                    held: Seq::empty(),
                    waiting: rest,
                    sent: sent + body,
                },
                Halt::Done,
            )
        }),
    decreases chunks.len(),
{
    let body = chunk_bytes(chunks) + line_bytes(last) + lines_bytes(trailers) + crlf();
    let p = Passing { phase: Phase::Size, held: Seq::empty(), waiting: body + rest, sent };
    if chunks.len() == 0 {
        let after = lines_bytes(trailers) + crlf() + rest;
        assert(p.waiting == line_bytes(last) + after);
        lemma_line(last, after);
        let p1 = p.past(Phase::Trailer, last);
        assert(p.run() == p1.run());
        lemma_trailers_are_passed_on(trailers, rest, p1.sent);
        assert(p1.sent + (lines_bytes(trailers) + crlf()) == sent + body);
    } else {
        let c = chunks[0];
        let tail = chunks.drop_first();
        let tail_body = chunk_bytes(tail) + line_bytes(last) + lines_bytes(trailers) + crlf();
        assert(p.waiting == c.bytes() + (tail_body + rest));
        lemma_chunk_is_passed_on(c, tail_body + rest, sent);
        assert forall|i: int| 0 <= i < tail.len() implies (#[trigger] tail[i]).valid() by {
            assert(tail[i] == chunks[i + 1]);
        }
        chunks_are_passed_on(tail, last, trailers, rest, sent + c.bytes());
        assert(sent + c.bytes() + tail_body == sent + body);
    }
}

} // verus!
