//! Heads and bodies in the bytes of a connection.
use crate::boundary::debug_quoted;
use crate::bytes::{blank_line, crlf, least};
use crate::chunk::{
    line_bytes, line_in, past_line, size_fault, size_of, DATA_READ, Gathering, Halt, LINE_LIMIT,
    LINE_READ, Passing, Phase,
};
use crate::error::ErrorView;
use crate::http1::{usual_reason, MAX_HEADERS};
use crate::io::{head_end, simple_text, BODY_READ, HEAD_READ, MAX_DISCARD, MAX_HEAD};
use crate::number::{
    decimal, digits, digits_read_back, lemma_digits_are_digits, lemma_lower_numeral, numeral,
    unsigned_up_to,
};
use crate::text::{
    before, lemma_place_of, lower, place_of, same_word, text_is_cut_at_its_marks,
    trimming_leaves_the_middle, utf8_is_read_as_it_is, Class,
};
use vstd::prelude::*;
use vstd::utf8::encode_utf8;

verus! {

/// A line ends in a carriage return and a line feed, and a head in a line and a
/// blank line. How much may wait, and how much is asked for at once.
pub proof fn ends_and_limits()
    ensures
        crlf() == seq![13u8, 10u8],
        blank_line() == seq![13u8, 10u8, 13u8, 10u8],
        MAX_HEAD == 64 * 1024,
        MAX_HEADERS == 64,
        MAX_DISCARD == 8 * 1024 * 1024,
        LINE_LIMIT == 16 * 1024,
        HEAD_READ == 8 * 1024,
        BODY_READ == 32 * 1024,
        DATA_READ == 32 * 1024,
        LINE_READ == 1024,
{
}

/// The smaller of two numbers is one of them and no greater than either.
pub proof fn least_is_the_smaller(a: nat, b: nat)
    ensures
        least(a, b) == a || least(a, b) == b,
        least(a, b) <= a,
        least(a, b) <= b,
{
}

/// A head ends with its first blank line, and goes on where there is none.
pub proof fn head_ends_with_the_first_blank_line(buf: Seq<u8>, n: int)
    ensures
        4 <= n <= buf.len() ==> (head_end(buf) == n <==> {
            &&& buf.subrange(n - 4, n) == seq![13u8, 10u8, 13u8, 10u8]
            &&& forall|m: int|
                4 <= m < n ==> #[trigger] buf.subrange(m - 4, m) != seq![13u8, 10u8, 13u8, 10u8]
        }),
        head_end(buf) < 0 <==> forall|m: int|
            4 <= m <= buf.len() ==> #[trigger] buf.subrange(m - 4, m) != seq![
                13u8,
                10u8,
                13u8,
                10u8,
            ],
        head_end(buf) >= 0 ==> 4 <= head_end(buf) <= buf.len(),
{
    let t = blank_line();
    let p = place_of(buf, t);
    lemma_place_of(buf, t);
    assert forall|m: int| 4 <= m <= buf.len() implies (#[trigger] buf.subrange(m - 4, m) == t)
        == t.is_prefix_of(buf.skip(m - 4)) by {
        assert(buf.skip(m - 4).subrange(0, 4) == buf.subrange(m - 4, m));
    }
    if p >= 0 {
        assert(buf.subrange(p + 4 - 4, p + 4) == t);
    }
}

/// The size of a chunk is the number that its line gives in hexadecimal, in
/// small letters or capitals, with white space around it or none; what follows
/// a semicolon makes no difference.
pub proof fn chunk_line_gives_the_size(
    a: Seq<char>,
    size: Seq<char>,
    n: nat,
    b: Seq<char>,
    extension: Seq<char>,
)
    requires
        n <= usize::MAX,
        same_word(size, digits(n, 16)),
        forall|i: int| 0 <= i < a.len() ==> Class::Space.holds(#[trigger] a[i]),
        forall|i: int| 0 <= i < b.len() ==> Class::Space.holds(#[trigger] b[i]),
    ensures
        size_of(a + size + b) == Some(n),
        size_of(a + size + b + seq![';'] + extension) == Some(n),
{
    let k = Class::One(';');
    let d = digits(n, 16);
    let t = a + size + b;
    lemma_digits_are_digits(n, 16);
    digits_read_back(n, 16);
    lemma_lower_numeral(size, 16);
    lemma_lower_numeral(d, 16);
    assert(lower(size).len() == size.len() && lower(d).len() == d.len());
    assert forall|i: int| 0 <= i < size.len() implies #[trigger] size[i] != ';'
        && !Class::Space.holds(size[i]) && size[i] != '+' by {
        assert(lower(size)[i] == lower(d)[i]);
        assert('0' <= d[i] <= '9' || 'a' <= d[i] <= 'f');
    }
    assert(!Class::Space.holds(size[0]) && !Class::Space.holds(size[size.len() - 1]));
    trimming_leaves_the_middle(a, size, b, Class::Space);
    assert forall|i: int| 0 <= i < t.len() implies !k.holds(#[trigger] t[i]) by {
        if i < a.len() {
            assert(Class::Space.holds(a[i]));
            assert(t[i] == a[i]);
        } else if i < a.len() + size.len() {
            assert(t[i] == size[i - a.len()]);
        } else {
            assert(Class::Space.holds(b[i - a.len() - size.len()]));
            assert(t[i] == b[i - a.len() - size.len()]);
        }
    }
    text_is_cut_at_its_marks(t, ';', extension, k);
}

/// A line whose size is no hexadecimal number gives none, and is told as it was
/// trimmed.
pub proof fn chunk_line_without_a_size(size: Seq<char>, i: int, extension: Seq<char>)
    requires
        0 <= i < size.len(),
        ({
            let c = size[i] as u32;
            !(48 <= c <= 57) && !(65 <= c <= 70) && !(97 <= c <= 102)
        }),
        size[0] != '+',
        !Class::Space.holds(size[0]),
        !Class::Space.holds(size.last()),
        forall|j: int| 0 <= j < size.len() ==> #[trigger] size[j] != ';',
    ensures
        size_of(size + seq![';'] + extension) is None,
        size_of(size) is None,
        size_fault(size + seq![';'] + extension) == ErrorView::Http(
            "bad chunk size "@ + debug_quoted(size),
        ),
{
    let none = Seq::<char>::empty();
    text_is_cut_at_its_marks(size, ';', extension, Class::One(';'));
    trimming_leaves_the_middle(none, size, none, Class::Space);
    assert(none + size + none == size);
    if numeral(size, 16) is Some {
        crate::number::lemma_numeral_digits(size, 16, i);
    }
}

/// No bytes mean that the peer has closed the connection, which is a failure
/// within a body; a line that is not complete may not grow without end.
pub proof fn bodies_end_early_only_in_failure(phase: Phase, waiting: nat, data: Seq<u8>)
    ensures
        data.len() == 0 ==> phase.refuses(waiting, data) is Some,
        phase is Data && data.len() > 0 ==> phase.refuses(waiting, data) is None,
        phase !is Data && data.len() > 0 ==> (phase.refuses(waiting, data) is Some <==> waiting
            + data.len() > 16384),
        phase is Data && data.len() == 0 ==> phase.refuses(waiting, data) == Some(
            ErrorView::Http("unexpected eof reading body"@),
        ),
        phase !is Data && data.len() == 0 ==> phase.refuses(waiting, data) == Some(
            ErrorView::Http("eof reading chunk line"@),
        ),
        phase !is Data && data.len() > 0 && waiting + data.len() > 16384 ==> phase.refuses(
            waiting,
            data,
        ) == Some(ErrorView::Http("chunk line too long"@)),
{
}

/// No more bytes are asked for than are due.
pub proof fn no_more_is_asked_for_than_is_due(phase: Phase, left: usize)
    ensures
        (Phase::Data(left)).asks() <= left,
        left > 0 ==> (Phase::Data(left)).asks() > 0,
        phase.asks() <= 32768,
        phase !is Data ==> phase.asks() == 1024,
{
}

/// A chunk that would make the body longer than it may be is refused, and so is
/// a line that gives no size.
pub proof fn chunks_beyond_the_limit_are_refused(
    body: Seq<u8>,
    held: Seq<u8>,
    sent: Seq<u8>,
    waiting: Seq<u8>,
    line: Seq<char>,
    n: nat,
    max: nat,
)
    requires
        line_in(waiting) == Some(line),
    ensures
        size_of(line) == Some(n) && n > 0 && body.len() + n > max ==> (Gathering {
            phase: Phase::Size,
            body,
            waiting,
        }).run(max).1 == Halt::Fault(ErrorView::Http("chunked body too large"@)),
        size_of(line) is None ==> (Gathering { phase: Phase::Size, body, waiting }).run(max).1
            == Halt::Fault(size_fault(line)),
        size_of(line) is None ==> (Passing { phase: Phase::Size, held, waiting, sent }).run().1
            == Halt::Fault(size_fault(line)),
{
}

/// A line is what stands before the first line end, and what follows it waits.
pub proof fn lines_end_at_the_first_line_end(line: Seq<char>, rest: Seq<u8>)
    requires
        forall|i: int|
            0 <= i < encode_utf8(line).len() ==> #[trigger] encode_utf8(line)[i] != 13u8,
    ensures
        line_bytes(line) == encode_utf8(line) + seq![13u8, 10u8],
        line_in(encode_utf8(line) + seq![13u8, 10u8] + rest) == Some(line),
        past_line(encode_utf8(line) + seq![13u8, 10u8] + rest) == rest,
        line_in(encode_utf8(line)) is None,
{
    let b = encode_utf8(line);
    let s = b + seq![13u8, 10u8] + rest;
    let n = b.len() as int;
    utf8_is_read_as_it_is(line);
    lemma_place_of(s, crlf());
    lemma_place_of(b, crlf());
    assert forall|i: int| 0 <= i < n implies !crlf().is_prefix_of(#[trigger] s.skip(i)) by {
        if crlf().is_prefix_of(s.skip(i)) {
            assert(s.skip(i).subrange(0, 2)[0] == 13u8);
            assert(s[i] == b[i]);
        }
    }
    assert forall|i: int| 0 <= i <= n implies !crlf().is_prefix_of(#[trigger] b.skip(i)) by {
        if crlf().is_prefix_of(b.skip(i)) {
            assert(b.skip(i).subrange(0, 2)[0] == 13u8);
            assert(b[i] == 13u8);
        }
    }
    assert(s.skip(n).subrange(0, 2) == crlf());
    assert(crlf().is_prefix_of(s.skip(n)));
    assert(place_of(s, crlf()) == n);
    assert(s.take(n) == b);
    assert(s.skip(n + 2) == rest);
}

/// A short answer gives its status, says that it is plain text and how many
/// bytes it has, closes the connection, and ends in the message on a line.
pub proof fn short_answer_is_plain_text(status: u16, msg: Seq<char>)
    ensures
        simple_text(status, msg) == "HTTP/1.1 "@ + decimal(status as nat) + seq![' ']
            + usual_reason(status) + "\r\nContent-Type: text/plain; charset=utf-8"@
            + "\r\nContent-Length: "@ + decimal(encode_utf8(msg + seq!['\n']).len())
            + "\r\nConnection: close"@ + "\r\n\r\n"@ + msg + seq!['\n'],
{
    reveal_strlit(" ");
    reveal_strlit("\n");
    reveal_strlit("\r\nContent-Type: text/plain; charset=utf-8");
    reveal_strlit("\r\nContent-Length: ");
    reveal_strlit("\r\nContent-Type: text/plain; charset=utf-8\r\nContent-Length: ");
    reveal_strlit("\r\nConnection: close");
    reveal_strlit("\r\n\r\n");
    reveal_strlit("\r\nConnection: close\r\n\r\n");
    assert(" "@ == seq![' ']);
    assert("\n"@ == seq!['\n']);
    let a = "\r\nContent-Type: text/plain; charset=utf-8"@;
    let b = "\r\nContent-Length: "@;
    let c = "\r\nConnection: close"@;
    let d = "\r\n\r\n"@;
    assert("\r\nContent-Type: text/plain; charset=utf-8\r\nContent-Length: "@ == a + b);
    assert("\r\nConnection: close\r\n\r\n"@ == c + d);
    let x = "HTTP/1.1 "@ + decimal(status as nat) + seq![' '] + usual_reason(status);
    let n = decimal(encode_utf8(msg + seq!['\n']).len());
    assert(x + (a + b) + n + (c + d) + msg + seq!['\n'] == x + a + b + n + c + d + msg
        + seq!['\n']);
}

/// The size of a chunk is what its line gives before the first semicolon, read
/// as a number in hexadecimal.
pub proof fn chunk_size_is_a_number(size: Seq<char>, extension: Seq<char>)
    requires
        size.len() > 0 ==> !Class::Space.holds(size[0]) && !Class::Space.holds(size.last()),
        forall|j: int| 0 <= j < size.len() ==> #[trigger] size[j] != ';',
    ensures
        size_of(size) == unsigned_up_to(size, 16, usize::MAX as nat),
        size_of(size + seq![';'] + extension) == unsigned_up_to(size, 16, usize::MAX as nat),
{
    let none = Seq::<char>::empty();
    text_is_cut_at_its_marks(size, ';', extension, Class::One(';'));
    trimming_leaves_the_middle(none, size, none, Class::Space);
    assert(none + size + none == size);
}

/// After a chunk a line is read, whatever it holds, and then the next size; the
/// last chunk is followed by lines, of which one is read where the body is
/// gathered, and all up to an empty one where it is passed on.
pub proof fn lines_between_chunks(
    body: Seq<u8>,
    held: Seq<u8>,
    sent: Seq<u8>,
    waiting: Seq<u8>,
    line: Seq<char>,
    max: nat,
)
    requires
        line_in(waiting) == Some(line),
    ensures
        ({
            let rest = past_line(waiting);
            let end = seq![13u8, 10u8];
            &&& (Gathering { phase: Phase::End, body, waiting }).run(max) == (Gathering {
                phase: Phase::Size,
                body,
                waiting: rest,
            }).run(max)
            &&& (Gathering { phase: Phase::Trailer, body, waiting }).run(max) == (
                Gathering { phase: Phase::Done, body, waiting: rest },
                Halt::Done,
            )
            &&& (Passing { phase: Phase::End, held, waiting, sent }).run() == (Passing {
                phase: Phase::Size,
                held,
                waiting: rest,
                sent: sent + end,
            }).run()
            &&& line.len() > 0 ==> (Passing { phase: Phase::Trailer, held, waiting, sent }).run()
                == (Passing {
                phase: Phase::Trailer,
                held,
                waiting: rest,
                sent: sent + encode_utf8(line) + end,
            }).run()
            &&& line.len() == 0 ==> (Passing { phase: Phase::Trailer, held, waiting, sent }).run()
                == (
                Passing {
                    phase: Phase::Done,
                    held,
                    waiting: rest,
                    sent: sent + encode_utf8(line) + end,
                },
                Halt::Done,
            )
        }),
{
    lemma_place_of(waiting, crlf());
    let rest = past_line(waiting);
    let g = Gathering { phase: Phase::End, body, waiting };
    assert(g.step(max) == (g.past(Phase::Size), None::<Halt>));
    let t = Gathering { phase: Phase::Trailer, body, waiting };
    assert(t.step(max) == (t.past(Phase::Done), None::<Halt>));
    assert(t.past(Phase::Done).run(max) == (t.past(Phase::Done), Halt::Done));
    let p = Passing { phase: Phase::End, held, waiting, sent };
    let next = Passing { phase: Phase::Size, held, waiting: rest, sent: sent + seq![13u8, 10u8] };
    assert(encode_utf8(Seq::<char>::empty()) == Seq::<u8>::empty()) by {
        reveal_with_fuel(encode_utf8, 2);
    }
    assert(p.past(Phase::Size, Seq::empty()) == next);
    assert(p.step() == (next, None::<Halt>));
    let q = Passing { phase: Phase::Trailer, held, waiting, sent };
    let done = q.past(Phase::Done, line);
    if line.len() == 0 {
        assert(q.step() == (done, None::<Halt>));
        assert(done.run() == (done, Halt::Done));
    } else {
        assert(q.step() == (q.past(Phase::Trailer, line), None::<Halt>));
    }
}

/// The bytes of a chunk are taken as they come, as many as are due.
pub proof fn bytes_of_a_chunk_are_taken(
    body: Seq<u8>,
    held: Seq<u8>,
    sent: Seq<u8>,
    data: Seq<u8>,
    rest: Seq<u8>,
    left: usize,
    max: nat,
)
    requires
        data.len() == left,
        left > 0,
    ensures
        (Gathering { phase: Phase::Data(left), body, waiting: data + rest }).run(max) == (
        Gathering { phase: Phase::End, body: body + data, waiting: rest }).run(max),
        (Passing { phase: Phase::Data(left), held, waiting: data + rest, sent }).run() == (Passing {
            phase: Phase::End,
            held: Seq::empty(),
            waiting: rest,
            sent: sent + held + data,
        }).run(),
{
    let g = Gathering { phase: Phase::Data(left), body, waiting: data + rest };
    let p = Passing { phase: Phase::Data(left), held, waiting: data + rest, sent };
    assert((data + rest).take(left as int) == data);
    assert((data + rest).skip(left as int) == rest);
    assert(g.step(max) == (
        Gathering { phase: Phase::End, body: body + data, waiting: rest },
        None::<Halt>,
    ));
    assert(sent + (held + data) == sent + held + data);
    assert(p.step() == (
        Passing {
            phase: Phase::End,
            held: Seq::empty(),
            waiting: rest,
            sent: sent + held + data,
        },
        None::<Halt>,
    ));
}

} // verus!
