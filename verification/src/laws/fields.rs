//! Header fields: which are found, which go on, and what they say of the body
//! and of the connection.
use crate::error::ErrorView;
use crate::http1::{
    between_proxies, chunked, closes, field_lines, header_of, hop_by_hop, length_of, passed_on,
    shown, values_of, RequestView,
};
use crate::io::{framing_of, request_framing_of, Framing};
use crate::number::{decimal, numbers_up_to_a_bound, unsigned_up_to};
use crate::text::{
    cut, joined, joined_texts_are_cut_again, lemma_lower_cut, lemma_lower_trim, lower, lower_each,
    occurs, same_word, trim, trim_front, Class,
};
use vstd::prelude::*;

verus! {

/// Of several header fields of a name the first gives the value; the case of
/// letters makes no difference. Without such a field there is none.
pub proof fn first_field_gives_the_value(
    headers: Seq<(Seq<char>, Seq<char>)>,
    name: Seq<char>,
    i: int,
)
    requires
        0 <= i <= headers.len(),
        forall|j: int| 0 <= j < i ==> !same_word((#[trigger] headers[j]).0, name),
        i < headers.len() ==> same_word(headers[i].0, name),
    ensures
        header_of(headers, name) == if i < headers.len() {
            Some(headers[i].1)
        } else {
            None
        },
    decreases headers.len(),
{
    if headers.len() > 0 && i > 0 {
        let rest = headers.drop_first();
        assert(!same_word(headers[0].0, name));
        assert forall|j: int| 0 <= j < i - 1 implies !same_word((#[trigger] rest[j]).0, name) by {
            assert(!same_word(headers[j + 1].0, name));
        }
        first_field_gives_the_value(rest, name, i - 1);
    }
}

/// All fields of a name give their values, in their order.
pub proof fn all_fields_give_their_values(
    headers: Seq<(Seq<char>, Seq<char>)>,
    field: (Seq<char>, Seq<char>),
    name: Seq<char>,
)
    ensures
        values_of(Seq::empty(), name) == Seq::<Seq<char>>::empty(),
        values_of(headers.push(field), name) == if same_word(field.0, name) {
            values_of(headers, name).push(field.1)
        } else {
            values_of(headers, name)
        },
{
    assert(headers.push(field).drop_last() == headers);
}

/// Every length is read: where the first length field writes a number that a
/// machine can count to, the body has so many bytes. Any other value, or none,
/// gives no length.
pub proof fn length_field_gives_the_length(
    headers: Seq<(Seq<char>, Seq<char>)>,
    i: int,
    n: nat,
)
    requires
        0 <= i < headers.len(),
        forall|j: int| 0 <= j < i ==> !same_word((#[trigger] headers[j]).0, "content-length"@),
        same_word(headers[i].0, "content-length"@),
    ensures
        headers[i].1 == decimal(n) && n <= usize::MAX ==> length_of(headers) == Some(n),
        headers[i].1 == decimal(n) && n > usize::MAX ==> length_of(headers) is None,
        headers[i].1 == seq!['+'] + decimal(n) && n <= usize::MAX ==> length_of(headers) == Some(n),
        length_of(headers) == unsigned_up_to(headers[i].1, 10, usize::MAX as nat),
        headers[i].1 == decimal(n) && n <= usize::MAX && !chunked(headers) ==> framing_of(headers)
            == Framing::Fixed(n as usize),
        headers[i].1.len() == 0 ==> length_of(headers) is None,
        headers[i].1.len() > 0 && headers[i].1[0] != '+' && (exists|j: int|
            0 <= j < headers[i].1.len() && !(48 <= (#[trigger] headers[i].1[j]) as u32 <= 57))
            ==> length_of(headers) is None,
{
    first_field_gives_the_value(headers, "content-length"@, i);
    numbers_up_to_a_bound(n, usize::MAX as nat, headers[i].1);
    if headers[i].1.len() == 0 {
        assert(headers[i].1 == Seq::<char>::empty());
    }
}

/// A body without a length field and without chunks is open; chunks go before a
/// length.
pub proof fn bodies_without_length(headers: Seq<(Seq<char>, Seq<char>)>)
    requires
        forall|j: int|
            0 <= j < headers.len() ==> !same_word((#[trigger] headers[j]).0, "content-length"@),
    ensures
        length_of(headers) is None,
        !chunked(headers) ==> framing_of(headers) == Framing::Open,
        chunked(headers) ==> framing_of(headers) == Framing::Chunked,
{
    first_field_gives_the_value(headers, "content-length"@, headers.len() as int);
}

/// Chunks go before a length, whatever the length.
pub proof fn chunks_go_before_a_length(headers: Seq<(Seq<char>, Seq<char>)>)
    ensures
        framing_of(headers) is Chunked <==> chunked(headers),
{
}

/// The body of a request is read before the request is passed on, by its
/// framing: a tunnel has none, and one of a given length is refused where it is
/// longer than what may be held, and only there.
pub proof fn request_bodies_up_to_a_bound(req: RequestView, max: nat, n: usize)
    ensures
        same_word(req.method, "CONNECT"@) ==> request_framing_of(req, max) == Ok::<
            Framing,
            ErrorView,
        >(Framing::Open),
        !same_word(req.method, "CONNECT"@) ==> {
            &&& framing_of(req.headers) == Framing::Fixed(n) && n <= max ==> request_framing_of(
                req,
                max,
            ) == Ok::<Framing, ErrorView>(Framing::Fixed(n))
            &&& framing_of(req.headers) == Framing::Fixed(n) && n > max ==> request_framing_of(
                req,
                max,
            ) == Err::<Framing, ErrorView>(
                ErrorView::Http(
                    "request body "@ + decimal(n as nat) + " exceeds max_buffered_body "@
                        + decimal(max),
                ),
            )
            &&& framing_of(req.headers) is Chunked ==> request_framing_of(req, max) == Ok::<
                Framing,
                ErrorView,
            >(Framing::Chunked)
            &&& framing_of(req.headers) is Open ==> request_framing_of(req, max) == Ok::<
                Framing,
                ErrorView,
            >(Framing::Open)
        },
{
}

proof fn lemma_lower_word(s: Seq<char>, word: Seq<char>)
    requires
        forall|i: int| 0 <= i < word.len() ==> !('A' <= #[trigger] word[i] <= 'Z'),
    ensures
        lower(word) == word,
        same_word(s, word) <==> lower(s) == word,
{
    assert(lower(word) == word);
}

/// A body comes in chunks where the first field that says how it is sent has
/// the word `chunked` anywhere in it, in capitals or small letters.
pub proof fn chunked_wherever_the_word_stands(headers: Seq<(Seq<char>, Seq<char>)>, i: int)
    requires
        0 <= i <= headers.len(),
        forall|j: int| 0 <= j < i ==> !same_word((#[trigger] headers[j]).0, "transfer-encoding"@),
        i < headers.len() ==> same_word(headers[i].0, "transfer-encoding"@),
    ensures
        i == headers.len() ==> !chunked(headers),
        i < headers.len() ==> {
            let v = headers[i].1;
            chunked(headers) <==> exists|j: int|
                0 <= j && j + 7 <= v.len() && same_word(
                    #[trigger] v.subrange(j, j + 7),
                    "chunked"@,
                )
        },
{
    first_field_gives_the_value(headers, "transfer-encoding"@, i);
    if i < headers.len() {
        let v = headers[i].1;
        let word = "chunked"@;
        let l = lower(v);
        reveal_strlit("chunked");
        if occurs(l, word) {
            let j = choose|j: int| 0 <= j <= l.len() && word.is_prefix_of(#[trigger] l.skip(j));
            assert(l.skip(j).subrange(0, 7) == word);
            assert(lower(v.subrange(j, j + 7)) == word) by {
                assert(lower(v.subrange(j, j + 7)) == l.skip(j).subrange(0, 7));
            }
            lemma_lower_word(v.subrange(j, j + 7), word);
        }
        if exists|j: int|
            0 <= j && j + 7 <= v.len() && same_word(#[trigger] v.subrange(j, j + 7), word) {
            let j = choose|j: int|
                0 <= j && j + 7 <= v.len() && same_word(#[trigger] v.subrange(j, j + 7), word);
            lemma_lower_word(v.subrange(j, j + 7), word);
            assert(l.skip(j).subrange(0, 7) == lower(v.subrange(j, j + 7)));
            assert(word.is_prefix_of(l.skip(j)));
        }
    }
}

/// A connection ends with the message where one of the options of its first
/// `Connection` field is `close`, with white space around it or none, in
/// capitals or small letters.
pub proof fn connection_ends_where_an_option_says_so(
    headers: Seq<(Seq<char>, Seq<char>)>,
    i: int,
    options: Seq<Seq<char>>,
)
    requires
        0 <= i <= headers.len(),
        forall|j: int| 0 <= j < i ==> !same_word((#[trigger] headers[j]).0, "connection"@),
        i < headers.len() ==> same_word(headers[i].0, "connection"@) && headers[i].1 == joined(
            options,
            seq![','],
        ),
        options.len() > 0,
        forall|m: int, j: int|
            0 <= m < options.len() && 0 <= j < options[m].len() ==> #[trigger] options[m][j] != ',',
    ensures
        i == headers.len() ==> !closes(headers),
        i < headers.len() ==> (closes(headers) <==> exists|m: int|
            0 <= m < options.len() && same_word(trim(#[trigger] options[m]), "close"@)),
{
    first_field_gives_the_value(headers, "connection"@, i);
    if i < headers.len() {
        let v = headers[i].1;
        let k = Class::One(',');
        joined_texts_are_cut_again(options, ',');
        lemma_lower_cut(v, k);
        let parts = cut(lower(v), k);
        assert(parts == lower_each(options));
        reveal_strlit("close");
        assert forall|m: int| 0 <= m < options.len() implies (trim(#[trigger] parts[m]) == "close"@)
            == same_word(trim(options[m]), "close"@) by {
            let o = options[m];
            lemma_lower_trim(o, Class::Space);
            lemma_lower_trim(trim_front(o, Class::Space), Class::Space);
            assert(trim(lower(o)) == lower(trim(o)));
            lemma_lower_word(trim(o), "close"@);
        }
        if closes(headers) {
            let m = choose|m: int|
                0 <= m < parts.len() && trim(#[trigger] parts[m]) == "close"@;
            assert(same_word(trim(options[m]), "close"@));
        }
        if exists|m: int| 0 <= m < options.len() && same_word(trim(#[trigger] options[m]), "close"@) {
            let m = choose|m: int|
                0 <= m < options.len() && same_word(trim(#[trigger] options[m]), "close"@);
            assert(trim(parts[m]) == "close"@);
        }
    }
}

proof fn lemma_kept(
    headers: Seq<(Seq<char>, Seq<char>)>,
    keep: spec_fn((Seq<char>, Seq<char>)) -> bool,
    name: Seq<char>,
    good: bool,
)
    requires
        forall|h: (Seq<char>, Seq<char>)| same_word(h.0, name) ==> #[trigger] keep(h) == good,
    ensures
        values_of(headers.filter(keep), name) == if good {
            values_of(headers, name)
        } else {
            Seq::empty()
        },
        header_of(headers, name) == first_of(values_of(headers, name)),
    decreases headers.len(),
{
    reveal(Seq::filter);
    if headers.len() > 0 {
        let rest = headers.drop_last();
        let last = headers.last();
        lemma_kept(rest, keep, name, good);
        assert(rest.push(last) == headers);
        all_fields_give_their_values(rest, last, name);
        all_fields_give_their_values(rest.filter(keep), last, name);
        lemma_header_of_push(rest, last, name);
    }
}

spec fn first_of(values: Seq<Seq<char>>) -> Option<Seq<char>> {
    if values.len() == 0 {
        None
    } else {
        Some(values[0])
    }
}

proof fn lemma_header_of_push(
    headers: Seq<(Seq<char>, Seq<char>)>,
    field: (Seq<char>, Seq<char>),
    name: Seq<char>,
)
    ensures
        header_of(headers.push(field), name) == if header_of(headers, name) is Some {
            header_of(headers, name)
        } else if same_word(field.0, name) {
            Some(field.1)
        } else {
            None
        },
    decreases headers.len(),
{
    let all = headers.push(field);
    if headers.len() == 0 {
        assert(all.drop_first() == headers);
    } else {
        assert(all.drop_first() == headers.drop_first().push(field));
        lemma_header_of_push(headers.drop_first(), field, name);
    }
}

/// The fields that concern one connection only, by nine names, stay behind with
/// a request. Every other field is passed on as it is, with all its values, the
/// credentials for the server, its cookies and the length of the body among
/// them.
pub proof fn end_to_end_fields_are_passed_on(
    headers: Seq<(Seq<char>, Seq<char>)>,
    name: Seq<char>,
)
    ensures
        ({
            let stays = same_word(name, "connection"@) || same_word(name, "proxy-connection"@)
                || same_word(name, "keep-alive"@) || same_word(name, "te"@) || same_word(
                name,
                "trailers"@,
            ) || same_word(name, "transfer-encoding"@) || same_word(name, "upgrade"@) || same_word(
                name,
                "proxy-authorization"@,
            ) || same_word(name, "proxy-authenticate"@);
            &&& stays ==> header_of(passed_on(headers), name) is None
            &&& stays ==> values_of(passed_on(headers), name) == Seq::<Seq<char>>::empty()
            &&& !stays ==> header_of(passed_on(headers), name) == header_of(headers, name)
            &&& !stays ==> values_of(passed_on(headers), name) == values_of(headers, name)
        }),
{
    let keep = |h: (Seq<char>, Seq<char>)| !hop_by_hop(h.0);
    lemma_kept(headers, keep, name, !hop_by_hop(name));
    lemma_kept(headers.filter(keep), keep, name, !hop_by_hop(name));
}

/// The fields that are passed on stand in the order in which they came.
pub proof fn passed_on_fields_keep_their_order(headers: Seq<(Seq<char>, Seq<char>)>)
    ensures
        passed_on(headers) == headers.filter(
            |h: (Seq<char>, Seq<char>)|
                {
                    &&& !same_word(h.0, "connection"@)
                    &&& !same_word(h.0, "proxy-connection"@)
                    &&& !same_word(h.0, "keep-alive"@)
                    &&& !same_word(h.0, "te"@)
                    &&& !same_word(h.0, "trailers"@)
                    &&& !same_word(h.0, "transfer-encoding"@)
                    &&& !same_word(h.0, "upgrade"@)
                    &&& !same_word(h.0, "proxy-authorization"@)
                    &&& !same_word(h.0, "proxy-authenticate"@)
                },
        ),
{
    let a = |h: (Seq<char>, Seq<char>)| !hop_by_hop(h.0);
    let b = |h: (Seq<char>, Seq<char>)|
        {
            &&& !same_word(h.0, "connection"@)
            &&& !same_word(h.0, "proxy-connection"@)
            &&& !same_word(h.0, "keep-alive"@)
            &&& !same_word(h.0, "te"@)
            &&& !same_word(h.0, "trailers"@)
            &&& !same_word(h.0, "transfer-encoding"@)
            &&& !same_word(h.0, "upgrade"@)
            &&& !same_word(h.0, "proxy-authorization"@)
            &&& !same_word(h.0, "proxy-authenticate"@)
        };
    assert(a =~= b);
}

/// A client is shown all fields of a response but three that proxies tell each
/// other, in their order.
pub proof fn client_is_shown_all_but_three_fields(
    headers: Seq<(Seq<char>, Seq<char>)>,
    name: Seq<char>,
)
    ensures
        shown(headers) == headers.filter(
            |h: (Seq<char>, Seq<char>)|
                {
                    &&& !same_word(h.0, "proxy-authenticate"@)
                    &&& !same_word(h.0, "proxy-authorization"@)
                    &&& !same_word(h.0, "proxy-connection"@)
                },
        ),
        ({
            let stays = same_word(name, "proxy-authenticate"@) || same_word(
                name,
                "proxy-authorization"@,
            ) || same_word(name, "proxy-connection"@);
            &&& stays ==> values_of(shown(headers), name) == Seq::<Seq<char>>::empty()
            &&& !stays ==> values_of(shown(headers), name) == values_of(headers, name)
            &&& !stays ==> header_of(shown(headers), name) == header_of(headers, name)
        }),
{
    let a = |h: (Seq<char>, Seq<char>)| !between_proxies(h.0);
    let b = |h: (Seq<char>, Seq<char>)|
        {
            &&& !same_word(h.0, "proxy-authenticate"@)
            &&& !same_word(h.0, "proxy-authorization"@)
            &&& !same_word(h.0, "proxy-connection"@)
        };
    assert(a =~= b);
    lemma_kept(headers, a, name, !between_proxies(name));
    lemma_kept(headers.filter(a), a, name, !between_proxies(name));
}

/// Each field is written on a line of its own: its name, a colon and a space,
/// its value, and the end of the line.
pub proof fn fields_are_written_line_by_line(
    headers: Seq<(Seq<char>, Seq<char>)>,
    name: Seq<char>,
    value: Seq<char>,
)
    ensures
        field_lines(Seq::empty()) == Seq::<char>::empty(),
        field_lines(headers.push((name, value))) == field_lines(headers) + name + seq![':', ' ']
            + value + seq!['\r', '\n'],
{
    reveal_strlit(": ");
    reveal_strlit("\r\n");
    assert(": "@ == seq![':', ' ']);
    assert("\r\n"@ == seq!['\r', '\n']);
    assert(headers.push((name, value)).drop_last() == headers);
    assert(field_lines(headers) + (name + ": "@ + value + "\r\n"@) == field_lines(headers) + name
        + ": "@ + value + "\r\n"@);
}

} // verus!
