//! Text as a sequence of characters: classes of characters, trimming,
//! cutting, searching and folding the case of ASCII letters.
use crate::boundary::mended;
use vstd::prelude::*;
use vstd::slice::slice_subrange;
use vstd::string::StringExecFns;
use vstd::utf8::{
    decode_utf8, encode_utf8, encode_utf8_decode_utf8, encode_utf8_valid_utf8, valid_utf8,
};

verus! {

/// A set of characters at which text is trimmed or cut.
#[derive(Clone, Copy)]
pub enum Class {
    /// One given character.
    One(char),
    /// White space in the sense of Unicode's `White_Space` property.
    Space,
    /// Square brackets.
    Bracket,
    /// What stands between the entries of a proxy list: `;`, a space or a tab.
    Gap,
}

/// Unicode's `White_Space` property.
pub open spec fn is_space(c: char) -> bool {
    ||| '\t' <= c <= '\r'
    ||| c == ' '
    ||| c == '\u{85}'
    ||| c == '\u{a0}'
    ||| c == '\u{1680}'
    ||| '\u{2000}' <= c <= '\u{200a}'
    ||| c == '\u{2028}'
    ||| c == '\u{2029}'
    ||| c == '\u{202f}'
    ||| c == '\u{205f}'
    ||| c == '\u{3000}'
}

impl Class {
    /// Whether `c` belongs to the class.
    pub open spec fn holds(self, c: char) -> bool {
        match self {
            Class::One(d) => c == d,
            Class::Space => is_space(c),
            Class::Bracket => c == '[' || c == ']',
            Class::Gap => c == ';' || c == ' ' || c == '\t',
        }
    }

    /// Tests whether `c` belongs to the class.
    pub fn test(self, c: char) -> (r: bool)
        ensures
            r == self.holds(c),
    {
        match self {
            Class::One(d) => c == d,
            Class::Space => ('\t' <= c && c <= '\r') || c == ' ' || c == '\u{85}' || c == '\u{a0}'
                || c == '\u{1680}' || ('\u{2000}' <= c && c <= '\u{200a}') || c == '\u{2028}' || c
                == '\u{2029}' || c == '\u{202f}' || c == '\u{205f}' || c == '\u{3000}',
            Class::Bracket => c == '[' || c == ']',
            Class::Gap => c == ';' || c == ' ' || c == '\t',
        }
    }
}

/// `s` without the characters of `k` that it starts with.
pub open spec fn trim_front(s: Seq<char>, k: Class) -> Seq<char>
    decreases s.len(),
{
    if s.len() > 0 && k.holds(s[0]) {
        trim_front(s.drop_first(), k)
    } else {
        s
    }
}

/// `s` without the characters of `k` that it ends in.
pub open spec fn trim_back(s: Seq<char>, k: Class) -> Seq<char>
    decreases s.len(),
{
    if s.len() > 0 && k.holds(s.last()) {
        trim_back(s.drop_last(), k)
    } else {
        s
    }
}

/// `s` without the characters of `k` at either end.
pub open spec fn trim_both(s: Seq<char>, k: Class) -> Seq<char> {
    trim_back(trim_front(s, k), k)
}

/// `s` without white space at either end.
pub open spec fn trim(s: Seq<char>) -> Seq<char> {
    trim_both(s, Class::Space)
}

/// The place of the first character of `k` in `s`, or the length of `s`.
pub open spec fn first_at(s: Seq<char>, k: Class) -> int
    decreases s.len(),
{
    if s.len() == 0 || k.holds(s[0]) {
        0
    } else {
        1 + first_at(s.drop_first(), k)
    }
}

/// The place of the last character of `k` in `s`, or `-1`.
pub open spec fn last_at(s: Seq<char>, k: Class) -> int
    decreases s.len(),
{
    if s.len() == 0 || k.holds(s.last()) {
        s.len() - 1
    } else {
        last_at(s.drop_last(), k)
    }
}

/// Whether some character of `s` belongs to `k`.
pub open spec fn includes(s: Seq<char>, k: Class) -> bool {
    exists|i: int| 0 <= i < s.len() && #[trigger] k.holds(s[i])
}

/// What stands before the first character of `k`.
pub open spec fn before(s: Seq<char>, k: Class) -> Seq<char> {
    s.take(first_at(s, k))
}

/// What stands after the first character of `k`; empty where there is none.
pub open spec fn after(s: Seq<char>, k: Class) -> Seq<char> {
    if first_at(s, k) < s.len() {
        s.skip(first_at(s, k) + 1)
    } else {
        Seq::empty()
    }
}

/// The pieces of `s` between the characters of `k`: always one more than there
/// are such characters.
pub open spec fn cut(s: Seq<char>, k: Class) -> Seq<Seq<char>>
    decreases s.len(),
{
    if first_at(s, k) < s.len() {
        proof {
            lemma_first_at(s, k);
        }
        seq![before(s, k)] + cut(after(s, k), k)
    } else {
        seq![s]
    }
}

/// What the place of the first character of `k` is.
pub proof fn lemma_first_at(s: Seq<char>, k: Class)
    ensures
        0 <= first_at(s, k) <= s.len(),
        forall|i: int| 0 <= i < first_at(s, k) ==> !k.holds(#[trigger] s[i]),
        first_at(s, k) < s.len() ==> k.holds(s[first_at(s, k)]),
        first_at(s, k) < s.len() <==> includes(s, k),
    decreases s.len(),
{
    if s.len() > 0 && !k.holds(s[0]) {
        let t = s.drop_first();
        lemma_first_at(t, k);
        assert forall|i: int| 0 <= i < first_at(s, k) implies !k.holds(#[trigger] s[i]) by {
            if i > 0 {
                assert(s[i] == t[i - 1]);
            }
        }
        if first_at(s, k) < s.len() {
            assert(s[first_at(s, k)] == t[first_at(t, k)]);
        }
    }
}

/// What the place of the last character of `k` is.
pub proof fn lemma_last_at(s: Seq<char>, k: Class)
    ensures
        -1 <= last_at(s, k) < s.len() || s.len() == 0 && last_at(s, k) == -1,
        forall|i: int| last_at(s, k) < i < s.len() ==> !k.holds(#[trigger] s[i]),
        last_at(s, k) >= 0 ==> k.holds(s[last_at(s, k)]),
        last_at(s, k) >= 0 <==> includes(s, k),
    decreases s.len(),
{
    if s.len() > 0 && !k.holds(s.last()) {
        let t = s.drop_last();
        lemma_last_at(t, k);
        assert forall|i: int| last_at(s, k) < i < s.len() implies !k.holds(#[trigger] s[i]) by {
            if i < t.len() {
                assert(s[i] == t[i]);
            }
        }
        if includes(s, k) {
            let i = choose|i: int| 0 <= i < s.len() && #[trigger] k.holds(s[i]);
            assert(k.holds(t[i]));
        }
    }
}

/// How many pieces there are, and which is the first.
pub proof fn lemma_cut(s: Seq<char>, k: Class)
    ensures
        cut(s, k).len() > 0,
        cut(s, k)[0] == before(s, k),
        cut(s, k).len() == 1 <==> !includes(s, k),
    decreases s.len(),
{
    lemma_first_at(s, k);
    if first_at(s, k) < s.len() {
        lemma_cut(after(s, k), k);
    } else {
        assert(before(s, k) == s);
    }
}

/// The characters of `s`.
pub fn chars_of(s: &str) -> (r: Vec<char>)
    ensures
        r@ == s@,
{
    let mut out: Vec<char> = Vec::new();
    for c in it: s.chars()
        invariant
            out@ == it.seq().take(it.index()),
            it.seq() == s@,
    {
        out.push(c);
    }
    out
}

/// Bytes as text: decoded where they are UTF-8, mended where they are not.
pub open spec fn lossy(bytes: Seq<u8>) -> Seq<char> {
    if valid_utf8(bytes) {
        decode_utf8(bytes)
    } else {
        mended(bytes)
    }
}

/// A string that holds the characters `s`.
pub fn text_of(s: &[char]) -> (r: String)
    ensures
        r@ == s@,
{
    let mut out = String::new();
    for i in 0..s.len()
        invariant
            out@ == s@.take(i as int),
    {
        out.push(s[i]);
        assert(s@.take(i + 1) == s@.take(i as int).push(s@[i as int]));
    }
    assert(s@.take(s@.len() as int) == s@);
    out
}

/// Cuts the characters of `k` off the front of `s`.
pub fn trimmed_front<'a>(s: &'a [char], k: Class) -> (r: &'a [char])
    ensures
        r@ == trim_front(s@, k),
{
    let mut i: usize = 0;
    assert(s@.skip(0) == s@);
    while i < s.len() && k.test(s[i])
        invariant
            i <= s@.len(),
            trim_front(s@.skip(i as int), k) == trim_front(s@, k),
        decreases s@.len() - i,
    {
        assert(s@.skip(i as int).drop_first() == s@.skip(i + 1));
        i = i + 1;
    }
    slice_subrange(s, i, s.len())
}

/// Cuts the characters of `k` off the end of `s`.
pub fn trimmed_back<'a>(s: &'a [char], k: Class) -> (r: &'a [char])
    ensures
        r@ == trim_back(s@, k),
{
    let mut n: usize = s.len();
    assert(s@.take(n as int) == s@);
    while n > 0 && k.test(s[n - 1])
        invariant
            n <= s@.len(),
            trim_back(s@.take(n as int), k) == trim_back(s@, k),
        decreases n,
    {
        assert(s@.take(n as int).drop_last() == s@.take(n - 1));
        n = n - 1;
    }
    slice_subrange(s, 0, n)
}

/// Cuts the characters of `k` off both ends of `s`.
pub fn trimmed_both<'a>(s: &'a [char], k: Class) -> (r: &'a [char])
    ensures
        r@ == trim_both(s@, k),
{
    trimmed_back(trimmed_front(s, k), k)
}

/// Cuts white space off both ends of `s`.
pub fn trimmed<'a>(s: &'a [char]) -> (r: &'a [char])
    ensures
        r@ == trim(s@),
{
    trimmed_both(s, Class::Space)
}

/// Finds the first character of `k` in `s`.
pub fn find_first(s: &[char], k: Class) -> (r: usize)
    ensures
        r == first_at(s@, k),
        r <= s@.len(),
{
    let mut i: usize = 0;
    assert(s@.skip(0) == s@);
    while i < s.len() && !k.test(s[i])
        invariant
            i <= s@.len(),
            first_at(s@, k) == i + first_at(s@.skip(i as int), k),
        decreases s@.len() - i,
    {
        assert(s@.skip(i as int).drop_first() == s@.skip(i + 1));
        i = i + 1;
    }
    i
}

/// Finds the last character of `k` in `s`.
pub fn find_last(s: &[char], k: Class) -> (r: Option<usize>)
    ensures
        match r {
            Some(i) => i == last_at(s@, k) && i < s@.len(),
            None => last_at(s@, k) == -1,
        },
{
    let mut n: usize = s.len();
    assert(s@.take(n as int) == s@);
    while n > 0
        invariant
            n <= s@.len(),
            last_at(s@, k) == last_at(s@.take(n as int), k),
        decreases n,
    {
        if k.test(s[n - 1]) {
            return Some(n - 1);
        }
        assert(s@.take(n as int).drop_last() == s@.take(n - 1));
        n = n - 1;
    }
    None
}

/// Tests whether a character of `k` occurs in `s`.
pub fn contains(s: &[char], k: Class) -> (r: bool)
    ensures
        r == includes(s@, k),
{
    proof {
        lemma_first_at(s@, k);
    }
    find_first(s, k) < s.len()
}

/// The characters of each piece.
pub open spec fn pieces(v: Seq<&[char]>) -> Seq<Seq<char>> {
    Seq::new(v.len(), |i: int| v[i]@)
}

/// Cuts `s` at each character of `k`.
pub fn cut_at<'a>(s: &'a [char], k: Class) -> (r: Vec<&'a [char]>)
    ensures
        pieces(r@) == cut(s@, k),
        r@.len() > 0,
{
    let mut out: Vec<&'a [char]> = Vec::new();
    let mut rest: &'a [char] = s;
    assert(pieces(out@) + cut(rest@, k) == cut(s@, k));
    loop
        invariant_except_break
            pieces(out@) + cut(rest@, k) == cut(s@, k),
        ensures
            pieces(out@) == cut(s@, k),
            out@.len() > 0,
        decreases rest@.len(),
    {
        let i: usize = find_first(rest, k);
        let ghost done = out@;
        let ghost left = rest@;
        if i == rest.len() {
            out.push(rest);
            assert(pieces(out@) == pieces(done) + seq![left]);
            break;
        }
        out.push(slice_subrange(rest, 0, i));
        rest = slice_subrange(rest, i + 1, rest.len());
        assert(pieces(out@) == pieces(done) + seq![before(left, k)]);
        assert(rest@ == after(left, k));
        assert(pieces(done) + (seq![before(left, k)] + cut(rest@, k)) == pieces(out@) + cut(
            rest@,
            k,
        ));
    }
    out
}

/// `c` with an ASCII capital made small.
pub open spec fn lower_char(c: char) -> char {
    if 'A' <= c <= 'Z' {
        (c as u32 + 32) as char
    } else {
        c
    }
}

/// `c` with a small ASCII letter made a capital.
pub open spec fn upper_char(c: char) -> char {
    if 'a' <= c <= 'z' {
        (c as u32 - 32) as char
    } else {
        c
    }
}

/// `s` with its ASCII capitals made small.
pub open spec fn lower(s: Seq<char>) -> Seq<char> {
    Seq::new(s.len(), |i: int| lower_char(s[i]))
}

/// `s` with its small ASCII letters made capitals.
pub open spec fn upper(s: Seq<char>) -> Seq<char> {
    Seq::new(s.len(), |i: int| upper_char(s[i]))
}

/// Whether `a` and `b` differ at most in the case of ASCII letters.
pub open spec fn same_word(a: Seq<char>, b: Seq<char>) -> bool {
    lower(a) == lower(b)
}

/// Makes an ASCII capital small.
pub fn lower_of(c: char) -> (r: char)
    ensures
        r == lower_char(c),
{
    if 'A' <= c && c <= 'Z' {
        (c as u8 + 32) as char
    } else {
        c
    }
}

/// Makes a small ASCII letter a capital.
pub fn upper_of(c: char) -> (r: char)
    ensures
        r == upper_char(c),
{
    if 'a' <= c && c <= 'z' {
        (c as u8 - 32) as char
    } else {
        c
    }
}

/// Makes the ASCII capitals of `s` small.
pub fn lowered(s: &[char]) -> (r: Vec<char>)
    ensures
        r@ == lower(s@),
{
    let mut out: Vec<char> = Vec::new();
    for i in 0..s.len()
        invariant
            out@ == lower(s@).take(i as int),
    {
        out.push(lower_of(s[i]));
    }
    out
}

/// Makes the small ASCII letters of `s` capitals.
pub fn raised(s: &[char]) -> (r: Vec<char>)
    ensures
        r@ == upper(s@),
{
    let mut out: Vec<char> = Vec::new();
    for i in 0..s.len()
        invariant
            out@ == upper(s@).take(i as int),
    {
        out.push(upper_of(s[i]));
    }
    out
}

/// Tests whether `a` and `b` are the same text.
pub fn equal(a: &[char], b: &[char]) -> (r: bool)
    ensures
        r == (a@ == b@),
{
    if a.len() != b.len() {
        return false;
    }
    for i in 0..a.len()
        invariant
            a@.len() == b@.len(),
            forall|j: int| 0 <= j < i ==> a@[j] == b@[j],
    {
        if a[i] != b[i] {
            return false;
        }
    }
    assert(a@ == b@);
    true
}

/// Tests whether `a` is the text `word`.
pub fn is_text(a: &[char], word: &str) -> (r: bool)
    ensures
        r == (a@ == word@),
{
    equal(a, chars_of(word).as_slice())
}

/// Tests whether `a` and `b` differ at most in the case of ASCII letters.
pub fn is_same_word(a: &str, b: &str) -> (r: bool)
    ensures
        r == same_word(a@, b@),
{
    equal(
        lowered(chars_of(a).as_slice()).as_slice(),
        lowered(chars_of(b).as_slice()).as_slice(),
    )
}

/// What texts are made of: characters, or bytes.
pub trait Symbol: Copy {
    /// Tests whether two symbols are the same.
    fn same(self, other: Self) -> (r: bool)
        ensures
            r == (self == other),
    ;
}

impl Symbol for char {
    fn same(self, other: char) -> bool {
        self == other
    }
}

impl Symbol for u8 {
    fn same(self, other: u8) -> bool {
        self == other
    }
}

/// Tests whether `s` starts with `t`.
pub fn begins_with<T: Symbol>(s: &[T], t: &[T]) -> (r: bool)
    ensures
        r == t@.is_prefix_of(s@),
{
    if t.len() > s.len() {
        return false;
    }
    for i in 0..t.len()
        invariant
            t@.len() <= s@.len(),
            forall|j: int| 0 <= j < i ==> s@[j] == t@[j],
    {
        if !s[i].same(t[i]) {
            assert(s@.take(t@.len() as int)[i as int] != t@[i as int]);
            return false;
        }
    }
    assert(s@.take(t@.len() as int) == t@);
    true
}

/// Finds the place where `t` first occurs in `s`.
pub fn find_part<T: Symbol>(s: &[T], t: &[T]) -> (r: Option<usize>)
    ensures
        match r {
            Some(i) => i == place_of(s@, t@) && i + t@.len() <= s@.len(),
            None => place_of(s@, t@) == -1,
        },
{
    let mut i: usize = 0;
    proof {
        lemma_place_of(s@, t@);
    }
    loop
        invariant
            i <= s@.len(),
            forall|j: int| 0 <= j < i ==> !t@.is_prefix_of(#[trigger] s@.skip(j)),
        decreases s@.len() - i,
    {
        let rest = slice_subrange(s, i, s.len());
        assert(rest@ == s@.skip(i as int));
        if begins_with(rest, t) {
            proof {
                lemma_place_of(s@, t@);
            }
            return Some(i);
        }
        if i == s.len() {
            proof {
                lemma_place_of(s@, t@);
            }
            return None;
        }
        i = i + 1;
    }
}

/// Tests whether `s` starts with `t`.
pub fn starts_with(s: &[char], t: &[char]) -> (r: bool)
    ensures
        r == t@.is_prefix_of(s@),
{
    begins_with(s, t)
}

/// What follows `t` in `s`, where `s` starts with `t`.
pub fn after_prefix<'a>(s: &'a [char], t: &str) -> (r: Option<&'a [char]>)
    ensures
        match r {
            Some(rest) => t@.is_prefix_of(s@) && rest@ == s@.skip(t@.len() as int),
            None => !t@.is_prefix_of(s@),
        },
{
    let p = chars_of(t);
    if starts_with(s, p.as_slice()) {
        let rest = slice_subrange(s, p.len(), s.len());
        assert(rest@ == s@.skip(t@.len() as int));
        Some(rest)
    } else {
        None
    }
}

/// Tests whether `s` ends in `t`.
pub fn ends_with(s: &[char], t: &[char]) -> (r: bool)
    ensures
        r == t@.is_suffix_of(s@),
{
    t.len() <= s.len() && equal(slice_subrange(s, s.len() - t.len(), s.len()), t)
}

/// The place where `t` first occurs in `s`, or `-1`.
pub open spec fn place_of<T>(s: Seq<T>, t: Seq<T>) -> int
    decreases s.len(),
{
    if t.is_prefix_of(s) {
        0
    } else if s.len() == 0 {
        -1
    } else {
        let r = place_of(s.drop_first(), t);
        if r < 0 {
            -1
        } else {
            r + 1
        }
    }
}

/// Whether `t` occurs in `s`.
pub open spec fn occurs<T>(s: Seq<T>, t: Seq<T>) -> bool {
    exists|i: int| 0 <= i <= s.len() && t.is_prefix_of(#[trigger] s.skip(i))
}

/// What the place is where `t` first occurs.
pub proof fn lemma_place_of<T>(s: Seq<T>, t: Seq<T>)
    ensures
        -1 <= place_of(s, t) <= s.len() - t.len() || place_of(s, t) == -1,
        place_of(s, t) >= 0 ==> t.is_prefix_of(s.skip(place_of(s, t))),
        forall|i: int|
            0 <= i <= s.len() && (i < place_of(s, t) || place_of(s, t) < 0)
                ==> !t.is_prefix_of(#[trigger] s.skip(i)),
        place_of(s, t) >= 0 <==> occurs(s, t),
    decreases s.len(),
{
    assert(s.skip(0) == s);
    if !t.is_prefix_of(s) && s.len() > 0 {
        let u = s.drop_first();
        lemma_place_of(u, t);
        let p = place_of(u, t);
        if p >= 0 {
            assert(u.skip(p) == s.skip(p + 1));
        }
        assert forall|i: int|
            0 <= i <= s.len() && (i < place_of(s, t) || place_of(s, t) < 0) implies !t.is_prefix_of(
            #[trigger] s.skip(i),
        ) by {
            if i > 0 {
                assert(s.skip(i) == u.skip(i - 1));
            }
        }
    }
}

/// What follows the place where `t` first occurs makes no difference to it.
pub proof fn lemma_place_stays<T>(a: Seq<T>, b: Seq<T>, t: Seq<T>)
    requires
        place_of(a, t) >= 0,
    ensures
        place_of(a + b, t) == place_of(a, t),
    decreases a.len(),
{
    lemma_place_of(a, t);
    if t.is_prefix_of(a) {
        assert((a + b).take(t.len() as int) == a.take(t.len() as int));
    } else {
        assert((a + b).drop_first() == a.drop_first() + b);
        lemma_place_stays(a.drop_first(), b, t);
        if t.is_prefix_of(a + b) {
            assert((a + b).take(t.len() as int) == a.take(t.len() as int));
        }
    }
}

/// Finds the place where `t` first occurs in `s`.
pub fn find_text(s: &[char], t: &[char]) -> (r: Option<usize>)
    ensures
        match r {
            Some(i) => i == place_of(s@, t@) && i + t@.len() <= s@.len(),
            None => place_of(s@, t@) == -1,
        },
{
    find_part(s, t)
}

/// Tests whether `t` occurs in `s`.
pub fn contains_text(s: &[char], t: &[char]) -> (r: bool)
    ensures
        r == occurs(s@, t@),
{
    proof {
        lemma_place_of(s@, t@);
    }
    find_text(s, t).is_some()
}

/// `s` without the copies of `t` that it starts with.
pub open spec fn strip_front(s: Seq<char>, t: Seq<char>) -> Seq<char>
    decreases s.len(),
{
    if t.len() > 0 && t.is_prefix_of(s) {
        strip_front(s.skip(t.len() as int), t)
    } else {
        s
    }
}

/// Cuts the copies of `t` off the front of `s`.
pub fn stripped_front<'a>(s: &'a [char], t: &[char]) -> (r: &'a [char])
    ensures
        r@ == strip_front(s@, t@),
{
    let mut rest: &'a [char] = s;
    while t.len() > 0 && starts_with(rest, t)
        invariant
            strip_front(rest@, t@) == strip_front(s@, t@),
        decreases rest@.len(),
    {
        let ghost left = rest@;
        rest = slice_subrange(rest, t.len(), rest.len());
        assert(rest@ == left.skip(t@.len() as int));
    }
    rest
}

/// The pieces of `s` that hold more than white space, cut at white space.
pub open spec fn words(s: Seq<char>) -> Seq<Seq<char>> {
    cut(s, Class::Space).filter(|w: Seq<char>| w.len() > 0)
}

/// Cuts `s` into words at white space.
pub fn words_of<'a>(s: &'a [char]) -> (r: Vec<&'a [char]>)
    ensures
        pieces(r@) == words(s@),
{
    let parts = cut_at(s, Class::Space);
    let mut out: Vec<&'a [char]> = Vec::new();
    let ghost full = pieces(parts@);
    let ghost keep = |w: Seq<char>| w.len() > 0;
    assert(full.take(0).filter(keep) == Seq::<Seq<char>>::empty()) by {
        reveal(Seq::filter);
    }
    for i in 0..parts.len()
        invariant
            full == pieces(parts@),
            keep == (|w: Seq<char>| w.len() > 0),
            pieces(out@) == full.take(i as int).filter(keep),
    {
        let ghost done = out@;
        proof {
            reveal(Seq::filter);
            assert(full.take(i + 1).drop_last() == full.take(i as int));
            assert(full.take(i + 1).last() == full[i as int]);
        }
        if !parts[i].is_empty() {
            out.push(parts[i]);
            assert(pieces(out@) == pieces(done).push(full[i as int]));
        }
    }
    assert(full.take(full.len() as int) == full);
    out
}

/// The parts one after the other, with `sep` between them.
pub open spec fn joined(parts: Seq<Seq<char>>, sep: Seq<char>) -> Seq<char>
    decreases parts.len(),
{
    if parts.len() == 0 {
        Seq::empty()
    } else if parts.len() == 1 {
        parts[0]
    } else {
        joined(parts.drop_last(), sep) + sep + parts.last()
    }
}

/// Puts the parts one after the other, with `sep` between them.
pub fn join(parts: &[String], sep: &str) -> (r: String)
    ensures
        r@ == joined(parts.deep_view(), sep@),
{
    let mut out = String::new();
    let ghost all = parts.deep_view();
    assert(out@ == joined(all.take(0), sep@));
    for i in 0..parts.len()
        invariant
            all == parts.deep_view(),
            out@ == joined(all.take(i as int), sep@),
    {
        assert(all.take(i + 1).drop_last() == all.take(i as int));
        if i > 0 {
            out.append(sep);
        }
        out.append(parts[i].as_str());
        assert(out@ == joined(all.take(i + 1), sep@));
    }
    assert(all.take(all.len() as int) == all);
    out
}

proof fn lemma_joined_front(first: Seq<char>, rest: Seq<Seq<char>>, sep: Seq<char>)
    requires
        rest.len() > 0,
    ensures
        joined(seq![first] + rest, sep) == first + sep + joined(rest, sep),
    decreases rest.len(),
{
    let all = seq![first] + rest;
    assert(all.drop_last() == seq![first] + rest.drop_last());
    if rest.len() == 1 {
        assert(all.drop_last() == seq![first]);
        assert(joined(seq![first], sep) == first);
        assert(joined(all, sep) == first + sep + rest[0]);
    } else {
        lemma_joined_front(first, rest.drop_last(), sep);
        assert(first + sep + joined(rest.drop_last(), sep) + sep + rest.last() == first + sep + (
        joined(rest.drop_last(), sep) + sep + rest.last()));
    }
}

/// Cut at a character and joined with it again, a text is what it was.
pub proof fn cut_text_joins(s: Seq<char>, c: char)
    ensures
        joined(cut(s, Class::One(c)), seq![c]) == s,
    decreases s.len(),
{
    let k = Class::One(c);
    lemma_first_at(s, k);
    if first_at(s, k) < s.len() {
        let rest = after(s, k);
        cut_text_joins(rest, c);
        lemma_cut(rest, k);
        lemma_joined_front(before(s, k), cut(rest, k), seq![c]);
        assert(s == before(s, k) + seq![c] + rest);
    }
}

proof fn lemma_first_at_after(a: Seq<char>, c: char, b: Seq<char>)
    requires
        !includes(a, Class::One(c)),
    ensures
        first_at(a + seq![c] + b, Class::One(c)) == a.len(),
    decreases a.len(),
{
    let s = a + seq![c] + b;
    if a.len() > 0 {
        assert(Class::One(c).holds(a[0]) ==> includes(a, Class::One(c)));
        assert(s.drop_first() == a.drop_first() + seq![c] + b);
        assert forall|i: int| 0 <= i < a.drop_first().len() implies !Class::One(c).holds(
            #[trigger] a.drop_first()[i],
        ) by {
            assert(!Class::One(c).holds(a[i + 1]));
        }
        lemma_first_at_after(a.drop_first(), c, b);
    }
}

/// A text that starts with a piece and a character that is not in the piece is
/// cut after the piece.
pub proof fn lemma_cut_front(a: Seq<char>, c: char, b: Seq<char>)
    requires
        !includes(a, Class::One(c)),
    ensures
        first_at(a + seq![c] + b, Class::One(c)) == a.len(),
        before(a + seq![c] + b, Class::One(c)) == a,
        after(a + seq![c] + b, Class::One(c)) == b,
        includes(a + seq![c] + b, Class::One(c)),
        cut(a + seq![c] + b, Class::One(c)) == seq![a] + cut(b, Class::One(c)),
{
    let s = a + seq![c] + b;
    lemma_first_at_after(a, c, b);
    lemma_first_at(s, Class::One(c));
    assert(s.take(a.len() as int) == a);
    assert(s.skip(a.len() as int + 1) == b);
}

/// A text without the character is cut into itself.
pub proof fn lemma_cut_whole(a: Seq<char>, c: char)
    requires
        !includes(a, Class::One(c)),
    ensures
        first_at(a, Class::One(c)) == a.len(),
        before(a, Class::One(c)) == a,
        cut(a, Class::One(c)) == seq![a],
{
    lemma_first_at(a, Class::One(c));
    assert(a.take(a.len() as int) == a);
}

/// A character of `k` in two texts one after the other is in one of them.
pub proof fn lemma_includes_chain(a: Seq<char>, b: Seq<char>, k: Class)
    ensures
        includes(a + b, k) == (includes(a, k) || includes(b, k)),
{
    let s = a + b;
    if includes(a, k) {
        let i = choose|i: int| 0 <= i < a.len() && #[trigger] k.holds(a[i]);
        assert(k.holds(s[i]));
    }
    if includes(b, k) {
        let i = choose|i: int| 0 <= i < b.len() && #[trigger] k.holds(b[i]);
        assert(k.holds(s[a.len() + i]));
    }
    if includes(s, k) {
        let i = choose|i: int| 0 <= i < s.len() && #[trigger] k.holds(s[i]);
        if i < a.len() {
            assert(k.holds(a[i]));
        } else {
            assert(k.holds(b[i - a.len()]));
        }
    }
}

/// Trimming makes no text longer.
pub proof fn lemma_trim_len(s: Seq<char>, k: Class)
    ensures
        trim_front(s, k).len() <= s.len(),
        trim_back(s, k).len() <= s.len(),
        s.len() > 0 && k.holds(s[0]) ==> trim_front(s, k).len() < s.len(),
    decreases s.len(),
{
    if s.len() > 0 {
        lemma_trim_len(s.drop_first(), k);
        lemma_trim_len(s.drop_last(), k);
    }
}

/// Whether the case of a letter makes no difference to the class.
pub open spec fn caseless(k: Class) -> bool {
    match k {
        Class::One(c) => !('a' <= c <= 'z') && !('A' <= c <= 'Z'),
        _ => true,
    }
}

/// A caseless class holds a letter in either case or in none.
pub proof fn lemma_caseless(k: Class, c: char)
    requires
        caseless(k),
    ensures
        k.holds(lower_char(c)) == k.holds(c),
{
}

/// A text without its capitals and the text are trimmed at the same places.
pub proof fn lemma_lower_trim(s: Seq<char>, k: Class)
    requires
        caseless(k),
    ensures
        trim_front(lower(s), k) == lower(trim_front(s, k)),
        trim_back(lower(s), k) == lower(trim_back(s, k)),
    decreases s.len(),
{
    if s.len() > 0 {
        lemma_caseless(k, s[0]);
        lemma_caseless(k, s.last());
        lemma_lower_trim(s.drop_first(), k);
        lemma_lower_trim(s.drop_last(), k);
        assert(lower(s).drop_first() == lower(s.drop_first()));
        assert(lower(s).drop_last() == lower(s.drop_last()));
    }
}

/// A character of a caseless class stands at the same places in a text without
/// its capitals.
pub proof fn lemma_lower_places(s: Seq<char>, k: Class)
    requires
        caseless(k),
    ensures
        first_at(lower(s), k) == first_at(s, k),
        includes(lower(s), k) == includes(s, k),
    decreases s.len(),
{
    if s.len() > 0 {
        lemma_caseless(k, s[0]);
        lemma_lower_places(s.drop_first(), k);
        assert(lower(s).drop_first() == lower(s.drop_first()));
    }
    lemma_first_at(s, k);
    lemma_first_at(lower(s), k);
}

/// Each of the texts without its capitals.
pub open spec fn lower_each(p: Seq<Seq<char>>) -> Seq<Seq<char>> {
    Seq::new(p.len(), |i: int| lower(p[i]))
}

/// A text without its capitals is cut at the same places.
pub proof fn lemma_lower_cut(s: Seq<char>, k: Class)
    requires
        caseless(k),
    ensures
        cut(lower(s), k) == lower_each(cut(s, k)),
    decreases s.len(),
{
    lemma_lower_places(s, k);
    lemma_first_at(s, k);
    if first_at(s, k) < s.len() {
        lemma_lower_cut(after(s, k), k);
        assert(before(lower(s), k) == lower(before(s, k)));
        assert(after(lower(s), k) == lower(after(s, k)));
        assert(seq![lower(before(s, k))] + lower_each(cut(after(s, k), k)) == lower_each(
            seq![before(s, k)] + cut(after(s, k), k),
        ));
    } else {
        assert(seq![lower(s)] == lower_each(seq![s]));
    }
}

/// Capitals and small letters are the same word.
pub proof fn lemma_upper_is_same_word(s: Seq<char>)
    ensures
        same_word(upper(s), s),
        same_word(lower(s), s),
{
    assert(lower(upper(s)) == lower(s));
    assert(lower(lower(s)) == lower(s));
}

/// Two texts with a character between them are cut at it, and each as it is
/// cut alone.
pub proof fn cut_of_two(a: Seq<char>, c: char, b: Seq<char>)
    ensures
        cut(a + seq![c] + b, Class::One(c)) == cut(a, Class::One(c)) + cut(b, Class::One(c)),
    decreases a.len(),
{
    let k = Class::One(c);
    lemma_first_at(a, k);
    if includes(a, k) {
        let first = before(a, k);
        let rest = after(a, k);
        assert(!includes(first, k)) by {
            assert(forall|i: int| 0 <= i < first.len() ==> first[i] == a[i]);
        }
        assert(a + seq![c] + b == first + seq![c] + (rest + seq![c] + b));
        lemma_cut_front(first, c, rest + seq![c] + b);
        cut_of_two(rest, c, b);
        assert(seq![first] + (cut(rest, k) + cut(b, k)) == seq![first] + cut(rest, k) + cut(b, k));
    } else {
        lemma_cut_whole(a, c);
        lemma_cut_front(a, c, b);
    }
}

/// A text is cut in the same way by two classes that hold the same of its
/// characters.
pub proof fn lemma_cut_agrees(s: Seq<char>, k: Class, l: Class)
    requires
        forall|i: int| 0 <= i < s.len() ==> k.holds(#[trigger] s[i]) == l.holds(s[i]),
    ensures
        cut(s, k) == cut(s, l),
    decreases s.len(),
{
    lemma_first_at(s, k);
    lemma_first_at(s, l);
    let i = first_at(s, k);
    let j = first_at(s, l);
    if i < j {
        assert(!l.holds(s[i]));
    }
    if j < i {
        assert(!k.holds(s[j]));
    }
    if i < s.len() {
        let rest = after(s, k);
        assert forall|n: int| 0 <= n < rest.len() implies k.holds(#[trigger] rest[n]) == l.holds(
            rest[n],
        ) by {
            assert(rest[n] == s[n + i + 1]);
        }
        lemma_cut_agrees(rest, k, l);
    }
}

/// Which characters a class holds, by their numbers. White space is what
/// Unicode counts as such.
pub proof fn classes_by_number(c: char, d: char)
    ensures
        Class::Space.holds(c) <==> {
            let n = c as u32;
            ||| 9 <= n <= 13
            ||| n == 32 || n == 133 || n == 160 || n == 5760
            ||| 8192 <= n <= 8202
            ||| n == 8232 || n == 8233 || n == 8239 || n == 8287 || n == 12288
        },
        Class::Gap.holds(c) <==> c as u32 == 59 || c as u32 == 32 || c as u32 == 9,
        Class::Bracket.holds(c) <==> c as u32 == 91 || c as u32 == 93,
        Class::One(d).holds(c) <==> c == d,
{
}

/// What is trimmed off a text is just what the class holds at its ends.
pub proof fn trimming_leaves_the_middle(a: Seq<char>, s: Seq<char>, b: Seq<char>, k: Class)
    requires
        forall|i: int| 0 <= i < a.len() ==> k.holds(#[trigger] a[i]),
        forall|i: int| 0 <= i < b.len() ==> k.holds(#[trigger] b[i]),
        s.len() > 0 ==> !k.holds(s[0]) && !k.holds(s.last()),
    ensures
        trim_front(a + s, k) == s,
        trim_back(s + b, k) == s,
        trim_both(a + s + b, k) == s,
        k is Space ==> trim(a + s + b) == s,
    decreases a.len() + b.len(),
{
    if a.len() > 0 {
        let t = a.drop_first();
        assert forall|i: int| 0 <= i < t.len() implies k.holds(#[trigger] t[i]) by {
            assert(k.holds(a[i + 1]));
        }
        assert(k.holds(a[0]));
        trimming_leaves_the_middle(t, s, b, k);
        assert((a + s).drop_first() == t + s);
        assert((a + s + b).drop_first() == t + s + b);
    } else if b.len() > 0 {
        let t = b.drop_last();
        assert forall|i: int| 0 <= i < t.len() implies k.holds(#[trigger] t[i]) by {
            assert(k.holds(b[i]));
        }
        assert(k.holds(b[b.len() - 1]));
        trimming_leaves_the_middle(a, s, t, k);
        assert((s + b).drop_last() == s + t);
        assert(a + s == s);
        assert(a + s + b == s + b);
        if s.len() > 0 {
            assert(trim_front(s + b, k) == s + b);
        } else {
            lemma_trim_all(s + b, k);
        }
    } else {
        assert(a + s == s && s + b == s);
    }
}

proof fn lemma_trim_all(b: Seq<char>, k: Class)
    requires
        forall|i: int| 0 <= i < b.len() ==> k.holds(#[trigger] b[i]),
    ensures
        trim_front(b, k).len() == 0,
        trim_both(b, k) == Seq::<char>::empty(),
    decreases b.len(),
{
    if b.len() > 0 {
        let t = b.drop_first();
        assert forall|i: int| 0 <= i < t.len() implies k.holds(#[trigger] t[i]) by {
            assert(k.holds(b[i + 1]));
        }
        assert(k.holds(b[0]));
        lemma_trim_all(t, k);
    }
}

/// Making letters small or capital moves each ASCII letter by 32 and leaves
/// every other character alone.
pub proof fn letters_move_by_their_case(s: Seq<char>)
    ensures
        lower(s).len() == s.len(),
        upper(s).len() == s.len(),
        forall|i: int| #![trigger lower(s)[i]]
            0 <= i < s.len() ==> lower(s)[i] as u32 == if 65 <= s[i] as u32 <= 90 {
                s[i] as u32 + 32
            } else {
                s[i] as int
            },
        forall|i: int| #![trigger upper(s)[i]]
            0 <= i < s.len() ==> upper(s)[i] as u32 == if 97 <= s[i] as u32 <= 122 {
                s[i] as u32 - 32
            } else {
                s[i] as int
            },
{
}

/// Two texts are the same word where they differ in no character but in the
/// case of ASCII letters.
pub proof fn words_are_the_same_but_for_case(a: Seq<char>, b: Seq<char>)
    ensures
        same_word(a, b) <==> a.len() == b.len() && forall|i: int| #![trigger a[i], b[i]]
            0 <= i < a.len() ==> {
                ||| a[i] == b[i]
                ||| 65 <= a[i] as u32 <= 90 && b[i] as u32 == a[i] as u32 + 32
                ||| 65 <= b[i] as u32 <= 90 && a[i] as u32 == b[i] as u32 + 32
            },
{
    assert(lower(a).len() == a.len() && lower(b).len() == b.len());
    if same_word(a, b) {
        assert forall|i: int| #![trigger a[i], b[i]] 0 <= i < a.len() implies {
            ||| a[i] == b[i]
            ||| 65 <= a[i] as u32 <= 90 && b[i] as u32 == a[i] as u32 + 32
            ||| 65 <= b[i] as u32 <= 90 && a[i] as u32 == b[i] as u32 + 32
        } by {
            assert(lower(a)[i] == lower(b)[i]);
            let (x, y) = (a[i], b[i]);
            assert(lower_char(x) == lower_char(y));
            assert(lower_char(x) as u32 == lower_char(y) as u32);
        }
    } else if a.len() == b.len() && forall|i: int| #![trigger a[i], b[i]]
        0 <= i < a.len() ==> {
            ||| a[i] == b[i]
            ||| 65 <= a[i] as u32 <= 90 && b[i] as u32 == a[i] as u32 + 32
            ||| 65 <= b[i] as u32 <= 90 && a[i] as u32 == b[i] as u32 + 32
        } {
        assert forall|i: int| 0 <= i < a.len() implies lower(a)[i] == lower(b)[i] by {
            let (x, y) = (a[i], b[i]);
            assert(lower_char(x) as u32 == lower_char(y) as u32);
        }
        assert(lower(a) == lower(b));
    }
}

/// A text is cut at the first character of the class: what stands before it is
/// the first piece, and the rest is cut alike. A text without such a character
/// is one piece.
pub proof fn text_is_cut_at_its_marks(a: Seq<char>, c: char, b: Seq<char>, k: Class)
    requires
        forall|i: int| 0 <= i < a.len() ==> !k.holds(#[trigger] a[i]),
        k.holds(c),
    ensures
        cut(a, k) == seq![a],
        before(a, k) == a,
        after(a, k) == Seq::<char>::empty(),
        !includes(a, k),
        cut(a + seq![c] + b, k) == seq![a] + cut(b, k),
        before(a + seq![c] + b, k) == a,
        after(a + seq![c] + b, k) == b,
        includes(a + seq![c] + b, k),
        first_at(a + seq![c] + b, k) == a.len(),
        last_at(b + seq![c] + a, k) == b.len(),
{
    let s = a + seq![c] + b;
    lemma_first_at(a, k);
    lemma_first_at(s, k);
    assert(a.take(a.len() as int) == a);
    assert(k.holds(s[a.len() as int]));
    assert(first_at(s, k) == a.len()) by {
        if first_at(s, k) < a.len() {
            assert(s[first_at(s, k)] == a[first_at(s, k)]);
        }
    }
    assert(s.take(a.len() as int) == a);
    assert(s.skip(a.len() as int + 1) == b);
    let t = b + seq![c] + a;
    lemma_last_at(t, k);
    assert(k.holds(t[b.len() as int]));
    if last_at(t, k) > b.len() {
        assert(t[last_at(t, k)] == a[last_at(t, k) - b.len() - 1]);
    }
}

/// The words of a text stand in it one after the other, with white space around
/// them, and each is there as it is written.
pub proof fn words_are_what_white_space_parts(a: Seq<char>, w: Seq<char>, rest: Seq<char>)
    requires
        forall|i: int| 0 <= i < a.len() ==> Class::Space.holds(#[trigger] a[i]),
        forall|i: int| 0 <= i < w.len() ==> !Class::Space.holds(#[trigger] w[i]),
        w.len() > 0,
        rest.len() > 0 ==> Class::Space.holds(rest[0]),
    ensures
        words(a) == Seq::<Seq<char>>::empty(),
        words(a + w + rest) == seq![w] + words(rest),
    decreases a.len(),
{
    let k = Class::Space;
    let keep = |x: Seq<char>| x.len() > 0;
    let none = Seq::<char>::empty();
    if a.len() > 0 {
        let t = a.drop_first();
        assert forall|i: int| 0 <= i < t.len() implies k.holds(#[trigger] t[i]) by {
            assert(k.holds(a[i + 1]));
        }
        assert(k.holds(a[0]));
        words_are_what_white_space_parts(t, w, rest);
        assert(a == none + seq![a[0]] + t);
        assert(a + w + rest == none + seq![a[0]] + (t + w + rest));
        text_is_cut_at_its_marks(none, a[0], t, k);
        text_is_cut_at_its_marks(none, a[0], t + w + rest, k);
        lemma_filter_front(none, cut(t, k), keep);
        lemma_filter_front(none, cut(t + w + rest, k), keep);
    } else {
        lemma_first_at(a, k);
        assert(cut(a, k) == seq![a]);
        lemma_filter_front(a, Seq::empty(), keep);
        assert(seq![a] + Seq::<Seq<char>>::empty() == seq![a]);
        assert(Seq::<Seq<char>>::empty().filter(keep) == Seq::<Seq<char>>::empty()) by {
            reveal(Seq::filter);
        }
        assert(a + w + rest == w + rest);
        if rest.len() == 0 {
            text_is_cut_at_its_marks(w, ' ', none, k);
            assert(w + rest == w);
            assert(rest == none);
            lemma_first_at(rest, k);
            assert(cut(rest, k) == seq![rest]);
            lemma_filter_front(rest, Seq::empty(), keep);
            assert(seq![rest] + Seq::<Seq<char>>::empty() == seq![rest]);
            lemma_filter_front(w, Seq::empty(), keep);
            assert(seq![w] + Seq::<Seq<char>>::empty() == seq![w]);
        } else {
            let more = rest.drop_first();
            assert(w + rest == w + seq![rest[0]] + more);
            assert(rest == none + seq![rest[0]] + more);
            text_is_cut_at_its_marks(w, rest[0], more, k);
            text_is_cut_at_its_marks(none, rest[0], more, k);
            lemma_filter_front(w, cut(more, k), keep);
            lemma_filter_front(none, cut(more, k), keep);
        }
    }
}

proof fn lemma_filter_front<A>(x: A, rest: Seq<A>, keep: spec_fn(A) -> bool)
    ensures
        (seq![x] + rest).filter(keep) == if keep(x) {
            seq![x] + rest.filter(keep)
        } else {
            rest.filter(keep)
        },
{
    Seq::filter_distributes_over_add(seq![x], rest, keep);
    assert(seq![x].filter(keep) == if keep(x) {
        seq![x]
    } else {
        Seq::<A>::empty()
    }) by {
        reveal(Seq::filter);
        assert(seq![x].drop_last() == Seq::<A>::empty());
        assert(Seq::<A>::empty().filter(keep) == Seq::<A>::empty());
    }
    assert(Seq::<A>::empty() + rest.filter(keep) == rest.filter(keep));
}

/// Texts are joined by what stands between them, and by nothing else.
pub proof fn texts_join_with_their_mark(parts: Seq<Seq<char>>, last: Seq<char>, sep: Seq<char>)
    ensures
        joined(Seq::empty(), sep) == Seq::<char>::empty(),
        joined(seq![last], sep) == last,
        parts.len() > 0 ==> joined(parts.push(last), sep) == joined(parts, sep) + sep + last,
{
    assert(parts.push(last).drop_last() == parts);
}

/// Texts without the mark are found again where they were joined by it.
pub proof fn joined_texts_are_cut_again(parts: Seq<Seq<char>>, c: char)
    requires
        parts.len() > 0,
        forall|i: int, j: int|
            0 <= i < parts.len() && 0 <= j < parts[i].len() ==> #[trigger] parts[i][j] != c,
    ensures
        cut(joined(parts, seq![c]), Class::One(c)) == parts,
    decreases parts.len(),
{
    let k = Class::One(c);
    let last = parts.last();
    let rest = parts.drop_last();
    assert(!includes(last, k)) by {
        assert forall|j: int| 0 <= j < last.len() implies !k.holds(#[trigger] last[j]) by {
            assert(parts[parts.len() - 1][j] != c);
        }
    }
    lemma_cut_whole(last, c);
    if rest.len() == 0 {
        assert(parts == seq![last]);
    } else {
        assert forall|i: int, j: int|
            0 <= i < rest.len() && 0 <= j < rest[i].len() implies #[trigger] rest[i][j] != c by {
            assert(parts[i][j] != c);
        }
        joined_texts_are_cut_again(rest, c);
        cut_of_two(joined(rest, seq![c]), c, last);
        assert(parts == rest + seq![last]);
    }
}

/// Copies of a text are stripped off the front one by one, and nothing else is.
pub proof fn copies_are_stripped(s: Seq<char>, t: Seq<char>)
    requires
        t.len() > 0,
    ensures
        strip_front(t + s, t) == strip_front(s, t),
        !t.is_prefix_of(s) ==> strip_front(s, t) == s,
{
    assert((t + s).subrange(0, t.len() as int) == t);
    assert((t + s).skip(t.len() as int) == s);
}

/// Text in UTF-8 is read as it is.
pub proof fn utf8_is_read_as_it_is(s: Seq<char>)
    ensures
        lossy(encode_utf8(s)) == s,
{
    encode_utf8_valid_utf8(s);
    encode_utf8_decode_utf8(s);
}

} // verus!
