use vstd::prelude::*;
use vstd::string::*;
use vstd::utf8::*;

verus! {

/// The characters of `s`, in order.
pub fn chars_of(s: &str) -> (out: Vec<char>)
    ensures
        out@ == s@,
{
    let mut out: Vec<char> = Vec::new();
    for c in it: s.chars()
        invariant
            it.seq() == s@,
            out@ == s@.take(it.index() as int),
    {
        out.push(c);
    }
    out
}

/// `String::from_iter`, on the characters of a slice: the string that holds
/// exactly these characters, in this order.
#[verifier::external_body]
pub(crate) fn string_of_chars(chars: &[char]) -> (out: String)
    ensures
        out@ == chars@,
{
    String::from_iter(chars)
}

/// A byte at `index` that the text may be cut at: the first byte of a
/// character, or the end of the text.
pub open spec fn cut_point(bytes: Seq<u8>, index: int) -> bool {
    0 <= index <= bytes.len() && is_char_boundary(bytes, index)
}

/// Whether `start..end` is a range of whole characters of `s`.
pub fn range_fits(s: &str, start: usize, end: usize) -> (ok: bool)
    ensures
        ok == (start <= end && cut_point(s.spec_bytes(), start as int) && cut_point(
            s.spec_bytes(),
            end as int,
        )),
{
    let len = s.as_bytes().len();
    start <= end && end <= len && s.is_char_boundary(start) && s.is_char_boundary(end)
}

/// A cut point of a text is one of each prefix that ends at a cut point.
pub proof fn lemma_cut_point_in_prefix(bytes: Seq<u8>, start: int, end: int)
    requires
        valid_utf8(bytes),
        start <= end,
        cut_point(bytes, start),
        cut_point(bytes, end),
    ensures
        valid_utf8(bytes.subrange(0, end)),
        cut_point(bytes.subrange(0, end), start),
{
    broadcast use group_utf8_lib;
    let head = bytes.subrange(0, end);
    valid_utf8_split(bytes, end);
    if start == end {
        is_char_boundary_start_end_of_seq(head);
    } else {
        is_char_boundary_iff_not_is_continuation_byte(bytes, start);
        is_char_boundary_iff_not_is_continuation_byte(head, start);
    }
}

/// An ASCII byte of a text is a character of its own: the text may be cut
/// before it and behind it.
pub proof fn lemma_ascii_cut_points(bytes: Seq<u8>, at: int)
    requires
        valid_utf8(bytes),
        0 <= at < bytes.len(),
        bytes[at] <= 0x7f,
    ensures
        cut_point(bytes, at),
        cut_point(bytes, at + 1),
{
    is_char_boundary_iff_not_is_continuation_byte(bytes, at);
    if at + 1 == bytes.len() {
        is_char_boundary_start_end_of_seq(bytes);
    } else {
        valid_utf8_split(bytes, at);
        let tail = bytes.subrange(at, bytes.len() as int);
        assert(tail[0] == bytes[at]);
        assert(length_of_first_scalar(tail) == 1);
        let rest = pop_first_scalar(tail);
        assert(valid_utf8(rest));
        assert(rest.len() > 0);
        assert(rest[0] == bytes[at + 1]);
        assert(valid_first_scalar(rest));
        is_char_boundary_iff_not_is_continuation_byte(bytes, at + 1);
    }
}

/// The part of `s` between two cut points.
pub fn str_slice<'a>(s: &'a str, start: usize, end: usize) -> (out: &'a str)
    requires
        start <= end,
        cut_point(s.spec_bytes(), start as int),
        cut_point(s.spec_bytes(), end as int),
    ensures
        out.spec_bytes() == s.spec_bytes().subrange(start as int, end as int),
        out@ == decode_utf8(s.spec_bytes().subrange(start as int, end as int)),
{
    broadcast use group_utf8_lib;
    proof {
        lemma_cut_point_in_prefix(s.spec_bytes(), start as int, end as int);
    }
    let (head, _) = s.split_at(end);
    let (_, out) = head.split_at(start);
    assert(out.spec_bytes() == s.spec_bytes().subrange(start as int, end as int));
    out
}

/// Whether `c` has the Unicode property White_Space.
pub open spec fn is_whitespace(c: char) -> bool {
    let u = c as u32;
    ||| 0x09 <= u <= 0x0d
    ||| u == 0x20
    ||| u == 0x85
    ||| u == 0xa0
    ||| u == 0x1680
    ||| 0x2000 <= u <= 0x200a
    ||| u == 0x2028
    ||| u == 0x2029
    ||| u == 0x202f
    ||| u == 0x205f
    ||| u == 0x3000
}

/// Whether `c` has the Unicode property White_Space.
pub fn char_is_whitespace(c: char) -> (r: bool)
    ensures
        r == is_whitespace(c),
{
    let u: u32 = c as u32;
    (0x09 <= u && u <= 0x0d) || u == 0x20 || u == 0x85 || u == 0xa0 || u == 0x1680 || (0x2000 <= u
        && u <= 0x200a) || u == 0x2028 || u == 0x2029 || u == 0x202f || u == 0x205f || u == 0x3000
}

/// `s` without the whitespace it starts with.
pub open spec fn trim_start(s: Seq<char>) -> Seq<char>
    decreases s.len(),
{
    if s.len() > 0 && is_whitespace(s[0]) {
        trim_start(s.drop_first())
    } else {
        s
    }
}

/// `s` without the whitespace it ends with.
pub open spec fn trim_end(s: Seq<char>) -> Seq<char>
    decreases s.len(),
{
    if s.len() > 0 && is_whitespace(s.last()) {
        trim_end(s.drop_last())
    } else {
        s
    }
}

/// `s` without the whitespace around it.
pub open spec fn trim(s: Seq<char>) -> Seq<char> {
    trim_end(trim_start(s))
}

/// The index of the first character of `s` that is no whitespace, or the
/// length of `s`.
pub fn trim_start_index(s: &Vec<char>) -> (i: usize)
    ensures
        i <= s.len(),
        trim_start(s@) == s@.subrange(i as int, s.len() as int),
{
    let n = s.len();
    let mut i: usize = 0;
    assert(s@.subrange(0, n as int) == s@);
    while i < n && char_is_whitespace(s[i])
        invariant
            i <= n,
            n == s.len(),
            trim_start(s@) == trim_start(s@.subrange(i as int, n as int)),
        decreases n - i,
    {
        assert(s@.subrange(i as int, n as int).drop_first() == s@.subrange(i + 1, n as int));
        i = i + 1;
    }
    i
}

/// The index behind the last character of `s[from..]` that is no whitespace,
/// or `from`.
pub fn trim_end_index(s: &Vec<char>, from: usize) -> (j: usize)
    requires
        from <= s.len(),
    ensures
        from <= j <= s.len(),
        trim_end(s@.subrange(from as int, s.len() as int)) == s@.subrange(from as int, j as int),
{
    let mut j: usize = s.len();
    while j > from && char_is_whitespace(s[j - 1])
        invariant
            from <= j <= s.len(),
            trim_end(s@.subrange(from as int, s.len() as int)) == trim_end(
                s@.subrange(from as int, j as int),
            ),
        decreases j,
    {
        assert(s@.subrange(from as int, j as int).drop_last() == s@.subrange(
            from as int,
            j - 1,
        ));
        j = j - 1;
    }
    j
}

/// The characters of `s[from..to]` as a string.
pub fn string_of_range(s: &Vec<char>, from: usize, to: usize) -> (out: String)
    requires
        from <= to <= s.len(),
    ensures
        out@ == s@.subrange(from as int, to as int),
{
    string_of_chars(vstd::slice::slice_subrange(s.as_slice(), from, to))
}

/// `s` without the whitespace around it, as a string of its own.
pub fn trimmed(s: &str) -> (out: String)
    ensures
        out@ == trim(s@),
{
    let chars = chars_of(s);
    let i = trim_start_index(&chars);
    let j = trim_end_index(&chars, i);
    string_of_range(&chars, i, j)
}

/// Whether two strings hold the same characters.
pub fn str_eq(a: &str, b: &str) -> (r: bool)
    ensures
        r == (a@ == b@),
{
    broadcast use group_utf8_lib;
    let x = a.as_bytes();
    let y = b.as_bytes();
    let r = bytes_eq(x, y);
    proof {
        if r {
            assert(decode_utf8(a.spec_bytes()) == a@);
            assert(decode_utf8(b.spec_bytes()) == b@);
        }
    }
    r
}

/// Whether two byte strings are equal.
pub fn bytes_eq(x: &[u8], y: &[u8]) -> (r: bool)
    ensures
        r == (x@ == y@),
{
    if x.len() != y.len() {
        return false;
    }
    let mut i: usize = 0;
    while i < x.len()
        invariant
            i <= x.len(),
            x.len() == y.len(),
            x@.subrange(0, i as int) == y@.subrange(0, i as int),
        decreases x.len() - i,
    {
        if x[i] != y[i] {
            return false;
        }
        assert(x@.subrange(0, i + 1) == x@.subrange(0, i as int).push(x@[i as int]));
        assert(y@.subrange(0, i + 1) == y@.subrange(0, i as int).push(y@[i as int]));
        i = i + 1;
    }
    assert(x@.subrange(0, x.len() as int) == x@);
    assert(y@.subrange(0, y.len() as int) == y@);
    true
}

/// Whether `a` comes before `b` in the order of byte strings: at the first
/// place where they differ `a` has the smaller byte, or `a` ends there and
/// `b` does not.
pub open spec fn bytes_before(a: Seq<u8>, b: Seq<u8>) -> bool
    decreases a.len(),
{
    if b.len() == 0 {
        false
    } else if a.len() == 0 {
        true
    } else if a[0] != b[0] {
        a[0] < b[0]
    } else {
        bytes_before(a.drop_first(), b.drop_first())
    }
}

/// Whether `a` comes before `b` in the order of byte strings.
pub fn bytes_lt(a: &[u8], b: &[u8]) -> (r: bool)
    ensures
        r == bytes_before(a@, b@),
{
    let mut i: usize = 0;
    assert(a@.subrange(0, a.len() as int) == a@);
    assert(b@.subrange(0, b.len() as int) == b@);
    while i < a.len() && i < b.len() && a[i] == b[i]
        invariant
            i <= a.len(),
            i <= b.len(),
            bytes_before(a@, b@) == bytes_before(
                a@.subrange(i as int, a.len() as int),
                b@.subrange(i as int, b.len() as int),
            ),
        decreases a.len() - i,
    {
        assert(a@.subrange(i as int, a.len() as int).drop_first() == a@.subrange(
            i + 1,
            a.len() as int,
        ));
        assert(b@.subrange(i as int, b.len() as int).drop_first() == b@.subrange(
            i + 1,
            b.len() as int,
        ));
        i = i + 1;
    }
    if i >= b.len() {
        false
    } else if i >= a.len() {
        true
    } else {
        a[i] < b[i]
    }
}

/// The lower-case form of an ASCII capital, any other byte unchanged.
pub open spec fn lower_byte(b: u8) -> u8 {
    if 0x41 <= b <= 0x5a {
        (b + 0x20) as u8
    } else {
        b
    }
}

/// `bytes` with each ASCII capital in lower case.
pub open spec fn lowered(bytes: Seq<u8>) -> Seq<u8> {
    Seq::new(bytes.len(), |i: int| lower_byte(bytes[i]))
}

/// `bytes` with each ASCII capital in lower case.
pub fn to_lower(bytes: &[u8]) -> (out: Vec<u8>)
    ensures
        out@ == lowered(bytes@),
{
    let mut out: Vec<u8> = Vec::new();
    let mut i: usize = 0;
    while i < bytes.len()
        invariant
            i <= bytes.len(),
            out@ == lowered(bytes@).subrange(0, i as int),
        decreases bytes.len() - i,
    {
        let b = bytes[i];
        let l: u8 = if 0x41 <= b && b <= 0x5a {
            b + 0x20
        } else {
            b
        };
        out.push(l);
        assert(out@ == lowered(bytes@).subrange(0, i + 1));
        i = i + 1;
    }
    assert(lowered(bytes@).subrange(0, bytes.len() as int) == lowered(bytes@));
    out
}

/// Whether `pat` stands in `hay` at `at`.
pub open spec fn occurs_at(hay: Seq<u8>, at: int, pat: Seq<u8>) -> bool {
    0 <= at && at + pat.len() <= hay.len() && hay.subrange(at, at + pat.len()) == pat
}

/// The first place at or after `from` where `pat` stands in `hay` and ends
/// at or before `to`.
pub open spec fn first_match(hay: Seq<u8>, from: int, to: int, pat: Seq<u8>) -> Option<int>
    decreases to - from + 1,
{
    if from < 0 || to > hay.len() || from + pat.len() > to {
        None
    } else if occurs_at(hay, from, pat) {
        Some(from)
    } else {
        first_match(hay, from + 1, to, pat)
    }
}

/// What `first_match` finds is a match in range, and the first one.
pub proof fn lemma_first_match(hay: Seq<u8>, from: int, to: int, pat: Seq<u8>)
    ensures
        match first_match(hay, from, to, pat) {
            Some(at) => from <= at && at + pat.len() <= to && occurs_at(hay, at, pat)
                && forall|k: int| from <= k < at ==> !occurs_at(hay, k, pat),
            None => from < 0 || to > hay.len() || forall|k: int|
                from <= k && k + pat.len() <= to ==> !occurs_at(hay, k, pat),
        },
    decreases to - from + 1,
{
    if from < 0 || to > hay.len() || from + pat.len() > to {
    } else if occurs_at(hay, from, pat) {
    } else {
        lemma_first_match(hay, from + 1, to, pat);
    }
}

/// Whether `pat` stands in `hay` at `at`.
pub fn matches_at(hay: &[u8], at: usize, pat: &[u8]) -> (r: bool)
    requires
        at + pat.len() <= hay.len(),
    ensures
        r == occurs_at(hay@, at as int, pat@),
{
    let mut k: usize = 0;
    while k < pat.len()
        invariant
            k <= pat.len(),
            at + pat.len() <= hay.len(),
            hay@.subrange(at as int, at + k) == pat@.subrange(0, k as int),
        decreases pat.len() - k,
    {
        if hay[at + k] != pat[k] {
            assert(hay@.subrange(at as int, at + pat.len())[k as int] != pat@[k as int]);
            return false;
        }
        assert(hay@.subrange(at as int, at + k + 1) == hay@.subrange(at as int, at + k).push(
            hay@[at + k],
        ));
        assert(pat@.subrange(0, k + 1) == pat@.subrange(0, k as int).push(pat@[k as int]));
        k = k + 1;
    }
    assert(pat@.subrange(0, pat.len() as int) == pat@);
    true
}

/// The first place at or after `from` where `pat` stands in `hay` and ends
/// at or before `to`.
pub fn find_between(hay: &[u8], from: usize, to: usize, pat: &[u8]) -> (r: Option<usize>)
    requires
        to <= hay.len(),
    ensures
        match r {
            Some(at) => first_match(hay@, from as int, to as int, pat@) == Some(at as int),
            None => first_match(hay@, from as int, to as int, pat@) is None,
        },
{
    if pat.len() > to || from > to - pat.len() {
        return None;
    }
    let last = to - pat.len();
    let mut i: usize = from;
    loop
        invariant
            from <= i <= last,
            last + pat.len() == to,
            to <= hay.len(),
            first_match(hay@, from as int, to as int, pat@) == first_match(
                hay@,
                i as int,
                to as int,
                pat@,
            ),
        decreases last - i,
    {
        if matches_at(hay, i, pat) {
            return Some(i);
        }
        if i == last {
            return None;
        }
        i = i + 1;
    }
}

/// How many line feeds `bytes` holds.
pub open spec fn line_feeds(bytes: Seq<u8>) -> nat
    decreases bytes.len(),
{
    if bytes.len() == 0 {
        0
    } else {
        line_feeds(bytes.drop_last()) + if bytes.last() == 0x0a {
            1nat
        } else {
            0nat
        }
    }
}

/// The line feeds among the first `end` bytes.
pub fn count_line_feeds(bytes: &[u8], end: usize) -> (n: usize)
    requires
        end <= bytes.len(),
    ensures
        n == line_feeds(bytes@.subrange(0, end as int)),
        n <= end,
{
    let mut n: usize = 0;
    let mut i: usize = 0;
    while i < end
        invariant
            i <= end <= bytes.len(),
            n <= i,
            n == line_feeds(bytes@.subrange(0, i as int)),
        decreases end - i,
    {
        assert(bytes@.subrange(0, i + 1).drop_last() == bytes@.subrange(0, i as int));
        if bytes[i] == 0x0a {
            n = n + 1;
        }
        i = i + 1;
    }
    n
}

/// The bytes of a text of ASCII characters, one for each.
pub open spec fn ascii_bytes(chars: Seq<char>) -> Seq<u8> {
    Seq::new(chars.len(), |i: int| chars[i] as u8)
}

/// The bytes of a string of ASCII characters.
pub fn ascii_str_bytes(s: &str) -> (out: &[u8])
    requires
        is_ascii_chars(s@),
    ensures
        out@ == ascii_bytes(s@),
{
    broadcast use is_ascii_spec_bytes;
    assert(is_ascii(s));
    s.as_bytes()
}

} // verus!
