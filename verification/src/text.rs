//! Text building blocks: decimal and hexadecimal numerals, prefixes, trimming,
//! line splitting and the byte order of strings.

use vstd::arithmetic::power::pow;
use vstd::prelude::*;
use vstd::string::*;
use vstd::utf8::*;

verus! {

/// `String::push`: appends one character to the end of the string.
pub assume_specification[ String::push ](s: &mut String, c: char)
    ensures
        final(s)@ == old(s)@.push(c),
;

/// The texts of a sequence of strings.
pub open spec fn texts(v: Seq<String>) -> Seq<Seq<char>> {
    v.map_values(|s: String| s@)
}

/// The text of an optional string.
pub open spec fn opt_text(o: Option<String>) -> Option<Seq<char>> {
    match o {
        Some(s) => Some(s@),
        None => None,
    }
}

/// The text of an optional string slice.
pub open spec fn opt_str(o: Option<&str>) -> Option<Seq<char>> {
    match o {
        Some(s) => Some(s@),
        None => None,
    }
}

/// `s` begins with `p`.
pub open spec fn has_prefix(s: Seq<char>, p: Seq<char>) -> bool {
    p.len() <= s.len() && s.take(p.len() as int) == p
}

/// `pat` occurs in `s` at position `i`.
pub open spec fn occurs_at(s: Seq<char>, pat: Seq<char>, i: int) -> bool {
    0 <= i && i + pat.len() <= s.len() && s.subrange(i, i + pat.len()) == pat
}

/// `pat` occurs somewhere in `s`.
pub open spec fn has_substring(s: Seq<char>, pat: Seq<char>) -> bool {
    exists|i: int| #[trigger] occurs_at(s, pat, i)
}

/// The characters with the Unicode property White_Space.
pub open spec fn is_space(c: char) -> bool {
    let u = c as int;
    ||| 0x9 <= u <= 0xD
    ||| u == 0x20
    ||| u == 0x85
    ||| u == 0xA0
    ||| u == 0x1680
    ||| 0x2000 <= u <= 0x200A
    ||| u == 0x2028
    ||| u == 0x2029
    ||| u == 0x202F
    ||| u == 0x205F
    ||| u == 0x3000
}

/// `s` without its leading white space.
pub open spec fn trim_start_of(s: Seq<char>) -> Seq<char>
    decreases s.len(),
{
    if s.len() > 0 && is_space(s[0]) {
        trim_start_of(s.drop_first())
    } else {
        s
    }
}

/// `s` without its trailing white space.
pub open spec fn trim_end_of(s: Seq<char>) -> Seq<char>
    decreases s.len(),
{
    if s.len() > 0 && is_space(s.last()) {
        trim_end_of(s.drop_last())
    } else {
        s
    }
}

/// `s` without white space at either end.
pub open spec fn trim_of(s: Seq<char>) -> Seq<char> {
    trim_end_of(trim_start_of(s))
}

/// How many characters of `s` stand before the first `c`, or in all of `s`
/// where there is none.
pub open spec fn until(s: Seq<char>, c: char) -> nat
    decreases s.len(),
{
    if s.len() == 0 || s[0] == c {
        0
    } else {
        1 + until(s.drop_first(), c)
    }
}

/// `s` without one trailing carriage return.
pub open spec fn without_cr(s: Seq<char>) -> Seq<char> {
    if s.len() > 0 && s.last() == '\r' {
        s.drop_last()
    } else {
        s
    }
}

/// The lines of `s`. A line ends at a line feed, which is dropped together with
/// a carriage return right before it; an unterminated last line counts.
pub open spec fn lines_of(s: Seq<char>) -> Seq<Seq<char>>
    decreases s.len(),
{
    if s.len() == 0 {
        Seq::empty()
    } else if until(s, '\n') >= s.len() {
        seq![s]
    } else {
        seq![without_cr(s.take(until(s, '\n') as int))] + lines_of(s.skip(until(s, '\n') as int + 1))
    }
}

/// The decimal digit for `d`.
pub open spec fn digit(d: int) -> char {
    (48 + d) as char
}

/// `n` in decimal, without leading zeros.
pub open spec fn decimal(n: nat) -> Seq<char>
    decreases n,
{
    if n < 10 {
        seq![digit(n as int)]
    } else {
        decimal(n / 10).push(digit((n % 10) as int))
    }
}

/// `n` characters `c`.
pub open spec fn repeated(c: char, n: int) -> Seq<char> {
    Seq::new((if n > 0 { n } else { 0 }) as nat, |i: int| c)
}

/// `s`, filled up on the left with `c` to `width` characters.
pub open spec fn pad_left(s: Seq<char>, c: char, width: int) -> Seq<char> {
    repeated(c, width - s.len()) + s
}

/// `s`, filled up on the right with `c` to `width` characters.
pub open spec fn pad_right(s: Seq<char>, c: char, width: int) -> Seq<char> {
    s + repeated(c, width - s.len())
}

/// The lower-case hexadecimal digit for `d`.
pub open spec fn hex_digit(d: int) -> char {
    if d < 10 {
        (48 + d) as char
    } else {
        (87 + d) as char
    }
}

/// The upper-case hexadecimal digit for `d`.
pub open spec fn hex_digit_upper(d: int) -> char {
    if d < 10 {
        (48 + d) as char
    } else {
        (55 + d) as char
    }
}

/// The last `width` hexadecimal digits of `n`.
pub open spec fn hex(n: nat, width: nat) -> Seq<char>
    decreases width,
{
    if width == 0 {
        Seq::empty()
    } else {
        hex(n / 16, (width - 1) as nat).push(hex_digit((n % 16) as int))
    }
}

/// Every character of `s` is a decimal digit.
pub open spec fn all_digits(s: Seq<char>) -> bool {
    forall|i: int| 0 <= i < s.len() ==> '0' <= #[trigger] s[i] <= '9'
}

/// The number that a sequence of decimal digits stands for.
pub open spec fn digits_value(s: Seq<char>) -> nat
    decreases s.len(),
{
    if s.len() == 0 {
        0
    } else {
        (digits_value(s.drop_last()) * 10 + (s.last() as int - 48)) as nat
    }
}

/// The digits of a numeral: what stands behind an optional plus sign.
pub open spec fn numeral_digits(s: Seq<char>) -> Seq<char> {
    if s.len() > 0 && s[0] == '+' {
        s.drop_first()
    } else {
        s
    }
}

/// The `u64` that `s` is a decimal numeral of, where it is one.
pub open spec fn u64_numeral(s: Seq<char>) -> Option<u64> {
    let d = numeral_digits(s);
    if d.len() > 0 && all_digits(d) && digits_value(d) <= u64::MAX {
        Some(digits_value(d) as u64)
    } else {
        None
    }
}

/// The first `n` bytes of a text, or all of them where there are fewer.
pub open spec fn leading_bytes(s: Seq<char>, n: int) -> Seq<u8> {
    let b = encode_utf8(s);
    b.take(if n < b.len() {
        n
    } else {
        b.len() as int
    })
}

/// The text of the first `n` bytes of `s`.
pub open spec fn leading_text(s: Seq<char>, n: int) -> Seq<char> {
    decode_utf8(leading_bytes(s, n))
}

/// The first `n` bytes of `s` end between two characters.
pub open spec fn cuts_at(s: Seq<char>, n: int) -> bool {
    is_char_boundary(encode_utf8(s), leading_bytes(s, n).len() as int)
}

/// The lexicographic order of byte sequences.
pub open spec fn bytes_less(a: Seq<u8>, b: Seq<u8>) -> bool
    decreases a.len(),
{
    if b.len() == 0 {
        false
    } else if a.len() == 0 {
        true
    } else if a[0] != b[0] {
        a[0] < b[0]
    } else {
        bytes_less(a.drop_first(), b.drop_first())
    }
}

/// The order of strings: that of their UTF-8 bytes.
pub open spec fn text_less(a: Seq<char>, b: Seq<char>) -> bool {
    bytes_less(encode_utf8(a), encode_utf8(b))
}

/// No byte sequence comes before itself.
pub proof fn lemma_bytes_less_irreflexive(a: Seq<u8>)
    ensures
        !bytes_less(a, a),
    decreases a.len(),
{
    if a.len() > 0 {
        lemma_bytes_less_irreflexive(a.drop_first());
    }
}

/// The byte order is transitive.
pub proof fn lemma_bytes_less_transitive(a: Seq<u8>, b: Seq<u8>, c: Seq<u8>)
    requires
        bytes_less(a, b),
        bytes_less(b, c),
    ensures
        bytes_less(a, c),
    decreases a.len(),
{
    if a.len() > 0 && b.len() > 0 && c.len() > 0 && a[0] == b[0] && b[0] == c[0] {
        lemma_bytes_less_transitive(a.drop_first(), b.drop_first(), c.drop_first());
    }
}

/// Of two different byte sequences one comes first.
pub proof fn lemma_bytes_less_total(a: Seq<u8>, b: Seq<u8>)
    ensures
        bytes_less(a, b) || a == b || bytes_less(b, a),
    decreases a.len(),
{
    if a.len() > 0 && b.len() > 0 && a[0] == b[0] {
        lemma_bytes_less_total(a.drop_first(), b.drop_first());
        if a.drop_first() == b.drop_first() {
            assert(a == seq![a[0]] + a.drop_first());
            assert(b == seq![b[0]] + b.drop_first());
        }
    } else if a.len() == 0 && b.len() == 0 {
        assert(a == b);
    }
}

/// The order of strings is a strict total order.
pub proof fn lemma_text_order(a: Seq<char>, b: Seq<char>, c: Seq<char>)
    ensures
        !text_less(a, a),
        text_less(a, b) && text_less(b, c) ==> text_less(a, c),
        text_less(a, b) || a == b || text_less(b, a),
{
    lemma_bytes_less_irreflexive(encode_utf8(a));
    if text_less(a, b) && text_less(b, c) {
        lemma_bytes_less_transitive(encode_utf8(a), encode_utf8(b), encode_utf8(c));
    }
    lemma_bytes_less_total(encode_utf8(a), encode_utf8(b));
    encode_utf8_decode_utf8(a);
    encode_utf8_decode_utf8(b);
}

/// The characters of `s`.
pub fn chars_of(s: &str) -> (r: Vec<char>)
    ensures
        r@ == s@,
{
    let mut out: Vec<char> = Vec::new();
    for c in it: s.chars()
        invariant
            it.seq() == s@,
            out@ == s@.take(it.index() as int),
    {
        out.push(c);
        assert(s@.take(it.index() + 1) == s@.take(it.index() as int).push(c));
    }
    assert(s@.take(s@.len() as int) == s@);
    out
}

/// The string made of `chars[from..to]`.
pub fn text_between(chars: &Vec<char>, from: usize, to: usize) -> (r: String)
    requires
        from <= to <= chars@.len(),
    ensures
        r@ == chars@.subrange(from as int, to as int),
{
    let mut out = String::new();
    let mut i: usize = from;
    while i < to
        invariant
            from <= i <= to <= chars@.len(),
            out@ == chars@.subrange(from as int, i as int),
        decreases to - i,
    {
        out.push(chars[i]);
        assert(chars@.subrange(from as int, i + 1) == chars@.subrange(from as int, i as int).push(
            chars@[i as int],
        ));
        i += 1;
    }
    out
}

/// Whether two strings are equal.
pub fn same_text(a: &str, b: &str) -> (r: bool)
    ensures
        r == (a@ == b@),
{
    let x = a.as_bytes();
    let y = b.as_bytes();
    proof {
        encode_utf8_decode_utf8(a@);
        encode_utf8_decode_utf8(b@);
    }
    if x.len() != y.len() {
        return false;
    }
    let mut i: usize = 0;
    while i < x.len()
        invariant
            i <= x@.len(),
            x@.len() == y@.len(),
            x@ == encode_utf8(a@),
            y@ == encode_utf8(b@),
            forall|j: int| 0 <= j < i ==> x@[j] == y@[j],
        decreases x@.len() - i,
    {
        if x[i] != y[i] {
            assert(x@[i as int] != y@[i as int]);
            return false;
        }
        i += 1;
    }
    assert(x@ =~= y@);
    true
}

/// Whether `chars[at..]` begins with `p`.
fn matches_at(chars: &Vec<char>, at: usize, p: &Vec<char>) -> (r: bool)
    requires
        at <= chars@.len(),
    ensures
        r == (at + p@.len() <= chars@.len() && chars@.subrange(at as int, at + p@.len()) == p@),
{
    let total: usize = chars.len();
    if total - at < p.len() {
        return false;
    }
    let mut i: usize = 0;
    while i < p.len()
        invariant
            i <= p@.len(),
            total == chars@.len(),
            at + p@.len() <= chars@.len(),
            forall|j: int| 0 <= j < i ==> chars@[at + j] == p@[j],
        decreases p@.len() - i,
    {
        if chars[at + i] != p[i] {
            assert(chars@.subrange(at as int, at + p@.len())[i as int] != p@[i as int]);
            return false;
        }
        i += 1;
    }
    assert(chars@.subrange(at as int, at + p@.len()) =~= p@);
    true
}

/// Whether `s` begins with `p`.
pub fn starts_with(s: &str, p: &str) -> (r: bool)
    ensures
        r == has_prefix(s@, p@),
{
    let chars = chars_of(s);
    let want = chars_of(p);
    assert(p@.len() <= s@.len() ==> s@.subrange(0, p@.len() as int) == s@.take(p@.len() as int));
    matches_at(&chars, 0, &want)
}

/// Whether `pat` occurs in `s`.
pub fn contains_text(s: &str, pat: &str) -> (r: bool)
    ensures
        r == has_substring(s@, pat@),
{
    let chars = chars_of(s);
    let want = chars_of(pat);
    let mut i: usize = 0;
    loop
        invariant
            i <= chars@.len(),
            chars@ == s@,
            want@ == pat@,
            forall|j: int| 0 <= j < i ==> !#[trigger] occurs_at(s@, pat@, j),
        decreases chars@.len() - i,
    {
        if matches_at(&chars, i, &want) {
            assert(occurs_at(s@, pat@, i as int));
            return true;
        }
        assert(!occurs_at(s@, pat@, i as int));
        if i == chars.len() {
            assert forall|j: int| !#[trigger] occurs_at(s@, pat@, j) by {
                if j > i {
                    assert(j + pat@.len() > s@.len());
                }
            }
            return false;
        }
        i += 1;
    }
}

/// What follows `p` in `s`, where `s` begins with `p`.
pub fn strip_prefix(s: &str, p: &str) -> (r: Option<String>)
    ensures
        (r is Some) == has_prefix(s@, p@),
        r is Some ==> r.unwrap()@ == s@.skip(p@.len() as int),
{
    if !starts_with(s, p) {
        return None;
    }
    let chars = chars_of(s);
    let want = chars_of(p);
    let out = text_between(&chars, want.len(), chars.len());
    assert(s@.subrange(p@.len() as int, s@.len() as int) == s@.skip(p@.len() as int));
    Some(out)
}

/// Whether `s` ends with the character `c`.
pub fn ends_with_char(s: &str, c: char) -> (r: bool)
    ensures
        r == (s@.len() > 0 && s@.last() == c),
{
    let chars = chars_of(s);
    chars.len() > 0 && chars[chars.len() - 1] == c
}

/// The first `n` characters of `s`, or all of them where there are fewer.
pub fn first_chars(s: &str, n: usize) -> (r: String)
    ensures
        r@ == s@.take(if n < s@.len() { n as int } else { s@.len() as int }),
{
    let chars = chars_of(s);
    let end: usize = if n < chars.len() { n } else { chars.len() };
    let out = text_between(&chars, 0, end);
    assert(s@.subrange(0, end as int) == s@.take(end as int));
    out
}

/// Whether `c` is white space.
pub fn char_is_space(c: char) -> (r: bool)
    ensures
        r == is_space(c),
{
    let u: u32 = c as u32;
    (0x9 <= u && u <= 0xD) || u == 0x20 || u == 0x85 || u == 0xA0 || u == 0x1680 || (0x2000 <= u && u
        <= 0x200A) || u == 0x2028 || u == 0x2029 || u == 0x202F || u == 0x205F || u == 0x3000
}

/// The length of `s` without its trailing white space, given its characters
/// from `from` on.
fn end_of_trimmed(chars: &Vec<char>, from: usize) -> (r: usize)
    requires
        from <= chars@.len(),
    ensures
        from <= r <= chars@.len(),
        chars@.subrange(from as int, r as int) == trim_end_of(chars@.skip(from as int)),
{
    let mut end: usize = chars.len();
    assert(chars@.subrange(from as int, end as int) == chars@.skip(from as int));
    while end > from && char_is_space(chars[end - 1])
        invariant
            from <= end <= chars@.len(),
            trim_end_of(chars@.subrange(from as int, end as int)) == trim_end_of(
                chars@.skip(from as int),
            ),
        decreases end,
    {
        assert(chars@.subrange(from as int, end as int).drop_last() == chars@.subrange(
            from as int,
            end - 1,
        ));
        end -= 1;
    }
    end
}

/// `s` without its trailing white space.
pub fn trim_end(s: &str) -> (r: String)
    ensures
        r@ == trim_end_of(s@),
{
    let chars = chars_of(s);
    let end = end_of_trimmed(&chars, 0);
    assert(s@.skip(0) == s@);
    text_between(&chars, 0, end)
}

/// `s` without white space at either end.
pub fn trim(s: &str) -> (r: String)
    ensures
        r@ == trim_of(s@),
{
    let chars = chars_of(s);
    let mut from: usize = 0;
    assert(s@.skip(0) == s@);
    while from < chars.len() && char_is_space(chars[from])
        invariant
            from <= chars@.len(),
            chars@ == s@,
            trim_start_of(s@.skip(from as int)) == trim_start_of(s@),
        decreases chars@.len() - from,
    {
        assert(s@.skip(from as int).drop_first() == s@.skip(from + 1));
        from += 1;
    }
    assert(trim_start_of(s@.skip(from as int)) == s@.skip(from as int));
    let end = end_of_trimmed(&chars, from);
    text_between(&chars, from, end)
}

/// Whether `s` is empty or all white space.
pub fn is_blank(s: &str) -> (r: bool)
    ensures
        r == (trim_of(s@).len() == 0),
{
    trim(s).as_str().is_empty()
}

/// The position of the first `c` at or behind `from`, or the end where there is
/// none.
pub fn find_char(chars: &Vec<char>, from: usize, c: char) -> (r: usize)
    requires
        from <= chars@.len(),
    ensures
        from <= r <= chars@.len(),
        r == from + until(chars@.skip(from as int), c),
        r < chars@.len() ==> chars@[r as int] == c,
{
    let mut end: usize = from;
    while end < chars.len() && chars[end] != c
        invariant
            from <= end <= chars@.len(),
            until(chars@.skip(from as int), c) == (end - from) + until(chars@.skip(end as int), c),
        decreases chars@.len() - end,
    {
        assert(chars@.skip(end as int).drop_first() == chars@.skip(end + 1));
        end += 1;
    }
    end
}

/// A copy of a list of strings.
pub fn copy_texts(v: &Vec<String>) -> (r: Vec<String>)
    ensures
        texts(r@) == texts(v@),
{
    let mut out: Vec<String> = Vec::new();
    let mut i: usize = 0;
    while i < v.len()
        invariant
            i <= v@.len(),
            texts(out@) == texts(v@).take(i as int),
        decreases v@.len() - i,
    {
        let ghost before = texts(out@);
        out.push(v[i].clone());
        assert(texts(out@) =~= before.push(v@[i as int]@));
        assert(texts(v@).take(i + 1) =~= texts(v@).take(i as int).push(v@[i as int]@));
        i += 1;
    }
    assert(texts(v@).take(i as int) =~= texts(v@));
    out
}

/// A copy of an optional string.
pub fn copy_opt(o: &Option<String>) -> (r: Option<String>)
    ensures
        opt_text(r) == opt_text(*o),
{
    match o {
        Some(s) => Some(s.clone()),
        None => None,
    }
}

/// The lines of `s`.
pub fn lines(s: &str) -> (r: Vec<String>)
    ensures
        texts(r@) == lines_of(s@),
{
    let chars = chars_of(s);
    let mut out: Vec<String> = Vec::new();
    let mut start: usize = 0;
    assert(s@.skip(0) == s@);
    while start < chars.len()
        invariant
            start <= chars@.len(),
            chars@ == s@,
            lines_of(s@) == texts(out@) + lines_of(s@.skip(start as int)),
        decreases chars@.len() - start,
    {
        let ghost rest = s@.skip(start as int);
        let end: usize = find_char(&chars, start, '\n');
        let ghost before = texts(out@);
        if end == chars.len() {
            let line = text_between(&chars, start, end);
            assert(line@ == rest);
            out.push(line);
            start = end;
            assert(texts(out@) == before.push(line@));
            assert(before + seq![line@] == before.push(line@));
            assert(s@.skip(start as int).len() == 0);
            assert(texts(out@) + Seq::<Seq<char>>::empty() == texts(out@));
        } else {
            let stop: usize = if end > start && chars[end - 1] == '\r' { end - 1 } else { end };
            let line = text_between(&chars, start, stop);
            assert(rest.take(end - start).len() > 0 ==> rest.take(end - start).last()
                == s@[end - 1]);
            assert(line@ =~= without_cr(rest.take(end - start)));
            out.push(line);
            assert(rest.skip(end - start + 1) == s@.skip(end + 1));
            start = end + 1;
            assert(texts(out@) == before.push(line@));
            assert(before + (seq![line@] + lines_of(s@.skip(start as int))) == before.push(line@)
                + lines_of(s@.skip(start as int)));
        }
    }
    assert(texts(out@) + Seq::<Seq<char>>::empty() == texts(out@));
    out
}

/// `n` in decimal.
pub fn decimal_text(n: u64) -> (r: String)
    ensures
        r@ == decimal(n as nat),
    decreases n,
{
    let d: u8 = (n % 10) as u8;
    let mut out = if n < 10 {
        String::new()
    } else {
        decimal_text(n / 10)
    };
    out.push((48 + d) as char);
    out
}

/// `s`, filled up on the left with `c` to `width` characters.
pub fn padded_left(s: &str, c: char, width: usize) -> (r: String)
    ensures
        r@ == pad_left(s@, c, width as int),
{
    let len = chars_of(s).len();
    let mut out = String::new();
    let mut i: usize = len;
    while i < width
        invariant
            len == s@.len(),
            len <= i,
            i <= width || i == len,
            out@ == repeated(c, i - len),
        decreases width - i,
    {
        out.push(c);
        assert(repeated(c, i - len).push(c) == repeated(c, i + 1 - len));
        i += 1;
    }
    out.append(s);
    out
}

/// `s`, filled up on the right with `c` to `width` characters.
pub fn padded_right(s: &str, c: char, width: usize) -> (r: String)
    ensures
        r@ == pad_right(s@, c, width as int),
{
    let len = chars_of(s).len();
    let mut out = s.to_string();
    let mut i: usize = len;
    while i < width
        invariant
            len == s@.len(),
            len <= i,
            i <= width || i == len,
            out@ == s@ + repeated(c, i - len),
        decreases width - i,
    {
        out.push(c);
        assert((s@ + repeated(c, i - len)).push(c) == s@ + repeated(c, i + 1 - len));
        i += 1;
    }
    out
}

/// The last `width` hexadecimal digits of `n`, in lower case.
pub fn hex_text(n: u64, width: usize) -> (r: String)
    ensures
        r@ == hex(n as nat, width as nat),
    decreases width,
{
    if width == 0 {
        return String::new();
    }
    let mut out = hex_text(n / 16, width - 1);
    let d: u8 = (n % 16) as u8;
    let c: u8 = if d < 10 { 48 + d } else { 87 + d };
    out.push(c as char);
    out
}

/// Whether `a` comes before `b` in the order of strings.
pub fn comes_before(a: &str, b: &str) -> (r: bool)
    ensures
        r == text_less(a@, b@),
{
    let x = a.as_bytes();
    let y = b.as_bytes();
    let mut i: usize = 0;
    assert(x@.skip(0) == x@);
    assert(y@.skip(0) == y@);
    while i < x.len() && i < y.len() && x[i] == y[i]
        invariant
            i <= x@.len(),
            i <= y@.len(),
            bytes_less(x@.skip(i as int), y@.skip(i as int)) == bytes_less(x@, y@),
        decreases x@.len() - i,
    {
        assert(x@.skip(i as int).drop_first() == x@.skip(i + 1));
        assert(y@.skip(i as int).drop_first() == y@.skip(i + 1));
        i += 1;
    }
    if i == y.len() {
        false
    } else if i == x.len() {
        true
    } else {
        x[i] < y[i]
    }
}

/// Dropping digits from the end never makes the number larger.
proof fn lemma_digits_value_grows(s: Seq<char>, n: int)
    requires
        0 <= n <= s.len(),
        all_digits(s),
    ensures
        digits_value(s.take(n)) <= digits_value(s),
    decreases s.len(),
{
    if n == s.len() {
        assert(s.take(n) == s);
    } else {
        assert(all_digits(s.drop_last()));
        lemma_digits_value_grows(s.drop_last(), n);
        assert(s.drop_last().take(n) == s.take(n));
        assert('0' <= s[s.len() - 1] <= '9');
    }
}

/// The `u64` that `s` is a decimal numeral of, where it is one.
pub fn parse_u64(s: &str) -> (r: Option<u64>)
    ensures
        r == u64_numeral(s@),
{
    let chars = chars_of(s);
    let ghost d = numeral_digits(s@);
    let start: usize = if chars.len() > 0 && chars[0] == '+' { 1 } else { 0 };
    assert(d == s@.skip(start as int));
    if chars.len() == start {
        return None;
    }
    let mut value: u64 = 0;
    let mut i: usize = start;
    assert(digits_value(d.take(0)) == 0);
    while i < chars.len()
        invariant
            start <= i <= chars@.len(),
            chars@ == s@,
            d == s@.skip(start as int),
            d == numeral_digits(s@),
            forall|j: int| start <= j < i ==> '0' <= #[trigger] s@[j] <= '9',
            value == digits_value(d.take(i - start)),
        decreases chars@.len() - i,
    {
        let c = chars[i];
        assert(d[i - start] == c);
        if c < '0' || c > '9' {
            assert(!all_digits(d));
            return None;
        }
        let v: u64 = (c as u32 - 48) as u64;
        assert(d.take(i + 1 - start).drop_last() == d.take(i - start));
        if value > (u64::MAX - v) / 10 {
            proof {
                if all_digits(d) {
                    lemma_digits_value_grows(d, i + 1 - start);
                }
                assert(value * 10 + v > u64::MAX);
            }
            return None;
        }
        value = value * 10 + v;
        i += 1;
    }
    assert(d.take(i - start) == d);
    assert forall|j: int| 0 <= j < d.len() implies '0' <= #[trigger] d[j] <= '9' by {
        assert(d[j] == s@[j + start]);
    }
    Some(value)
}

/// Whether the first `n` bytes of `s` end between two characters.
pub fn can_cut(s: &str, n: usize) -> (r: bool)
    ensures
        r == cuts_at(s@, n as int),
{
    let len = s.as_bytes().len();
    s.is_char_boundary(
        if n < len {
            n
        } else {
            len
        },
    )
}

/// The first `n` bytes of `s`, or all of `s` where it is shorter.
pub fn first_bytes(s: &str, n: usize) -> (r: &str)
    requires
        cuts_at(s@, n as int),
    ensures
        r@ == leading_text(s@, n as int),
{
    let bytes = s.as_bytes();
    let end: usize = if n < bytes.len() { n } else { bytes.len() };
    let (head, _) = s.split_at(end);
    assert(encode_utf8(head@) == encode_utf8(s@).subrange(0, end as int));
    assert(encode_utf8(s@).subrange(0, end as int) == encode_utf8(s@).take(end as int));
    proof {
        encode_utf8_decode_utf8(head@);
    }
    head
}

// ---- laws ----

/// A text begins with `p` exactly where it is `p` and something behind it.
pub proof fn law_prefix(s: Seq<char>, p: Seq<char>)
    ensures
        has_prefix(s, p) <==> exists|t: Seq<char>| s == #[trigger] (p + t),
        has_prefix(p + s, p),
{
    assert((p + s).take(p.len() as int) =~= p);
    if has_prefix(s, p) {
        assert(s =~= p + s.skip(p.len() as int));
    }
    if exists|t: Seq<char>| s == #[trigger] (p + t) {
        let t = choose|t: Seq<char>| s == #[trigger] (p + t);
        assert(s.take(p.len() as int) =~= p);
    }
}

/// A text holds `pat` exactly where it is something, `pat`, and something behind it.
pub proof fn law_substring(s: Seq<char>, pat: Seq<char>)
    ensures
        has_substring(s, pat) <==> exists|a: Seq<char>, b: Seq<char>| s == #[trigger] (a + pat + b),
{
    if has_substring(s, pat) {
        let i = choose|i: int| #[trigger] occurs_at(s, pat, i);
        assert(s =~= s.take(i) + pat + s.skip(i + pat.len()));
    }
    if exists|a: Seq<char>, b: Seq<char>| s == #[trigger] (a + pat + b) {
        let (a, b) = choose|a: Seq<char>, b: Seq<char>| s == #[trigger] (a + pat + b);
        assert(s.subrange(a.len() as int, a.len() as int + pat.len()) =~= pat);
        assert(occurs_at(s, pat, a.len() as int));
    }
}

/// The white space is what Unicode calls so.
pub proof fn law_white_space(c: char)
    ensures
        is_space(c) <==> set![
            0x9int, 0xA, 0xB, 0xC, 0xD, 0x20, 0x85, 0xA0, 0x1680, 0x2000, 0x2001, 0x2002, 0x2003,
            0x2004, 0x2005, 0x2006, 0x2007, 0x2008, 0x2009, 0x200A, 0x2028, 0x2029, 0x202F, 0x205F,
            0x3000,
        ].contains(c as int),
{
}

/// There is nothing but white space.
pub open spec fn all_space(s: Seq<char>) -> bool {
    forall|i: int| 0 <= i < s.len() ==> is_space(#[trigger] s[i])
}

/// A text that neither begins nor ends with white space comes out of trimming whatever
/// white space stands around it.
pub proof fn law_trim(a: Seq<char>, m: Seq<char>, b: Seq<char>)
    requires
        all_space(a),
        all_space(b),
        m.len() > 0 ==> !is_space(m[0]) && !is_space(m.last()),
    ensures
        trim_of(a + m + b) == m,
        trim_end_of(m + b) == m,
    decreases a.len() + b.len(),
{
    if a.len() > 0 {
        let s = a + m + b;
        assert(s[0] == a[0]);
        assert(s.drop_first() =~= a.drop_first() + m + b);
        assert forall|i: int| 0 <= i < a.drop_first().len() implies is_space(
            #[trigger] a.drop_first()[i],
        ) by {
            assert(a.drop_first()[i] == a[i + 1]);
        }
        law_trim(a.drop_first(), m, b);
    } else if b.len() > 0 {
        let s = a + m + b;
        assert(s =~= m + b);
        assert((m + b).last() == b.last());
        assert(is_space(b[b.len() - 1]));
        assert((m + b).drop_last() =~= m + b.drop_last());
        assert(a + m + b.drop_last() =~= m + b.drop_last());
        assert forall|i: int| 0 <= i < b.drop_last().len() implies is_space(
            #[trigger] b.drop_last()[i],
        ) by {
            assert(b.drop_last()[i] == b[i]);
        }
        law_trim(a, m, b.drop_last());
        if m.len() == 0 {
            assert(is_space(b[0]));
            lemma_trim_blank(b);
            assert(m + b =~= b);
        } else {
            assert((m + b)[0] == m[0]);
            assert(trim_start_of(m + b) == m + b);
        }
    } else {
        assert(a + m + b =~= m);
        assert(m + b =~= m);
    }
}

proof fn lemma_trim_blank(s: Seq<char>)
    requires
        all_space(s),
    ensures
        trim_start_of(s).len() == 0,
    decreases s.len(),
{
    if s.len() > 0 {
        assert(is_space(s[0]));
        assert forall|i: int| 0 <= i < s.drop_first().len() implies is_space(
            #[trigger] s.drop_first()[i],
        ) by {
            assert(s.drop_first()[i] == s[i + 1]);
        }
        lemma_trim_blank(s.drop_first());
    }
}

/// Up to the first of a character stand those before it.
proof fn lemma_until(a: Seq<char>, c: char, b: Seq<char>)
    requires
        !a.contains(c),
    ensures
        until(a + seq![c] + b, c) == a.len(),
        until(a, c) == a.len(),
    decreases a.len(),
{
    let s = a + seq![c] + b;
    if a.len() > 0 {
        assert(a.contains(a[0]));
        assert(s[0] == a[0]);
        assert(s.drop_first() =~= a.drop_first() + seq![c] + b);
        assert forall|i: int| 0 <= i < a.drop_first().len() implies a.drop_first()[i] != c by {
            assert(a.contains(a[i + 1]));
        }
        lemma_until(a.drop_first(), c, b);
    } else {
        assert(s[0] == c);
    }
}

/// The lines of a text: one that has no line feed is a line of its own, and what stands
/// before the first line feed is the first line, without a carriage return at its end,
/// before the lines of what stands behind it.
pub proof fn law_lines(line: Seq<char>, rest: Seq<char>)
    requires
        !line.contains('\n'),
    ensures
        line.len() > 0 ==> lines_of(line) == seq![line],
        lines_of(Seq::<char>::empty()) == Seq::<Seq<char>>::empty(),
        line.len() == 0 || line.last() != '\r' ==> lines_of(line + seq!['\n'] + rest) == seq![line]
            + lines_of(rest),
        lines_of(line + seq!['\r'] + seq!['\n'] + rest) == seq![line] + lines_of(rest),
{
    lemma_until(line, '\n', rest);
    let s = line + seq!['\n'] + rest;
    assert(s.take(line.len() as int) =~= line);
    assert(s.skip(line.len() as int + 1) =~= rest);
    let l2 = line + seq!['\r'];
    assert(!l2.contains('\n')) by {
        if l2.contains('\n') {
            let i = choose|i: int| 0 <= i < l2.len() && l2[i] == '\n';
            assert(line[i] == '\n');
        }
    }
    lemma_until(l2, '\n', rest);
    let t = l2 + seq!['\n'] + rest;
    assert(t.take(l2.len() as int) =~= l2);
    assert(l2.drop_last() =~= line);
    assert(t.skip(l2.len() as int + 1) =~= rest);
}

/// The decimal numeral of a number goes on digit by digit, from the number without its
/// last digit; one digit is its own numeral.
pub proof fn law_decimal_steps(n: nat, d: nat)
    requires
        d < 10,
    ensures
        decimal(d) == seq!["0123456789"@[d as int]],
        n > 0 ==> decimal(n * 10 + d) == decimal(n) + decimal(d),
{
    reveal_strlit("0123456789");
    if n > 0 {
        assert((n * 10 + d) / 10 == n && (n * 10 + d) % 10 == d);
        assert(decimal(n * 10 + d) =~= decimal(n) + decimal(d));
    }
}

/// A numeral of hexadecimal digits goes on in the same way, with as many digits as are
/// asked for.
pub proof fn law_hex_steps(n: nat, d: nat, width: nat)
    requires
        d < 16,
    ensures
        hex(n, width).len() == width,
        hex(n * 16 + d, width + 1) == hex(n, width) + seq!["0123456789abcdef"@[d as int]],
    decreases width,
{
    reveal_strlit("0123456789abcdef");
    assert((n * 16 + d) / 16 == n && (n * 16 + d) % 16 == d);
    assert(hex(n * 16 + d, width + 1) =~= hex(n, width) + seq!["0123456789abcdef"@[d as int]]);
    if width > 0 {
        law_hex_steps(n / 16, n % 16, (width - 1) as nat);
    }
}

/// A padded text has the width, or its own length where that is more; it ends, or
/// begins, with the text, and the rest is padding.
pub proof fn law_padding(s: Seq<char>, c: char, width: nat)
    ensures
        ({
            let total = if s.len() < width {
                width
            } else {
                s.len()
            };
            let fill = Seq::new((total - s.len()) as nat, |i: int| c);
            pad_left(s, c, width as int) == fill + s && pad_right(s, c, width as int) == s + fill
        }),
{
    let total = if s.len() < width {
        width
    } else {
        s.len()
    };
    let fill = Seq::new((total - s.len()) as nat, |i: int| c);
    assert(repeated(c, width - s.len()) =~= fill);
}

/// A numeral is read digit by digit; a plus sign may stand before it, nothing else may,
/// and there has to be a digit.
pub proof fn law_numerals(s: Seq<char>, c: char)
    ensures
        u64_numeral(Seq::<char>::empty()) is None,
        s.len() > 0 && s[0] != '+' && !('0' <= c <= '9') ==> u64_numeral(s.push(c)) is None,
        s.len() > 0 && s[0] != '+' ==> u64_numeral(seq!['+'] + s) == u64_numeral(s),
        u64_numeral(s) matches Some(v) ==> s.len() > 0 && '0' <= c <= '9' && v * 10 + (c as int
            - 48) <= u64::MAX ==> u64_numeral(s.push(c)) == Some((v * 10 + (c as int - 48)) as u64),
        u64_numeral(s) matches Some(v) ==> '0' <= c <= '9' && v * 10 + (c as int - 48) > u64::MAX
            ==> u64_numeral(s.push(c)) is None,
        u64_numeral(s) is Some && !('0' <= c <= '9') ==> u64_numeral(s.push(c)) is None,
        u64_numeral(s) is None && s.len() > 0 && s != seq!['+'] ==> u64_numeral(s.push(c)) is None,
        '0' <= c <= '9' ==> u64_numeral(seq![c]) == Some((c as int - 48) as u64),
        '0' <= c <= '9' ==> u64_numeral(seq!['+', c]) == Some((c as int - 48) as u64),
        u64_numeral(seq!['+']) is None,
{
    let t = s.push(c);
    lemma_numeral_grows(s, c);
    if '0' <= c <= '9' {
        let plus = seq!['+', c];
        let one = seq![c];
        assert(plus.drop_first() =~= one);
        assert(one.drop_last() =~= Seq::<char>::empty());
        assert(digits_value(one.drop_last()) == 0);
        assert(all_digits(one));
    }
    assert(seq!['+'].drop_first().len() == 0);
    assert(Seq::<char>::empty().len() == 0);
    if s.len() > 0 && s[0] != '+' {
        assert(t[0] == s[0]);
        assert(numeral_digits(t) == t);
        assert(t[t.len() - 1] == c);
        let p = seq!['+'] + s;
        assert(p[0] == '+');
        assert(p.drop_first() =~= s);
        assert(numeral_digits(p) == s && numeral_digits(s) == s);
    }
    if u64_numeral(s) is Some && '0' <= c <= '9' {
        let d = numeral_digits(s);
        assert(s.len() > 0);
        assert(t[0] == s[0]);
        assert(numeral_digits(t) =~= d.push(c)) by {
            if s[0] == '+' {
                assert(t.drop_first() =~= s.drop_first().push(c));
            }
        }
        assert(d.push(c).drop_last() =~= d);
        assert forall|i: int| 0 <= i < d.push(c).len() implies '0' <= #[trigger] d.push(c)[i] <= '9' by {
            if i < d.len() {
                assert(d.push(c)[i] == d[i]);
            }
        }
    }
    if '0' <= c <= '9' {
        let o = seq![c];
        assert(numeral_digits(o) == o);
        assert(o.drop_last() =~= Seq::<char>::empty());
        assert(digits_value(o.drop_last()) == 0);
        assert(digits_value(o) == c as int - 48);
        assert(all_digits(o));
    }
}

/// What is no numeral does not become one by a character more.
proof fn lemma_numeral_grows(s: Seq<char>, c: char)
    ensures
        u64_numeral(s) is Some ==> numeral_digits(s.push(c)) == numeral_digits(s).push(c),
        u64_numeral(s) is Some && !('0' <= c <= '9') ==> u64_numeral(s.push(c)) is None,
        u64_numeral(s) is None && s.len() > 0 && s != seq!['+'] ==> u64_numeral(s.push(c)) is None,
        u64_numeral(s) matches Some(v) ==> '0' <= c <= '9' && v * 10 + (c as int - 48) > u64::MAX
            ==> u64_numeral(s.push(c)) is None,
{
    if s.len() > 0 {
        let t = s.push(c);
        let d = numeral_digits(s);
        let e = numeral_digits(t);
        assert(t[0] == s[0]);
        if s[0] == '+' {
            assert(t.drop_first() =~= s.drop_first().push(c));
        }
        assert(e == d.push(c));
        assert(e.drop_last() =~= d);
        assert(e[d.len() as int] == c);
        if s != seq!['+'] {
            assert(d.len() > 0) by {
                if d.len() == 0 {
                    assert(s =~= seq!['+']);
                }
            }
        }
        if all_digits(e) {
            assert forall|i: int| 0 <= i < d.len() implies '0' <= #[trigger] d[i] <= '9' by {
                assert(e[i] == d[i]);
            }
        }
    }
}

/// Where a text can be cut after `n` bytes, the first bytes are a beginning of it of
/// that many bytes, or all of it.
pub proof fn law_leading_text(s: Seq<char>, n: nat)
    requires
        cuts_at(s, n as int),
    ensures
        has_prefix(s, leading_text(s, n as int)),
        encode_utf8(s).len() <= n ==> leading_text(s, n as int) == s,
        encode_utf8(s).len() > n ==> encode_utf8(leading_text(s, n as int)).len() == n,
{
    let bytes = encode_utf8(s);
    encode_utf8_valid_utf8(s);
    encode_utf8_decode_utf8(s);
    let cut = leading_bytes(s, n as int).len() as int;
    assert(bytes.take(cut) =~= leading_bytes(s, n as int));
    if cut == bytes.len() {
        assert(bytes.take(cut) =~= bytes);
        assert(s.take(s.len() as int) =~= s);
    } else {
        assert(bytes.subrange(0, cut) =~= bytes.take(cut));
        valid_utf8_split(bytes, cut);
        decode_utf8_split(bytes, cut);
        decode_utf8_encode_utf8(bytes.take(cut));
        let tail = decode_utf8(bytes.subrange(cut, bytes.len() as int));
        assert(s =~= leading_text(s, n as int) + tail);
        law_prefix(s, leading_text(s, n as int));
    }
}

/// The order of texts is decided by the first byte in which they differ; a text comes
/// before what it is a beginning of.
pub proof fn law_byte_order(common: Seq<u8>, x: u8, a: Seq<u8>, y: u8, b: Seq<u8>)
    ensures
        x != y ==> bytes_less(common + seq![x] + a, common + seq![y] + b) == (x < y),
        bytes_less(common, common + seq![y] + b),
        !bytes_less(common + seq![y] + b, common),
    decreases common.len(),
{
    let p = common + seq![x] + a;
    let q = common + seq![y] + b;
    if common.len() > 0 {
        let rest = common.drop_first();
        law_byte_order(rest, x, a, y, b);
        assert(p.drop_first() =~= rest + seq![x] + a);
        assert(q.drop_first() =~= rest + seq![y] + b);
        assert(p[0] == common[0] && q[0] == common[0]);
    } else {
        assert(p[0] == x && q[0] == y);
    }
}

// ---- what a text shows ----

/// The pieces stand in the text, one behind the other.
#[verifier::opaque]
pub open spec fn shows(s: Seq<char>, pieces: Seq<Seq<char>>) -> bool
    decreases pieces.len(),
{
    pieces.len() > 0 ==> exists|i: int| #[trigger]
        occurs_at(s, pieces[0], i) && shows(s.skip(i + pieces[0].len()), pieces.drop_first())
}

/// Any text shows no pieces.
pub proof fn lemma_shows_nothing(s: Seq<char>)
    ensures
        shows(s, Seq::empty()),
{
    reveal_with_fuel(shows, 2);
}

/// A text goes on showing what it showed with more at its end.
pub proof fn lemma_shows_still(s: Seq<char>, more: Seq<char>, pieces: Seq<Seq<char>>)
    requires
        shows(s, pieces),
    ensures
        shows(s + more, pieces),
    decreases pieces.len(),
{
    reveal_with_fuel(shows, 2);
    if pieces.len() > 0 {
        let p = pieces[0];
        let i = choose|i: int| #[trigger]
            occurs_at(s, p, i) && shows(s.skip(i + p.len()), pieces.drop_first());
        let t = s + more;
        assert(t.subrange(i, i + p.len()) =~= s.subrange(i, i + p.len()));
        assert(occurs_at(t, p, i));
        lemma_shows_still(s.skip(i + p.len()), more, pieces.drop_first());
        assert(t.skip(i + p.len()) =~= s.skip(i + p.len()) + more);
    }
}

/// A text with one more piece at its end shows that one behind the others.
pub proof fn lemma_shows_next(s: Seq<char>, piece: Seq<char>, pieces: Seq<Seq<char>>)
    requires
        shows(s, pieces),
    ensures
        shows(s + piece, pieces.push(piece)),
    decreases pieces.len(),
{
    reveal_with_fuel(shows, 2);
    let t = s + piece;
    let all = pieces.push(piece);
    if pieces.len() > 0 {
        let p = pieces[0];
        let i = choose|i: int| #[trigger]
            occurs_at(s, p, i) && shows(s.skip(i + p.len()), pieces.drop_first());
        assert(t.subrange(i, i + p.len()) =~= s.subrange(i, i + p.len()));
        assert(occurs_at(t, p, i));
        lemma_shows_next(s.skip(i + p.len()), piece, pieces.drop_first());
        assert(t.skip(i + p.len()) =~= s.skip(i + p.len()) + piece);
        assert(all.drop_first() =~= pieces.drop_first().push(piece));
        assert(all[0] == p);
    } else {
        assert(t.subrange(s.len() as int, s.len() as int + piece.len()) =~= piece);
        assert(all[0] == piece);
        assert(occurs_at(t, all[0], s.len() as int));
        assert(all.drop_first() =~= Seq::<Seq<char>>::empty());
        assert(shows(t.skip(s.len() as int + piece.len()), all.drop_first()));
    }
}

/// What a text shows is shown behind something else too.
pub proof fn lemma_shows_behind(front: Seq<char>, s: Seq<char>, pieces: Seq<Seq<char>>)
    requires
        shows(s, pieces),
    ensures
        shows(front + s, pieces),
{
    reveal_with_fuel(shows, 2);
    if pieces.len() > 0 {
        let p = pieces[0];
        let i = choose|i: int| #[trigger]
            occurs_at(s, p, i) && shows(s.skip(i + p.len()), pieces.drop_first());
        let t = front + s;
        assert(t.subrange(front.len() + i, front.len() + i + p.len()) =~= s.subrange(
            i,
            i + p.len(),
        ));
        assert(occurs_at(t, p, front.len() + i));
        assert(t.skip(front.len() + i + p.len()) =~= s.skip(i + p.len()));
    }
}

/// Two texts, one behind the other, show the pieces of the one and those of the other.
pub proof fn lemma_shows_both(
    a: Seq<char>,
    b: Seq<char>,
    first: Seq<Seq<char>>,
    second: Seq<Seq<char>>,
)
    requires
        shows(a, first),
        shows(b, second),
    ensures
        shows(a + b, first + second),
    decreases first.len(),
{
    reveal_with_fuel(shows, 2);
    let t = a + b;
    let all = first + second;
    if first.len() > 0 {
        let p = first[0];
        let i = choose|i: int| #[trigger]
            occurs_at(a, p, i) && shows(a.skip(i + p.len()), first.drop_first());
        assert(t.subrange(i, i + p.len()) =~= a.subrange(i, i + p.len()));
        assert(occurs_at(t, p, i));
        lemma_shows_both(a.skip(i + p.len()), b, first.drop_first(), second);
        assert(t.skip(i + p.len()) =~= a.skip(i + p.len()) + b);
        assert(all.drop_first() =~= first.drop_first() + second);
        assert(all[0] == p);
    } else {
        assert(all =~= second);
        lemma_shows_behind(a, b, second);
    }
}

/// Trimming at the end takes off white space and nothing else.
pub proof fn law_trim_end_takes_space(s: Seq<char>)
    ensures
        exists|b: Seq<char>| all_space(b) && s == #[trigger] (trim_end_of(s) + b),
        trim_end_of(s).len() > 0 ==> !is_space(trim_end_of(s).last()),
    decreases s.len(),
{
    if s.len() > 0 && is_space(s.last()) {
        law_trim_end_takes_space(s.drop_last());
        let t = trim_end_of(s);
        let b = choose|b: Seq<char>| all_space(b) && s.drop_last() == #[trigger] (t + b);
        let c = b.push(s.last());
        assert forall|i: int| 0 <= i < c.len() implies is_space(#[trigger] c[i]) by {
            if i < b.len() {
                assert(c[i] == b[i]);
            }
        }
        assert(s =~= s.drop_last().push(s.last()));
        assert((t + b).push(s.last()) =~= t + c);
    } else {
        assert(all_space(Seq::empty()));
        assert(s =~= trim_end_of(s) + Seq::empty());
    }
}

/// A text that is not all white space is not trimmed to nothing.
pub proof fn law_trim_leaves_text(s: Seq<char>)
    requires
        !all_space(s),
    ensures
        trim_of(s).len() > 0,
    decreases s.len(),
{
    let k = choose|k: int| 0 <= k < s.len() && !is_space(#[trigger] s[k]);
    if is_space(s[0]) {
        let t = s.drop_first();
        assert(t[k - 1] == s[k]);
        assert(!all_space(t));
        law_trim_leaves_text(t);
    } else {
        law_trim_end_takes_space(s);
        if trim_end_of(s).len() == 0 {
            let b = choose|b: Seq<char>| all_space(b) && s == #[trigger] (trim_end_of(s) + b);
            assert(s =~= b);
            assert(is_space(b[0]));
        }
    }
}

/// Two numbers that fit have the same digits only where they are the same.
pub proof fn law_hex_tells_numbers_apart(a: nat, b: nat, width: nat)
    requires
        a < pow(16, width),
        b < pow(16, width),
        hex(a, width) == hex(b, width),
    ensures
        a == b,
    decreases width,
{
    reveal(pow);
    if width > 0 {
        let x = hex(a / 16, (width - 1) as nat);
        let y = hex(b / 16, (width - 1) as nat);
        let p = hex(a, width);
        let q = hex(b, width);
        law_hex_steps(a / 16, a % 16, (width - 1) as nat);
        law_hex_steps(b / 16, b % 16, (width - 1) as nat);
        assert(p.drop_last() =~= x);
        assert(q.drop_last() =~= y);
        assert(p.last() == "0123456789abcdef"@[(a % 16) as int]);
        assert(q.last() == "0123456789abcdef"@[(b % 16) as int]);
        reveal_strlit("0123456789abcdef");
        assert(a % 16 == b % 16);
        assert(pow(16, width) == 16 * pow(16, (width - 1) as nat));
        law_hex_tells_numbers_apart(a / 16, b / 16, (width - 1) as nat);
    }
}

/// The texts of strings are theirs, one by one.
pub proof fn law_texts_one_by_one(v: Seq<String>, s: String, o: Option<&str>)
    ensures
        o matches Some(t) ==> opt_str(o) == Some(t@),
        o is None ==> opt_str(o) is None,
        texts(v).len() == v.len(),
        forall|i: int| 0 <= i < v.len() ==> #[trigger] texts(v)[i] == v[i]@,
        opt_text(Some(s)) == Some(s@),
        opt_text(None) is None,
{
}

/// Texts are in the order of their bytes.
pub proof fn law_text_order(a: Seq<char>, b: Seq<char>)
    ensures
        text_less(a, b) == bytes_less(encode_utf8(a), encode_utf8(b)),
        !bytes_less(Seq::empty(), Seq::empty()),
{
}

} // verus!
