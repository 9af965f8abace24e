//! The ids and refs of checkpoints.

use vstd::prelude::*;
use vstd::string::*;
use vstd::utf8::*;

use crate::text::{
    chars_of, decimal_text, find_char, first_chars, padded_left, parse_u64, strip_prefix, text_between,
};
use crate::text::{
    all_digits, bytes_less, decimal, digit, digits_value, has_prefix,
    numeral_digits, pad_left, repeated, text_less, u64_numeral, until,
};

verus! {

/// Checkpoint refs stand under this prefix.
pub const REF_PREFIX: &'static str = "refs/gloss/";

/// The refs of work that was set aside before a restore stand under this prefix.
pub const STASH_PREFIX: &'static str = "refs/gloss-stash/";

/// The id of a checkpoint: the time in milliseconds with at least thirteen
/// digits, and the first eight characters of the commit.
pub open spec fn id_of(ms: u64, commit: Seq<char>) -> Seq<char> {
    pad_left(decimal(ms as nat), '0', 13) + "_"@ + commit.take(
        if commit.len() < 8 {
            commit.len() as int
        } else {
            8
        },
    )
}

/// Makes the id of the checkpoint with the given commit, taken at `now_ms`.
pub fn make_id(now_ms: u64, commit: &str) -> (r: String)
    ensures
        r@ == id_of(now_ms, commit@),
{
    let mut out = padded_left(decimal_text(now_ms).as_str(), '0', 13);
    out.append("_");
    out.append(first_chars(commit, 8).as_str());
    out
}

/// The ref of the checkpoint with the given id.
pub fn ref_name(id: &str) -> (r: String)
    ensures
        r@ == REF_PREFIX@ + id@,
{
    let mut out = REF_PREFIX.to_string();
    out.append(id);
    out
}

/// The pattern that matches all checkpoint refs.
pub fn ref_glob() -> (r: String)
    ensures
        r@ == REF_PREFIX@ + "*"@,
{
    ref_name("*")
}

/// The ref of work that was set aside at `now_ms`.
pub fn stash_ref_name(now_ms: u64) -> (r: String)
    ensures
        r@ == STASH_PREFIX@ + decimal(now_ms as nat),
{
    let mut out = STASH_PREFIX.to_string();
    out.append(decimal_text(now_ms).as_str());
    out
}

/// The id is that of a checkpoint: a decimal numeral stands before its first
/// underscore.
pub open spec fn is_checkpoint_id(id: Seq<char>) -> bool {
    until(id, '_') < id.len() && u64_numeral(id.take(until(id, '_') as int)) is Some
}

/// The id of the checkpoint that a ref stands for, where it stands for one.
pub open spec fn ref_id(name: Seq<char>) -> Option<Seq<char>> {
    if has_prefix(name, REF_PREFIX@) && is_checkpoint_id(name.skip(REF_PREFIX@.len() as int)) {
        Some(name.skip(REF_PREFIX@.len() as int))
    } else {
        None
    }
}

/// The id of the checkpoint that the ref `name` stands for, if any.
pub fn checkpoint_id(name: &str) -> (r: Option<String>)
    ensures
        match r {
            Some(id) => ref_id(name@) == Some(id@),
            None => ref_id(name@) is None,
        },
{
    match strip_prefix(name, REF_PREFIX) {
        None => None,
        Some(id) => {
            let chars = chars_of(id.as_str());
            assert(id@.skip(0) == id@);
            let at = find_char(&chars, 0, '_');
            if at == chars.len() {
                return None;
            }
            let stamp = text_between(&chars, 0, at);
            assert(stamp@ == id@.take(at as int));
            match parse_u64(stamp.as_str()) {
                Some(_) => Some(id),
                None => None,
            }
        },
    }
}

proof fn lemma_digit(d: int)
    requires
        0 <= d < 10,
    ensures
        '0' <= digit(d) <= '9',
        digit(d) as int == 48 + d,
{
}

/// A decimal numeral is made of digits and stands for its number.
pub proof fn lemma_decimal(n: nat)
    ensures
        decimal(n).len() > 0,
        all_digits(decimal(n)),
        digits_value(decimal(n)) == n,
    decreases n,
{
    if n >= 10 {
        lemma_decimal(n / 10);
        lemma_digit((n % 10) as int);
        assert(decimal(n).drop_last() == decimal(n / 10));
        assert forall|i: int| 0 <= i < decimal(n).len() implies '0' <= #[trigger] decimal(n)[i]
            <= '9' by {
            if i < decimal(n / 10).len() {
                assert(decimal(n)[i] == decimal(n / 10)[i]);
            }
        }
    } else {
        lemma_digit(n as int);
        assert(decimal(n).drop_last() == Seq::<char>::empty());
        assert(digits_value(Seq::<char>::empty()) == 0);
    }
}

/// Leading zeros change nothing.
proof fn lemma_zeros(k: int, s: Seq<char>)
    requires
        all_digits(s),
    ensures
        all_digits(repeated('0', k) + s),
        digits_value(repeated('0', k) + s) == digits_value(s),
    decreases k, s.len(),
{
    let z = repeated('0', k);
    if s.len() == 0 {
        if k > 0 {
            lemma_zeros(k - 1, s);
            assert((z + s).drop_last() =~= repeated('0', k - 1) + s);
            assert((z + s).last() == '0');
        } else {
            assert(z + s =~= s);
        }
    } else {
        lemma_zeros(k, s.drop_last());
        assert((z + s).drop_last() =~= z + s.drop_last());
        assert((z + s).last() == s.last());
    }
    assert forall|i: int| 0 <= i < (z + s).len() implies '0' <= #[trigger] (z + s)[i] <= '9' by {
        if i >= z.len() {
            assert((z + s)[i] == s[i - z.len()]);
        }
    }
}

/// No character before the first `c` is `c`; a text without `c`, followed by
/// `c`, ends at it.
proof fn lemma_until_end(a: Seq<char>, c: char, b: Seq<char>)
    requires
        forall|i: int| 0 <= i < a.len() ==> a[i] != c,
        b.len() > 0,
        b[0] == c,
    ensures
        until(a + b, c) == a.len(),
    decreases a.len(),
{
    if a.len() > 0 {
        assert((a + b).drop_first() =~= a.drop_first() + b);
        lemma_until_end(a.drop_first(), c, b);
    } else {
        assert(a + b =~= b);
    }
}

/// Every id that `make_id` makes is recognised again: the ref that `ref_name`
/// gives it stands for the checkpoint with that id, and the number before the
/// underscore is the time at which it was made.
pub proof fn law_made_id_is_listed(ms: u64, commit: Seq<char>)
    ensures
        ref_id(REF_PREFIX@ + id_of(ms, commit)) == Some(id_of(ms, commit)),
        u64_numeral(id_of(ms, commit).take(until(id_of(ms, commit), '_') as int)) == Some(ms),
{
    let id = id_of(ms, commit);
    let stamp = pad_left(decimal(ms as nat), '0', 13);
    let rest = "_"@ + commit.take(
        if commit.len() < 8 {
            commit.len() as int
        } else {
            8
        },
    );
    reveal_strlit("_");
    assert(id =~= stamp + rest);
    lemma_decimal(ms as nat);
    lemma_zeros(13 - decimal(ms as nat).len(), decimal(ms as nat));
    assert(all_digits(stamp));
    assert(stamp.len() > 0);
    assert('0' <= stamp[0] <= '9');
    lemma_until_end(stamp, '_', rest);
    assert(id.take(stamp.len() as int) =~= stamp);
    assert(numeral_digits(stamp) == stamp);
    let name = REF_PREFIX@ + id;
    assert(name.take(REF_PREFIX@.len() as int) =~= REF_PREFIX@);
    assert(name.skip(REF_PREFIX@.len() as int) =~= id);
}

/// A ref of work that was set aside is never taken for a checkpoint.
pub proof fn law_stash_is_no_checkpoint(ms: u64)
    ensures
        ref_id(STASH_PREFIX@ + decimal(ms as nat)) is None,
{
    reveal_strlit("refs/gloss/");
    reveal_strlit("refs/gloss-stash/");
    let name = STASH_PREFIX@ + decimal(ms as nat);
    assert(name[10] == '-');
    assert(REF_PREFIX@[10] == '/');
    if has_prefix(name, REF_PREFIX@) {
        assert(name.take(REF_PREFIX@.len() as int)[10] == name[10]);
    }
}

/// The time stamp of an id, with `w` digits.
spec fn stamp_digits(n: nat, w: nat) -> Seq<char>
    decreases w,
{
    if w == 0 {
        Seq::empty()
    } else {
        stamp_digits(n / 10, (w - 1) as nat).push(digit((n % 10) as int))
    }
}

spec fn power_of_ten(w: nat) -> nat
    decreases w,
{
    if w == 0 {
        1
    } else {
        10 * power_of_ten((w - 1) as nat)
    }
}

proof fn lemma_stamp_digits(n: nat, w: nat)
    requires
        n < power_of_ten(w),
        w > 0,
    ensures
        stamp_digits(n, w) == pad_left(decimal(n), '0', w as int),
        stamp_digits(n, w).len() == w,
        decimal(n).len() <= w,
    decreases w,
{
    reveal_with_fuel(stamp_digits, 2);
    reveal_with_fuel(power_of_ten, 2);
    if w == 1 {
        assert(n < 10);
        assert(stamp_digits(n, 1) =~= pad_left(decimal(n), '0', 1));
    } else {
        let m = n / 10;
        assert(m < power_of_ten((w - 1) as nat));
        lemma_stamp_digits(m, (w - 1) as nat);
        if n < 10 {
            assert(decimal(m) =~= seq!['0']);
            assert(pad_left(decimal(m), '0', w - 1).push(digit(n as int)) =~= pad_left(
                decimal(n),
                '0',
                w as int,
            ));
        } else {
            assert(decimal(n) == decimal(m).push(digit((n % 10) as int)));
            assert(pad_left(decimal(m), '0', w - 1).push(digit((n % 10) as int)) =~= pad_left(
                decimal(n),
                '0',
                w as int,
            ));
        }
    }
}

/// The bytes of stamps of one width are in the order of the numbers.
proof fn lemma_stamps_in_order(a: nat, b: nat, w: nat, x: Seq<u8>, y: Seq<u8>)
    requires
        a < b < power_of_ten(w),
    ensures
        bytes_less(ascii(stamp_digits(a, w)) + x, ascii(stamp_digits(b, w)) + y),
    decreases w,
{
    if w > 0 {
        let v = (w - 1) as nat;
        let da = digit((a % 10) as int);
        let db = digit((b % 10) as int);
        lemma_digit((a % 10) as int);
        lemma_digit((b % 10) as int);
        let pa = ascii(stamp_digits(a / 10, v));
        let pb = ascii(stamp_digits(b / 10, v));
        assert(ascii(stamp_digits(a, w)) + x =~= pa + (seq![da as u8] + x));
        assert(ascii(stamp_digits(b, w)) + y =~= pb + (seq![db as u8] + y));
        if a / 10 < b / 10 {
            lemma_stamps_in_order(a / 10, b / 10, v, seq![da as u8] + x, seq![db as u8] + y);
        } else {
            assert(a / 10 == b / 10);
            assert(a % 10 < b % 10);
            let u = seq![da as u8] + x;
            let t = seq![db as u8] + y;
            assert(u[0] < t[0]);
            assert(bytes_less(u, t));
            lemma_common_prefix(pa, u, t);
        }
    }
}

/// A common prefix does not change the order.
proof fn lemma_common_prefix(p: Seq<u8>, x: Seq<u8>, y: Seq<u8>)
    ensures
        bytes_less(p + x, p + y) == bytes_less(x, y),
    decreases p.len(),
{
    if p.len() > 0 {
        lemma_common_prefix(p.drop_first(), x, y);
        assert((p + x).drop_first() =~= p.drop_first() + x);
        assert((p + y).drop_first() =~= p.drop_first() + y);
    } else {
        assert(p + x =~= x);
        assert(p + y =~= y);
    }
}

/// The bytes of ASCII characters.
spec fn ascii(s: Seq<char>) -> Seq<u8> {
    Seq::new(s.len(), |i: int| s[i] as u8)
}

/// The bytes of two texts in a row.
pub proof fn lemma_encode_concat(a: Seq<char>, b: Seq<char>)
    ensures
        encode_utf8(a + b) == encode_utf8(a) + encode_utf8(b),
    decreases a.len(),
{
    if a.len() == 0 {
        assert(a + b =~= b);
        assert(encode_utf8(a) + encode_utf8(b) =~= encode_utf8(b));
    } else {
        lemma_encode_concat(a.drop_first(), b);
        assert((a + b).drop_first() =~= a.drop_first() + b);
        assert((a + b)[0] == a[0]);
        assert(encode_utf8(a + b) =~= encode_utf8(a) + encode_utf8(b));
    }
}

/// The order of ids is the order of time: of two checkpoints made at different
/// milliseconds before the year 2286, when the time first has fourteen digits,
/// the id of the earlier one comes first, whatever their commits are.
pub proof fn law_ids_in_order_of_time(ms1: u64, commit1: Seq<char>, ms2: u64, commit2: Seq<char>)
    requires
        ms1 < ms2 < 10_000_000_000_000,
    ensures
        text_less(id_of(ms1, commit1), id_of(ms2, commit2)),
{
    assert(power_of_ten(13) == 10_000_000_000_000) by {
        reveal_with_fuel(power_of_ten, 14);
    }
    let s1 = pad_left(decimal(ms1 as nat), '0', 13);
    let s2 = pad_left(decimal(ms2 as nat), '0', 13);
    lemma_stamp_digits(ms1 as nat, 13);
    lemma_stamp_digits(ms2 as nat, 13);
    let r1 = "_"@ + commit1.take(
        if commit1.len() < 8 {
            commit1.len() as int
        } else {
            8
        },
    );
    let r2 = "_"@ + commit2.take(
        if commit2.len() < 8 {
            commit2.len() as int
        } else {
            8
        },
    );
    lemma_decimal(ms1 as nat);
    lemma_decimal(ms2 as nat);
    lemma_zeros(13 - decimal(ms1 as nat).len(), decimal(ms1 as nat));
    lemma_zeros(13 - decimal(ms2 as nat).len(), decimal(ms2 as nat));
    lemma_digits_are_ascii(s1);
    lemma_digits_are_ascii(s2);
    lemma_encode_concat(s1, r1);
    lemma_encode_concat(s2, r2);
    lemma_stamps_in_order(ms1 as nat, ms2 as nat, 13, encode_utf8(r1), encode_utf8(r2));
    assert(id_of(ms1, commit1) =~= s1 + r1);
    assert(id_of(ms2, commit2) =~= s2 + r2);
}

proof fn lemma_digits_are_ascii(s: Seq<char>)
    requires
        all_digits(s),
    ensures
        encode_utf8(s) == ascii(s),
{
    assert(is_ascii_chars(s));
    is_ascii_chars_encode_utf8(s);
    assert(encode_utf8(s) =~= ascii(s));
}

/// An id is a number and the beginning of a commit with an underscore between them: the
/// number has at least thirteen digits and reads as the time, and of the commit the first
/// eight characters count and no others.
pub proof fn law_id_parts(ms: u64, head: Seq<char>, rest: Seq<char>)
    requires
        head.len() <= 8,
    ensures
        id_of(ms, head) == id_of(ms, Seq::empty()) + head,
        head.len() == 8 ==> id_of(ms, head + rest) == id_of(ms, head),
        ({
            let stem = id_of(ms, Seq::empty());
            &&& stem.len() >= 14
            &&& stem.last() == '_'
            &&& u64_numeral(stem.drop_last()) == Some(ms)
            &&& stem.len() == 14 || stem[0] != '0'
        }),
{
    reveal_strlit("_");
    let stamp = pad_left(decimal(ms as nat), '0', 13);
    let stem = id_of(ms, Seq::empty());
    assert(Seq::<char>::empty().take(0) =~= Seq::<char>::empty());
    assert(stem =~= stamp.push('_'));
    assert(head.take(head.len() as int) =~= head);
    assert(id_of(ms, head) =~= stem + head);
    if head.len() == 8 {
        assert((head + rest).take(8) =~= head);
    }
    lemma_decimal(ms as nat);
    lemma_zeros(13 - decimal(ms as nat).len(), decimal(ms as nat));
    assert(all_digits(stamp));
    assert('0' <= stamp[0] <= '9');
    assert(numeral_digits(stamp) == stamp);
    assert(stem.drop_last() =~= stamp);
    if stem.len() > 14 {
        lemma_first_digit(ms as nat);
        assert(repeated('0', 13 - decimal(ms as nat).len()) =~= Seq::<char>::empty());
        assert(stamp =~= decimal(ms as nat));
    }
}

/// A numeral of more than one digit does not begin with a zero.
proof fn lemma_first_digit(n: nat)
    ensures
        decimal(n).len() > 0,
        n > 0 ==> decimal(n)[0] != '0',
        n < 10 ==> decimal(n).len() == 1,
    decreases n,
{
    if n >= 10 {
        lemma_first_digit(n / 10);
        assert(decimal(n)[0] == decimal(n / 10)[0]);
    }
}

/// A ref stands for a checkpoint exactly where its name is the prefix, a number, an
/// underscore and anything behind it; the id is what stands behind the prefix.
pub proof fn law_refs_of_checkpoints(front: Seq<char>, rest: Seq<char>)
    requires
        !front.contains('_'),
    ensures
        u64_numeral(front) is Some ==> ref_id("refs/gloss/"@ + front + seq!['_'] + rest) == Some(
            front + seq!['_'] + rest,
        ),
        u64_numeral(front) is None ==> ref_id("refs/gloss/"@ + front + seq!['_'] + rest) is None,
        ref_id("refs/gloss/"@ + front) is None,
        forall|name: Seq<char>|
            (forall|id: Seq<char>| name != #[trigger] ("refs/gloss/"@ + id)) ==> #[trigger] ref_id(
                name,
            ) is None,
        forall|name: Seq<char>, id: Seq<char>| #[trigger]
            ref_id(name) == Some(id) ==> name == #[trigger] ("refs/gloss/"@ + id),
{
    let p = "refs/gloss/"@;
    let id = front + seq!['_'] + rest;
    let tail = seq!['_'] + rest;
    assert(id =~= front + tail);
    assert forall|i: int| 0 <= i < front.len() implies front[i] != '_' by {
        assert(front.contains(front[i]));
    }
    lemma_until_end(front, '_', tail);
    assert(id.take(front.len() as int) =~= front);
    let name = p + front + seq!['_'] + rest;
    assert(name =~= p + id);
    assert(name.take(p.len() as int) =~= p);
    assert(name.skip(p.len() as int) =~= id);
    let short = p + front;
    assert(short.take(p.len() as int) =~= p);
    assert(short.skip(p.len() as int) =~= front);
    lemma_until_none(front, '_');
    assert forall|name: Seq<char>|
        (forall|id: Seq<char>| name != #[trigger] (p + id)) implies #[trigger] ref_id(name) is None by {
        if has_prefix(name, p) {
            assert(name =~= p + name.skip(p.len() as int));
        }
    }
    assert forall|name: Seq<char>, id: Seq<char>| #[trigger]
        ref_id(name) == Some(id) implies name == #[trigger] (p + id) by {
        assert(name =~= p + name.skip(p.len() as int));
    }
}

proof fn lemma_until_none(a: Seq<char>, c: char)
    requires
        forall|i: int| 0 <= i < a.len() ==> a[i] != c,
    ensures
        until(a, c) == a.len(),
    decreases a.len(),
{
    if a.len() > 0 {
        assert forall|i: int| 0 <= i < a.drop_first().len() implies a.drop_first()[i] != c by {
            assert(a.drop_first()[i] == a[i + 1]);
        }
        lemma_until_none(a.drop_first(), c);
    }
}

/// Where refs stand.
pub proof fn law_where_refs_stand()
    ensures
        REF_PREFIX@ == "refs/gloss/"@,
        STASH_PREFIX@ == "refs/gloss-stash/"@,
{
}

} // verus!
