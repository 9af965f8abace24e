//! Paths inside a workspace: their segments, which of them a checkpoint leaves
//! out, and the sweep over the files that a restore may remove. A path is
//! relative to the workspace and its segments are separated by `/`.

use vstd::prelude::*;
use vstd::string::*;

use crate::text::{chars_of, comes_before, same_text, text_between};
use crate::text::{lemma_text_order, text_less, texts};

verus! {

/// Files larger than this are left out of checkpoints.
pub const MAX_FILE_BYTES: u64 = 50 * 1024 * 1024;

/// The heavy or regenerable directories that checkpoints leave out.
pub open spec fn is_excluded(name: Seq<char>) -> bool {
    ||| name == ".git"@
    ||| name == "node_modules"@
    ||| name == "target"@
    ||| name == "__pycache__"@
    ||| name == "dist"@
    ||| name == "build"@
    ||| name == ".next"@
    ||| name == ".venv"@
    ||| name == "venv"@
    ||| name == ".tox"@
    ||| name == ".cache"@
}

/// Whether a directory of this name is left out of checkpoints.
pub fn is_excluded_dir(name: &str) -> (r: bool)
    ensures
        r == is_excluded(name@),
{
    same_text(name, ".git") || same_text(name, "node_modules") || same_text(name, "target")
        || same_text(name, "__pycache__") || same_text(name, "dist") || same_text(name, "build")
        || same_text(name, ".next") || same_text(name, ".venv") || same_text(name, "venv")
        || same_text(name, ".tox") || same_text(name, ".cache")
}

/// How many characters stand behind the last `/`, or in all of `s` where there
/// is none.
pub open spec fn tail_len(s: Seq<char>) -> nat
    decreases s.len(),
{
    if s.len() == 0 || s.last() == '/' {
        0
    } else {
        1 + tail_len(s.drop_last())
    }
}

/// The parts of a path between the separators, in order; at least one.
pub open spec fn segments(s: Seq<char>) -> Seq<Seq<char>>
    decreases s.len(),
{
    if tail_len(s) >= s.len() {
        seq![s]
    } else {
        segments(s.take(s.len() - tail_len(s) - 1)).push(s.skip(s.len() - tail_len(s)))
    }
}

/// A path up to the ways of writing it: whether it begins at the root, and its
/// parts without empty ones and without a `.` other than at its very start.
#[verifier::ext_equal]
pub struct PathKey {
    pub rooted: bool,
    pub parts: Seq<Seq<char>>,
}

/// Whether the part at position `i` of a path counts.
pub open spec fn part_counts(part: Seq<char>, i: int) -> bool {
    part.len() > 0 && (part != "."@ || i == 0)
}

/// The parts that count, in order.
pub open spec fn counting_parts(parts: Seq<Seq<char>>) -> Seq<Seq<char>>
    decreases parts.len(),
{
    if parts.len() == 0 {
        Seq::empty()
    } else if part_counts(parts.last(), parts.len() - 1) {
        counting_parts(parts.drop_last()).push(parts.last())
    } else {
        counting_parts(parts.drop_last())
    }
}

/// What two paths share exactly when they name the same file.
pub open spec fn path_key(s: Seq<char>) -> PathKey {
    PathKey { rooted: s.len() > 0 && s[0] == '/', parts: counting_parts(segments(s)) }
}

/// The tail of a path holds no separator, and one stands right before it unless
/// the tail is the whole path.
pub proof fn lemma_tail(s: Seq<char>)
    ensures
        tail_len(s) <= s.len(),
        forall|i: int| s.len() - tail_len(s) <= i < s.len() ==> s[i] != '/',
        tail_len(s) < s.len() ==> s[s.len() - tail_len(s) - 1] == '/',
    decreases s.len(),
{
    if s.len() > 0 && s.last() != '/' {
        let t = s.drop_last();
        lemma_tail(t);
        assert forall|i: int| s.len() - tail_len(s) <= i < s.len() implies s[i] != '/' by {
            if i < s.len() - 1 {
                assert(t[i] == s[i]);
            }
        }
    }
}

/// The position where the tail of `chars[..end]` begins.
fn tail_start(chars: &Vec<char>, end: usize) -> (r: usize)
    requires
        end <= chars@.len(),
    ensures
        r <= end,
        r == end - tail_len(chars@.take(end as int)),
{
    let mut i: usize = end;
    while i > 0 && chars[i - 1] != '/'
        invariant
            i <= end <= chars@.len(),
            tail_len(chars@.take(end as int)) == (end - i) + tail_len(chars@.take(i as int)),
        decreases i,
    {
        assert(chars@.take(i as int).drop_last() == chars@.take(i - 1));
        i -= 1;
    }
    i
}

/// The parts of a path between the separators, in order.
fn split_segments(chars: &Vec<char>, end: usize) -> (r: Vec<String>)
    requires
        end <= chars@.len(),
    ensures
        texts(r@) == segments(chars@.take(end as int)),
    decreases end,
{
    let ghost s = chars@.take(end as int);
    let start = tail_start(chars, end);
    let part = text_between(chars, start, end);
    if start == 0 {
        let mut out: Vec<String> = Vec::new();
        out.push(part);
        assert(part@ == s);
        assert(texts(out@) == seq![s]);
        return out;
    }
    let mut out = split_segments(chars, start - 1);
    assert(part@ == s.skip(s.len() - tail_len(s)));
    assert(chars@.take(start - 1) == s.take(s.len() - tail_len(s) - 1));
    let ghost before = texts(out@);
    out.push(part);
    assert(texts(out@) == before.push(part@));
    out
}

/// The segments of `path`.
pub fn path_segments(path: &str) -> (r: Vec<String>)
    ensures
        texts(r@) == segments(path@),
{
    let chars = chars_of(path);
    assert(path@.take(path@.len() as int) == path@);
    split_segments(&chars, chars.len())
}

/// The parts of `path` that count.
fn key_parts(path: &str) -> (r: Vec<String>)
    ensures
        texts(r@) == path_key(path@).parts,
{
    let all = path_segments(path);
    let ghost parts = texts(all@);
    let mut out: Vec<String> = Vec::new();
    let mut i: usize = 0;
    assert(texts(out@) == counting_parts(parts.take(0)));
    while i < all.len()
        invariant
            i <= all@.len(),
            parts == texts(all@),
            texts(out@) == counting_parts(parts.take(i as int)),
        decreases all@.len() - i,
    {
        let ghost before = texts(out@);
        let part = all[i].as_str();
        assert(parts.take(i + 1).drop_last() == parts.take(i as int));
        assert(parts.take(i + 1).last() == part@);
        if !part.is_empty() && (!same_text(part, ".") || i == 0) {
            out.push(part.to_string());
            assert(texts(out@) == before.push(part@));
        }
        i += 1;
    }
    assert(parts.take(i as int) == parts);
    out
}

/// A path that was split once, to be compared many times.
pub struct Key {
    rooted: bool,
    parts: Vec<String>,
}

impl View for Key {
    type V = PathKey;

    closed spec fn view(&self) -> PathKey {
        PathKey { rooted: self.rooted, parts: texts(self.parts@) }
    }
}

/// The key of a path.
pub fn key_of(path: &str) -> (r: Key)
    ensures
        r@ == path_key(path@),
{
    let chars = chars_of(path);
    Key { rooted: chars.len() > 0 && chars[0] == '/', parts: key_parts(path) }
}

/// The first parts of `a`, as many as `b` has, are those of `b`.
fn begins_with_parts(a: &Vec<String>, b: &Vec<String>) -> (r: bool)
    ensures
        r == texts(b@).is_prefix_of(texts(a@)),
{
    if b.len() > a.len() {
        assert(texts(b@).len() > texts(a@).len());
        return false;
    }
    let mut i: usize = 0;
    while i < b.len()
        invariant
            i <= b@.len() <= a@.len(),
            forall|j: int| 0 <= j < i ==> texts(a@)[j] == texts(b@)[j],
        decreases b@.len() - i,
    {
        if !same_text(a[i].as_str(), b[i].as_str()) {
            assert(texts(a@)[i as int] != texts(b@)[i as int]);
            assert(texts(a@).subrange(0, b@.len() as int)[i as int] == texts(a@)[i as int]);
            return false;
        }
        i += 1;
    }
    assert(texts(b@) =~= texts(a@).subrange(0, b@.len() as int));
    true
}

/// `p` is the path `c`, or lies below it.
pub open spec fn at_or_below(p: PathKey, c: PathKey) -> bool {
    p.rooted == c.rooted && c.parts.is_prefix_of(p.parts)
}

/// Whether the path with the key `p` is that with the key `c`, or lies below it.
pub fn lies_at_or_below(p: &Key, c: &Key) -> (r: bool)
    ensures
        r == at_or_below(p@, c@),
{
    p.rooted == c.rooted && begins_with_parts(&p.parts, &c.parts)
}

/// Whether two paths name the same file.
pub fn same_path(a: &str, b: &str) -> (r: bool)
    ensures
        r == (path_key(a@) == path_key(b@)),
{
    let x = key_of(a);
    let y = key_of(b);
    if x.parts.len() != y.parts.len() {
        assert(texts(x.parts@).len() != texts(y.parts@).len());
        return false;
    }
    let r = lies_at_or_below(&x, &y);
    assert(r ==> x@.parts =~= y@.parts);
    assert(x@ == y@ ==> y@.parts.is_prefix_of(x@.parts)) by {
        assert(x@.parts.subrange(0, x@.parts.len() as int) =~= x@.parts);
    }
    r
}

/// Some path of the list names the same file as `p`.
pub open spec fn names_path(list: Seq<Seq<char>>, p: Seq<char>) -> bool {
    exists|i: int| 0 <= i < list.len() && path_key(#[trigger] list[i]) == path_key(p)
}

/// A list with one more path names what it named before, and the new path.
pub proof fn lemma_named_after_push(list: Seq<Seq<char>>, path: Seq<char>)
    ensures
        forall|p: Seq<char>|
            #[trigger] names_path(list.push(path), p) == (names_path(list, p) || path_key(p)
                == path_key(path)),
{
    let more = list.push(path);
    assert forall|p: Seq<char>| #[trigger] names_path(more, p) == (names_path(list, p) || path_key(p)
        == path_key(path)) by {
        if names_path(list, p) {
            let i = choose|i: int| 0 <= i < list.len() && path_key(#[trigger] list[i]) == path_key(p);
            assert(path_key(more[i]) == path_key(p));
        }
        if path_key(p) == path_key(path) {
            assert(path_key(more[list.len() as int]) == path_key(p));
        }
        if names_path(more, p) {
            let i = choose|i: int| 0 <= i < more.len() && path_key(#[trigger] more[i]) == path_key(p);
            if i < list.len() {
                assert(path_key(list[i]) == path_key(p));
            }
        }
    }
}

/// Some path of the list is `p`, or a directory above it.
pub open spec fn covers_path(list: Seq<Seq<char>>, p: Seq<char>) -> bool {
    exists|i: int| 0 <= i < list.len() && at_or_below(path_key(p), path_key(#[trigger] list[i]))
}

/// The order of lists of parts: by the first part in which they differ.
pub open spec fn parts_less(a: Seq<Seq<char>>, b: Seq<Seq<char>>) -> bool
    decreases a.len(),
{
    if b.len() == 0 {
        false
    } else if a.len() == 0 {
        true
    } else if a[0] != b[0] {
        text_less(a[0], b[0])
    } else {
        parts_less(a.drop_first(), b.drop_first())
    }
}

/// The order of keys.
pub open spec fn key_less(a: PathKey, b: PathKey) -> bool {
    if a.rooted != b.rooted {
        b.rooted
    } else {
        parts_less(a.parts, b.parts)
    }
}

proof fn lemma_parts_irreflexive(a: Seq<Seq<char>>)
    ensures
        !parts_less(a, a),
    decreases a.len(),
{
    if a.len() > 0 {
        lemma_parts_irreflexive(a.drop_first());
    }
}

proof fn lemma_parts_transitive(a: Seq<Seq<char>>, b: Seq<Seq<char>>, c: Seq<Seq<char>>)
    requires
        parts_less(a, b),
        parts_less(b, c),
    ensures
        parts_less(a, c),
    decreases a.len(),
{
    if a.len() > 0 && b.len() > 0 && c.len() > 0 {
        lemma_text_order(a[0], b[0], c[0]);
        lemma_text_order(b[0], a[0], b[0]);
        if a[0] == b[0] && b[0] == c[0] {
            lemma_parts_transitive(a.drop_first(), b.drop_first(), c.drop_first());
        }
    }
}

proof fn lemma_parts_total(a: Seq<Seq<char>>, b: Seq<Seq<char>>)
    ensures
        parts_less(a, b) || a == b || parts_less(b, a),
    decreases a.len(),
{
    if a.len() > 0 && b.len() > 0 {
        lemma_text_order(a[0], b[0], a[0]);
        if a[0] == b[0] {
            lemma_parts_total(a.drop_first(), b.drop_first());
            if a.drop_first() == b.drop_first() {
                assert(a =~= seq![a[0]] + a.drop_first());
                assert(b =~= seq![b[0]] + b.drop_first());
            }
        }
    } else if a.len() == 0 && b.len() == 0 {
        assert(a =~= b);
    }
}

/// The order of keys is a strict total order.
proof fn lemma_key_order(a: PathKey, b: PathKey, c: PathKey)
    ensures
        !key_less(a, a),
        key_less(a, b) && key_less(b, c) ==> key_less(a, c),
        key_less(a, b) || a == b || key_less(b, a),
{
    lemma_parts_irreflexive(a.parts);
    if a.rooted == b.rooted && b.rooted == c.rooted && key_less(a, b) && key_less(b, c) {
        lemma_parts_transitive(a.parts, b.parts, c.parts);
    }
    lemma_parts_total(a.parts, b.parts);
}

/// Whether the key `a` comes before `b`.
fn key_before(a: &Key, b: &Key) -> (r: bool)
    ensures
        r == key_less(a@, b@),
{
    if a.rooted != b.rooted {
        return b.rooted;
    }
    let ghost x = texts(a.parts@);
    let ghost y = texts(b.parts@);
    assert(x.skip(0) =~= x);
    assert(y.skip(0) =~= y);
    let mut i: usize = 0;
    while i < a.parts.len() && i < b.parts.len()
        invariant
            i <= a.parts@.len(),
            i <= b.parts@.len(),
            a.rooted == b.rooted,
            x == texts(a.parts@),
            y == texts(b.parts@),
            parts_less(x, y) == parts_less(x.skip(i as int), y.skip(i as int)),
        decreases a.parts@.len() - i,
    {
        let ghost u = x.skip(i as int);
        let ghost v = y.skip(i as int);
        assert(u[0] == a.parts@[i as int]@ && v[0] == b.parts@[i as int]@);
        if !same_text(a.parts[i].as_str(), b.parts[i].as_str()) {
            return comes_before(a.parts[i].as_str(), b.parts[i].as_str());
        }
        assert(u.drop_first() =~= x.skip(i + 1));
        assert(v.drop_first() =~= y.skip(i + 1));
        i += 1;
    }
    assert(x.skip(i as int).len() == x.len() - i);
    assert(y.skip(i as int).len() == y.len() - i);
    i < b.parts.len()
}

/// A set of paths, up to the ways of writing them.
pub struct PathSet {
    /// In the order of keys.
    keys: Vec<Key>,
}

spec fn keys_of(s: Seq<Key>) -> Seq<PathKey> {
    s.map_values(|k: Key| k@)
}

/// Every key comes before the later ones.
spec fn in_order(s: Seq<PathKey>) -> bool {
    forall|i: int, j: int| 0 <= i < j < s.len() ==> key_less(#[trigger] s[i], #[trigger] s[j])
}

impl View for PathSet {
    type V = Set<PathKey>;

    closed spec fn view(&self) -> Set<PathKey> {
        keys_of(self.keys@).to_set()
    }
}

impl PathSet {
    /// The keys are kept in order.
    pub closed spec fn wf(&self) -> bool {
        in_order(keys_of(self.keys@))
    }

    /// The empty set.
    pub fn new() -> (r: PathSet)
        ensures
            r.wf(),
            r@ == Set::<PathKey>::empty(),
    {
        let r = PathSet { keys: Vec::new() };
        assert(r@ =~= Set::<PathKey>::empty());
        r
    }

    /// The place of a key: the keys before it come before `k`, the others do not.
    fn place(&self, k: &Key) -> (r: usize)
        requires
            self.wf(),
        ensures
            r <= self.keys@.len(),
            forall|i: int| 0 <= i < r ==> key_less(#[trigger] keys_of(self.keys@)[i], k@),
            forall|i: int|
                r <= i < self.keys@.len() ==> !key_less(#[trigger] keys_of(self.keys@)[i], k@),
    {
        let ghost all = keys_of(self.keys@);
        let mut lo: usize = 0;
        let mut hi: usize = self.keys.len();
        while lo < hi
            invariant
                lo <= hi <= self.keys@.len(),
                all == keys_of(self.keys@),
                in_order(all),
                forall|i: int| 0 <= i < lo ==> key_less(#[trigger] all[i], k@),
                forall|i: int| hi <= i < all.len() ==> !key_less(#[trigger] all[i], k@),
            decreases hi - lo,
        {
            let mid: usize = lo + (hi - lo) / 2;
            assert(all[mid as int] == self.keys@[mid as int]@);
            if key_before(&self.keys[mid], k) {
                assert forall|i: int| 0 <= i < mid + 1 implies key_less(#[trigger] all[i], k@) by {
                    if i < mid {
                        assert(key_less(all[i], all[mid as int]));
                        lemma_key_order(all[i], all[mid as int], k@);
                    }
                }
                lo = mid + 1;
            } else {
                assert forall|i: int| mid <= i < all.len() implies !key_less(
                    #[trigger] all[i],
                    k@,
                ) by {
                    if mid < i {
                        assert(key_less(all[mid as int], all[i]));
                        lemma_key_order(all[mid as int], all[i], k@);
                    }
                }
                hi = mid;
            }
        }
        lo
    }

    /// Whether the key at the place of `k` is `k`.
    fn is_at(&self, at: usize, k: &Key) -> (r: bool)
        requires
            self.wf(),
            at <= self.keys@.len(),
            forall|i: int| 0 <= i < at ==> key_less(#[trigger] keys_of(self.keys@)[i], k@),
            forall|i: int|
                at <= i < self.keys@.len() ==> !key_less(#[trigger] keys_of(self.keys@)[i], k@),
        ensures
            r == self@.contains(k@),
    {
        let ghost all = keys_of(self.keys@);
        let r = at < self.keys.len() && !key_before(k, &self.keys[at]);
        proof {
            if at < all.len() {
                lemma_key_order(all[at as int], k@, k@);
                assert(all[at as int] == self.keys@[at as int]@);
            }
            if r {
                assert(all.contains(all[at as int]));
            }
            if all.contains(k@) {
                let i = choose|i: int| 0 <= i < all.len() && all[i] == k@;
                lemma_key_order(k@, k@, k@);
                if at < i {
                    assert(key_less(all[at as int], all[i]));
                }
            }
        }
        r
    }

    /// Whether the path with the key `k` is in the set.
    pub fn has(&self, k: &Key) -> (r: bool)
        requires
            self.wf(),
        ensures
            r == self@.contains(k@),
    {
        let at = self.place(k);
        self.is_at(at, k)
    }

    /// Puts the path with the key `k` into the set, and tells whether it is new there.
    pub fn put(&mut self, k: Key) -> (r: bool)
        requires
            old(self).wf(),
        ensures
            final(self).wf(),
            final(self)@ == old(self)@.insert(k@),
            r == !old(self)@.contains(k@),
    {
        let at = self.place(&k);
        let ghost before = keys_of(self.keys@);
        let ghost set = self@;
        let ghost kv = k@;
        let ghost p = at as int;
        if self.is_at(at, &k) {
            assert(set.insert(kv) =~= set);
            return false;
        }
        self.keys.insert(at, k);
        proof {
            let after = keys_of(self.keys@);
            assert(after =~= before.insert(p, kv));
            assert forall|i: int| p <= i < before.len() implies key_less(
                kv,
                #[trigger] before[i],
            ) by {
                lemma_key_order(kv, before[i], kv);
                if before[i] == kv {
                    assert(before.contains(kv));
                }
            }
            assert forall|i: int, j: int| 0 <= i < j < after.len() implies key_less(
                #[trigger] after[i],
                #[trigger] after[j],
            ) by {
                let x = if i < p { i } else { i - 1 };
                let y = if j < p { j } else { j - 1 };
                if i != p {
                    assert(after[i] == before[x]);
                }
                if j != p {
                    assert(after[j] == before[y]);
                }
                if i != p && j != p {
                    assert(key_less(before[x], before[y]));
                }
            }
            assert(after.to_set() =~= before.to_set().insert(kv)) by {
                assert forall|q: PathKey| after.contains(q) == (before.contains(q) || q == kv) by {
                    if after.contains(q) {
                        let i = choose|i: int| 0 <= i < after.len() && after[i] == q;
                        if i < p {
                            assert(before[i] == q);
                        } else if i > p {
                            assert(before[i - 1] == q);
                        }
                    }
                    if before.contains(q) {
                        let i = choose|i: int| 0 <= i < before.len() && before[i] == q;
                        if i < p {
                            assert(after[i] == q);
                        } else {
                            assert(after[i + 1] == q);
                        }
                    }
                    if q == kv {
                        assert(after[p] == q);
                    }
                }
            }
        }
        true
    }

    /// The set of the paths of a list.
    pub fn of(list: &Vec<String>) -> (r: PathSet)
        ensures
            r.wf(),
            forall|p: Seq<char>|
                r@.contains(#[trigger] path_key(p)) == names_path(texts(list@), p),
    {
        let mut set = PathSet::new();
        let ghost all = texts(list@);
        let mut i: usize = 0;
        while i < list.len()
            invariant
                i <= list@.len(),
                all == texts(list@),
                set.wf(),
                forall|p: Seq<char>|
                    set@.contains(#[trigger] path_key(p)) == names_path(all.take(i as int), p),
            decreases list@.len() - i,
        {
            assert(all[i as int] == list@[i as int]@);
            set.put(key_of(list[i].as_str()));
            assert(all.take(i + 1) =~= all.take(i as int).push(all[i as int]));
            proof {
                lemma_named_after_push(all.take(i as int), all[i as int]);
            }
            i += 1;
        }
        assert(all.take(i as int) =~= all);
        set
    }
}

/// `name` appended to the directory path `dir`. A rooted name stands for itself.
pub open spec fn joined(dir: Seq<char>, name: Seq<char>) -> Seq<char> {
    if name.len() > 0 && name[0] == '/' {
        name
    } else if dir.len() == 0 || dir.last() == '/' {
        dir + name
    } else {
        dir + "/"@ + name
    }
}

/// Appends `name` to the directory path `dir`.
pub fn join(dir: &str, name: &str) -> (r: String)
    ensures
        r@ == joined(dir@, name@),
{
    let d = chars_of(dir);
    let n = chars_of(name);
    if n.len() > 0 && n[0] == '/' {
        return name.to_string();
    }
    let mut out = dir.to_string();
    if d.len() > 0 && d[d.len() - 1] != '/' {
        out.append("/");
    }
    out.append(name);
    out
}

/// The directory at `path` is excluded, or lies in one that is.
pub open spec fn dir_excluded(path: Seq<char>) -> bool {
    exists|i: int| 0 <= i < segments(path).len() && is_excluded(#[trigger] segments(path)[i])
}

/// The file at `path` lies in an excluded directory, or is a `.git` file: the link
/// that stands for the repository in some working trees.
pub open spec fn path_excluded(path: Seq<char>) -> bool {
    ||| exists|i: int|
        0 <= i < segments(path).len() - 1 && is_excluded(#[trigger] segments(path)[i])
    ||| segments(path).last() == ".git"@
}

/// What the file system says of a path, symbolic links not followed.
#[derive(Debug, Clone, Copy)]
pub struct FileMeta {
    pub is_symlink: bool,
    pub is_file: bool,
    pub len: u64,
}

/// A file of this kind is left out of checkpoints whatever its name: a symbolic
/// link, or a regular file that is too large.
pub open spec fn meta_excluded(meta: Option<FileMeta>) -> bool {
    match meta {
        Some(m) => m.is_symlink || (m.is_file && m.len > MAX_FILE_BYTES),
        None => false,
    }
}

/// What is known of a path is that it is a regular file.
pub open spec fn is_regular(meta: Option<FileMeta>) -> bool {
    meta matches Some(m) && m.is_file && !m.is_symlink
}

/// A checkpoint leaves out what is at `path`. Only directories are excluded by their
/// names, so the name of a regular file does not count, but for `.git`.
pub open spec fn skipped(path: Seq<char>, meta: Option<FileMeta>) -> bool {
    (if is_regular(meta) {
        path_excluded(path)
    } else {
        dir_excluded(path)
    }) || meta_excluded(meta)
}

/// Whether a checkpoint leaves out what is at `rel`. `meta` is what the file system
/// says of it, or nothing where it could not be asked.
pub fn should_skip_path(rel: &str, meta: Option<FileMeta>) -> (r: bool)
    ensures
        r == skipped(rel@, meta),
{
    let parts = path_segments(rel);
    let ghost all = segments(rel@);
    assert(all.len() > 0);
    let last: usize = parts.len() - 1;
    let mut i: usize = 0;
    while i < last
        invariant
            i <= last,
            last == parts@.len() - 1,
            texts(parts@) == all,
            all == segments(rel@),
            all.len() == parts@.len(),
            forall|j: int| 0 <= j < i ==> !is_excluded(#[trigger] all[j]),
        decreases last - i,
    {
        assert(texts(parts@)[i as int] == parts@[i as int]@);
        if is_excluded_dir(parts[i].as_str()) {
            assert(is_excluded(all[i as int]));
            assert(dir_excluded(rel@) && path_excluded(rel@));
            return true;
        }
        i += 1;
    }
    assert(texts(parts@)[last as int] == parts@[last as int]@);
    let regular = match meta {
        Some(m) => m.is_file && !m.is_symlink,
        None => false,
    };
    let named = if regular {
        same_text(parts[last].as_str(), ".git")
    } else {
        is_excluded_dir(parts[last].as_str())
    };
    assert(named == (if regular {
        path_excluded(rel@)
    } else {
        dir_excluded(rel@)
    })) by {
        if is_excluded(all[last as int]) {
            assert(dir_excluded(rel@));
        }
        if dir_excluded(rel@) {
            let k = choose|k: int| 0 <= k < all.len() && is_excluded(#[trigger] all[k]);
            assert(k == last);
        }
    }
    named || match meta {
        Some(m) => m.is_symlink || (m.is_file && m.len > MAX_FILE_BYTES),
        None => false,
    }
}

/// The answer that the index asks for of a path: 1 leaves it out, 0 takes it.
pub fn index_verdict(rel: &str, meta: Option<FileMeta>) -> (r: i32)
    ensures
        r == (if skipped(rel@, meta) {
            1i32
        } else {
            0i32
        }),
{
    if should_skip_path(rel, meta) {
        1
    } else {
        0
    }
}

/// What kind of thing a directory entry is.
#[derive(Debug, Clone, Copy, PartialEq, Eq, Structural)]
pub enum EntryKind {
    Dir,
    File,
    Symlink,
    Other,
}

/// One entry of a directory; `len` is missing where it could not be read.
#[derive(Debug)]
pub struct DirEntry {
    pub name: String,
    pub kind: EntryKind,
    pub len: Option<u64>,
}

/// A directory entry together with the path of its directory.
#[verifier::ext_equal]
pub struct EntryView {
    pub dir: Seq<char>,
    pub name: Seq<char>,
    pub kind: EntryKind,
    pub len: Option<u64>,
}

impl EntryView {
    /// The path of the entry.
    pub open spec fn path(self) -> Seq<char> {
        joined(self.dir, self.name)
    }

    /// The sweep goes into the entry: it is a directory that is not excluded.
    pub open spec fn is_entered(self) -> bool {
        self.kind == EntryKind::Dir && !is_excluded(self.name)
    }

    /// The sweep records the entry: it is a regular file that a checkpoint takes.
    pub open spec fn is_recorded(self) -> bool {
        &&& self.kind == EntryKind::File
        &&& self.name != ".git"@
        &&& self.len is Some
        &&& self.len.unwrap() <= MAX_FILE_BYTES
    }
}

/// The entries of the directory `dir`, with its path.
pub open spec fn entries_in(dir: Seq<char>, entries: Seq<DirEntry>) -> Seq<EntryView> {
    entries.map_values(
        |e: DirEntry| EntryView { dir, name: e.name@, kind: e.kind, len: e.len },
    )
}

struct Pending {
    dir: String,
    name: String,
    kind: EntryKind,
    len: Option<u64>,
}

impl Pending {
    spec fn view(&self) -> EntryView {
        EntryView { dir: self.dir@, name: self.name@, kind: self.kind, len: self.len }
    }
}

/// A walk over the files of a workspace that are not excluded, in the order in
/// which the directories list them. The caller lists the directories.
pub struct Sweep {
    /// What is still to be visited, the next entry last.
    pending: Vec<Pending>,
    found: Vec<String>,
}

/// The state of a `Sweep`: what is still to be visited, in order, and what was
/// recorded.
#[verifier::ext_equal]
pub struct SweepView {
    pub queue: Seq<EntryView>,
    pub found: Seq<Seq<char>>,
}

/// Visits entries up to the first directory that is to be entered. Gives that
/// directory, and the state afterwards.
pub open spec fn advanced(v: SweepView) -> (Option<Seq<char>>, SweepView)
    decreases v.queue.len(),
{
    if v.queue.len() == 0 {
        (None, v)
    } else {
        let e = v.queue[0];
        let rest = SweepView { queue: v.queue.drop_first(), found: v.found };
        if e.is_entered() {
            (Some(e.path()), rest)
        } else if e.is_recorded() {
            advanced(SweepView { queue: rest.queue, found: v.found.push(e.path()) })
        } else {
            advanced(rest)
        }
    }
}

impl View for Sweep {
    type V = SweepView;

    closed spec fn view(&self) -> SweepView {
        SweepView {
            queue: Seq::new(
                self.pending@.len(),
                |i: int| self.pending@[self.pending@.len() - 1 - i].view(),
            ),
            found: texts(self.found@),
        }
    }
}

impl Sweep {
    /// A sweep that has nothing to visit yet.
    pub fn new() -> (r: Sweep)
        ensures
            r@ == (SweepView { queue: Seq::empty(), found: Seq::empty() }),
    {
        let r = Sweep { pending: Vec::new(), found: Vec::new() };
        assert(r@ =~= (SweepView { queue: Seq::empty(), found: Seq::empty() }));
        r
    }

    /// The entries of the directory `dir` are to be visited before anything else.
    pub fn enter(&mut self, dir: &str, entries: &Vec<DirEntry>)
        ensures
            final(self)@ == (SweepView {
                queue: entries_in(dir@, entries@) + old(self)@.queue,
                found: old(self)@.found,
            }),
    {
        let ghost start = *self;
        let ghost all = entries_in(dir@, entries@);
        let mut i: usize = entries.len();
        assert(all.skip(all.len() as int) + start@.queue =~= self@.queue);
        while i > 0
            invariant
                i <= entries@.len(),
                all == entries_in(dir@, entries@),
                self@.queue == all.skip(i as int) + start@.queue,
                self@.found == start@.found,
            decreases i,
        {
            i -= 1;
            let ghost before = *self;
            let e = &entries[i];
            self.pending.push(
                Pending {
                    dir: dir.to_string(),
                    name: e.name.clone(),
                    kind: e.kind,
                    len: e.len,
                },
            );
            assert(self@.queue =~= seq![all[i as int]] + before@.queue);
            assert(self@.queue =~= all.skip(i as int) + start@.queue);
        }
        assert(all.skip(0) =~= all);
    }

    /// Visits entries up to the next directory that is to be listed, and gives
    /// its path; nothing when everything was visited.
    pub fn next_dir(&mut self) -> (r: Option<String>)
        ensures
            match r {
                Some(d) => advanced(old(self)@).0 == Some(d@),
                None => advanced(old(self)@).0 is None,
            },
            final(self)@ == advanced(old(self)@).1,
    {
        let ghost start = *self;
        loop
            invariant
                start == *old(self),
                advanced(self@) == advanced(start@),
            decreases self.pending@.len(),
        {
            let ghost before = *self;
            match self.pending.pop() {
                None => {
                    assert(self@ =~= before@);
                    return None;
                },
                Some(e) => {
                    assert(before@.queue[0] == e.view());
                    assert(self@.queue =~= before@.queue.drop_first());
                    assert(self@.found == before@.found);
                    match e.kind {
                        EntryKind::Dir => {
                            if !is_excluded_dir(e.name.as_str()) {
                                return Some(join(e.dir.as_str(), e.name.as_str()));
                            }
                        },
                        EntryKind::File => {
                            if let Some(len) = e.len {
                                if len <= MAX_FILE_BYTES && !same_text(e.name.as_str(), ".git") {
                                    let path = join(e.dir.as_str(), e.name.as_str());
                                    self.found.push(path);
                                    assert(self@.found =~= before@.found.push(path@));
                                    assert(self@.queue =~= before@.queue.drop_first());
                                }
                            }
                        },
                        _ => {},
                    }
                },
            }
        }
    }

    /// The recorded paths, in the order in which they were visited.
    pub fn into_found(self) -> (r: Vec<String>)
        ensures
            texts(r@) == self@.found,
    {
        self.found
    }
}

/// `name` can be the name of a directory entry: it is not empty and holds no
/// separator.
pub open spec fn plain_name(name: Seq<char>) -> bool {
    name.len() > 0 && forall|i: int| 0 <= i < name.len() ==> name[i] != '/'
}

/// `dir` can be the path of a directory that a sweep lists: the workspace
/// itself, or a path that does not end in a separator; no part is excluded.
pub open spec fn sweepable_dir(dir: Seq<char>) -> bool {
    (dir.len() == 0 || dir.last() != '/') && !dir_excluded(dir)
}

/// The segments of a path with a name appended.
pub proof fn lemma_segments_joined(dir: Seq<char>, name: Seq<char>)
    requires
        plain_name(name),
        dir.len() == 0 || dir.last() != '/',
    ensures
        segments(joined(dir, name)) == (if dir.len() == 0 {
            seq![name]
        } else {
            segments(dir).push(name)
        }),
        joined(dir, name).len() > 0,
        joined(dir, name).last() != '/',
{
    reveal_strlit("/");
    let p = joined(dir, name);
    lemma_tail(p);
    if dir.len() == 0 {
        assert(p =~= name);
        if tail_len(p) < p.len() {
            assert(p[p.len() - tail_len(p) - 1] == '/');
        }
    } else {
        assert(p =~= dir + seq!['/'] + name);
        assert(p[dir.len() as int] == '/');
        if tail_len(p) < name.len() {
            assert(p[p.len() - tail_len(p) - 1] == name[name.len() - tail_len(p) - 1]);
        }
        if tail_len(p) > name.len() {
            assert(p[dir.len() as int] != '/');
        }
        assert(tail_len(p) == name.len());
        assert(p.take(p.len() - tail_len(p) - 1) =~= dir);
        assert(p.skip(p.len() - tail_len(p)) =~= name);
    }
}

/// The workspace itself can be swept.
pub proof fn law_sweep_starts_at_workspace()
    ensures
        sweepable_dir(Seq::<char>::empty()),
{
    let e = Seq::<char>::empty();
    assert(segments(e) =~= seq![e]);
    reveal_strlit(".git");
    reveal_strlit("node_modules");
    reveal_strlit("target");
    reveal_strlit("__pycache__");
    reveal_strlit("dist");
    reveal_strlit("build");
    reveal_strlit(".next");
    reveal_strlit(".venv");
    reveal_strlit("venv");
    reveal_strlit(".tox");
    reveal_strlit(".cache");
    assert(!dir_excluded(e));
}

/// A sweep goes only into directories outside the excluded ones, and of the regular
/// files in them it records exactly those that a checkpoint takes: what
/// `should_skip_path` lets through.
pub proof fn law_sweep_stays_outside_excluded(e: EntryView)
    requires
        sweepable_dir(e.dir),
        plain_name(e.name),
    ensures
        e.is_entered() ==> sweepable_dir(e.path()),
        e.kind == EntryKind::File && e.len is Some ==> e.is_recorded() == !skipped(
            e.path(),
            Some(FileMeta { is_symlink: false, is_file: true, len: e.len.unwrap() }),
        ),
{
    lemma_segments_joined(e.dir, e.name);
    let all = segments(e.path());
    assert(all.last() == e.name);
    assert forall|i: int| 0 <= i < all.len() - 1 implies !is_excluded(#[trigger] all[i]) by {
        assert(all[i] == segments(e.dir)[i]);
    }
    if !is_excluded(e.name) {
        assert forall|i: int| 0 <= i < all.len() implies !is_excluded(#[trigger] all[i]) by {
            if i == all.len() - 1 {
                assert(all[i] == e.name);
            }
        }
    }
}

/// Every pending entry of a sweep stands in a directory that can be swept, and no
/// recorded path lies in an excluded directory.
pub open spec fn sweep_ok(v: SweepView) -> bool {
    &&& forall|i: int|
        0 <= i < v.queue.len() ==> sweepable_dir((#[trigger] v.queue[i]).dir) && plain_name(
            v.queue[i].name,
        )
    &&& forall|i: int| 0 <= i < v.found.len() ==> !path_excluded(#[trigger] v.found[i])
}

/// Whatever the directories list, no path that a sweep records or asks to have
/// listed lies in an excluded directory: `sweep_ok` holds at the start, when a
/// directory that the sweep asked for is entered, and after each advance.
pub proof fn law_sweep_keeps_invariant(
    v: SweepView,
    dir: Seq<char>,
    entries: Seq<DirEntry>,
)
    requires
        sweep_ok(v),
        sweepable_dir(dir),
        forall|i: int| 0 <= i < entries.len() ==> plain_name((#[trigger] entries[i]).name@),
    ensures
        sweep_ok(SweepView { queue: Seq::empty(), found: Seq::empty() }),
        sweep_ok(SweepView { queue: entries_in(dir, entries) + v.queue, found: v.found }),
        sweep_ok(advanced(v).1),
        advanced(v).0 is Some ==> sweepable_dir(advanced(v).0.unwrap()),
    decreases v.queue.len(),
{
    let w = SweepView { queue: entries_in(dir, entries) + v.queue, found: v.found };
    assert forall|i: int| 0 <= i < w.queue.len() implies sweepable_dir((#[trigger] w.queue[i]).dir)
        && plain_name(w.queue[i].name) by {
        if i < entries.len() {
            assert(plain_name(entries[i].name@));
        } else {
            assert(w.queue[i] == v.queue[i - entries.len()]);
        }
    }
    if v.queue.len() > 0 {
        let e = v.queue[0];
        law_sweep_stays_outside_excluded(e);
        let rest = SweepView { queue: v.queue.drop_first(), found: v.found };
        assert forall|i: int| 0 <= i < rest.queue.len() implies sweepable_dir(
            (#[trigger] rest.queue[i]).dir,
        ) && plain_name(rest.queue[i].name) by {
            assert(rest.queue[i] == v.queue[i + 1]);
        }
        if e.is_entered() {
        } else if e.is_recorded() {
            law_sweep_keeps_invariant(
                SweepView { queue: rest.queue, found: v.found.push(e.path()) },
                dir,
                entries,
            );
        } else {
            law_sweep_keeps_invariant(rest, dir, entries);
        }
    }
}


/// The files at or below an entry that a sweep is to find, where `ls` lists the
/// directories and none lies deeper than `depth`.
pub open spec fn files_under(
    e: EntryView,
    ls: spec_fn(Seq<char>) -> Seq<EntryView>,
    depth: nat,
) -> Seq<Seq<char>>
    decreases depth, 0nat,
{
    if e.is_recorded() {
        seq![e.path()]
    } else if e.is_entered() && depth > 0 {
        files_among(ls(e.path()), ls, (depth - 1) as nat)
    } else {
        Seq::empty()
    }
}

/// The files at or below entries that a sweep is to find.
pub open spec fn files_among(
    entries: Seq<EntryView>,
    ls: spec_fn(Seq<char>) -> Seq<EntryView>,
    depth: nat,
) -> Seq<Seq<char>>
    decreases depth, entries.len(),
{
    if entries.len() == 0 {
        Seq::empty()
    } else {
        files_under(entries[0], ls, depth) + files_among(entries.drop_first(), ls, depth)
    }
}

/// No directory below the entry that a sweep enters lies deeper than `depth`.
pub open spec fn fits_depth(
    e: EntryView,
    ls: spec_fn(Seq<char>) -> Seq<EntryView>,
    depth: nat,
) -> bool
    decreases depth, 0nat,
{
    e.is_entered() ==> depth > 0 && all_fit(ls(e.path()), ls, (depth - 1) as nat)
}

/// No directory below the entries that a sweep enters lies deeper than `depth`.
pub open spec fn all_fit(
    entries: Seq<EntryView>,
    ls: spec_fn(Seq<char>) -> Seq<EntryView>,
    depth: nat,
) -> bool
    decreases depth, entries.len(),
{
    entries.len() > 0 ==> fits_depth(entries[0], ls, depth) && all_fit(
        entries.drop_first(),
        ls,
        depth,
    )
}

/// More depth than needed changes nothing.
proof fn lemma_deeper(
    entries: Seq<EntryView>,
    ls: spec_fn(Seq<char>) -> Seq<EntryView>,
    depth: nat,
)
    requires
        all_fit(entries, ls, depth),
    ensures
        all_fit(entries, ls, depth + 1),
        files_among(entries, ls, depth + 1) == files_among(entries, ls, depth),
    decreases depth, entries.len(),
{
    if entries.len() > 0 {
        let e = entries[0];
        lemma_deeper(entries.drop_first(), ls, depth);
        assert(fits_depth(e, ls, depth));
        if e.is_entered() {
            assert(files_under(e, ls, depth) == files_among(ls(e.path()), ls, (depth - 1) as nat));
            assert(files_under(e, ls, depth + 1) == files_among(ls(e.path()), ls, depth));
            lemma_deeper(ls(e.path()), ls, (depth - 1) as nat);
        }
        assert(fits_depth(e, ls, depth + 1));
        assert(files_under(e, ls, depth + 1) == files_under(e, ls, depth));
    }
}

/// The files of two lists of entries one after the other.
proof fn lemma_files_concat(
    a: Seq<EntryView>,
    b: Seq<EntryView>,
    ls: spec_fn(Seq<char>) -> Seq<EntryView>,
    depth: nat,
)
    ensures
        files_among(a + b, ls, depth) == files_among(a, ls, depth) + files_among(b, ls, depth),
        all_fit(a, ls, depth) && all_fit(b, ls, depth) ==> all_fit(a + b, ls, depth),
    decreases a.len(),
{
    if a.len() == 0 {
        assert(a + b =~= b);
        assert(files_among(a, ls, depth) + files_among(b, ls, depth) =~= files_among(b, ls, depth));
    } else {
        lemma_files_concat(a.drop_first(), b, ls, depth);
        assert((a + b).drop_first() =~= a.drop_first() + b);
        assert((a + b)[0] == a[0]);
        assert(files_among(a + b, ls, depth) =~= files_among(a, ls, depth) + files_among(
            b,
            ls,
            depth,
        ));
    }
}

/// What a sweep has found when it is done, where `ls` lists the directories.
pub open spec fn sweep_outcome(
    v: SweepView,
    ls: spec_fn(Seq<char>) -> Seq<EntryView>,
    depth: nat,
) -> Seq<Seq<char>> {
    v.found + files_among(v.queue, ls, depth)
}

/// A sweep finds every file that a checkpoint takes, and no other, in the order in
/// which the directories list them: what it will have found when it is done stays
/// the same at every step, that is, when it advances to a directory and that
/// directory is entered, and is what it found when no directory is left.
pub proof fn law_sweep_finds_every_file(
    v: SweepView,
    ls: spec_fn(Seq<char>) -> Seq<EntryView>,
    depth: nat,
)
    requires
        all_fit(v.queue, ls, depth),
    ensures
        match advanced(v) {
            (None, done) => done.queue.len() == 0 && done.found == sweep_outcome(v, ls, depth),
            (Some(dir), rest) => ({
                let next = SweepView { queue: ls(dir) + rest.queue, found: rest.found };
                all_fit(next.queue, ls, depth) && sweep_outcome(next, ls, depth) == sweep_outcome(
                    v,
                    ls,
                    depth,
                )
            }),
        },
    decreases v.queue.len(),
{
    if v.queue.len() == 0 {
        assert(sweep_outcome(v, ls, depth) =~= v.found);
    } else {
        let e = v.queue[0];
        let tail = v.queue.drop_first();
        let rest = SweepView { queue: tail, found: v.found };
        if e.is_entered() {
            let inner = ls(e.path());
            assert(fits_depth(e, ls, depth));
            assert(files_under(e, ls, depth) == files_among(inner, ls, (depth - 1) as nat));
            lemma_deeper(inner, ls, (depth - 1) as nat);
            lemma_files_concat(inner, tail, ls, depth);
            let next = SweepView { queue: inner + tail, found: v.found };
            assert(sweep_outcome(next, ls, depth) =~= sweep_outcome(v, ls, depth));
        } else if e.is_recorded() {
            assert(files_under(e, ls, depth) == seq![e.path()]);
            let more = SweepView { queue: tail, found: v.found.push(e.path()) };
            law_sweep_finds_every_file(more, ls, depth);
            assert(sweep_outcome(more, ls, depth) =~= sweep_outcome(v, ls, depth));
        } else {
            assert(files_under(e, ls, depth) =~= Seq::empty());
            law_sweep_finds_every_file(rest, ls, depth);
            assert(sweep_outcome(rest, ls, depth) =~= sweep_outcome(v, ls, depth));
        }
    }
}

// ---- laws of paths ----

/// Parts of a path, written one behind the other with a separator between two.
pub open spec fn written_path(parts: Seq<Seq<char>>) -> Seq<char>
    decreases parts.len(),
{
    if parts.len() == 0 {
        Seq::empty()
    } else if parts.len() == 1 {
        parts[0]
    } else {
        written_path(parts.drop_last()) + seq!['/'] + parts.last()
    }
}

/// There is no separator in a text.
pub open spec fn has_no_separator(s: Seq<char>) -> bool {
    forall|i: int| 0 <= i < s.len() ==> s[i] != '/'
}

/// No part holds a separator.
pub open spec fn are_parts(parts: Seq<Seq<char>>) -> bool {
    forall|i: int| 0 <= i < parts.len() ==> has_no_separator(#[trigger] parts[i])
}

/// Any text is its segments with separators between them, and no segment holds one.
#[verifier::spinoff_prover]
pub proof fn law_segments_make_the_path(s: Seq<char>)
    ensures
        segments(s).len() > 0,
        are_parts(segments(s)),
        written_path(segments(s)) == s,
    decreases s.len(),
{
    lemma_tail(s);
    if tail_len(s) >= s.len() {
        assert(segments(s) == seq![s]);
        assert(has_no_separator(s));
    } else {
        let front = s.take(s.len() - tail_len(s) - 1);
        let tail = s.skip(s.len() - tail_len(s));
        law_segments_make_the_path(front);
        let rest = segments(front);
        let all = segments(s);
        assert(all == rest.push(tail));
        assert(has_no_separator(tail)) by {
            assert forall|i: int| 0 <= i < tail.len() implies tail[i] != '/' by {
                assert(tail[i] == s[s.len() - tail_len(s) + i]);
            }
        }
        assert forall|i: int| 0 <= i < all.len() implies has_no_separator(#[trigger] all[i]) by {
            if i < rest.len() {
                assert(all[i] == rest[i]);
            }
        }
        assert(all.drop_last() =~= rest);
        assert(written_path(all) == written_path(rest) + seq!['/'] + tail);
        assert(s =~= front + seq!['/'] + tail);
    }
}

/// The segments of a path that is written part by part are those parts.
#[verifier::spinoff_prover]
pub proof fn law_segments_come_back(parts: Seq<Seq<char>>)
    requires
        parts.len() > 0,
        are_parts(parts),
    ensures
        segments(written_path(parts)) == parts,
    decreases parts.len(),
{
    let s = written_path(parts);
    let name = parts.last();
    let at = s.len() - tail_len(s) - 1;
    lemma_tail(s);
    assert(has_no_separator(parts[parts.len() - 1]));
    if parts.len() == 1 {
        assert(s == name);
        assert(tail_len(s) >= s.len()) by {
            if tail_len(s) < s.len() {
                assert(s[at] == '/');
            }
        }
        assert(parts =~= seq![s]);
    } else {
        let front = parts.drop_last();
        assert forall|i: int| 0 <= i < front.len() implies has_no_separator(#[trigger] front[i]) by {
            assert(front[i] == parts[i]);
        }
        law_segments_come_back(front);
        let d = written_path(front);
        assert(s == d + seq!['/'] + name);
        assert(s[d.len() as int] == '/');
        assert(tail_len(s) == name.len()) by {
            if tail_len(s) < name.len() {
                assert(s[at] == name[at - d.len() - 1]);
            }
        }
        assert(s.take(at) =~= d);
        assert(s.skip(s.len() - tail_len(s)) =~= name);
        assert(parts =~= front.push(name));
    }
}

/// A regular file of at most fifty mebibytes is left out only because of a name in its
/// path: one of its parts is one of the names below. It is left out exactly where one of
/// the directories above it has such a name, or where it is itself called `.git`. So no
/// other name, with a dot at its front or not, keeps a file out.
#[verifier::spinoff_prover]
pub proof fn law_only_excluded_names_are_skipped(parts: Seq<Seq<char>>, meta: FileMeta)
    requires
        parts.len() > 0,
        are_parts(parts),
        meta.is_file,
        !meta.is_symlink,
        meta.len <= 52_428_800,
    ensures
        skipped(written_path(parts), Some(meta)) ==> exists|i: int|
            0 <= i < parts.len() && set![
            ".git"@, "node_modules"@, "target"@, "__pycache__"@, "dist"@, "build"@, ".next"@,
            ".venv"@, "venv"@, ".tox"@, ".cache"@,
        ].contains(#[trigger] parts[i]),
        skipped(written_path(parts), Some(meta)) <==> (parts.last() == ".git"@ || exists|i: int|
            0 <= i < parts.len() - 1 && set![
            ".git"@, "node_modules"@, "target"@, "__pycache__"@, "dist"@, "build"@, ".next"@,
            ".venv"@, "venv"@, ".tox"@, ".cache"@,
        ].contains(#[trigger] parts[i])),
        (forall|i: int| 0 <= i < parts.len() ==> !set![
            ".git"@, "node_modules"@, "target"@, "__pycache__"@, "dist"@, "build"@, ".next"@,
            ".venv"@, "venv"@, ".tox"@, ".cache"@,
        ].contains(#[trigger] parts[i]))
            ==> !skipped(written_path(parts), Some(meta)),
{
    let path = written_path(parts);
    law_segments_come_back(parts);
    law_excluded_names();
    let names = set![
            ".git"@, "node_modules"@, "target"@, "__pycache__"@, "dist"@, "build"@, ".next"@,
            ".venv"@, "venv"@, ".tox"@, ".cache"@,
        ];
    assert forall|i: int| 0 <= i < parts.len() implies (is_excluded(#[trigger] parts[i])
        == names.contains(parts[i])) by {
        assert(segments(path)[i] == parts[i]);
    }
    if path_excluded(path) {
        if parts.last() == ".git"@ {
            assert(is_excluded(parts[parts.len() - 1]));
            assert(names.contains(parts[parts.len() - 1]));
        } else {
            let i = choose|i: int|
                0 <= i < segments(path).len() - 1 && is_excluded(#[trigger] segments(path)[i]);
            assert(names.contains(parts[i]));
        }
    }
    if exists|i: int| 0 <= i < parts.len() - 1 && names.contains(#[trigger] parts[i]) {
        let i = choose|i: int| 0 <= i < parts.len() - 1 && names.contains(#[trigger] parts[i]);
        assert(is_excluded(segments(path)[i]));
    }
}

/// The names of the directories that are left out, all of them.
pub proof fn law_excluded_names()
    ensures
        forall|name: Seq<char>| #[trigger]
            is_excluded(name) == set![
            ".git"@, "node_modules"@, "target"@, "__pycache__"@, "dist"@, "build"@, ".next"@,
            ".venv"@, "venv"@, ".tox"@, ".cache"@,
        ].contains(name),
{
}

/// The same of any file, whatever its path: a regular file that is not too large and is
/// left out has a segment that is one of the names.
#[verifier::spinoff_prover]
pub proof fn law_skipped_file_has_excluded_segment(path: Seq<char>, meta: FileMeta)
    requires
        meta.is_file,
        !meta.is_symlink,
        meta.len <= 52_428_800,
        skipped(path, Some(meta)),
    ensures
        exists|i: int| 0 <= i < segments(path).len() && set![
            ".git"@, "node_modules"@, "target"@, "__pycache__"@, "dist"@, "build"@, ".next"@,
            ".venv"@, "venv"@, ".tox"@, ".cache"@,
        ].contains(#[trigger] segments(path)[i]),
{
    law_segments_make_the_path(path);
    law_only_excluded_names_are_skipped(segments(path), meta);
    let names = set![
            ".git"@, "node_modules"@, "target"@, "__pycache__"@, "dist"@, "build"@, ".next"@,
            ".venv"@, "venv"@, ".tox"@, ".cache"@,
        ];
    let parts = segments(path);
    let i = choose|i: int| 0 <= i < parts.len() && names.contains(#[trigger] parts[i]);
    assert(names.contains(segments(path)[i]));
}

/// What is not a regular file is left out where it is a symbolic link, or where one of its
/// parts, the last one too, is one of the names; a regular file of more than fifty
/// mebibytes is left out under any name.
#[verifier::spinoff_prover]
pub proof fn law_what_else_is_skipped(parts: Seq<Seq<char>>, meta: Option<FileMeta>)
    requires
        parts.len() > 0,
        are_parts(parts),
        !(meta matches Some(m) && m.is_file && !m.is_symlink && m.len <= 52_428_800),
    ensures
        skipped(written_path(parts), meta) <==> ((meta matches Some(m) && (m.is_symlink
            || m.is_file)) || exists|i: int|
            0 <= i < parts.len() && set![
            ".git"@, "node_modules"@, "target"@, "__pycache__"@, "dist"@, "build"@, ".next"@,
            ".venv"@, "venv"@, ".tox"@, ".cache"@,
        ].contains(#[trigger] parts[i])),
{
    let path = written_path(parts);
    law_segments_come_back(parts);
    law_excluded_names();
    let names = set![
            ".git"@, "node_modules"@, "target"@, "__pycache__"@, "dist"@, "build"@, ".next"@,
            ".venv"@, "venv"@, ".tox"@, ".cache"@,
        ];
    if exists|i: int| 0 <= i < parts.len() && names.contains(#[trigger] parts[i]) {
        let i = choose|i: int| 0 <= i < parts.len() && names.contains(#[trigger] parts[i]);
        assert(is_excluded(segments(path)[i]));
    }
    if dir_excluded(path) {
        let i = choose|i: int|
            0 <= i < segments(path).len() && is_excluded(#[trigger] segments(path)[i]);
        assert(names.contains(parts[i]));
    }
}

/// A sweep goes into every directory that has none of the names, and into nothing else. It
/// records every regular file of at most fifty mebibytes that is not called `.git`, and
/// nothing else.
pub proof fn law_sweep_takes_all_else(e: EntryView)
    ensures
        e.is_entered() <==> e.kind == EntryKind::Dir && !set![
            ".git"@, "node_modules"@, "target"@, "__pycache__"@, "dist"@, "build"@, ".next"@,
            ".venv"@, "venv"@, ".tox"@, ".cache"@,
        ].contains(e.name),
        e.is_recorded() <==> e.kind == EntryKind::File && e.name != ".git"@ && (e.len matches Some(
            n,
        ) && n <= 52_428_800),
{
    law_excluded_names();
    assert(is_excluded(e.name) == set![
            ".git"@, "node_modules"@, "target"@, "__pycache__"@, "dist"@, "build"@, ".next"@,
            ".venv"@, "venv"@, ".tox"@, ".cache"@,
        ].contains(e.name));
}

/// A name behind a directory stands there with one separator between them.
pub proof fn law_joining(dir: Seq<char>, name: Seq<char>)
    requires
        dir.len() == 0 || dir.last() != '/',
        name.len() == 0 || name[0] != '/',
    ensures
        dir.len() > 0 ==> joined(dir, name) == dir + seq!['/'] + name,
        joined(dir + seq!['/'], name) == dir + seq!['/'] + name,
        joined(Seq::empty(), name) == name,
        joined(dir, seq!['/'] + name) == seq!['/'] + name,
{
    reveal_strlit("/");
    assert("/"@ =~= seq!['/']);
    assert((dir + seq!['/']).last() == '/');
    assert(Seq::<char>::empty() + name =~= name);
    assert((seq!['/'] + name)[0] == '/');
}

/// The key of a path, part by part: an empty part and a dot leave it as it was, unless the
/// dot is the first part, and any other part is added at its end. It is rooted where the
/// path begins with a separator.
#[verifier::spinoff_prover]
pub proof fn law_path_key(parts: Seq<Seq<char>>, part: Seq<char>)
    requires
        are_parts(parts.push(part)),
    ensures
        parts.len() > 0 && (part.len() == 0 || part == seq!['.']) ==> path_key(
            written_path(parts.push(part)),
        ).parts == path_key(written_path(parts)).parts,
        parts.len() > 0 && !(part.len() == 0 || part == seq!['.']) ==> path_key(
            written_path(parts.push(part)),
        ).parts == path_key(written_path(parts)).parts.push(part),
        part.len() > 0 ==> path_key(part).parts == seq![part],
        path_key(Seq::empty()).parts == Seq::<Seq<char>>::empty(),
        forall|s: Seq<char>| #[trigger] path_key(s).rooted == (s.len() > 0 && s[0] == '/'),
{
    let all = parts.push(part);
    reveal_strlit(".");
    assert("."@ =~= seq!['.']);
    law_segments_come_back(all);
    if parts.len() > 0 {
        assert forall|i: int| 0 <= i < parts.len() implies has_no_separator(#[trigger] parts[i]) by {
            assert(parts[i] == all[i]);
        }
        law_segments_come_back(parts);
        assert(all.drop_last() =~= parts);
    }
    let one = seq![part];
    assert(all[parts.len() as int] == part);
    assert(are_parts(one));
    law_segments_come_back(one);
    assert(one.drop_last() =~= Seq::<Seq<char>>::empty());
    assert(counting_parts(one.drop_last()) =~= Seq::<Seq<char>>::empty());
    let e = Seq::<char>::empty();
    let none = seq![e];
    assert(are_parts(none));
    law_segments_come_back(none);
    assert(none.drop_last() =~= Seq::<Seq<char>>::empty());
}

/// A path lies at or below another where it goes on from it: the parts of the other, and
/// any parts behind them.
pub proof fn law_below(p: PathKey, c: PathKey)
    ensures
        at_or_below(p, c) <==> p.rooted == c.rooted && exists|rest: Seq<Seq<char>>|
            p.parts == #[trigger] (c.parts + rest),
{
    if at_or_below(p, c) {
        assert(p.parts =~= c.parts + p.parts.skip(c.parts.len() as int));
    }
    if exists|rest: Seq<Seq<char>>| p.parts == #[trigger] (c.parts + rest) {
        let rest = choose|rest: Seq<Seq<char>>| p.parts == #[trigger] (c.parts + rest);
        assert(p.parts.subrange(0, c.parts.len() as int) =~= c.parts);
    }
}

/// A list of paths covers what lies at or below one of them: nothing where it is empty,
/// and with one path more also what lies at or below that one.
pub proof fn law_covering(list: Seq<Seq<char>>, c: Seq<char>, p: Seq<char>)
    ensures
        !covers_path(Seq::empty(), p),
        covers_path(list.push(c), p) <==> covers_path(list, p) || at_or_below(
            path_key(p),
            path_key(c),
        ),
        !names_path(Seq::empty(), p),
        names_path(list.push(c), p) <==> names_path(list, p) || path_key(p) == path_key(c),
{
    let more = list.push(c);
    lemma_named_after_push(list, c);
    assert(more[list.len() as int] == c);
    if covers_path(list, p) {
        let i = choose|i: int|
            0 <= i < list.len() && at_or_below(path_key(p), path_key(#[trigger] list[i]));
        assert(more[i] == list[i]);
    }
    if covers_path(more, p) {
        let i = choose|i: int|
            0 <= i < more.len() && at_or_below(path_key(p), path_key(#[trigger] more[i]));
        if i < list.len() {
            assert(more[i] == list[i]);
        }
    }
}

/// The entries of a directory are visited one by one, each under its directory, as they were
/// listed.
pub proof fn law_entries_are_visited(dir: Seq<char>, entries: Seq<DirEntry>)
    ensures
        entries_in(dir, entries).len() == entries.len(),
        forall|i: int|
            0 <= i < entries.len() ==> {
                let e = #[trigger] entries_in(dir, entries)[i];
                &&& e.dir == dir
                &&& e.name == entries[i].name@
                &&& e.kind == entries[i].kind
                &&& e.len == entries[i].len
                &&& e.path() == joined(dir, entries[i].name@)
            },
{
}

/// A sweep visits what waits in order: a directory that is entered is asked for, a file that
/// is recorded is noted behind those before it, and anything else is passed over.
pub proof fn law_sweep_step(e: EntryView, rest: Seq<EntryView>, found: Seq<Seq<char>>)
    ensures
        ({
            let now = advanced(SweepView { queue: seq![e] + rest, found });
            &&& e.is_entered() ==> now == (Some(e.path()), SweepView { queue: rest, found })
            &&& e.is_recorded() ==> now == advanced(
                SweepView { queue: rest, found: found.push(e.path()) },
            )
            &&& !e.is_entered() && !e.is_recorded() ==> now == advanced(
                SweepView { queue: rest, found },
            )
            &&& advanced(SweepView { queue: Seq::empty(), found }) == (
                None::<Seq<char>>,
                SweepView { queue: Seq::empty(), found },
            )
        }),
{
    let queue = seq![e] + rest;
    assert(queue[0] == e);
    assert(queue.drop_first() =~= rest);
}

} // verus!
