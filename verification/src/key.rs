//! Hierarchical storage keys.
//!
//! A key is an ordered, non-empty sequence of non-empty ASCII segments,
//! none containing the `/` separator. Keys are totally ordered
//! lexicographically segment-by-segment, and a key may serve as a prefix
//! addressing the subtree of keys that start with its segments.

use vstd::prelude::*;

verus! {

/// Errors from constructing or parsing a key path.
#[derive(Clone, Copy, Debug, PartialEq, Eq, Structural)]
pub enum KeyError {
    /// The segment list, or one of its segments, was empty.
    EmptyPath,
    /// A segment held a non-ASCII character or the `/` separator.
    InvalidSegment,
}

/// A well-formed key segment: non-empty ASCII text without the separator.
pub open spec fn valid_segment(s: Seq<char>) -> bool {
    s.len() > 0 && forall|i: int|
        0 <= i < s.len() ==> '\0' <= #[trigger] s[i] <= '\u{7f}' && s[i] != '/'
}

/// A well-formed key path: a non-empty sequence of well-formed segments.
pub open spec fn valid_path(p: Seq<Seq<char>>) -> bool {
    p.len() > 0 && forall|i: int| 0 <= i < p.len() ==> valid_segment(#[trigger] p[i])
}

/// The path list is empty or holds an empty segment.
pub open spec fn path_has_empty(p: Seq<Seq<char>>) -> bool {
    p.len() == 0 || exists|i: int| 0 <= i < p.len() && (#[trigger] p[i]).len() == 0
}

/// `p` addresses the subtree containing `k`: `k` starts with `p`'s segments.
pub open spec fn path_is_prefix(p: Seq<Seq<char>>, k: Seq<Seq<char>>) -> bool {
    p.len() <= k.len() && forall|i: int| 0 <= i < p.len() ==> p[i] == #[trigger] k[i]
}

/// Strict lexicographic order on segments, by character code point.
pub open spec fn str_lt(a: Seq<char>, b: Seq<char>) -> bool
    decreases a.len(),
{
    if b.len() == 0 {
        false
    } else if a.len() == 0 {
        true
    } else if a[0] == b[0] {
        str_lt(a.skip(1), b.skip(1))
    } else {
        a[0] < b[0]
    }
}

/// Strict order on key paths: lexicographic segment-by-segment.
pub open spec fn key_lt(a: Seq<Seq<char>>, b: Seq<Seq<char>>) -> bool
    decreases a.len(),
{
    if b.len() == 0 {
        false
    } else if a.len() == 0 {
        true
    } else if a[0] == b[0] {
        key_lt(a.skip(1), b.skip(1))
    } else {
        str_lt(a[0], b[0])
    }
}

/// Segment order is total: exactly one of `a < b`, `a == b`, `b < a`.
pub proof fn lemma_str_lt_trichotomy(a: Seq<char>, b: Seq<char>)
    ensures
        str_lt(a, b) || str_lt(b, a) || a == b,
        str_lt(a, b) ==> !str_lt(b, a) && a != b,
    decreases a.len(),
{
    if a.len() == 0 && b.len() == 0 {
        assert(a =~= b);
    } else if a.len() > 0 && b.len() > 0 {
        if a[0] == b[0] {
            lemma_str_lt_trichotomy(a.skip(1), b.skip(1));
            if a.skip(1) == b.skip(1) {
                assert forall|i: int| 0 <= i < a.len() implies a[i] == b[i] by {
                    if i > 0 {
                        assert(a.skip(1)[i - 1] == a[i]);
                        assert(b.skip(1)[i - 1] == b[i]);
                    }
                }
                assert(a =~= b);
            }
        }
    }
}

/// Segment order is transitive.
pub proof fn lemma_str_lt_trans(a: Seq<char>, b: Seq<char>, c: Seq<char>)
    requires
        str_lt(a, b),
        str_lt(b, c),
    ensures
        str_lt(a, c),
    decreases a.len(),
{
    if a.len() > 0 && b.len() > 0 && c.len() > 0 {
        if a[0] == b[0] && b[0] == c[0] {
            lemma_str_lt_trans(a.skip(1), b.skip(1), c.skip(1));
        }
    }
}

/// Key order is total: exactly one of `a < b`, `a == b`, `b < a`.
pub proof fn lemma_key_lt_trichotomy(a: Seq<Seq<char>>, b: Seq<Seq<char>>)
    ensures
        key_lt(a, b) || key_lt(b, a) || a == b,
        key_lt(a, b) ==> !key_lt(b, a) && a != b,
    decreases a.len(),
{
    if a.len() == 0 && b.len() == 0 {
        assert(a =~= b);
    } else if a.len() > 0 && b.len() > 0 {
        lemma_str_lt_trichotomy(a[0], b[0]);
        if a[0] == b[0] {
            lemma_key_lt_trichotomy(a.skip(1), b.skip(1));
            if a.skip(1) == b.skip(1) {
                assert forall|i: int| 0 <= i < a.len() implies a[i] == b[i] by {
                    if i > 0 {
                        assert(a.skip(1)[i - 1] == a[i]);
                        assert(b.skip(1)[i - 1] == b[i]);
                    }
                }
                assert(a =~= b);
            }
        }
    }
}

/// Key order is transitive.
pub proof fn lemma_key_lt_trans(a: Seq<Seq<char>>, b: Seq<Seq<char>>, c: Seq<Seq<char>>)
    requires
        key_lt(a, b),
        key_lt(b, c),
    ensures
        key_lt(a, c),
    decreases a.len(),
{
    if a.len() > 0 && b.len() > 0 && c.len() > 0 {
        lemma_str_lt_trichotomy(a[0], b[0]);
        lemma_str_lt_trichotomy(b[0], c[0]);
        if a[0] == b[0] && b[0] == c[0] {
            lemma_key_lt_trans(a.skip(1), b.skip(1), c.skip(1));
        } else if a[0] != b[0] && b[0] != c[0] {
            lemma_str_lt_trans(a[0], b[0], c[0]);
            lemma_str_lt_trichotomy(a[0], c[0]);
        }
    }
}

/// Namespace isolation: two keys whose leading segments differ are never
/// prefix-related in either direction, so key families that start with
/// distinct reserved namespaces cannot collide.
pub proof fn lemma_namespace_isolation(a: Seq<Seq<char>>, b: Seq<Seq<char>>)
    requires
        a.len() > 0,
        b.len() > 0,
        a[0] != b[0],
    ensures
        !path_is_prefix(a, b),
        !path_is_prefix(b, a),
{
}

/// No character of `s` is the separator.
pub open spec fn no_sep(s: Seq<char>) -> bool {
    forall|i: int| 0 <= i < s.len() ==> (#[trigger] s[i]) != '/'
}

/// The string form of a well-formed path is non-empty, neither starts
/// nor ends with the separator, and never holds two adjacent separators.
pub proof fn lemma_path_chars_shape(p: Seq<Seq<char>>)
    requires
        valid_path(p),
    ensures
        path_to_chars(p).len() > 0,
        path_to_chars(p)[0] != '/',
        path_to_chars(p).last() != '/',
        forall|i: int|
            0 < i < path_to_chars(p).len() ==> !(path_to_chars(p)[i - 1] == '/'
                && #[trigger] path_to_chars(p)[i] == '/'),
        p.len() == 1 ==> no_sep(path_to_chars(p)),
    decreases p.len(),
{
    if p.len() == 1 {
        assert(path_to_chars(p) == p[0]);
    } else {
        let dl = p.drop_last();
        assert(forall|i: int| 0 <= i < dl.len() ==> dl[i] == #[trigger] p[i]);
        lemma_path_chars_shape(dl);
        let head = path_to_chars(dl);
        let last = p.last();
        let all = head + seq!['/'] + last;
        assert(all[0] == head[0]);
        assert(all.last() == last[last.len() - 1]);
        assert(valid_segment(last));
        assert forall|i: int| 0 < i < all.len() implies !(all[i - 1] == '/' && #[trigger] all[i]
            == '/') by {
            if i < head.len() {
                assert(all[i] == head[i] && all[i - 1] == head[i - 1]);
            } else if i == head.len() {
                assert(all[i - 1] == head[i - 1] && all[i] == '/');
                assert(head.last() != '/');
            } else if i == head.len() + 1 {
                assert(all[i] == last[0]);
            } else {
                assert(all[i] == last[i - head.len() - 1] && all[i - 1] == last[i - head.len()
                    - 2]);
            }
        }
    }
}

/// A string has only one reading as an ending segment after a final
/// separator: equal joins with separator-free tails split identically.
proof fn lemma_last_sep_unique(a1: Seq<char>, l1: Seq<char>, a2: Seq<char>, l2: Seq<char>)
    requires
        no_sep(l1),
        no_sep(l2),
        a1 + seq!['/'] + l1 == a2 + seq!['/'] + l2,
    ensures
        a1 == a2,
        l1 == l2,
{
    let s1 = a1 + seq!['/'] + l1;
    let s2 = a2 + seq!['/'] + l2;
    let n = s1.len();
    assert(n == a1.len() + 1 + l1.len());
    assert(n == a2.len() + 1 + l2.len());
    if l1.len() < l2.len() {
        let pos = a1.len() as int;
        assert(s1[pos] == '/');
        assert(pos >= a2.len() + 1);
        assert(s2[pos] == l2[pos - a2.len() - 1]);
        assert(false);
    }
    if l2.len() < l1.len() {
        let pos = a2.len() as int;
        assert(s2[pos] == '/');
        assert(pos >= a1.len() + 1);
        assert(s1[pos] == l1[pos - a1.len() - 1]);
        assert(false);
    }
    assert forall|i: int| 0 <= i < a1.len() implies a1[i] == a2[i] by {
        assert(s1[i] == a1[i]);
        assert(s2[i] == a2[i]);
    }
    assert(a1 =~= a2);
    assert forall|i: int| 0 <= i < l1.len() implies l1[i] == l2[i] by {
        assert(s1[a1.len() + 1 + i] == l1[i]);
        assert(s2[a2.len() + 1 + i] == l2[i]);
    }
    assert(l1 =~= l2);
}

/// The string form is injective on well-formed paths: two well-formed
/// paths with the same string form are the same path.
pub proof fn lemma_path_to_chars_injective(p1: Seq<Seq<char>>, p2: Seq<Seq<char>>)
    requires
        valid_path(p1),
        valid_path(p2),
        path_to_chars(p1) == path_to_chars(p2),
    ensures
        p1 == p2,
    decreases p1.len(),
{
    lemma_path_chars_shape(p1);
    lemma_path_chars_shape(p2);
    if p1.len() == 1 && p2.len() == 1 {
        assert(p1 =~= p2);
    } else if p1.len() == 1 {
        let head = path_to_chars(p2.drop_last());
        assert(path_to_chars(p2)[head.len() as int] == '/');
        assert(no_sep(path_to_chars(p1)));
        assert(false);
    } else if p2.len() == 1 {
        let head = path_to_chars(p1.drop_last());
        assert(path_to_chars(p1)[head.len() as int] == '/');
        assert(no_sep(path_to_chars(p2)));
        assert(false);
    } else {
        let dl1 = p1.drop_last();
        let dl2 = p2.drop_last();
        assert(forall|i: int| 0 <= i < dl1.len() ==> dl1[i] == #[trigger] p1[i]);
        assert(forall|i: int| 0 <= i < dl2.len() ==> dl2[i] == #[trigger] p2[i]);
        assert(no_sep(p1.last()) && no_sep(p2.last()));
        lemma_last_sep_unique(path_to_chars(dl1), p1.last(), path_to_chars(dl2), p2.last());
        lemma_path_to_chars_injective(dl1, dl2);
        assert(p1 =~= dl1.push(p1.last()));
        assert(p2 =~= dl2.push(p2.last()));
    }
}

/// A hierarchical storage key.
#[derive(Debug, Clone, PartialEq, Eq)]
pub struct Key {
    /// The ordered path segments, root first.
    pub segments: Vec<String>,
}

impl View for Key {
    type V = Seq<Seq<char>>;

    open spec fn view(&self) -> Seq<Seq<char>> {
        self.segments.deep_view()
    }
}

impl DeepView for Key {
    type V = Seq<Seq<char>>;

    open spec fn deep_view(&self) -> Seq<Seq<char>> {
        self.segments.deep_view()
    }
}

/// The string form of a path: segments joined by the `/` separator.
pub open spec fn path_to_chars(p: Seq<Seq<char>>) -> Seq<char>
    decreases p.len(),
{
    if p.len() == 0 {
        Seq::empty()
    } else if p.len() == 1 {
        p[0]
    } else {
        path_to_chars(p.drop_last()) + seq!['/'] + p.last()
    }
}

/// The byte image of a path's string form; keys are hashed and stored
/// through this image.
pub open spec fn path_bytes(p: Seq<Seq<char>>) -> Seq<u8> {
    Seq::new(path_to_chars(p).len(), |i: int| path_to_chars(p)[i] as u8)
}

/// The string form of a well-formed path holds ASCII characters only.
pub proof fn lemma_path_chars_ascii(p: Seq<Seq<char>>)
    requires
        forall|i: int| 0 <= i < p.len() ==> valid_segment(#[trigger] p[i]),
    ensures
        forall|i: int|
            0 <= i < path_to_chars(p).len() ==> '\0' <= #[trigger] path_to_chars(p)[i]
                <= '\u{7f}',
    decreases p.len(),
{
    if p.len() <= 1 {
    } else {
        let dl = p.drop_last();
        assert(forall|i: int| 0 <= i < dl.len() ==> dl[i] == #[trigger] p[i]);
        lemma_path_chars_ascii(dl);
        let head = path_to_chars(dl);
        let all = head + seq!['/'] + p.last();
        assert forall|i: int| 0 <= i < all.len() implies '\0' <= #[trigger] all[i] <= '\u{7f}' by {
            if i < head.len() {
                assert(all[i] == head[i]);
            } else if i == head.len() {
                assert(all[i] == '/');
            } else {
                assert(all[i] == p.last()[i - head.len() - 1]);
            }
        }
    }
}

/// Whether one segment is well formed: non-empty, ASCII, no separator.
fn segment_ok(s: &str) -> (r: bool)
    ensures
        r == valid_segment(s@),
{
    let n = s.unicode_len();
    if n == 0 {
        return false;
    }
    if !s.is_ascii() {
        proof {
            if valid_segment(s@) {
                assert forall|i: int| 0 <= i < s@.len() implies '\0' <= #[trigger] s@[i]
                    <= '\u{7f}' by {}
                assert(vstd::string::is_ascii(s));
            }
        }
        return false;
    }
    let mut i: usize = 0;
    while i < n
        invariant
            n == s@.len(),
            0 <= i <= n,
            vstd::string::is_ascii(s),
            forall|j: int| 0 <= j < i ==> '\0' <= #[trigger] s@[j] <= '\u{7f}' && s@[j] != '/',
        decreases n - i,
    {
        let c = s.get_char(i);
        if c == '/' {
            return false;
        }
        proof {
            assert('\0' <= s@[i as int] <= '\u{7f}');
        }
        i += 1;
    }
    true
}

/// Copy a segment list; `String` cloning keeps the characters.
fn clone_segments(v: &Vec<String>) -> (r: Vec<String>)
    ensures
        r.deep_view() == v.deep_view(),
{
    let mut r: Vec<String> = Vec::new();
    let n = v.len();
    let mut i: usize = 0;
    while i < n
        invariant
            n == v@.len(),
            0 <= i <= n,
            r@.len() == i,
            forall|j: int| 0 <= j < i ==> r.deep_view()[j] == #[trigger] v.deep_view()[j],
        decreases n - i,
    {
        r.push(v[i].clone());
        i += 1;
    }
    proof {
        assert(r.deep_view() =~= v.deep_view());
    }
    r
}

impl Key {
    /// Build a key from path segments; the segments become the key's path.
    /// Fails with `EmptyPath` when the list or a segment is empty, and with
    /// `InvalidSegment` when a segment holds a non-ASCII character or `/`.
    pub fn from_segments(segments: Vec<String>) -> (r: Result<Key, KeyError>)
        ensures
            r is Ok <==> valid_path(segments.deep_view()),
            r matches Ok(k) ==> k@ == segments.deep_view(),
            r == Err::<Key, KeyError>(KeyError::EmptyPath) <==> path_has_empty(
                segments.deep_view(),
            ),
            r == Err::<Key, KeyError>(KeyError::InvalidSegment) <==> !path_has_empty(
                segments.deep_view(),
            ) && !valid_path(segments.deep_view()),
    {
        let ghost dv = segments.deep_view();
        let n = segments.len();
        if n == 0 {
            return Err(KeyError::EmptyPath);
        }
        let mut i: usize = 0;
        while i < n
            invariant
                n == segments@.len(),
                dv == segments.deep_view(),
                0 <= i <= n,
                forall|j: int| 0 <= j < i ==> (#[trigger] dv[j]).len() > 0,
            decreases n - i,
        {
            if segments[i].as_str().unicode_len() == 0 {
                assert(dv[i as int].len() == 0);
                return Err(KeyError::EmptyPath);
            }
            i += 1;
        }
        let mut i: usize = 0;
        while i < n
            invariant
                n == segments@.len(),
                dv == segments.deep_view(),
                0 <= i <= n,
                forall|j: int| 0 <= j < n ==> (#[trigger] dv[j]).len() > 0,
                forall|j: int| 0 <= j < i ==> valid_segment(#[trigger] dv[j]),
            decreases n - i,
        {
            if !segment_ok(segments[i].as_str()) {
                assert(!valid_segment(dv[i as int]));
                return Err(KeyError::InvalidSegment);
            }
            i += 1;
        }
        Ok(Key { segments })
    }

    /// The number of segments in the path.
    pub fn len(&self) -> (r: usize)
        ensures
            r == self@.len(),
    {
        self.segments.len()
    }

    /// A new key one segment longer; `self` is untouched. Fails exactly as
    /// `from_segments` does on the new segment.
    pub fn join(&self, segment: String) -> (r: Result<Key, KeyError>)
        ensures
            r is Ok <==> valid_segment(segment@),
            r matches Ok(k) ==> k@ == self@.push(segment@),
            r == Err::<Key, KeyError>(KeyError::EmptyPath) <==> segment@.len() == 0,
            r == Err::<Key, KeyError>(KeyError::InvalidSegment) <==> segment@.len() > 0
                && !valid_segment(segment@),
    {
        if segment.as_str().unicode_len() == 0 {
            return Err(KeyError::EmptyPath);
        }
        if !segment_ok(segment.as_str()) {
            return Err(KeyError::InvalidSegment);
        }
        let mut segments = clone_segments(&self.segments);
        segments.push(segment);
        proof {
            assert(segments.deep_view() =~= self@.push(segment@));
        }
        Ok(Key { segments })
    }

    /// A copy of this key with the same path.
    pub fn clone_key(&self) -> (r: Key)
        ensures
            r@ == self@,
    {
        Key { segments: clone_segments(&self.segments) }
    }

    /// The `/`-joined string form of the key.
    pub fn to_string(&self) -> (r: String)
        ensures
            r@ == path_to_chars(self@),
    {
        let n = self.segments.len();
        let mut s = String::new();
        if n == 0 {
            return s;
        }
        s.append(self.segments[0].as_str());
        let mut i: usize = 1;
        while i < n
            invariant
                n == self@.len(),
                1 <= i <= n,
                s@ == path_to_chars(self@.take(i as int)),
            decreases n - i,
        {
            s.append("/");
            s.append(self.segments[i].as_str());
            proof {
                let t = self@.take(i + 1);
                assert(t.drop_last() =~= self@.take(i as int));
                assert(t.last() == self@[i as int]);
                reveal_strlit("/");
                assert(s@ =~= path_to_chars(t));
            }
            i += 1;
        }
        proof {
            assert(self@.take(n as int) =~= self@);
        }
        s
    }

    /// The byte image of the key's string form, for hashing and storage.
    pub fn to_bytes(&self) -> (r: Vec<u8>)
        requires
            valid_path(self@),
        ensures
            r@ == path_bytes(self@),
    {
        proof {
            lemma_path_chars_ascii(self@);
        }
        let s = self.to_string();
        let st = s.as_str();
        let n = st.unicode_len();
        let mut r: Vec<u8> = Vec::new();
        let mut i: usize = 0;
        while i < n
            invariant
                n == st@.len(),
                st@ == path_to_chars(self@),
                forall|j: int| 0 <= j < n ==> '\0' <= #[trigger] st@[j] <= '\u{7f}',
                0 <= i <= n,
                r@.len() == i,
                forall|j: int| 0 <= j < i ==> r@[j] == (#[trigger] st@[j]) as u8,
            decreases n - i,
        {
            let c = st.get_char(i);
            r.push(c as u8);
            i += 1;
        }
        proof {
            assert(r@ =~= path_bytes(self@));
        }
        r
    }

    /// Parse the `/`-joined string form back into a key: exactly the
    /// string forms of well-formed paths parse, to the unique path they
    /// came from. A non-ASCII character gives `InvalidSegment`; an empty
    /// string or an empty segment — a leading, trailing or doubled
    /// separator — gives `EmptyPath`.
    pub fn parse(s: &str) -> (r: Result<Key, KeyError>)
        ensures
            r matches Ok(k) ==> valid_path(k@) && path_to_chars(k@) == s@,
            r matches Ok(k) ==> forall|p: Seq<Seq<char>>|
                valid_path(p) && #[trigger] path_to_chars(p) == s@ ==> p == k@,
            r is Err ==> forall|p: Seq<Seq<char>>|
                valid_path(p) ==> #[trigger] path_to_chars(p) != s@,
            r == Err::<Key, KeyError>(KeyError::InvalidSegment) <==> !vstd::string::is_ascii(s),
            r == Err::<Key, KeyError>(KeyError::EmptyPath) <==> vstd::string::is_ascii(s) && (
            s@.len() == 0 || s@[0] == '/' || s@[s@.len() - 1] == '/' || (exists|i: int|
                0 < i < s@.len() && s@[i - 1] == '/' && #[trigger] s@[i] == '/')),
    {
        if !s.is_ascii() {
            proof {
                assert forall|p: Seq<Seq<char>>| valid_path(p) implies #[trigger] path_to_chars(
                    p,
                ) != s@ by {
                    if path_to_chars(p) == s@ {
                        lemma_path_chars_ascii(p);
                        assert forall|j: int| 0 <= j < s@.len() implies '\0' <= #[trigger] s@[j]
                            <= '\u{7f}' by {
                            assert(s@[j] == path_to_chars(p)[j]);
                        }
                        assert(vstd::string::is_ascii(s));
                    }
                }
            }
            return Err(KeyError::InvalidSegment);
        }
        let n = s.unicode_len();
        let mut segments: Vec<String> = Vec::new();
        let mut seg_start: usize = 0;
        let mut i: usize = 0;
        while i < n
            invariant
                n == s@.len(),
                vstd::string::is_ascii(s),
                0 <= seg_start <= i <= n,
                forall|j: int| seg_start <= j < i ==> (#[trigger] s@[j]) != '/',
                segments.deep_view().len() == 0 ==> seg_start == 0,
                segments.deep_view().len() > 0 ==> seg_start >= 1 && s@[seg_start - 1] == '/'
                    && valid_path(segments.deep_view()) && path_to_chars(segments.deep_view())
                    == s@.take(seg_start - 1),
            decreases n - i,
        {
            let c = s.get_char(i);
            if c == '/' {
                if i == seg_start {
                    proof {
                        if seg_start > 0 {
                            assert(s@[seg_start - 1] == '/' && s@[seg_start as int] == '/');
                        } else {
                            assert(s@[0] == '/');
                        }
                        assert forall|p: Seq<Seq<char>>| valid_path(p) implies #[trigger] path_to_chars(
                            p,
                        ) != s@ by {
                            lemma_path_chars_shape(p);
                        }
                    }
                    return Err(KeyError::EmptyPath);
                }
                let seg = s.substring_ascii(seg_start, i).to_owned();
                proof {
                    let sv = seg@;
                    assert(sv == s@.subrange(seg_start as int, i as int));
                    assert forall|j: int| 0 <= j < sv.len() implies '\0' <= #[trigger] sv[j]
                        <= '\u{7f}' && sv[j] != '/' by {
                        assert(sv[j] == s@[seg_start + j]);
                    }
                    assert(valid_segment(sv));
                }
                let ghost old_segs = segments.deep_view();
                segments.push(seg);
                proof {
                    assert(segments.deep_view() =~= old_segs.push(seg@));
                    let built = segments.deep_view();
                    assert(built.last() == seg@);
                    if old_segs.len() == 0 {
                        assert(built.len() == 1);
                        assert(path_to_chars(built) == seg@);
                        assert(path_to_chars(built) =~= s@.take(i as int));
                    } else {
                        assert(built.drop_last() =~= old_segs);
                        assert(path_to_chars(built) == path_to_chars(old_segs) + seq!['/']
                            + seg@);
                        assert(path_to_chars(built) =~= s@.take(i as int));
                    }
                    assert forall|j: int| 0 <= j < built.len() implies valid_segment(
                        #[trigger] built[j],
                    ) by {
                        if j < old_segs.len() {
                            assert(built[j] == old_segs[j]);
                        }
                    }
                }
                seg_start = i + 1;
            }
            i += 1;
        }
        if seg_start == n {
            proof {
                if n == 0 {
                } else {
                    assert(segments.deep_view().len() > 0);
                    assert(s@[n - 1] == '/');
                }
                assert forall|p: Seq<Seq<char>>| valid_path(p) implies #[trigger] path_to_chars(
                    p,
                ) != s@ by {
                    lemma_path_chars_shape(p);
                }
            }
            return Err(KeyError::EmptyPath);
        }
        let seg = s.substring_ascii(seg_start, n).to_owned();
        proof {
            let sv = seg@;
            assert(sv == s@.subrange(seg_start as int, n as int));
            assert forall|j: int| 0 <= j < sv.len() implies '\0' <= #[trigger] sv[j] <= '\u{7f}'
                && sv[j] != '/' by {
                assert(sv[j] == s@[seg_start + j]);
            }
            assert(valid_segment(sv));
        }
        let ghost old_segs = segments.deep_view();
        segments.push(seg);
        let r = Key { segments };
        proof {
            assert(r@ =~= old_segs.push(seg@));
            let built = r@;
            assert(built.last() == seg@);
            if old_segs.len() == 0 {
                assert(built.len() == 1);
                assert(path_to_chars(built) == seg@);
                assert(path_to_chars(built) =~= s@);
            } else {
                assert(built.drop_last() =~= old_segs);
                assert(path_to_chars(built) == path_to_chars(old_segs) + seq!['/'] + seg@);
                assert(path_to_chars(built) =~= s@);
            }
            assert forall|j: int| 0 <= j < built.len() implies valid_segment(
                #[trigger] built[j],
            ) by {
                if j < old_segs.len() {
                    assert(built[j] == old_segs[j]);
                }
            }
            assert(valid_path(built));
            lemma_path_chars_shape(built);
            assert forall|p: Seq<Seq<char>>|
                valid_path(p) && #[trigger] path_to_chars(p) == s@ implies p == built by {
                lemma_path_to_chars_injective(p, built);
            }
        }
        Ok(r)
    }

    /// Whether `self` addresses a subtree containing `other`: `other`'s
    /// segments start with `self`'s.
    pub fn is_prefix_of(&self, other: &Key) -> (r: bool)
        ensures
            r == path_is_prefix(self@, other@),
    {
        let n = self.segments.len();
        if n > other.segments.len() {
            return false;
        }
        let mut i: usize = 0;
        while i < n
            invariant
                n == self@.len(),
                n <= other@.len(),
                0 <= i <= n,
                forall|j: int| 0 <= j < i ==> self@[j] == #[trigger] other@[j],
            decreases n - i,
        {
            if !str_eq(self.segments[i].as_str(), other.segments[i].as_str()) {
                assert(self@[i as int] != other@[i as int]);
                return false;
            }
            i += 1;
        }
        true
    }
}

/// Whether two string slices hold the same characters.
pub fn str_eq(a: &str, b: &str) -> (r: bool)
    ensures
        r == (a@ == b@),
{
    let na = a.unicode_len();
    let nb = b.unicode_len();
    if na != nb {
        return false;
    }
    let mut i: usize = 0;
    while i < na
        invariant
            na == a@.len(),
            na == b@.len(),
            0 <= i <= na,
            forall|j: int| 0 <= j < i ==> a@[j] == #[trigger] b@[j],
        decreases na - i,
    {
        if a.get_char(i) != b.get_char(i) {
            return false;
        }
        i += 1;
    }
    proof {
        assert(a@ =~= b@);
    }
    true
}

/// Dropping an equal prefix from both sides leaves segment order unchanged.
proof fn lemma_str_lt_skip(a: Seq<char>, b: Seq<char>, i: int)
    requires
        0 <= i <= a.len(),
        i <= b.len(),
        forall|j: int| 0 <= j < i ==> a[j] == #[trigger] b[j],
    ensures
        str_lt(a, b) == str_lt(a.skip(i), b.skip(i)),
    decreases i,
{
    if i == 0 {
        assert(a.skip(0) =~= a);
        assert(b.skip(0) =~= b);
    } else {
        assert(a[0] == b[0]);
        assert(a.skip(1).skip(i - 1) =~= a.skip(i));
        assert(b.skip(1).skip(i - 1) =~= b.skip(i));
        assert forall|j: int| 0 <= j < i - 1 implies a.skip(1)[j] == b.skip(1)[j] by {
            assert(a.skip(1)[j] == a[j + 1]);
            assert(b.skip(1)[j] == b[j + 1]);
        }
        lemma_str_lt_skip(a.skip(1), b.skip(1), i - 1);
    }
}

/// Dropping an equal prefix from both sides leaves key order unchanged.
proof fn lemma_key_lt_skip(a: Seq<Seq<char>>, b: Seq<Seq<char>>, i: int)
    requires
        0 <= i <= a.len(),
        i <= b.len(),
        forall|j: int| 0 <= j < i ==> a[j] == #[trigger] b[j],
    ensures
        key_lt(a, b) == key_lt(a.skip(i), b.skip(i)),
    decreases i,
{
    if i == 0 {
        assert(a.skip(0) =~= a);
        assert(b.skip(0) =~= b);
    } else {
        assert(a[0] == b[0]);
        assert(a.skip(1).skip(i - 1) =~= a.skip(i));
        assert(b.skip(1).skip(i - 1) =~= b.skip(i));
        assert forall|j: int| 0 <= j < i - 1 implies a.skip(1)[j] == b.skip(1)[j] by {
            assert(a.skip(1)[j] == a[j + 1]);
            assert(b.skip(1)[j] == b[j + 1]);
        }
        lemma_key_lt_skip(a.skip(1), b.skip(1), i - 1);
    }
}

/// Whether `a@` strictly precedes `b@` in segment order.
pub fn str_lt_exec(a: &str, b: &str) -> (r: bool)
    ensures
        r == str_lt(a@, b@),
{
    let na = a.unicode_len();
    let nb = b.unicode_len();
    let n = if na < nb {
        na
    } else {
        nb
    };
    let mut i: usize = 0;
    while i < n
        invariant
            na == a@.len(),
            nb == b@.len(),
            n == if na < nb {
                na
            } else {
                nb
            },
            0 <= i <= n,
            forall|j: int| 0 <= j < i ==> a@[j] == #[trigger] b@[j],
        decreases n - i,
    {
        let ca = a.get_char(i);
        let cb = b.get_char(i);
        if ca != cb {
            proof {
                lemma_str_lt_skip(a@, b@, i as int);
            }
            return (ca as u32) < (cb as u32);
        }
        i += 1;
    }
    proof {
        lemma_str_lt_skip(a@, b@, n as int);
    }
    na < nb
}

/// Whether `a@` strictly precedes `b@` in key order.
pub fn key_lt_exec(a: &Key, b: &Key) -> (r: bool)
    ensures
        r == key_lt(a@, b@),
{
    let na = a.segments.len();
    let nb = b.segments.len();
    let n = if na < nb {
        na
    } else {
        nb
    };
    let mut i: usize = 0;
    while i < n
        invariant
            na == a@.len(),
            nb == b@.len(),
            n == if na < nb {
                na
            } else {
                nb
            },
            0 <= i <= n,
            forall|j: int| 0 <= j < i ==> a@[j] == #[trigger] b@[j],
        decreases n - i,
    {
        let sa = a.segments[i].as_str();
        let sb = b.segments[i].as_str();
        if !str_eq(sa, sb) {
            proof {
                lemma_key_lt_skip(a@, b@, i as int);
            }
            return str_lt_exec(sa, sb);
        }
        i += 1;
    }
    proof {
        lemma_key_lt_skip(a@, b@, n as int);
    }
    na < nb
}

/// Whether two keys have equal paths.
pub fn key_eq(a: &Key, b: &Key) -> (r: bool)
    ensures
        r == (a@ == b@),
{
    let na = a.segments.len();
    let nb = b.segments.len();
    if na != nb {
        proof {
            assert(a@.len() != b@.len());
        }
        return false;
    }
    let mut i: usize = 0;
    while i < na
        invariant
            na == a@.len(),
            na == b@.len(),
            0 <= i <= na,
            forall|j: int| 0 <= j < i ==> a@[j] == #[trigger] b@[j],
        decreases na - i,
    {
        if !str_eq(a.segments[i].as_str(), b.segments[i].as_str()) {
            assert(a@[i as int] != b@[i as int]);
            return false;
        }
        i += 1;
    }
    proof {
        assert(a@ =~= b@);
    }
    true
}

} // verus!
