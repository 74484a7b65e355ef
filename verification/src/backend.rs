//! The pluggable persistence interface and an in-memory backend.
//!
//! A backend holds the committed entries — key paths with raw byte values —
//! in ascending key order. Its model is the sequence of those entries:
//! point reads are `lookup`, batch application is `apply_batch`, and prefix
//! scans are `filter_prefix`, all pure functions of the sequence, so a
//! backend's behaviour is pinned down exactly.

use vstd::prelude::*;

use crate::key::{key_eq, key_lt, key_lt_exec, path_is_prefix, str_eq, Key};
use crate::key::{lemma_key_lt_trans, lemma_key_lt_trichotomy};

verus! {

/// The committed entries a backend holds: key paths with their bytes.
pub type Entries = Seq<(Seq<Seq<char>>, Seq<u8>)>;

/// A staged write: bytes to store under a path, or a removal of the path.
pub type WriteOp = (Seq<Seq<char>>, Option<Seq<u8>>);

/// A backend failure.
#[derive(Clone, Copy, Debug, PartialEq, Eq, Structural)]
pub enum BackendError {
    /// An input/output failure in the backing store.
    Io,
}

/// Entry keys are strictly ascending: sorted and duplicate-free.
pub open spec fn entries_sorted(s: Entries) -> bool {
    forall|i: int, j: int| 0 <= i < j < s.len() ==> key_lt(#[trigger] s[i].0, #[trigger] s[j].0)
}

/// Every entry key is a well-formed path.
pub open spec fn entries_valid(s: Entries) -> bool {
    forall|i: int| 0 <= i < s.len() ==> crate::key::valid_path((#[trigger] s[i]).0)
}

/// The first value stored under `k`, if any.
pub open spec fn lookup(s: Entries, k: Seq<Seq<char>>) -> Option<Seq<u8>>
    decreases s.len(),
{
    if s.len() == 0 {
        None
    } else if s[0].0 == k {
        Some(s[0].1)
    } else {
        lookup(s.skip(1), k)
    }
}

/// Where `k` belongs: the index of the first entry whose key is not below
/// `k`, or the length when every key is below it.
pub open spec fn insert_pos(s: Entries, k: Seq<Seq<char>>) -> int
    decreases s.len(),
{
    if s.len() == 0 {
        0
    } else if key_lt(s[0].0, k) {
        1 + insert_pos(s.skip(1), k)
    } else {
        0
    }
}

/// The entries after storing `v` under `k`: the existing entry for `k` is
/// replaced, or a new entry is spliced in at its ordered position.
pub open spec fn entries_put(s: Entries, k: Seq<Seq<char>>, v: Seq<u8>) -> Entries {
    let i = insert_pos(s, k);
    if i < s.len() && s[i].0 == k {
        s.take(i) + seq![(k, v)] + s.skip(i + 1)
    } else {
        s.take(i) + seq![(k, v)] + s.skip(i)
    }
}

/// The entries after removing `k`, if present.
pub open spec fn entries_del(s: Entries, k: Seq<Seq<char>>) -> Entries {
    let i = insert_pos(s, k);
    if i < s.len() && s[i].0 == k {
        s.take(i) + s.skip(i + 1)
    } else {
        s
    }
}

/// One staged write applied: a put of bytes or a removal.
pub open spec fn apply_one(s: Entries, w: WriteOp) -> Entries {
    match w.1 {
        Some(v) => entries_put(s, w.0, v),
        None => entries_del(s, w.0),
    }
}

/// A batch of staged writes applied in order; a later write to the same
/// key overrides an earlier one.
pub open spec fn apply_batch(s: Entries, ws: Seq<WriteOp>) -> Entries
    decreases ws.len(),
{
    if ws.len() == 0 {
        s
    } else {
        apply_one(apply_batch(s, ws.drop_last()), ws.last())
    }
}

/// The entries whose keys lie under the prefix `p`, in stored order.
pub open spec fn filter_prefix(s: Entries, p: Seq<Seq<char>>) -> Entries
    decreases s.len(),
{
    if s.len() == 0 {
        s
    } else if path_is_prefix(p, s.last().0) {
        filter_prefix(s.drop_last(), p).push(s.last())
    } else {
        filter_prefix(s.drop_last(), p)
    }
}

/// The insertion position is a position: keys before it lie below `k`, and
/// the key at it, if any, does not.
pub proof fn lemma_insert_pos(s: Entries, k: Seq<Seq<char>>)
    ensures
        0 <= insert_pos(s, k) <= s.len(),
        forall|j: int| 0 <= j < insert_pos(s, k) ==> key_lt(#[trigger] s[j].0, k),
        insert_pos(s, k) < s.len() ==> !key_lt(s[insert_pos(s, k)].0, k),
    decreases s.len(),
{
    if s.len() > 0 && key_lt(s[0].0, k) {
        lemma_insert_pos(s.skip(1), k);
        let i = insert_pos(s, k);
        assert forall|j: int| 0 <= j < i implies key_lt(#[trigger] s[j].0, k) by {
            if j > 0 {
                assert(s.skip(1)[j - 1] == s[j]);
            }
        }
        if i < s.len() {
            assert(s.skip(1)[i - 1] == s[i]);
        }
    }
}

/// Storing under a well-formed key keeps the entries sorted and their keys
/// well formed.
pub proof fn lemma_entries_put_sorted(s: Entries, k: Seq<Seq<char>>, v: Seq<u8>)
    requires
        entries_sorted(s),
    ensures
        entries_sorted(entries_put(s, k, v)),
        entries_valid(s) && crate::key::valid_path(k) ==> entries_valid(entries_put(s, k, v)),
{
    lemma_insert_pos(s, k);
    let i = insert_pos(s, k);
    let t = entries_put(s, k, v);
    if i < s.len() && s[i].0 == k {
        assert forall|a: int, b: int| 0 <= a < b < t.len() implies key_lt(
            #[trigger] t[a].0,
            #[trigger] t[b].0,
        ) by {
            assert(t[a] == if a < i {
                s[a]
            } else if a == i {
                (k, v)
            } else {
                s[a]
            });
            assert(t[b] == if b < i {
                s[b]
            } else if b == i {
                (k, v)
            } else {
                s[b]
            });
        }
        if entries_valid(s) && crate::key::valid_path(k) {
            assert forall|a: int| 0 <= a < t.len() implies crate::key::valid_path(
                (#[trigger] t[a]).0,
            ) by {}
        }
    } else {
        if i < s.len() {
            lemma_key_lt_trichotomy(s[i as int].0, k);
        }
        assert forall|a: int, b: int| 0 <= a < b < t.len() implies key_lt(
            #[trigger] t[a].0,
            #[trigger] t[b].0,
        ) by {
            let ea = if a < i {
                s[a]
            } else if a == i {
                (k, v)
            } else {
                s[a - 1]
            };
            let eb = if b < i {
                s[b]
            } else if b == i {
                (k, v)
            } else {
                s[b - 1]
            };
            assert(t[a] == ea);
            assert(t[b] == eb);
            if a < i && b == i {
            } else if a == i && b > i {
                assert(!key_lt(s[i as int].0, k) && s[i as int].0 != k);
                assert(key_lt(k, s[i as int].0));
                if b - 1 > i {
                    lemma_key_lt_trans(k, s[i as int].0, s[b - 1].0);
                }
            } else if a < i && b > i {
                if b - 1 > a {
                } else {
                    assert(b - 1 == a && a < i && b > i);
                    assert(false);
                }
            }
        }
    }
}

/// Removing a key keeps the entries sorted and their keys well formed.
pub proof fn lemma_entries_del_sorted(s: Entries, k: Seq<Seq<char>>)
    requires
        entries_sorted(s),
    ensures
        entries_sorted(entries_del(s, k)),
        entries_valid(s) ==> entries_valid(entries_del(s, k)),
{
    lemma_insert_pos(s, k);
    let i = insert_pos(s, k);
    let t = entries_del(s, k);
    if i < s.len() && s[i].0 == k {
        assert forall|a: int, b: int| 0 <= a < b < t.len() implies key_lt(
            #[trigger] t[a].0,
            #[trigger] t[b].0,
        ) by {
            assert(t[a] == if a < i {
                s[a]
            } else {
                s[a + 1]
            });
            assert(t[b] == if b < i {
                s[b]
            } else {
                s[b + 1]
            });
        }
        if entries_valid(s) {
            assert forall|a: int| 0 <= a < t.len() implies crate::key::valid_path(
                (#[trigger] t[a]).0,
            ) by {
                assert(t[a] == if a < i {
                    s[a]
                } else {
                    s[a + 1]
                });
            }
        }
    }
}

/// Applying a batch of well-formed writes keeps the entries sorted and
/// their keys well formed.
pub proof fn lemma_apply_batch_sorted(s: Entries, ws: Seq<WriteOp>)
    requires
        entries_sorted(s),
        entries_valid(s),
        forall|i: int| 0 <= i < ws.len() ==> crate::key::valid_path((#[trigger] ws[i]).0),
    ensures
        entries_sorted(apply_batch(s, ws)),
        entries_valid(apply_batch(s, ws)),
    decreases ws.len(),
{
    if ws.len() > 0 {
        let dl = ws.drop_last();
        assert(forall|i: int| 0 <= i < dl.len() ==> dl[i] == #[trigger] ws[i]);
        lemma_apply_batch_sorted(s, dl);
        let mid = apply_batch(s, dl);
        match ws.last().1 {
            Some(v) => {
                lemma_entries_put_sorted(mid, ws.last().0, v);
            },
            None => {
                lemma_entries_del_sorted(mid, ws.last().0);
            },
        }
    }
}

/// Filtering by the empty prefix keeps every entry.
pub proof fn lemma_filter_prefix_all(s: Entries, p: Seq<Seq<char>>)
    requires
        p.len() == 0,
    ensures
        filter_prefix(s, p) == s,
    decreases s.len(),
{
    if s.len() > 0 {
        lemma_filter_prefix_all(s.drop_last(), p);
        assert(path_is_prefix(p, s.last().0));
        assert(s.drop_last().push(s.last()) =~= s);
    }
}

/// Prefix scan correctness: against sorted entries, the prefix filter
/// yields exactly the entries whose keys lie under the prefix, in
/// ascending key order, and nothing else.
pub proof fn lemma_filter_prefix_correct(s: Entries, p: Seq<Seq<char>>)
    requires
        entries_sorted(s),
    ensures
        entries_sorted(filter_prefix(s, p)),
        forall|i: int|
            0 <= i < filter_prefix(s, p).len() ==> path_is_prefix(
                p,
                (#[trigger] filter_prefix(s, p)[i]).0,
            ) && s.contains(filter_prefix(s, p)[i]),
        forall|j: int|
            0 <= j < s.len() && path_is_prefix(p, (#[trigger] s[j]).0) ==> filter_prefix(
                s,
                p,
            ).contains(s[j]),
    decreases s.len(),
{
    if s.len() > 0 {
        let dl = s.drop_last();
        assert(forall|i: int| 0 <= i < dl.len() ==> dl[i] == #[trigger] s[i]);
        lemma_filter_prefix_correct(dl, p);
        let f0 = filter_prefix(dl, p);
        let f = filter_prefix(s, p);
        assert forall|i: int| 0 <= i < f0.len() implies s.contains(f0[i]) by {
            assert(dl.contains(f0[i]));
            let w = choose|w: int| 0 <= w < dl.len() && dl[w] == f0[i];
            assert(s[w] == f0[i]);
        }
        if path_is_prefix(p, s.last().0) {
            assert(f == f0.push(s.last()));
            assert(s[s.len() - 1] == s.last());
            assert(s.contains(s.last()));
            assert forall|a: int, b: int| 0 <= a < b < f.len() implies key_lt(
                #[trigger] f[a].0,
                #[trigger] f[b].0,
            ) by {
                if b < f0.len() {
                    assert(f[a] == f0[a] && f[b] == f0[b]);
                } else {
                    assert(f[b] == s.last());
                    assert(f[a] == f0[a]);
                    assert(dl.contains(f0[a]));
                    let w = choose|w: int| 0 <= w < dl.len() && dl[w] == f0[a];
                    assert(key_lt(s[w].0, s[s.len() - 1].0));
                }
            }
            assert forall|j: int|
                0 <= j < s.len() && path_is_prefix(p, (#[trigger] s[j]).0) implies f.contains(
                s[j],
            ) by {
                if j < s.len() - 1 {
                    assert(f0.contains(dl[j]));
                    let w = choose|w: int| 0 <= w < f0.len() && f0[w] == dl[j];
                    assert(f[w] == s[j]);
                } else {
                    assert(f[f.len() - 1] == s[j]);
                }
            }
        } else {
            assert(f == f0);
            assert forall|j: int|
                0 <= j < s.len() && path_is_prefix(p, (#[trigger] s[j]).0) implies f.contains(
                s[j],
            ) by {
                assert(j != s.len() - 1);
                assert(f0.contains(dl[j]));
            }
        }
    }
}

/// Raw persistence a concrete database provides: point reads and writes,
/// ordered prefix scans, and application of a staged batch as one
/// all-or-nothing unit. The model of a backend is its entry sequence.
pub trait StorageBackend: Sized {
    /// The committed entries this backend holds, in stored order.
    spec fn view(&self) -> Entries;

    /// Point read of the bytes committed under a key.
    fn get(&self, key: &Key) -> (r: Option<Vec<u8>>)
        ensures
            r is Some <==> lookup(self.view(), key@) is Some,
            r matches Some(b) ==> lookup(self.view(), key@) == Some(b@),
    ;

    /// Store bytes under one key, replacing any previous value; on failure
    /// nothing changes.
    fn put(&mut self, key: &Key, value: Vec<u8>) -> (r: Result<(), BackendError>)
        ensures
            r is Ok ==> final (self).view() == entries_put(old(self).view(), key@, value@),
            r is Err ==> final (self).view() == old(self).view(),
    ;

    /// Remove one key and its bytes if present; on failure nothing changes.
    fn delete(&mut self, key: &Key) -> (r: Result<(), BackendError>)
        ensures
            r is Ok ==> final (self).view() == entries_del(old(self).view(), key@),
            r is Err ==> final (self).view() == old(self).view(),
    ;

    /// Apply a batch of puts and deletes as a single all-or-nothing unit:
    /// on success every write is applied in order, on failure none is —
    /// a crash mid-batch never leaves a partially applied batch visible.
    fn commit_batch(&mut self, writes: &Vec<(Key, Option<Vec<u8>>)>) -> (r: Result<
        (),
        BackendError,
    >)
        ensures
            r is Ok ==> final (self).view() == apply_batch(old(self).view(), writes.deep_view()),
            r is Err ==> final (self).view() == old(self).view(),
    ;

    /// Scan the entries under a prefix, in stored order; the empty prefix
    /// scans the whole store.
    fn scan_prefix(&self, prefix: &Vec<String>) -> (r: Vec<(Key, Vec<u8>)>)
        ensures
            r.deep_view() == filter_prefix(self.view(), prefix.deep_view()),
    ;
}

/// Copy a byte vector.
pub fn clone_bytes(v: &Vec<u8>) -> (r: Vec<u8>)
    ensures
        r@ == v@,
{
    let mut r: Vec<u8> = Vec::new();
    let n = v.len();
    let mut i: usize = 0;
    while i < n
        invariant
            n == v@.len(),
            0 <= i <= n,
            r@ == v@.take(i as int),
        decreases n - i,
    {
        r.push(v[i]);
        proof {
            assert(v@.take(i + 1) =~= v@.take(i as int).push(v@[i as int]));
        }
        i += 1;
    }
    proof {
        assert(v@.take(n as int) =~= v@);
    }
    r
}

/// The deep view of a stored pair is the path and bytes it was built from.
proof fn lemma_pair_deep_view(p: (Key, Vec<u8>), q: (Seq<Seq<char>>, Seq<u8>))
    requires
        p.0@ == q.0,
        p.1@ == q.1,
    ensures
        p.deep_view() == q,
{
    assert(p.1.deep_view() =~= p.1@);
}

/// An in-memory backend: entries kept in ascending key order, plus a
/// switch that makes the next batch fail, for exercising the engine's
/// commit atomicity against a backend fault.
pub struct MemBackend {
    entries: Vec<(Key, Vec<u8>)>,
    fail_next_commit: bool,
}

impl MemBackend {
    /// Whether the next batch is set to fail.
    pub closed spec fn fails_next(&self) -> bool {
        self.fail_next_commit
    }

    /// An empty store.
    pub fn new() -> (r: MemBackend)
        ensures
            r.view() == Seq::<(Seq<Seq<char>>, Seq<u8>)>::empty(),
            !r.fails_next(),
    {
        let r = MemBackend { entries: Vec::new(), fail_next_commit: false };
        proof {
            assert(r.entries.deep_view() =~= Seq::<(Seq<Seq<char>>, Seq<u8>)>::empty());
        }
        r
    }

    /// Arm or disarm the injected fault for the next batch; the committed
    /// entries are untouched.
    pub fn set_fail_next_commit(&mut self, fail: bool)
        ensures
            final (self).view() == old(self).view(),
            final (self).fails_next() == fail,
    {
        self.fail_next_commit = fail;
    }

    /// The index where `key` belongs in the sorted entry vector.
    fn find_pos(&self, key: &Key) -> (i: usize)
        ensures
            i == insert_pos(self.view(), key@),
    {
        let ghost dv = self.view();
        proof {
            assert(dv.skip(0) =~= dv);
        }
        let n = self.entries.len();
        let mut i: usize = 0;
        while i < n
            invariant
                n == self.entries@.len(),
                dv == self.view(),
                dv.len() == n,
                0 <= i <= n,
                insert_pos(dv, key@) == i + insert_pos(dv.skip(i as int), key@),
            decreases n - i,
        {
            let e = &self.entries[i];
            proof {
                assert(dv.skip(i as int)[0] == dv[i as int]);
                assert(dv.skip(i as int).skip(1) =~= dv.skip(i + 1));
            }
            if !key_lt_exec(&e.0, key) {
                return i;
            }
            i += 1;
        }
        proof {
            assert(dv.skip(n as int) =~= Seq::<(Seq<Seq<char>>, Seq<u8>)>::empty());
        }
        i
    }

    /// Store bytes under a key, keeping the vector's order.
    fn put_entry(&mut self, key: &Key, value: Vec<u8>)
        ensures
            final (self).view() == entries_put(old(self).view(), key@, value@),
            final (self).fails_next() == old(self).fails_next(),
    {
        let ghost dv = self.view();
        proof {
            lemma_insert_pos(dv, key@);
        }
        let i = self.find_pos(key);
        let n = self.entries.len();
        let replace = i < n && key_eq(&self.entries[i].0, key);
        let ghost gv = value@;
        let mut out: Vec<(Key, Vec<u8>)> = Vec::new();
        let mut j: usize = 0;
        while j < i
            invariant
                dv == self.view(),
                i <= n == self.entries@.len(),
                dv.len() == n,
                0 <= j <= i,
                out@.len() == j,
                forall|k: int|
                    0 <= k < j ==> (#[trigger] out@[k]).0@ == dv[k].0 && out@[k].1@ == dv[k].1,
            decreases i - j,
        {
            let e = &self.entries[j];
            proof {
                assert(dv[j as int] == self.entries@[j as int].deep_view());
                assert(self.entries@[j as int].1.deep_view() =~= self.entries@[j as int].1@);
            }
            out.push((e.0.clone_key(), clone_bytes(&e.1)));
            j += 1;
        }
        out.push((key.clone_key(), value));
        let mut j2: usize = if replace {
            i + 1
        } else {
            i
        };
        let ghost start = j2 as int;
        while j2 < n
            invariant
                dv == self.view(),
                i <= n == self.entries@.len(),
                dv.len() == n,
                start == if replace {
                    i + 1
                } else {
                    i as int
                },
                start <= j2 <= n,
                i <= start,
                out@.len() == i + 1 + j2 - start,
                forall|k: int|
                    0 <= k < i ==> (#[trigger] out@[k]).0@ == dv[k].0 && out@[k].1@ == dv[k].1,
                out@[i as int].0@ == key@ && out@[i as int].1@ == gv,
                forall|k: int|
                    start <= k < j2 ==> out@[i + 1 + k - start].0@ == (#[trigger] dv[k]).0
                        && out@[i + 1 + k - start].1@ == dv[k].1,
            decreases n - j2,
        {
            let e = &self.entries[j2];
            proof {
                assert(dv[j2 as int] == self.entries@[j2 as int].deep_view());
                assert(self.entries@[j2 as int].1.deep_view() =~= self.entries@[j2 as int].1@);
            }
            out.push((e.0.clone_key(), clone_bytes(&e.1)));
            j2 += 1;
        }
        proof {
            let t = entries_put(dv, key@, gv);
            assert(t.len() == out@.len());
            assert forall|k: int| 0 <= k < t.len() implies out.deep_view()[k] == t[k] by {
                if k < i {
                    assert(t[k] == dv[k]);
                    lemma_pair_deep_view(out@[k], dv[k]);
                } else if k == i {
                    assert(t[k] == (key@, gv));
                    lemma_pair_deep_view(out@[k], (key@, gv));
                } else {
                    assert(t[k] == dv.skip(start)[k - i - 1]);
                    assert(dv.skip(start)[k - i - 1] == dv[k - i - 1 + start]);
                    lemma_pair_deep_view(out@[k], dv[k - i - 1 + start]);
                }
            }
            assert(out.deep_view() =~= t);
        }
        self.entries = out;
    }

    /// Remove a key and its bytes, keeping the vector's order.
    fn del_entry(&mut self, key: &Key)
        ensures
            final (self).view() == entries_del(old(self).view(), key@),
            final (self).fails_next() == old(self).fails_next(),
    {
        let ghost dv = self.view();
        proof {
            lemma_insert_pos(dv, key@);
        }
        let i = self.find_pos(key);
        let n = self.entries.len();
        if !(i < n && key_eq(&self.entries[i].0, key)) {
            return ;
        }
        let mut out: Vec<(Key, Vec<u8>)> = Vec::new();
        let mut j: usize = 0;
        while j < i
            invariant
                dv == self.view(),
                i < n == self.entries@.len(),
                dv.len() == n,
                0 <= j <= i,
                out@.len() == j,
                forall|k: int|
                    0 <= k < j ==> (#[trigger] out@[k]).0@ == dv[k].0 && out@[k].1@ == dv[k].1,
            decreases i - j,
        {
            let e = &self.entries[j];
            proof {
                assert(dv[j as int] == self.entries@[j as int].deep_view());
                assert(self.entries@[j as int].1.deep_view() =~= self.entries@[j as int].1@);
            }
            out.push((e.0.clone_key(), clone_bytes(&e.1)));
            j += 1;
        }
        let mut j2: usize = i + 1;
        while j2 < n
            invariant
                dv == self.view(),
                i < n == self.entries@.len(),
                dv.len() == n,
                i + 1 <= j2 <= n,
                out@.len() == j2 - 1,
                forall|k: int|
                    0 <= k < i ==> (#[trigger] out@[k]).0@ == dv[k].0 && out@[k].1@ == dv[k].1,
                forall|k: int|
                    i + 1 <= k < j2 ==> out@[k - 1].0@ == (#[trigger] dv[k]).0 && out@[k
                        - 1].1@ == dv[k].1,
            decreases n - j2,
        {
            let e = &self.entries[j2];
            proof {
                assert(dv[j2 as int] == self.entries@[j2 as int].deep_view());
                assert(self.entries@[j2 as int].1.deep_view() =~= self.entries@[j2 as int].1@);
            }
            out.push((e.0.clone_key(), clone_bytes(&e.1)));
            j2 += 1;
        }
        proof {
            let t = entries_del(dv, key@);
            assert(t.len() == out@.len());
            assert forall|k: int| 0 <= k < t.len() implies out.deep_view()[k] == t[k] by {
                if k < i {
                    assert(t[k] == dv[k]);
                    lemma_pair_deep_view(out@[k], dv[k]);
                } else {
                    assert(t[k] == dv.skip(i + 1)[k - i]);
                    assert(dv.skip(i + 1)[k - i] == dv[k + 1]);
                    lemma_pair_deep_view(out@[k], dv[k + 1]);
                }
            }
            assert(out.deep_view() =~= t);
        }
        self.entries = out;
    }
}

impl StorageBackend for MemBackend {
    closed spec fn view(&self) -> Entries {
        self.entries.deep_view()
    }

    fn get(&self, key: &Key) -> (r: Option<Vec<u8>>) {
        let ghost dv = self.view();
        proof {
            assert(dv.skip(0) =~= dv);
        }
        let n = self.entries.len();
        let mut i: usize = 0;
        while i < n
            invariant
                n == self.entries@.len(),
                dv == self.view(),
                dv.len() == n,
                0 <= i <= n,
                lookup(dv, key@) == lookup(dv.skip(i as int), key@),
            decreases n - i,
        {
            let e = &self.entries[i];
            proof {
                assert(dv.skip(i as int)[0] == dv[i as int]);
                assert(dv.skip(i as int).skip(1) =~= dv.skip(i + 1));
            }
            if key_eq(&e.0, key) {
                proof {
                    assert(dv[i as int].1 =~= e.1@);
                }
                return Some(clone_bytes(&e.1));
            }
            i += 1;
        }
        proof {
            assert(dv.skip(n as int) =~= Seq::<(Seq<Seq<char>>, Seq<u8>)>::empty());
        }
        None
    }

    fn put(&mut self, key: &Key, value: Vec<u8>) -> (r: Result<(), BackendError>) {
        self.put_entry(key, value);
        Ok(())
    }

    fn delete(&mut self, key: &Key) -> (r: Result<(), BackendError>) {
        self.del_entry(key);
        Ok(())
    }

    fn commit_batch(&mut self, writes: &Vec<(Key, Option<Vec<u8>>)>) -> (r: Result<
        (),
        BackendError,
    >) {
        if self.fail_next_commit {
            self.fail_next_commit = false;
            return Err(BackendError::Io);
        }
        let ghost orig = self.view();
        let ghost wv = writes.deep_view();
        proof {
            assert(wv.take(0) =~= Seq::<WriteOp>::empty());
        }
        let n = writes.len();
        let mut i: usize = 0;
        while i < n
            invariant
                n == writes@.len(),
                wv == writes.deep_view(),
                wv.len() == n,
                0 <= i <= n,
                self.view() == apply_batch(orig, wv.take(i as int)),
            decreases n - i,
        {
            let w = &writes[i];
            proof {
                assert(wv.take(i + 1).drop_last() =~= wv.take(i as int));
                assert(wv.take(i + 1).last() == wv[i as int]);
            }
            match &w.1 {
                Some(v) => {
                    proof {
                        assert(v.deep_view() =~= v@);
                        assert(wv[i as int] == (w.0@, Some(v@)));
                    }
                    self.put_entry(&w.0, clone_bytes(v));
                },
                None => {
                    proof {
                        assert(wv[i as int] == (w.0@, None::<Seq<u8>>));
                    }
                    self.del_entry(&w.0);
                },
            }
            i += 1;
        }
        proof {
            assert(wv.take(n as int) =~= wv);
        }
        Ok(())
    }

    fn scan_prefix(&self, prefix: &Vec<String>) -> (r: Vec<(Key, Vec<u8>)>) {
        let ghost dv = self.view();
        let ghost p = prefix.deep_view();
        let n = self.entries.len();
        let mut out: Vec<(Key, Vec<u8>)> = Vec::new();
        proof {
            assert(dv.take(0) =~= Seq::<(Seq<Seq<char>>, Seq<u8>)>::empty());
        }
        let mut i: usize = 0;
        while i < n
            invariant
                n == self.entries@.len(),
                dv == self.view(),
                p == prefix.deep_view(),
                dv.len() == n,
                0 <= i <= n,
                out@.len() == filter_prefix(dv.take(i as int), p).len(),
                forall|k: int|
                    0 <= k < out@.len() ==> (#[trigger] out@[k]).0@ == filter_prefix(
                        dv.take(i as int),
                        p,
                    )[k].0 && out@[k].1@ == filter_prefix(dv.take(i as int), p)[k].1,
            decreases n - i,
        {
            let e = &self.entries[i];
            proof {
                assert(dv.take(i + 1).drop_last() =~= dv.take(i as int));
                assert(dv.take(i + 1).last() == dv[i as int]);
                assert(dv[i as int] == self.entries@[i as int].deep_view());
                assert(self.entries@[i as int].1.deep_view() =~= self.entries@[i as int].1@);
            }
            if segs_prefix_of_key(prefix, &e.0) {
                out.push((e.0.clone_key(), clone_bytes(&e.1)));
            }
            i += 1;
        }
        proof {
            assert(dv.take(n as int) =~= dv);
            let t = filter_prefix(dv, p);
            assert forall|k: int| 0 <= k < t.len() implies out.deep_view()[k] == t[k] by {
                lemma_pair_deep_view(out@[k], t[k]);
            }
            assert(out.deep_view() =~= t);
        }
        out
    }
}

/// Whether a segment list is a prefix of a key's path.
pub fn segs_prefix_of_key(prefix: &Vec<String>, k: &Key) -> (r: bool)
    ensures
        r == path_is_prefix(prefix.deep_view(), k@),
{
    let n = prefix.len();
    if n > k.segments.len() {
        return false;
    }
    let mut i: usize = 0;
    while i < n
        invariant
            n == prefix@.len(),
            n <= k@.len(),
            0 <= i <= n,
            forall|j: int| 0 <= j < i ==> prefix.deep_view()[j] == #[trigger] k@[j],
        decreases n - i,
    {
        if !str_eq(prefix[i].as_str(), k.segments[i].as_str()) {
            assert(prefix.deep_view()[i as int] != k@[i as int]);
            return false;
        }
        i += 1;
    }
    true
}

} // verus!
