//! The generic storage engine.
//!
//! `Storage` ties codec, keys, a backend and a hasher together: typed
//! reads and writes staged per height, prefix iteration over committed
//! state, and a commit that applies the staged writes through the
//! backend's all-or-nothing batch, folds the committed entries into a
//! root digest and advances the height.

use vstd::prelude::*;

use crate::backend::{
    apply_batch, clone_bytes, entries_sorted, entries_valid, filter_prefix,
    lemma_apply_batch_sorted, lemma_filter_prefix_all, lookup, Entries, StorageBackend, WriteOp,
};
use crate::codec::{DecodeError, Storable};
use crate::hash::StorageHasher;
use crate::key::{key_eq, path_bytes, valid_path, Key};

verus! {

/// Errors the storage engine surfaces.
#[derive(Clone, Copy, Debug, PartialEq, Eq, Structural)]
pub enum StorageError {
    /// The backend could not be opened or handed over.
    Unavailable,
    /// A backend input/output failure while committing.
    Io,
    /// Bytes present at a key did not decode as the requested type:
    /// corruption or a schema mismatch, not absence.
    Decode(DecodeError),
}

/// The latest staged write for `k`: `Some(Some(bytes))` after a staged
/// put, `Some(None)` after a staged delete, `None` when the transaction
/// has not touched `k`.
pub open spec fn staged_lookup(ws: Seq<WriteOp>, k: Seq<Seq<char>>) -> Option<Option<Seq<u8>>>
    decreases ws.len(),
{
    if ws.len() == 0 {
        None
    } else if ws.last().0 == k {
        Some(ws.last().1)
    } else {
        staged_lookup(ws.drop_last(), k)
    }
}

/// The root digest of committed entries: each entry's leaf digest — the
/// hash of the key's byte image combined with the hash of the value —
/// folded left onto the digest of the empty byte string, in stored order.
/// A pure function of the entries, so identical committed state gives an
/// identical root on every node.
pub open spec fn spec_root<H: StorageHasher>(s: Entries) -> Seq<u8>
    decreases s.len(),
{
    if s.len() == 0 {
        H::spec_hash(Seq::empty())
    } else {
        H::spec_combine(
            spec_root::<H>(s.drop_last()),
            H::spec_combine(H::spec_hash(path_bytes(s.last().0)), H::spec_hash(s.last().1)),
        )
    }
}

/// No value of `T` encodes to the bytes of entry `i`.
pub open spec fn undecodable_at<T: Storable>(f: Entries, i: int) -> bool {
    forall|v: T| #[trigger] v.encoding() != f[i].1
}

/// The deep view of a staged write pair is the path and optional bytes it
/// was built from.
proof fn lemma_write_deep_view(p: (Key, Option<Vec<u8>>), q: WriteOp)
    requires
        p.0@ == q.0,
        match p.1 {
            Some(b) => q.1 matches Some(qb) && b@ == qb,
            None => q.1 is None,
        },
    ensures
        p.deep_view() == q,
{
    match p.1 {
        Some(b) => {
            assert(b.deep_view() =~= b@);
        },
        None => {},
    }
}

/// Fold the root digest over scanned entries, in order.
fn fold_root<H: StorageHasher>(hasher: &H, entries: &Vec<(Key, Vec<u8>)>) -> (r: Vec<u8>)
    requires
        entries_valid(entries.deep_view()),
    ensures
        r@ == spec_root::<H>(entries.deep_view()),
{
    let ghost dv = entries.deep_view();
    let empty: Vec<u8> = Vec::new();
    let mut acc = hasher.hash(empty.as_slice());
    proof {
        assert(dv.take(0) =~= Seq::<(Seq<Seq<char>>, Seq<u8>)>::empty());
        assert(acc@ == spec_root::<H>(dv.take(0)));
    }
    let n = entries.len();
    let mut i: usize = 0;
    while i < n
        invariant
            n == entries@.len(),
            dv == entries.deep_view(),
            dv.len() == n,
            entries_valid(dv),
            0 <= i <= n,
            acc@ == spec_root::<H>(dv.take(i as int)),
        decreases n - i,
    {
        let e = &entries[i];
        proof {
            assert(dv[i as int] == entries@[i as int].deep_view());
            assert(entries@[i as int].1.deep_view() =~= entries@[i as int].1@);
            assert(valid_path(e.0@));
        }
        let kb = e.0.to_bytes();
        let kh = hasher.hash(kb.as_slice());
        let vh = hasher.hash(e.1.as_slice());
        let leaf = hasher.combine(kh.as_slice(), vh.as_slice());
        acc = hasher.combine(acc.as_slice(), leaf.as_slice());
        proof {
            assert(dv.take(i + 1).drop_last() =~= dv.take(i as int));
            assert(dv.take(i + 1).last() == dv[i as int]);
        }
        i += 1;
    }
    proof {
        assert(dv.take(n as int) =~= dv);
    }
    acc
}

/// The generic storage engine over a backend `D` and a hasher `H`. It
/// exclusively owns the backend handle for its lifetime; all mutation of
/// the store passes through it.
pub struct Storage<D: StorageBackend, H: StorageHasher> {
    db: D,
    hasher: H,
    staged: Vec<(Key, Option<Vec<u8>>)>,
    height: u64,
    root: Vec<u8>,
}

impl<D: StorageBackend, H: StorageHasher> Storage<D, H> {
    /// The committed key-value entries, in ascending key order.
    pub closed spec fn committed(&self) -> Entries {
        self.db.view()
    }

    /// The staged writes of the open transaction, oldest first.
    pub closed spec fn staged_view(&self) -> Seq<WriteOp> {
        self.staged.deep_view()
    }

    /// The height of the last commit.
    pub closed spec fn height(&self) -> u64 {
        self.height
    }

    /// The root digest of the last commit.
    pub closed spec fn root_view(&self) -> Seq<u8> {
        self.root@
    }

    /// The bytes a read of `k` observes inside the open transaction: the
    /// latest staged write when there is one, else the committed bytes.
    pub open spec fn effective(&self, k: Seq<Seq<char>>) -> Option<Seq<u8>> {
        match staged_lookup(self.staged_view(), k) {
            Some(w) => w,
            None => lookup(self.committed(), k),
        }
    }

    /// A well-formed engine: committed entries sorted under well-formed
    /// keys, staged keys well formed, and the held root derived from the
    /// committed entries.
    pub open spec fn wf(&self) -> bool {
        &&& entries_sorted(self.committed())
        &&& entries_valid(self.committed())
        &&& forall|i: int|
            0 <= i < self.staged_view().len() ==> valid_path(
                (#[trigger] self.staged_view()[i]).0,
            )
        &&& self.root_view() == spec_root::<H>(self.committed())
    }

    /// Open the engine over a backend handle holding sorted entries under
    /// well-formed keys — a fresh store, or one a previous engine
    /// committed. The height restarts at zero and the root is derived
    /// from the entries found.
    pub fn open(db: D, hasher: H) -> (r: Storage<D, H>)
        requires
            entries_sorted(db.view()),
            entries_valid(db.view()),
        ensures
            r.wf(),
            r.committed() == db.view(),
            r.staged_view().len() == 0,
            r.height() == 0,
            r.root_view() == spec_root::<H>(db.view()),
    {
        let empty_prefix: Vec<String> = Vec::new();
        let entries = db.scan_prefix(&empty_prefix);
        proof {
            assert(empty_prefix.deep_view() =~= Seq::<Seq<char>>::empty());
            lemma_filter_prefix_all(db.view(), empty_prefix.deep_view());
        }
        let root = fold_root(&hasher, &entries);
        let r = Storage { db, hasher, staged: Vec::new(), height: 0, root };
        proof {
            assert(r.staged_view() =~= Seq::<WriteOp>::empty());
        }
        r
    }

    /// The height of the last commit.
    pub fn current_height(&self) -> (r: u64)
        ensures
            r == self.height(),
    {
        self.height
    }

    /// The root digest of the last commit.
    pub fn current_root(&self) -> (r: Vec<u8>)
        ensures
            r@ == self.root_view(),
    {
        clone_bytes(&self.root)
    }

    /// Typed read: the value this transaction observes under `key` — the
    /// latest staged write if there is one, else the committed bytes —
    /// decoded as `T`. An absent key gives `Ok(None)`; present bytes that
    /// decode as no `T` value give `StorageError::Decode`.
    pub fn read<T: Storable>(&self, key: &Key) -> (r: Result<Option<T>, StorageError>)
        ensures
            match r {
                Ok(Some(v)) => self.effective(key@) matches Some(b) && v.encoding() == b,
                Ok(None) => self.effective(key@) is None,
                Err(e) => {
                    &&& e matches StorageError::Decode(_)
                    &&& self.effective(key@) matches Some(b) && (forall|v: T|
                        #[trigger] v.encoding() != b)
                },
            },
    {
        let ghost sv = self.staged_view();
        let n = self.staged.len();
        let mut i: usize = n;
        proof {
            assert(sv.take(n as int) =~= sv);
        }
        while i > 0
            invariant
                n == self.staged@.len(),
                sv == self.staged_view(),
                sv.len() == n,
                0 <= i <= n,
                staged_lookup(sv, key@) == staged_lookup(sv.take(i as int), key@),
            decreases i,
        {
            i -= 1;
            let w = &self.staged[i];
            proof {
                assert(sv[i as int] == self.staged@[i as int].deep_view());
                assert(sv.take(i + 1).last() == sv[i as int]);
                assert(sv.take(i + 1).drop_last() =~= sv.take(i as int));
            }
            if key_eq(&w.0, key) {
                match &w.1 {
                    Some(b) => {
                        proof {
                            assert(b.deep_view() =~= b@);
                        }
                        return match T::decode(b.as_slice()) {
                            Ok(v) => Ok(Some(v)),
                            Err(e) => Err(StorageError::Decode(e)),
                        };
                    },
                    None => {
                        return Ok(None);
                    },
                }
            }
        }
        proof {
            assert(sv.take(0) =~= Seq::<WriteOp>::empty());
        }
        match self.db.get(key) {
            Some(b) => match T::decode(b.as_slice()) {
                Ok(v) => Ok(Some(v)),
                Err(e) => Err(StorageError::Decode(e)),
            },
            None => Ok(None),
        }
    }

    /// Typed write: encode the value and stage a put for `key`. Readers
    /// outside this transaction see it only after the next commit, but a
    /// read of the same key in this transaction observes it at once; no
    /// other key's observed value changes.
    pub fn write<T: Storable>(&mut self, key: &Key, value: &T)
        requires
            valid_path(key@),
        ensures
            final (self).staged_view() == old(self).staged_view().push(
                (key@, Some(value.encoding())),
            ),
            final (self).committed() == old(self).committed(),
            final (self).height() == old(self).height(),
            final (self).root_view() == old(self).root_view(),
            final (self).effective(key@) == Some(value.encoding()),
            forall|k2: Seq<Seq<char>>|
                k2 != key@ ==> final (self).effective(k2) == old(self).effective(k2),
            old(self).wf() ==> final (self).wf(),
    {
        let bytes = value.encode();
        let ghost gb = bytes@;
        let w = (key.clone_key(), Some(bytes));
        let ghost gw = w;
        self.staged.push(w);
        proof {
            lemma_write_deep_view(gw, (key@, Some(gb)));
            let sv = old(self).staged_view();
            let sv2 = self.staged_view();
            assert(sv2 =~= sv.push((key@, Some(gb))));
            assert(sv2.drop_last() =~= sv);
            assert forall|k2: Seq<Seq<char>>| k2 != key@ implies self.effective(k2) == old(
                self,
            ).effective(k2) by {
                assert(staged_lookup(sv2, k2) == staged_lookup(sv, k2));
            }
        }
    }

    /// Stage a removal of `key`, with the same staging semantics as a
    /// write: a read of the key in this transaction observes the removal
    /// at once, committed state changes only at the next commit.
    pub fn delete(&mut self, key: &Key)
        requires
            valid_path(key@),
        ensures
            final (self).staged_view() == old(self).staged_view().push((key@, None)),
            final (self).committed() == old(self).committed(),
            final (self).height() == old(self).height(),
            final (self).root_view() == old(self).root_view(),
            final (self).effective(key@) is None,
            forall|k2: Seq<Seq<char>>|
                k2 != key@ ==> final (self).effective(k2) == old(self).effective(k2),
            old(self).wf() ==> final (self).wf(),
    {
        let w = (key.clone_key(), None);
        let ghost gw = w;
        self.staged.push(w);
        proof {
            lemma_write_deep_view(gw, (key@, None));
            let sv = old(self).staged_view();
            let sv2 = self.staged_view();
            assert(sv2 =~= sv.push((key@, None)));
            assert(sv2.drop_last() =~= sv);
            assert forall|k2: Seq<Seq<char>>| k2 != key@ implies self.effective(k2) == old(
                self,
            ).effective(k2) by {
                assert(staged_lookup(sv2, k2) == staged_lookup(sv, k2));
            }
        }
    }

    /// Typed prefix iteration over committed state only: exactly the
    /// committed entries whose keys lie under the prefix, in ascending
    /// key order; staged writes do not appear. Any entry whose bytes
    /// decode as no `T` value aborts the whole scan with
    /// `StorageError::Decode` — a malformed entry under a trusted prefix
    /// is corruption, not absence.
    pub fn iter_prefix<T: Storable>(&self, prefix: &Key) -> (r: Result<
        Vec<(Key, T)>,
        StorageError,
    >)
        ensures
            match r {
                Ok(items) => {
                    &&& items@.len() == filter_prefix(self.committed(), prefix@).len()
                    &&& forall|i: int|
                        0 <= i < items@.len() ==> (#[trigger] items@[i]).0@ == filter_prefix(
                            self.committed(),
                            prefix@,
                        )[i].0 && items@[i].1.encoding() == filter_prefix(
                            self.committed(),
                            prefix@,
                        )[i].1
                },
                Err(e) => {
                    &&& e matches StorageError::Decode(_)
                    &&& exists|i: int|
                        0 <= i < filter_prefix(self.committed(), prefix@).len()
                            && #[trigger] undecodable_at::<T>(
                            filter_prefix(self.committed(), prefix@),
                            i,
                        )
                },
            },
    {
        let raw = self.db.scan_prefix(&prefix.segments);
        let ghost f = filter_prefix(self.committed(), prefix@);
        let n = raw.len();
        let mut items: Vec<(Key, T)> = Vec::new();
        let mut i: usize = 0;
        while i < n
            invariant
                n == raw@.len(),
                f == filter_prefix(self.committed(), prefix@),
                raw.deep_view() == f,
                f.len() == n,
                0 <= i <= n,
                items@.len() == i,
                forall|j: int|
                    0 <= j < i ==> (#[trigger] items@[j]).0@ == f[j].0 && items@[j].1.encoding()
                        == f[j].1,
            decreases n - i,
        {
            let e = &raw[i];
            proof {
                assert(f[i as int] == raw@[i as int].deep_view());
                assert(raw@[i as int].1.deep_view() =~= raw@[i as int].1@);
            }
            match T::decode(e.1.as_slice()) {
                Ok(v) => {
                    items.push((e.0.clone_key(), v));
                },
                Err(err) => {
                    proof {
                        let fp = filter_prefix(self.committed(), prefix@);
                        assert(f == fp);
                        assert(f[i as int].1 == raw@[i as int].1@);
                        assert(forall|v: T| #[trigger] v.encoding() != raw@[i as int].1@);
                        assert(undecodable_at::<T>(fp, i as int));
                        assert((i as int) < fp.len());
                    }
                    return Err(StorageError::Decode(err));
                },
            }
            i += 1;
        }
        Ok(items)
    }

    /// Close out the height: apply every staged write through the
    /// backend's all-or-nothing batch, recompute the root digest over the
    /// full committed key space, advance the height by one and return the
    /// new root. On backend failure the commit fails with
    /// `StorageError::Io` and no state change is observable; a commit
    /// with nothing staged advances the height and keeps the root.
    pub fn commit(&mut self) -> (r: Result<Vec<u8>, StorageError>)
        requires
            old(self).wf(),
            old(self).height() < u64::MAX,
        ensures
            final (self).wf(),
            match r {
                Ok(root) => {
                    &&& final (self).committed() == apply_batch(
                        old(self).committed(),
                        old(self).staged_view(),
                    )
                    &&& final (self).staged_view().len() == 0
                    &&& final (self).height() == old(self).height() + 1
                    &&& root@ == spec_root::<H>(final (self).committed())
                    &&& final (self).root_view() == root@
                    &&& old(self).staged_view().len() == 0 ==> final (self).committed() == old(
                        self,
                    ).committed() && final (self).root_view() == old(self).root_view()
                },
                Err(e) => {
                    &&& e == StorageError::Io
                    &&& final (self).committed() == old(self).committed()
                    &&& final (self).staged_view() == old(self).staged_view()
                    &&& final (self).height() == old(self).height()
                    &&& final (self).root_view() == old(self).root_view()
                },
            },
    {
        let applied = self.db.commit_batch(&self.staged);
        match applied {
            Err(_) => {
                return Err(StorageError::Io);
            },
            Ok(_) => {},
        }
        proof {
            lemma_apply_batch_sorted(old(self).committed(), old(self).staged_view());
        }
        self.staged.clear();
        let empty_prefix: Vec<String> = Vec::new();
        let entries = self.db.scan_prefix(&empty_prefix);
        proof {
            assert(empty_prefix.deep_view() =~= Seq::<Seq<char>>::empty());
            lemma_filter_prefix_all(self.db.view(), empty_prefix.deep_view());
        }
        let root = fold_root(&self.hasher, &entries);
        self.root = root;
        self.height = self.height + 1;
        proof {
            assert(self.staged_view() =~= Seq::<WriteOp>::empty());
        }
        Ok(clone_bytes(&self.root))
    }
}

} // verus!
