//! The protocol operation handlers: the seven request kinds of a
//! remote-filesystem session, answered against the immutable node store
//! with per-handle session state.

use vstd::prelude::*;
use crate::FsError;
use crate::text::clone_bytes;
use crate::tree::{Tree, Qid, Attr, ChildEntry};
use crate::resolve::{resolve, resolve_spec, lemma_deep_view_push, lemma_deep_view_pop};

verus! {

/// Per-handle session state: the absolute path the handle denotes
/// (as segments below the root) and the one-shot read cursor.
pub struct Session {
    pub path: Vec<Vec<u8>>,
    pub consumed: bool,
}

impl Session {
    /// The handle's path as a sequence of byte-string segments.
    pub open spec fn path_view(self) -> Seq<Seq<u8>> {
        self.path.deep_view()
    }
}

/// One packed directory entry, as readdir returns it.
pub struct DirEntry {
    pub qid: Qid,
    pub offset: u64,
    pub typ: u8,
    pub name: Vec<u8>,
}

/// Copies a segment list; the copy denotes the same path.
pub fn clone_segs(p: &Vec<Vec<u8>>) -> (r: Vec<Vec<u8>>)
    ensures
        r.deep_view() == p.deep_view(),
        r@.len() == p@.len(),
{
    let mut r: Vec<Vec<u8>> = Vec::new();
    let mut i: usize = 0;
    while i < p.len()
        invariant
            i <= p@.len(),
            r@.len() == i,
            forall|j: int| 0 <= j < i ==> (#[trigger] r@[j])@ == p@[j]@,
        decreases p.len() - i,
    {
        r.push(clone_bytes(&p[i]));
        i += 1;
    }
    proof {
        assert(r.deep_view() =~= p.deep_view());
    }
    r
}

/// Attach: creates a fresh handle bound to the root, with an unset read
/// cursor, and returns the root's identity.  Never fails.
pub fn attach(t: &Tree) -> (r: (Session, Qid))
    requires
        t.wf(),
    ensures
        r.0.path_view() == Seq::<Seq<u8>>::empty(),
        !r.0.consumed,
        r.1 == t.nodes@[0].qid,
{
    let s = Session { path: Vec::new(), consumed: false };
    proof {
        assert(s.path_view() =~= Seq::<Seq<u8>>::empty());
    }
    (s, t.nodes[0].qid)
}

/// How many leading walk segments resolve, each checked by a fresh
/// resolution of the base path extended by the segments so far.
pub open spec fn walk_count(t: Tree, base: Seq<Seq<u8>>, names: Seq<Seq<u8>>) -> nat
    decreases names.len(),
{
    if names.len() == 0 {
        0
    } else if resolve_spec(t, base.push(names[0])) is None {
        0
    } else {
        (1 + walk_count(t, base.push(names[0]), names.drop_first())) as nat
    }
}

/// Walk: resolves the given name segments in turn from the handle's
/// current path.  If the first segment fails, the walk fails with
/// not-found; a later failure just stops early.  The new handle gets
/// the furthest resolved path and a fresh, unset cursor; the identities
/// of every node reached on the way are returned in order.
pub fn walk(t: &Tree, s: &Session, wnames: &Vec<Vec<u8>>) -> (r: Result<(Session, Vec<Qid>), FsError>)
    requires
        t.wf(),
    ensures
        ({
            let base = s.path_view();
            let names = wnames.deep_view();
            let k = walk_count(*t, base, names) as int;
            match r {
                Err(e) => e == FsError::NotFound && k == 0 && names.len() > 0,
                Ok(p) => (k > 0 || names.len() == 0) && p.0.path_view() == base + names.take(k)
                    && !p.0.consumed && p.1@.len() == k && (forall|i: int|
                    0 <= i < k ==> #[trigger] resolve_spec(*t, base + names.take(i + 1)) is Some)
                    && (forall|i: int|
                    0 <= i < k ==> (#[trigger] p.1@[i]) == t.nodes@[resolve_spec(
                        *t,
                        base + names.take(i + 1),
                    ).unwrap()].qid),
            }
        }),
{
    let ghost base = s.path_view();
    let ghost names = wnames.deep_view();
    let mut cur: Vec<Vec<u8>> = clone_segs(&s.path);
    let mut qids: Vec<Qid> = Vec::new();
    let mut i: usize = 0;
    proof {
        assert(cur.deep_view() =~~= base + names.take(0));
        assert(names.skip(0) =~~= names);
    }
    while i < wnames.len()
        invariant
            t.wf(),
            base == s.path_view(),
            names == wnames.deep_view(),
            wnames@.len() == names.len(),
            i <= names.len(),
            cur.deep_view() == base + names.take(i as int),
            qids@.len() == i,
            forall|j: int|
                0 <= j < i ==> #[trigger] resolve_spec(*t, base + names.take(j + 1)) is Some,
            forall|j: int|
                0 <= j < i ==> (#[trigger] qids@[j]) == t.nodes@[resolve_spec(
                    *t,
                    base + names.take(j + 1),
                ).unwrap()].qid,
            walk_count(*t, base, names) == i + walk_count(
                *t,
                cur.deep_view(),
                names.skip(i as int),
            ),
        decreases wnames.len() - i,
    {
        let ghost prev_vec = cur;
        let ghost prev = cur.deep_view();
        let seg = clone_bytes(&wnames[i]);
        let ghost gseg = seg;
        cur.push(seg);
        proof {
            lemma_deep_view_push(prev_vec, cur, gseg);
            assert(names[i as int] =~= gseg@);
            assert(cur.deep_view() == prev.push(names[i as int]));
            assert(prev.push(names[i as int]) =~= base + names.take(i as int + 1));
            assert(names.skip(i as int)[0] == names[i as int]);
            assert(names.skip(i as int).drop_first() =~= names.skip(i as int + 1));
        }
        match resolve(t, &cur) {
            Some(nd) => {
                qids.push(t.nodes[nd].qid);
                proof {
                    assert(walk_count(*t, prev, names.skip(i as int)) == 1 + walk_count(
                        *t,
                        cur.deep_view(),
                        names.skip(i as int + 1),
                    ));
                }
                i += 1;
            },
            None => {
                proof {
                    assert(walk_count(*t, prev, names.skip(i as int)) == 0);
                }
                if i == 0 {
                    return Err(FsError::NotFound);
                }
                let ghost popped_vec = cur;
                cur.pop();
                proof {
                    lemma_deep_view_pop(popped_vec, cur);
                    assert(prev.push(names[i as int]).drop_last() =~= prev);
                    assert(cur.deep_view() == base + names.take(i as int));
                    assert(walk_count(*t, base, names) == i);
                }
                let ghost k = walk_count(*t, base, names) as int;
                proof {
                    assert(names.take(k) =~= names.take(i as int));
                }
                return Ok((Session { path: cur, consumed: false }, qids));
            },
        }
    }
    proof {
        assert(names.skip(i as int).len() == 0);
        assert(walk_count(*t, cur.deep_view(), names.skip(i as int)) == 0);
        assert(walk_count(*t, base, names) == i);
        let k = walk_count(*t, base, names) as int;
        assert(names.take(k) =~= names.take(i as int));
    }
    Ok((Session { path: cur, consumed: false }, qids))
}

/// Getattr: the identity and attributes of the node the handle denotes,
/// or invalid if its path no longer resolves.
pub fn getattr(t: &Tree, s: &Session) -> (r: Result<(Qid, Attr), FsError>)
    requires
        t.wf(),
    ensures
        ({
            let res = resolve_spec(*t, s.path_view());
            match r {
                Ok(p) => res is Some && p.0 == t.nodes@[res.unwrap()].qid && p.1
                    == t.nodes@[res.unwrap()].attr,
                Err(e) => res is None && e == FsError::Invalid,
            }
        }),
{
    match resolve(t, &s.path) {
        Some(nd) => Ok((t.nodes[nd].qid, t.nodes[nd].attr)),
        None => Err(FsError::Invalid),
    }
}

/// Open: marks the handle's node as opened for reading and returns its
/// identity; the tree is immutable, so no locking is involved.
pub fn open(t: &Tree, s: &Session) -> (r: Result<Qid, FsError>)
    requires
        t.wf(),
    ensures
        ({
            let res = resolve_spec(*t, s.path_view());
            match r {
                Ok(q) => res is Some && q == t.nodes@[res.unwrap()].qid,
                Err(e) => res is None && e == FsError::Invalid,
            }
        }),
{
    match resolve(t, &s.path) {
        Some(nd) => Ok(t.nodes[nd].qid),
        None => Err(FsError::Invalid),
    }
}

/// The wire size of one packed directory entry: a 13-byte identity, an
/// 8-byte ordinal, a 1-byte type, a 2-byte name length, and the name.
pub open spec fn dirent_size(name: Seq<u8>) -> int {
    24 + name.len() as int
}

/// How many consecutive children, starting at ordinal `i` with `used`
/// bytes already packed, fit greedily within `budget` bytes: packing
/// stops before the first entry that would overflow the budget.
pub open spec fn pack_count(cs: Seq<ChildEntry>, i: int, used: int, budget: int) -> nat
    decreases cs.len() - i,
{
    if i < 0 || i >= cs.len() {
        0
    } else if used + dirent_size(cs[i].name@) > budget {
        0
    } else {
        (1 + pack_count(cs, i + 1, used + dirent_size(cs[i].name@), budget)) as nat
    }
}

/// Readdir: enumerates the children of the handle's directory starting
/// at ordinal `off`, greedily packing entries while the running packed
/// size stays within the byte budget `count`; it stops before
/// overflowing, never truncating an entry.  Each entry carries the
/// child's identity, its ordinal plus two, a zero type, and its name.
pub fn readdir(t: &Tree, s: &Session, off: u64, count: u32) -> (r: Result<Vec<DirEntry>, FsError>)
    requires
        t.wf(),
    ensures
        ({
            let res = resolve_spec(*t, s.path_view());
            match r {
                Err(e) => e == FsError::Invalid && res is None,
                Ok(es) => res is Some && ({
                    let cs = t.nodes@[res.unwrap()].children@;
                    let k = pack_count(cs, off as int, 0, count as int) as int;
                    es@.len() == k && (forall|j: int|
                        0 <= j < k ==> (#[trigger] es@[j]).qid == t.nodes@[cs[off + j].idx as int].qid)
                        && (forall|j: int| 0 <= j < k ==> (#[trigger] es@[j]).offset as int == 2 + off + j)
                        && (forall|j: int| 0 <= j < k ==> (#[trigger] es@[j]).typ == 0) && (forall|j: int|
                        0 <= j < k ==> (#[trigger] es@[j]).name@ == cs[off + j].name@)
                }),
            }
        }),
{
    let nd = match resolve(t, &s.path) {
        Some(n) => n,
        None => {
            return Err(FsError::Invalid);
        },
    };
    let ghost css = t.nodes@[nd as int].children@;
    let out: Vec<DirEntry> = Vec::new();
    if off >= t.nodes[nd].children.len() as u64 {
        proof {
            assert(pack_count(css, off as int, 0, count as int) == 0);
        }
        return Ok(out);
    }
    let start = off as usize;
    let mut out = out;
    let mut i: usize = start;
    let mut used: u64 = 0;
    while i < t.nodes[nd].children.len()
        invariant
            t.wf(),
            nd < t.nodes@.len(),
            resolve_spec(*t, s.path_view()) == Some(nd as int),
            css == t.nodes@[nd as int].children@,
            start == off as int,
            start <= i <= css.len(),
            css.len() <= crate::tree::SIZE_CAP,
            used <= count,
            out@.len() == i - start,
            pack_count(css, start as int, 0, count as int) == (i - start) + pack_count(
                css,
                i as int,
                used as int,
                count as int,
            ),
            forall|j: int|
                0 <= j < i - start ==> (#[trigger] out@[j]).qid == t.nodes@[css[off + j].idx as int].qid,
            forall|j: int| 0 <= j < i - start ==> (#[trigger] out@[j]).offset as int == 2 + off + j,
            forall|j: int| 0 <= j < i - start ==> (#[trigger] out@[j]).typ == 0,
            forall|j: int| 0 <= j < i - start ==> (#[trigger] out@[j]).name@ == css[off + j].name@,
        decreases t.nodes@[nd as int].children@.len() - i,
    {
        let name_len = t.nodes[nd].children[i].name.len();
        proof {
            assert(css[i as int].name@.len() <= crate::tree::SIZE_CAP);
        }
        let size: u64 = 24 + name_len as u64;
        if used + size > count as u64 {
            proof {
                assert(pack_count(css, i as int, used as int, count as int) == 0);
            }
            return Ok(out);
        }
        let child_idx = t.nodes[nd].children[i].idx;
        proof {
            assert(css[i as int].idx < t.nodes@.len());
        }
        out.push(
            DirEntry {
                qid: t.nodes[child_idx].qid,
                offset: 2 + (i as u64),
                typ: 0,
                name: clone_bytes(&t.nodes[nd].children[i].name),
            },
        );
        proof {
            assert(pack_count(css, i as int, used as int, count as int) == 1 + pack_count(
                css,
                i as int + 1,
                used as int + dirent_size(css[i as int].name@),
                count as int,
            ));
        }
        used = used + size;
        i = i + 1;
    }
    proof {
        assert(pack_count(css, i as int, used as int, count as int) == 0);
    }
    Ok(out)
}

/// What one read call yields and leaves behind: the whole content and a
/// set cursor if the cursor was unset, an empty buffer (and a still-set
/// cursor) otherwise.
pub open spec fn read_step(consumed: bool, content: Seq<u8>) -> (Seq<u8>, bool) {
    if consumed {
        (Seq::empty(), true)
    } else {
        (content, true)
    }
}

/// Read: single-shot semantics.  The first read on a handle returns the
/// node's entire content as one buffer; every later read on the same
/// handle returns an empty buffer.  The requested offset and count play
/// no part in the result.
pub fn read(t: &Tree, s: &mut Session, _offset: u64, _count: u32) -> (r: Result<Vec<u8>, FsError>)
    requires
        t.wf(),
    ensures
        final(s).path_view() == old(s).path_view(),
        ({
            let res = resolve_spec(*t, old(s).path_view());
            match r {
                Ok(buf) => res is Some && ({
                    let step = read_step(old(s).consumed, t.nodes@[res.unwrap()].data@);
                    buf@ == step.0 && final(s).consumed == step.1
                }),
                Err(e) => res is None && e == FsError::Invalid && final(s).consumed == old(
                    s,
                ).consumed,
            }
        }),
{
    let nd = match resolve(t, &s.path) {
        Some(n) => n,
        None => {
            return Err(FsError::Invalid);
        },
    };
    if s.consumed {
        Ok(Vec::new())
    } else {
        s.consumed = true;
        Ok(clone_bytes(&t.nodes[nd].data))
    }
}

/// Clunk: releases a handle by discarding its session state.  The tree
/// is untouched and nothing needs flushing, so it always succeeds.
pub fn clunk(_s: Session) {
}

} // verus!
