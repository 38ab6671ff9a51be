//! The path resolver: maps an absolute path, given as a sequence of
//! name segments below the root, to an arena index of the node store.
//! Only the root itself, one segment (a record directory) and two
//! segments (an attribute file) can resolve; relative markers never do.

use vstd::prelude::*;
use crate::tree::{Tree, find_child, find_child_exec, has_name, name_pos};

verus! {

/// Pushing a segment onto a segment list appends its bytes to the
/// list's path view.
pub proof fn lemma_deep_view_push(v: Vec<Vec<u8>>, w: Vec<Vec<u8>>, x: Vec<u8>)
    requires
        w@ == v@.push(x),
    ensures
        w.deep_view() == v.deep_view().push(x@),
{
    assert forall|j: int| 0 <= j < w@.len() implies w.deep_view()[j] == v.deep_view().push(x@)[j] by {
        if j < v@.len() {
            assert(w@[j] == v@[j]);
            assert(w.deep_view()[j] == w@[j].deep_view());
            assert(v.deep_view()[j] == v@[j].deep_view());
        } else {
            assert(w@[j] == x);
            assert(w.deep_view()[j] == x.deep_view());
            assert(x.deep_view() =~= x@);
        }
    }
    assert(w.deep_view() =~= v.deep_view().push(x@));
}

/// Dropping the last segment of a segment list drops the last element
/// of its path view.
pub proof fn lemma_deep_view_pop(v: Vec<Vec<u8>>, w: Vec<Vec<u8>>)
    requires
        v@.len() > 0,
        w@ == v@.drop_last(),
    ensures
        w.deep_view() == v.deep_view().drop_last(),
{
    assert forall|j: int| 0 <= j < w@.len() implies w.deep_view()[j] == v.deep_view().drop_last()[j] by {
        assert(w@[j] == v@[j]);
        assert(w.deep_view()[j] == w@[j].deep_view());
        assert(v.deep_view()[j] == v@[j].deep_view());
    }
    assert(w.deep_view() =~= v.deep_view().drop_last());
}

/// The slash-separated segments of a byte path: maximal nonempty runs
/// of non-slash bytes, so repeated and trailing slashes collapse.
pub open spec fn split_segs(p: Seq<u8>) -> Seq<Seq<u8>>
    decreases p.len(),
{
    if p.len() == 0 {
        Seq::empty()
    } else {
        let q = p.drop_last();
        let c = p.last();
        let rest = split_segs(q);
        if c == 47 {
            rest
        } else if q.len() == 0 || q.last() == 47 || rest.len() == 0 {
            rest.push(seq![c])
        } else {
            rest.update(rest.len() - 1, rest.last().push(c))
        }
    }
}

/// Splits a byte path into its slash-separated segments.
pub fn parse_segs(p: &Vec<u8>) -> (r: Vec<Vec<u8>>)
    ensures
        r.deep_view() == split_segs(p@),
{
    let mut done: Vec<Vec<u8>> = Vec::new();
    let mut curseg: Vec<u8> = Vec::new();
    let mut i: usize = 0;
    proof {
        assert(p@.take(0) =~= Seq::<u8>::empty());
        assert(split_segs(p@.take(0)) =~= done.deep_view());
    }
    while i < p.len()
        invariant
            i <= p@.len(),
            curseg@.len() == 0 ==> i == 0 || p@[i - 1] == 47,
            curseg@.len() == 0 ==> split_segs(p@.take(i as int)) == done.deep_view(),
            curseg@.len() > 0 ==> p@[i - 1] != 47 && split_segs(p@.take(i as int))
                == done.deep_view().push(curseg@),
        decreases p.len() - i,
    {
        proof {
            assert(p@.take(i as int + 1).drop_last() =~= p@.take(i as int));
            assert(p@.take(i as int + 1).last() == p@[i as int]);
        }
        let c = p[i];
        if c == 47 {
            if curseg.len() > 0 {
                let ghost done_pre = done;
                let ghost gseg = curseg;
                done.push(curseg);
                proof {
                    lemma_deep_view_push(done_pre, done, gseg);
                }
                curseg = Vec::new();
            }
            proof {
                assert(split_segs(p@.take(i as int + 1)) == split_segs(p@.take(i as int)));
            }
        } else {
            if curseg.len() == 0 {
                curseg.push(c);
                proof {
                    assert(curseg@ =~= seq![c]);
                    assert(split_segs(p@.take(i as int + 1)) == split_segs(p@.take(i as int)).push(
                        seq![c],
                    ));
                }
            } else {
                let ghost oldseg = curseg@;
                curseg.push(c);
                proof {
                    let rest = done.deep_view().push(oldseg);
                    assert(split_segs(p@.take(i as int)) == rest);
                    assert(rest.len() == done.deep_view().len() + 1);
                    assert(split_segs(p@.take(i as int + 1)) == rest.update(
                        rest.len() - 1,
                        rest.last().push(c),
                    ));
                    assert(rest.last() == oldseg);
                    assert(curseg@ == oldseg.push(c));
                    assert(rest.update(rest.len() - 1, oldseg.push(c)) =~= done.deep_view().push(
                        curseg@,
                    ));
                }
            }
        }
        i += 1;
    }
    proof {
        assert(p@.take(i as int) =~= p@);
    }
    if curseg.len() > 0 {
        let ghost done_pre = done;
        let ghost gseg = curseg;
        done.push(curseg);
        proof {
            lemma_deep_view_push(done_pre, done, gseg);
        }
    }
    done
}

/// A literal segment: anything but the relative markers `.` and `..`.
pub open spec fn seg_ok(s: Seq<u8>) -> bool {
    s != seq![46u8] && s != seq![46u8, 46u8]
}

/// Looks the segment up among the children of node `d`, failing on a
/// relative marker.
pub open spec fn child_lookup(t: Tree, d: int, seg: Seq<u8>) -> Option<int> {
    if seg_ok(seg) {
        find_child(t.nodes@[d].children@, seg)
    } else {
        None
    }
}

/// One descent step: from a resolved node (or an already failed
/// resolution) through one segment.
pub open spec fn step_spec(t: Tree, at: Option<int>, seg: Seq<u8>) -> Option<int> {
    match at {
        Some(d) => child_lookup(t, d, seg),
        None => None,
    }
}

/// Resolution of an absolute path: the empty segment list is the root;
/// one or two segments descend from the root; anything longer fails.
pub open spec fn resolve_spec(t: Tree, segs: Seq<Seq<u8>>) -> Option<int> {
    if segs.len() == 0 {
        Some(0int)
    } else if segs.len() == 1 {
        step_spec(t, Some(0int), segs[0])
    } else if segs.len() == 2 {
        step_spec(t, step_spec(t, Some(0int), segs[0]), segs[1])
    } else {
        None
    }
}

/// A successful step lands on a node of the tree.
pub proof fn lemma_step_in_bounds(t: Tree, at: Option<int>, seg: Seq<u8>)
    requires
        t.wf(),
        at is Some ==> 0 <= at.unwrap() < t.nodes@.len(),
        step_spec(t, at, seg) is Some,
    ensures
        0 <= step_spec(t, at, seg).unwrap() < t.nodes@.len(),
{
    let d = at.unwrap();
    let cs = t.nodes@[d].children@;
    assert(has_name(cs, seg));
    let k = name_pos(cs, seg);
    assert(0 <= k < cs.len() && cs[k].name@ == seg);
    assert(cs[k].idx < t.nodes@.len());
}

/// Decides whether a segment is literal (neither `.` nor `..`).
pub fn seg_ok_exec(s: &Vec<u8>) -> (r: bool)
    ensures
        r == seg_ok(s@),
{
    if s.len() == 1 && s[0] == 46 {
        proof {
            assert(s@ =~= seq![46u8]);
        }
        false
    } else if s.len() == 2 && s[0] == 46 && s[1] == 46 {
        proof {
            assert(s@ =~= seq![46u8, 46u8]);
        }
        false
    } else {
        proof {
            assert(s@ != seq![46u8]) by {
                if s@ == seq![46u8] {
                    assert(s@.len() == 1);
                    assert(s@[0] == 46u8);
                }
            }
            assert(s@ != seq![46u8, 46u8]) by {
                if s@ == seq![46u8, 46u8] {
                    assert(s@.len() == 2);
                    assert(s@[0] == 46u8);
                    assert(s@[1] == 46u8);
                }
            }
        }
        true
    }
}

/// Resolves an absolute path against the tree, by exact, case-sensitive
/// segment match, as `resolve_spec` describes.
pub fn resolve(t: &Tree, segs: &Vec<Vec<u8>>) -> (r: Option<usize>)
    requires
        t.wf(),
    ensures
        match r {
            Some(i) => resolve_spec(*t, segs.deep_view()) == Some(i as int) && i < t.nodes@.len(),
            None => resolve_spec(*t, segs.deep_view()) is None,
        },
{
    proof {
        assert(segs.deep_view().len() == segs@.len());
    }
    if segs.len() == 0 {
        return Some(0);
    }
    if segs.len() > 2 {
        return None;
    }
    proof {
        assert(segs.deep_view()[0] == segs@[0]@);
    }
    if !seg_ok_exec(&segs[0]) {
        return None;
    }
    let d = match find_child_exec(&t.nodes[0].children, &segs[0]) {
        Some(d) => d,
        None => {
            return None;
        },
    };
    proof {
        lemma_step_in_bounds(*t, Some(0int), segs.deep_view()[0]);
    }
    if segs.len() == 1 {
        return Some(d);
    }
    proof {
        assert(segs.deep_view()[1] == segs@[1]@);
    }
    if !seg_ok_exec(&segs[1]) {
        return None;
    }
    match find_child_exec(&t.nodes[d].children, &segs[1]) {
        Some(f) => {
            proof {
                lemma_step_in_bounds(
                    *t,
                    step_spec(*t, Some(0int), segs.deep_view()[0]),
                    segs.deep_view()[1],
                );
            }
            Some(f)
        },
        None => None,
    }
}


/// Resolves a textual path against the tree.  The path must be
/// absolute (begin with the root marker `/`); its slash-separated
/// segments are then resolved below the root, so `/` is the root,
/// `/name` a record directory and `/name/attr` an attribute file.
pub fn resolve_path(t: &Tree, path: &Vec<u8>) -> (r: Option<usize>)
    requires
        t.wf(),
    ensures
        (path@.len() == 0 || path@[0] != 47) ==> r is None,
        path@.len() > 0 && path@[0] == 47 ==> match r {
            Some(i) => resolve_spec(*t, split_segs(path@)) == Some(i as int) && i
                < t.nodes@.len(),
            None => resolve_spec(*t, split_segs(path@)) is None,
        },
{
    if path.len() == 0 {
        return None;
    }
    if path[0] != 47 {
        return None;
    }
    let segs = parse_segs(path);
    resolve(t, &segs)
}

} // verus!
