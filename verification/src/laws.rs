//! The library-wide laws, each stated over the spec functions that the
//! operation handlers' own contracts use, and proved once and for all.

use vstd::prelude::*;
use crate::tree::{Tree, NodeKind, ChildEntry, unique_names};
use crate::resolve::{resolve_spec, split_segs};
use crate::ops::{walk_count, pack_count, dirent_size, read_step};

verus! {

/// Every node's identity is unique tree-wide: two distinct nodes of a
/// well-formed tree never share an identity.  Together with `build`'s
/// node count of `1 + 7 * records`, this is the shape guarantee of the
/// node store.
pub proof fn lemma_node_identities_unique(t: Tree)
    requires
        t.wf(),
    ensures
        forall|i: int, j: int|
            0 <= i < t.nodes@.len() && 0 <= j < t.nodes@.len() && i != j ==> (
            #[trigger] t.nodes@[i]).qid != (#[trigger] t.nodes@[j]).qid,
{
}

/// Resolving the literal root path — no segments, or the bare textual
/// path `/` — always succeeds, on every call, and lands on the same
/// node — the root — so repeated resolutions return the same identity.
pub proof fn lemma_resolve_root(t: Tree)
    requires
        t.wf(),
    ensures
        resolve_spec(t, Seq::<Seq<u8>>::empty()) == Some(0int),
        resolve_spec(t, split_segs(seq![47u8])) == Some(0int),
        t.nodes@[0].qid.kind == NodeKind::Dir,
{
    assert(seq![47u8].drop_last() =~= Seq::<u8>::empty());
    assert(split_segs(Seq::<u8>::empty()) == Seq::<Seq<u8>>::empty());
    assert(split_segs(seq![47u8]) == Seq::<Seq<u8>>::empty());
}

/// The total packed size of all children from ordinal `i` on.
pub open spec fn total_size(cs: Seq<ChildEntry>, i: int) -> int
    decreases cs.len() - i,
{
    if i < 0 || i >= cs.len() {
        0
    } else {
        dirent_size(cs[i].name@) + total_size(cs, i + 1)
    }
}

pub proof fn lemma_total_size_nonneg(cs: Seq<ChildEntry>, i: int)
    ensures
        total_size(cs, i) >= 0,
    decreases cs.len() - i,
{
    if 0 <= i < cs.len() {
        lemma_total_size_nonneg(cs, i + 1);
    }
}

/// Greedy packing takes everything that remains whenever the budget
/// covers the remaining total.
pub proof fn lemma_pack_all(cs: Seq<ChildEntry>, i: int, used: int, budget: int)
    requires
        0 <= i <= cs.len(),
        used + total_size(cs, i) <= budget,
    ensures
        pack_count(cs, i, used, budget) == cs.len() - i,
    decreases cs.len() - i,
{
    if i < cs.len() {
        lemma_total_size_nonneg(cs, i + 1);
        lemma_pack_all(cs, i + 1, used + dirent_size(cs[i].name@), budget);
    }
}

/// Readdir completeness: for any directory and any byte budget large
/// enough for the whole child list, packing from offset 0 returns
/// exactly every child, in order — no omissions, and no duplicates,
/// since a well-formed directory's child names are unique.
pub proof fn lemma_readdir_complete(t: Tree, d: int, budget: int)
    requires
        t.wf(),
        0 <= d < t.nodes@.len(),
        total_size(t.nodes@[d].children@, 0) <= budget,
    ensures
        pack_count(t.nodes@[d].children@, 0, 0, budget) == t.nodes@[d].children@.len(),
        unique_names(t.nodes@[d].children@),
{
    lemma_pack_all(t.nodes@[d].children@, 0, 0, budget);
}

/// Single-shot read: from a fresh cursor, the first read yields the
/// whole registered content exactly once and sets the cursor; every
/// read with a set cursor yields an empty buffer and leaves the cursor
/// set, so all later reads stay empty — independent of the offset and
/// count a caller asks for, which `read_step` does not even mention.
pub proof fn lemma_read_single_shot(content: Seq<u8>)
    ensures
        read_step(false, content).0 == content,
        read_step(false, content).1 == true,
        read_step(read_step(false, content).1, content).0 == Seq::<u8>::empty(),
        read_step(true, content).0 == Seq::<u8>::empty(),
        read_step(true, content).1 == true,
{
}

/// Walking a single unknown first segment from the root resolves
/// nothing, which `walk`'s contract turns into a not-found failure.
pub proof fn lemma_walk_unknown_first(t: Tree, name: Seq<u8>)
    requires
        t.wf(),
        resolve_spec(t, seq![name]) is None,
    ensures
        walk_count(t, Seq::<Seq<u8>>::empty(), seq![name]) == 0,
        seq![name].len() > 0,
{
    assert(Seq::<Seq<u8>>::empty().push(name) =~= seq![name]);
}

/// Walking a known segment followed by an unknown one resolves exactly
/// the first, which `walk`'s contract turns into a successful reply
/// carrying one identity — not an error.
pub proof fn lemma_walk_known_unknown(t: Tree, known: Seq<u8>, unknown: Seq<u8>)
    requires
        t.wf(),
        resolve_spec(t, seq![known]) is Some,
        resolve_spec(t, seq![known, unknown]) is None,
    ensures
        walk_count(t, Seq::<Seq<u8>>::empty(), seq![known, unknown]) == 1,
{
    let names = seq![known, unknown];
    assert(Seq::<Seq<u8>>::empty().push(names[0]) =~= seq![known]);
    assert(names.drop_first() =~= seq![unknown]);
    assert(seq![known].push(unknown) =~= seq![known, unknown]);
    assert(walk_count(t, seq![known], seq![unknown]) == 0);
}

/// Attach idempotence: two attaches hand out two independent handles,
/// each with a fresh cursor (as `attach`'s contract states), and each
/// one's reads follow the single-shot pattern on its own content —
/// `read` takes only the one session it is given, and the tree is
/// never changed, so reads through one handle cannot disturb the other.
pub proof fn lemma_fresh_handles_independent(c1: Seq<u8>, c2: Seq<u8>)
    ensures
        read_step(false, c1).0 == c1 && read_step(false, c1).1,
        read_step(false, c2).0 == c2 && read_step(false, c2).1,
        read_step(read_step(false, c1).1, c1).0 == Seq::<u8>::empty(),
        read_step(read_step(false, c2).1, c2).0 == Seq::<u8>::empty(),
{
}

} // verus!
