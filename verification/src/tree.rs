//! The node store: an immutable tree of nodes built once from a record
//! set.  Nodes live in an arena (a vector indexed by `usize`); each
//! directory's children are an association list from name to arena index.

use vstd::prelude::*;
use crate::text::{NL, dec_of, num_line, text_line, clone_bytes, bytes_eq};

verus! {

/// Whether a node is a directory or a regular file.
#[derive(Clone, Copy, Debug, PartialEq, Eq, Structural)]
pub enum NodeKind {
    Dir,
    File,
}

/// A node's identity: its kind and a numeric inode, globally unique
/// across the tree and stable for the tree's lifetime.
#[derive(Clone, Copy, Debug, PartialEq, Eq, Structural)]
pub struct Qid {
    pub kind: NodeKind,
    pub inode: u64,
}

/// A point in time, in seconds and nanoseconds.
#[derive(Clone, Copy, Debug, PartialEq, Eq, Structural)]
pub struct Timespec {
    pub sec: u64,
    pub nsec: u64,
}

/// Fixed read-only metadata of a node.
#[derive(Clone, Copy, Debug, PartialEq, Eq, Structural)]
pub struct Attr {
    pub mode: u32,
    pub uid: u32,
    pub gid: u32,
    pub nlink: u64,
    pub rdev: u64,
    pub size: u64,
    pub blksize: u64,
    pub blocks: u64,
    pub atime: Timespec,
    pub mtime: Timespec,
    pub ctime: Timespec,
}

/// Directory bit of the permission word, plus read and traverse for
/// owner, group and other.
pub const DIR_MODE: u32 = 0o040000 | 0o400 | 0o040 | 0o004 | 0o100 | 0o010 | 0o001;

/// Regular-file bit of the permission word, plus read for owner, group
/// and other.
pub const FILE_MODE: u32 = 0o100000 | 0o400 | 0o040 | 0o004;

/// The attributes every node gets at construction: fixed permission
/// bits, the given owner and group, link count 1, nominal size and
/// block placeholders, and all three timestamps at construction time.
pub open spec fn spec_attr(is_dir: bool, uid: u32, gid: u32, now: Timespec) -> Attr {
    Attr {
        mode: if is_dir {
            DIR_MODE
        } else {
            FILE_MODE
        },
        uid,
        gid,
        nlink: 1,
        rdev: 0,
        size: 0,
        blksize: 1,
        blocks: 1,
        atime: now,
        mtime: now,
        ctime: now,
    }
}

/// Builds the fixed read-only attributes of a node.
pub fn make_attr(is_dir: bool, uid: u32, gid: u32, now: Timespec) -> (a: Attr)
    ensures
        a == spec_attr(is_dir, uid, gid, now),
{
    Attr {
        mode: if is_dir {
            DIR_MODE
        } else {
            FILE_MODE
        },
        uid,
        gid,
        nlink: 1,
        rdev: 0,
        size: 0,
        blksize: 1,
        blocks: 1,
        atime: now,
        mtime: now,
        ctime: now,
    }
}

/// One entry of a directory's child list: a name and the arena index of
/// the child node it denotes.
pub struct ChildEntry {
    pub name: Vec<u8>,
    pub idx: usize,
}

/// A filesystem node.  `data` is empty for directories; `children` is
/// empty for files.
pub struct Node {
    pub name: Vec<u8>,
    pub qid: Qid,
    pub attr: Attr,
    pub data: Vec<u8>,
    pub children: Vec<ChildEntry>,
}

/// The node store: an arena of nodes with the root at index 0.
pub struct Tree {
    pub nodes: Vec<Node>,
}

/// No two entries of a child list carry the same name.
pub open spec fn unique_names(cs: Seq<ChildEntry>) -> bool {
    forall|i: int, j: int| 0 <= i < j < cs.len() ==> cs[i].name@ != cs[j].name@
}

/// Some entry of `cs` carries the name `n`.
pub open spec fn has_name(cs: Seq<ChildEntry>, n: Seq<u8>) -> bool {
    exists|i: int| 0 <= i < cs.len() && cs[i].name@ == n
}

/// A position of an entry of `cs` carrying `n` (meaningful when one exists).
pub open spec fn name_pos(cs: Seq<ChildEntry>, n: Seq<u8>) -> int {
    choose|i: int| 0 <= i < cs.len() && cs[i].name@ == n
}

/// The arena index the child list maps `n` to, if any.
pub open spec fn find_child(cs: Seq<ChildEntry>, n: Seq<u8>) -> Option<int> {
    if has_name(cs, n) {
        Some(cs[name_pos(cs, n)].idx as int)
    } else {
        None
    }
}

/// An upper bound on child-list lengths and name lengths, so that the
/// directory-entry size arithmetic of readdir cannot overflow.
pub const SIZE_CAP: u64 = 0xffff_ffff;

impl Tree {
    /// Well-formedness: the root is a directory at index 0, every node's
    /// inode equals its arena index (hence identities are unique), child
    /// references stay inside the arena, child names are unique within a
    /// directory, and files have no children.
    pub open spec fn wf(self) -> bool {
        &&& 1 <= self.nodes@.len()
        &&& self.nodes@[0].qid.kind == NodeKind::Dir
        &&& forall|i: int|
            0 <= i < self.nodes@.len() ==> (#[trigger] self.nodes@[i]).qid.inode == i
        &&& forall|i: int|
            0 <= i < self.nodes@.len() ==> (#[trigger] self.nodes@[i]).children@.len()
                <= SIZE_CAP
        &&& forall|i: int, j: int|
            0 <= i < self.nodes@.len() && 0 <= j < (#[trigger] self.nodes@[i]).children@.len()
                ==> (#[trigger] self.nodes@[i].children@[j]).idx < self.nodes@.len()
                && self.nodes@[i].children@[j].name@.len() <= SIZE_CAP
        &&& forall|i: int|
            0 <= i < self.nodes@.len() ==> unique_names((#[trigger] self.nodes@[i]).children@)
        &&& forall|i: int|
            0 <= i < self.nodes@.len() && (#[trigger] self.nodes@[i]).qid.kind == NodeKind::File
                ==> self.nodes@[i].children@.len() == 0
    }
}

/// Finds the arena index a child list maps the name `n` to, by exact
/// byte-for-byte match.
pub fn find_child_exec(cs: &Vec<ChildEntry>, n: &Vec<u8>) -> (r: Option<usize>)
    requires
        unique_names(cs@),
    ensures
        match r {
            Some(x) => find_child(cs@, n@) == Some(x as int),
            None => find_child(cs@, n@) is None,
        },
{
    let mut i: usize = 0;
    while i < cs.len()
        invariant
            unique_names(cs@),
            i <= cs@.len(),
            forall|j: int| 0 <= j < i ==> cs@[j].name@ != n@,
        decreases cs.len() - i,
    {
        if bytes_eq(&cs[i].name, n) {
            proof {
                assert(has_name(cs@, n@));
                let k = name_pos(cs@, n@);
                assert(0 <= k < cs@.len() && cs@[k].name@ == n@);
                assert(k == i);
            }
            return Some(cs[i].idx);
        }
        i += 1;
    }
    proof {
        assert(!has_name(cs@, n@));
    }
    None
}

/// One source record: a display name plus the six fixed attribute
/// fields.  `salt_text` carries the salt content already rendered as
/// decimal text (without the trailing newline), since that field is a
/// floating-point quantity in the data source.
pub struct Record {
    pub name: Vec<u8>,
    pub id: u32,
    pub category: Vec<u8>,
    pub typ: Vec<u8>,
    pub price: u32,
    pub calorie: u32,
    pub salt_text: Vec<u8>,
}

/// The fixed key name of attribute `j` (0 <= j < 6):
/// "id", "category", "type", "price", "calorie", "salt".
pub open spec fn attr_key(j: int) -> Seq<u8> {
    if j == 0 {
        seq![105u8, 100u8]
    } else if j == 1 {
        seq![99u8, 97u8, 116u8, 101u8, 103u8, 111u8, 114u8, 121u8]
    } else if j == 2 {
        seq![116u8, 121u8, 112u8, 101u8]
    } else if j == 3 {
        seq![112u8, 114u8, 105u8, 99u8, 101u8]
    } else if j == 4 {
        seq![99u8, 97u8, 108u8, 111u8, 114u8, 105u8, 101u8]
    } else {
        seq![115u8, 97u8, 108u8, 116u8]
    }
}

/// The file content of attribute `j` of record `r`: the field's value as
/// text (numeric fields in decimal), ending with a newline.
pub open spec fn attr_content(r: Record, j: int) -> Seq<u8> {
    if j == 0 {
        dec_of(r.id as int).push(NL)
    } else if j == 1 {
        r.category@.push(NL)
    } else if j == 2 {
        r.typ@.push(NL)
    } else if j == 3 {
        dec_of(r.price as int).push(NL)
    } else if j == 4 {
        dec_of(r.calorie as int).push(NL)
    } else {
        r.salt_text@.push(NL)
    }
}

/// The arena index of the directory node of record `r`: the root is at
/// 0, and each record occupies seven consecutive slots (its directory,
/// then its six attribute files).
pub open spec fn dir_idx(r: int) -> int {
    1 + 7 * r
}

/// The directory index the root maps a name to under last-write-wins:
/// the directory of the latest record carrying that name, if any.
pub open spec fn last_dir_with_name(records: Seq<Record>, name: Seq<u8>) -> Option<int>
    decreases records.len(),
{
    if records.len() == 0 {
        None
    } else if records[records.len() - 1].name@ == name {
        Some(dir_idx(records.len() - 1))
    } else {
        last_dir_with_name(records.drop_last(), name)
    }
}

/// The six attribute key names are pairwise distinct.
pub proof fn lemma_attr_keys_distinct()
    ensures
        forall|j1: int, j2: int|
            0 <= j1 < 6 && 0 <= j2 < 6 && j1 != j2 ==> attr_key(j1) != attr_key(j2),
{
    assert forall|j1: int, j2: int|
        0 <= j1 < 6 && 0 <= j2 < 6 && j1 != j2 implies attr_key(j1) != attr_key(j2) by {
        assert(attr_key(0).len() == 2);
        assert(attr_key(1).len() == 8);
        assert(attr_key(2).len() == 4);
        assert(attr_key(3).len() == 5);
        assert(attr_key(4).len() == 7);
        assert(attr_key(5).len() == 4);
        assert(attr_key(2)[0] == 116);
        assert(attr_key(5)[0] == 115);
    }
}

/// Builds the key name of attribute `j`.
pub fn attr_key_exec(j: usize) -> (v: Vec<u8>)
    requires
        j < 6,
    ensures
        v@ == attr_key(j as int),
        v@.len() <= 8,
{
    let mut v: Vec<u8> = Vec::new();
    if j == 0 {
        v.push(105);
        v.push(100);
    } else if j == 1 {
        v.push(99);
        v.push(97);
        v.push(116);
        v.push(101);
        v.push(103);
        v.push(111);
        v.push(114);
        v.push(121);
    } else if j == 2 {
        v.push(116);
        v.push(121);
        v.push(112);
        v.push(101);
    } else if j == 3 {
        v.push(112);
        v.push(114);
        v.push(105);
        v.push(99);
        v.push(101);
    } else if j == 4 {
        v.push(99);
        v.push(97);
        v.push(108);
        v.push(111);
        v.push(114);
        v.push(105);
        v.push(101);
    } else {
        v.push(115);
        v.push(97);
        v.push(108);
        v.push(116);
    }
    proof {
        assert(v@ =~= attr_key(j as int));
    }
    v
}

/// Builds the file content of attribute `j` of a record.
pub fn attr_content_exec(rec: &Record, j: usize) -> (v: Vec<u8>)
    requires
        j < 6,
    ensures
        v@ == attr_content(*rec, j as int),
{
    if j == 0 {
        num_line(rec.id)
    } else if j == 1 {
        text_line(&rec.category)
    } else if j == 2 {
        text_line(&rec.typ)
    } else if j == 3 {
        num_line(rec.price)
    } else if j == 4 {
        num_line(rec.calorie)
    } else {
        text_line(&rec.salt_text)
    }
}

/// Inserts `name -> idx` into a child list, overwriting an existing
/// entry of the same name (last write wins), so names stay unique.
pub fn upsert(cs: &mut Vec<ChildEntry>, name: Vec<u8>, idx: usize)
    requires
        unique_names(old(cs)@),
    ensures
        unique_names(final(cs)@),
        find_child(final(cs)@, name@) == Some(idx as int),
        forall|n: Seq<u8>|
            n != name@ ==> #[trigger] find_child(final(cs)@, n) == find_child(old(cs)@, n),
        final(cs)@.len() <= old(cs)@.len() + 1,
        forall|j: int|
            0 <= j < final(cs)@.len() ==> ((#[trigger] final(cs)@[j]).idx == idx
                && final(cs)@[j].name@ == name@) || (exists|j2: int|
                0 <= j2 < old(cs)@.len() && (#[trigger] old(cs)@[j2]).idx == final(cs)@[j].idx
                    && old(cs)@[j2].name@ == final(cs)@[j].name@),
{
    let ghost s0 = cs@;
    let mut i: usize = 0;
    while i < cs.len()
        invariant
            cs@ == s0,
            s0 == old(cs)@,
            unique_names(s0),
            i <= s0.len(),
            forall|j: int| 0 <= j < i ==> s0[j].name@ != name@,
        decreases cs.len() - i,
    {
        if bytes_eq(&cs[i].name, &name) {
            cs[i] = ChildEntry { name, idx };
            proof {
                let s1 = cs@;
                assert(s1 =~= s0.update(i as int, s1[i as int]));
                assert forall|i1: int, j1: int| 0 <= i1 < j1 < s1.len() implies s1[i1].name@
                    != s1[j1].name@ by {
                    assert(s1[i1].name@ == s0[i1].name@);
                    assert(s1[j1].name@ == s0[j1].name@);
                }
                assert(has_name(s1, name@)) by {
                    assert(s1[i as int].name@ == name@);
                }
                let k = name_pos(s1, name@);
                assert(0 <= k < s1.len() && s1[k].name@ == name@);
                assert(k == i);
                assert(find_child(s1, name@) == Some(idx as int));
                assert forall|n: Seq<u8>| n != name@ implies #[trigger] find_child(s1, n)
                    == find_child(s0, n) by {
                    assert forall|j: int| 0 <= j < s1.len() implies (s1[j].name@ == n) == (s0[j].name@
                        == n) by {
                        assert(s1[j].name@ == s0[j].name@);
                    }
                    if has_name(s1, n) {
                        let k1 = name_pos(s1, n);
                        assert(0 <= k1 < s1.len() && s1[k1].name@ == n);
                        assert(has_name(s0, n));
                        let k0 = name_pos(s0, n);
                        assert(0 <= k0 < s0.len() && s0[k0].name@ == n);
                        assert(k0 == k1);
                        assert(k1 != i);
                        assert(s1[k1] == s0[k1]);
                    } else {
                        assert(!has_name(s0, n)) by {
                            if has_name(s0, n) {
                                let k0 = name_pos(s0, n);
                                assert(s1[k0].name@ == n);
                            }
                        }
                    }
                }
            }
            return;
        }
        i += 1;
    }
    cs.push(ChildEntry { name, idx });
    proof {
        let s1 = cs@;
        assert(s1.len() == s0.len() + 1);
        assert(forall|j: int| 0 <= j < s0.len() ==> s1[j] == s0[j]);
        assert(s1[s0.len() as int].name@ == name@);
        assert forall|i1: int, j1: int| 0 <= i1 < j1 < s1.len() implies s1[i1].name@
            != s1[j1].name@ by {
            if j1 < s0.len() {
            } else {
                assert(s1[i1].name@ == s0[i1].name@);
                assert(s0[i1].name@ != name@);
            }
        }
        assert(has_name(s1, name@));
        let k = name_pos(s1, name@);
        assert(0 <= k < s1.len() && s1[k].name@ == name@);
        assert(k == s0.len());
        assert(find_child(s1, name@) == Some(idx as int));
        assert forall|n: Seq<u8>| n != name@ implies #[trigger] find_child(s1, n) == find_child(
            s0,
            n,
        ) by {
            if has_name(s1, n) {
                let k1 = name_pos(s1, n);
                assert(0 <= k1 < s1.len() && s1[k1].name@ == n);
                assert(k1 != s0.len());
                assert(has_name(s0, n));
                let k0 = name_pos(s0, n);
                assert(0 <= k0 < s0.len() && s0[k0].name@ == n);
                assert(k0 == k1);
                assert(s1[k1] == s0[k1]);
            } else {
                assert(!has_name(s0, n)) by {
                    if has_name(s0, n) {
                        let k0 = name_pos(s0, n);
                        assert(s1[k0].name@ == n);
                    }
                }
            }
        }
    }
}

/// The seven arena slots of record `r` hold what construction promises:
/// a directory named after the record, whose six children are the
/// attribute files in fixed key order, each file holding the rendered
/// field value.
/// The directory node of record `r` holds what construction promises.
pub open spec fn dir_node_ok(d: Node, rec: Record, di: int, uid: u32, gid: u32, now: Timespec) -> bool {
    &&& d.name@ == rec.name@
    &&& d.qid.kind == NodeKind::Dir
    &&& d.qid.inode as int == di
    &&& d.attr == spec_attr(true, uid, gid, now)
    &&& d.data@.len() == 0
    &&& d.children@.len() == 6
    &&& forall|j: int|
        0 <= j < 6 ==> (#[trigger] d.children@[j]).name@ == attr_key(j) && d.children@[j].idx as int
            == di + 1 + j
}

/// The file node of attribute `j` of a record holds what construction
/// promises.
pub open spec fn file_node_ok(f: Node, rec: Record, di: int, j: int, uid: u32, gid: u32, now: Timespec) -> bool {
    &&& f.name@ == attr_key(j)
    &&& f.qid.kind == NodeKind::File
    &&& f.qid.inode as int == di + 1 + j
    &&& f.attr == spec_attr(false, uid, gid, now)
    &&& f.data@ == attr_content(rec, j)
    &&& f.children@.len() == 0
}

pub open spec fn record_nodes_ok(
    nodes: Seq<Node>,
    records: Seq<Record>,
    r: int,
    uid: u32,
    gid: u32,
    now: Timespec,
) -> bool {
    &&& dir_node_ok(nodes[dir_idx(r)], records[r], dir_idx(r), uid, gid, now)
    &&& forall|j: int|
        0 <= j < 6 ==> file_node_ok(
            #[trigger] nodes[dir_idx(r) + 1 + j],
            records[r],
            dir_idx(r),
            j,
            uid,
            gid,
            now,
        )
}

/// One step of the last-write-wins map over a growing record prefix.
pub proof fn lemma_last_step(records: Seq<Record>, r: int, nm: Seq<u8>)
    requires
        0 <= r < records.len(),
    ensures
        last_dir_with_name(records.take(r + 1), nm) == if records[r].name@ == nm {
            Some(dir_idx(r))
        } else {
            last_dir_with_name(records.take(r), nm)
        },
{
    let s = records.take(r + 1);
    assert(s.len() == r + 1);
    assert(s[r] == records[r]);
    assert(s.drop_last() =~= records.take(r));
}

/// `record_nodes_ok` keeps holding when the arena is only extended.
pub proof fn lemma_record_nodes_ok_extend(
    nodes1: Seq<Node>,
    nodes2: Seq<Node>,
    records: Seq<Record>,
    r: int,
    uid: u32,
    gid: u32,
    now: Timespec,
)
    requires
        0 <= r,
        dir_idx(r) + 7 <= nodes1.len(),
        nodes1.len() <= nodes2.len(),
        forall|i: int| 0 <= i < nodes1.len() ==> nodes2[i] == nodes1[i],
        record_nodes_ok(nodes1, records, r, uid, gid, now),
    ensures
        record_nodes_ok(nodes2, records, r, uid, gid, now),
{
    assert(nodes2[dir_idx(r)] == nodes1[dir_idx(r)]);
    assert forall|j: int| 0 <= j < 6 implies #[trigger] nodes2[dir_idx(r) + 1 + j]
        == nodes1[dir_idx(r) + 1 + j] by {
    }
}

/// Builds the node store from an ordered record set, in one pass per
/// layer: the root's child map first (later records overwrite earlier
/// ones of the same name), then, in source order, each record's
/// directory followed by its six attribute files.  Inodes are assigned
/// by an ever-incrementing counter, so a node's inode is its arena
/// index.  `uid`, `gid` and `now` become every node's owner, group and
/// timestamps.
pub fn build(records: &Vec<Record>, uid: u32, gid: u32, now: Timespec) -> (t: Tree)
    requires
        records@.len() * 7 + 1 <= usize::MAX,
        records@.len() <= SIZE_CAP,
        forall|r: int|
            0 <= r < records@.len() ==> (#[trigger] records@[r]).name@.len() <= SIZE_CAP,
    ensures
        t.wf(),
        t.nodes@.len() == 1 + 7 * records@.len(),
        t.nodes@[0].name@ == seq![47u8],
        t.nodes@[0].qid.kind == NodeKind::Dir,
        t.nodes@[0].qid.inode == 0,
        t.nodes@[0].attr == spec_attr(true, uid, gid, now),
        t.nodes@[0].data@.len() == 0,
        forall|n: Seq<u8>|
            #[trigger] find_child(t.nodes@[0].children@, n) == last_dir_with_name(records@, n),
        forall|r: int|
            0 <= r < records@.len() ==> #[trigger] record_nodes_ok(
                t.nodes@,
                records@,
                r,
                uid,
                gid,
                now,
            ),
{
    let n = records.len();
    let mut root_children: Vec<ChildEntry> = Vec::new();
    let mut r: usize = 0;
    while r < n
        invariant
            n == records@.len(),
            n * 7 + 1 <= usize::MAX,
            n <= SIZE_CAP,
            forall|r2: int|
                0 <= r2 < records@.len() ==> (#[trigger] records@[r2]).name@.len() <= SIZE_CAP,
            r <= n,
            unique_names(root_children@),
            root_children@.len() <= r,
            forall|nm: Seq<u8>|
                #[trigger] find_child(root_children@, nm) == last_dir_with_name(
                    records@.take(r as int),
                    nm,
                ),
            forall|j: int|
                0 <= j < root_children@.len() ==> 1 <= (#[trigger] root_children@[j]).idx
                    && (root_children@[j].idx as int) < 1 + 7 * (r as int)
                    && root_children@[j].name@.len() <= SIZE_CAP,
        decreases n - r,
    {
        let ghost cs_before = root_children@;
        let name = clone_bytes(&records[r].name);
        let di: usize = 1 + 7 * r;
        upsert(&mut root_children, name, di);
        proof {
            assert forall|nm: Seq<u8>| #[trigger] find_child(root_children@, nm)
                == last_dir_with_name(records@.take(r as int + 1), nm) by {
                lemma_last_step(records@, r as int, nm);
                if nm == records@[r as int].name@ {
                    assert(find_child(root_children@, nm) == Some(di as int));
                } else {
                    assert(find_child(root_children@, nm) == find_child(cs_before, nm));
                }
            }
        }
        r += 1;
    }
    proof {
        assert(records@.take(n as int) =~= records@);
    }
    let dir_attr = make_attr(true, uid, gid, now);
    let file_attr = make_attr(false, uid, gid, now);
    let mut root_name: Vec<u8> = Vec::new();
    root_name.push(47);
    let mut nodes: Vec<Node> = Vec::new();
    nodes.push(
        Node {
            name: root_name,
            qid: Qid { kind: NodeKind::Dir, inode: 0 },
            attr: dir_attr,
            data: Vec::new(),
            children: root_children,
        },
    );
    let mut r: usize = 0;
    while r < n
        invariant
            n == records@.len(),
            n * 7 + 1 <= usize::MAX,
            n <= SIZE_CAP,
            forall|r2: int|
                0 <= r2 < records@.len() ==> (#[trigger] records@[r2]).name@.len() <= SIZE_CAP,
            r <= n,
            dir_attr == spec_attr(true, uid, gid, now),
            file_attr == spec_attr(false, uid, gid, now),
            nodes@.len() == 1 + 7 * (r as int),
            nodes@[0].name@ == seq![47u8],
            nodes@[0].qid.kind == NodeKind::Dir,
            nodes@[0].qid.inode == 0,
            nodes@[0].attr == spec_attr(true, uid, gid, now),
            nodes@[0].data@.len() == 0,
            unique_names(nodes@[0].children@),
            nodes@[0].children@.len() <= n,
            forall|nm: Seq<u8>|
                #[trigger] find_child(nodes@[0].children@, nm) == last_dir_with_name(records@, nm),
            forall|j: int|
                0 <= j < nodes@[0].children@.len() ==> 1 <= (#[trigger] nodes@[0].children@[j]).idx
                    && (nodes@[0].children@[j].idx as int) < 1 + 7 * (n as int)
                    && nodes@[0].children@[j].name@.len() <= SIZE_CAP,
            forall|r2: int|
                0 <= r2 < r ==> #[trigger] record_nodes_ok(nodes@, records@, r2, uid, gid, now),
        decreases n - r,
    {
        let ghost nodes_start = nodes@;
        let di: usize = 1 + 7 * r;
        let mut dcs: Vec<ChildEntry> = Vec::new();
        let mut j: usize = 0;
        while j < 6
            invariant
                di == 1 + 7 * (r as int),
                r < n,
                n * 7 + 1 <= usize::MAX,
                j <= 6,
                dcs@.len() == j,
                forall|j2: int|
                    0 <= j2 < j ==> (#[trigger] dcs@[j2]).name@ == attr_key(j2)
                        && dcs@[j2].idx as int == di + 1 + j2,
            decreases 6 - j,
        {
            dcs.push(ChildEntry { name: attr_key_exec(j), idx: di + 1 + j });
            j += 1;
        }
        nodes.push(
            Node {
                name: clone_bytes(&records[r].name),
                qid: Qid { kind: NodeKind::Dir, inode: di as u64 },
                attr: dir_attr,
                data: Vec::new(),
                children: dcs,
            },
        );
        let ghost nodes_mid = nodes@;
        proof {
            assert(dir_node_ok(nodes_mid[di as int], records@[r as int], di as int, uid, gid, now));
        }
        let mut j: usize = 0;
        while j < 6
            invariant
                di == 1 + 7 * (r as int),
                r < n,
                n == records@.len(),
                n * 7 + 1 <= usize::MAX,
                j <= 6,
                file_attr == spec_attr(false, uid, gid, now),
                nodes_mid.len() == di + 1,
                nodes@.len() == di + 1 + j,
                forall|i: int| 0 <= i < di + 1 ==> #[trigger] nodes@[i] == nodes_mid[i],
                dir_node_ok(nodes_mid[di as int], records@[r as int], di as int, uid, gid, now),
                forall|j2: int|
                    0 <= j2 < j ==> file_node_ok(
                        #[trigger] nodes@[di + 1 + j2],
                        records@[r as int],
                        di as int,
                        j2,
                        uid,
                        gid,
                        now,
                    ),
            decreases 6 - j,
        {
            nodes.push(
                Node {
                    name: attr_key_exec(j),
                    qid: Qid { kind: NodeKind::File, inode: (di + 1 + j) as u64 },
                    attr: file_attr,
                    data: attr_content_exec(&records[r], j),
                    children: Vec::new(),
                },
            );
            j += 1;
        }
        proof {
            assert(record_nodes_ok(nodes@, records@, r as int, uid, gid, now));
            assert forall|r2: int| 0 <= r2 < r + 1 implies #[trigger] record_nodes_ok(
                nodes@,
                records@,
                r2,
                uid,
                gid,
                now,
            ) by {
                if r2 < r {
                    assert(record_nodes_ok(nodes_start, records@, r2, uid, gid, now));
                    assert(forall|i: int| 0 <= i < nodes_start.len() ==> #[trigger] nodes@[i]
                        == nodes_start[i]);
                    lemma_record_nodes_ok_extend(
                        nodes_start,
                        nodes@,
                        records@,
                        r2,
                        uid,
                        gid,
                        now,
                    );
                }
            }
        }
        r += 1;
    }
    let t = Tree { nodes };
    proof {
        assert forall|i: int| 0 <= i < t.nodes@.len() implies (#[trigger] t.nodes@[i]).qid.inode
            as int == i && t.nodes@[i].children@.len() <= SIZE_CAP && unique_names(
            t.nodes@[i].children@,
        ) && (t.nodes@[i].qid.kind == NodeKind::File ==> t.nodes@[i].children@.len() == 0) by {
            if i > 0 {
                lemma_split_idx(i, n as int);
                let r2 = (i - 1) / 7;
                let o = (i - 1) % 7;
                assert(record_nodes_ok(t.nodes@, records@, r2, uid, gid, now));
                if o == 0 {
                    assert(dir_node_ok(t.nodes@[i], records@[r2], i, uid, gid, now));
                    lemma_attr_keys_distinct();
                    assert forall|i1: int, j1: int|
                        0 <= i1 < j1 < t.nodes@[i].children@.len() implies t.nodes@[i].children@[i1].name@
                        != t.nodes@[i].children@[j1].name@ by {
                        assert(t.nodes@[i].children@[i1].name@ == attr_key(i1));
                        assert(t.nodes@[i].children@[j1].name@ == attr_key(j1));
                    }
                } else {
                    assert(i == dir_idx(r2) + 1 + (o - 1));
                    assert(file_node_ok(
                        t.nodes@[dir_idx(r2) + 1 + (o - 1)],
                        records@[r2],
                        dir_idx(r2),
                        o - 1,
                        uid,
                        gid,
                        now,
                    ));
                }
            }
        }
        assert forall|i: int, j: int|
            0 <= i < t.nodes@.len() && 0 <= j < (#[trigger] t.nodes@[i]).children@.len() implies (
        #[trigger] t.nodes@[i].children@[j]).idx < t.nodes@.len()
            && t.nodes@[i].children@[j].name@.len() <= SIZE_CAP by {
            if i > 0 {
                lemma_split_idx(i, n as int);
                let r2 = (i - 1) / 7;
                let o = (i - 1) % 7;
                assert(record_nodes_ok(t.nodes@, records@, r2, uid, gid, now));
                if o == 0 {
                    assert(dir_node_ok(t.nodes@[i], records@[r2], i, uid, gid, now));
                    assert(t.nodes@[i].children@[j].name@ == attr_key(j));
                    assert(attr_key(j).len() <= 8);
                } else {
                    assert(i == dir_idx(r2) + 1 + (o - 1));
                    assert(file_node_ok(
                        t.nodes@[dir_idx(r2) + 1 + (o - 1)],
                        records@[r2],
                        dir_idx(r2),
                        o - 1,
                        uid,
                        gid,
                        now,
                    ));
                }
            }
        }
    }
    t
}

/// Splits an arena index `1 <= i < 1 + 7*n` into the record it belongs
/// to and its offset within that record's seven slots.
pub proof fn lemma_split_idx(i: int, n: int)
    requires
        1 <= i < 1 + 7 * n,
    ensures
        0 <= (i - 1) / 7 < n,
        0 <= (i - 1) % 7 < 7,
        i == dir_idx((i - 1) / 7) + (i - 1) % 7,
{
    vstd::arithmetic::div_mod::lemma_fundamental_div_mod(i - 1, 7);
    vstd::arithmetic::div_mod::lemma_mod_bound(i - 1, 7);
}

} // verus!
