use saizefs::FsError;
use saizefs::ops::{attach, clunk, getattr, open, read, readdir, walk, Session};
use saizefs::resolve::{resolve, resolve_path};
use saizefs::tree::{build, NodeKind, Record, Timespec, DIR_MODE, FILE_MODE};

fn b(s: &str) -> Vec<u8> {
    s.as_bytes().to_vec()
}

fn rec(name: &str, id: u32, cat: &str, typ: &str, price: u32, cal: u32, salt: &str) -> Record {
    Record {
        name: b(name),
        id,
        category: b(cat),
        typ: b(typ),
        price,
        calorie: cal,
        salt_text: b(salt),
    }
}

fn now() -> Timespec {
    Timespec { sec: 1000, nsec: 42 }
}

#[test]
fn saizefs_basic_test() {
    let records = vec![
        rec("小エビのサラダ", 1, "サラダ", "salad", 350, 115, "1.5"),
        rec("イタリアンサラダ", 2, "サラダ", "salad", 299, 120, "1.2"),
    ];
    let fs = build(&records, 1000, 1000, now());
    let root = resolve_path(&fs, &b("/")).unwrap();
    assert_eq!(fs.nodes[root].name, b("/"));
    let dish = resolve_path(&fs, &b("/小エビのサラダ")).unwrap();
    assert_eq!(fs.nodes[dish].name, b("小エビのサラダ"));
    let mut child_names: Vec<Vec<u8>> = fs.nodes[dish]
        .children
        .iter()
        .map(|c| c.name.clone())
        .collect();
    child_names.sort();
    let mut expected = vec![
        b("id"),
        b("category"),
        b("type"),
        b("price"),
        b("calorie"),
        b("salt"),
    ];
    expected.sort();
    assert_eq!(child_names, expected);
    let price = resolve_path(&fs, &b("/イタリアンサラダ/price")).unwrap();
    assert_eq!(fs.nodes[price].data, b("299\n"));
}

#[test]
fn tree_shape_and_identities() {
    let records = vec![
        rec("A", 1, "c", "t", 10, 20, "0.1"),
        rec("B", 2, "c", "t", 11, 21, "0.2"),
        rec("C", 3, "c", "t", 12, 22, "0.3"),
    ];
    let fs = build(&records, 0, 0, now());
    assert_eq!(fs.nodes.len(), 1 + 3 + 6 * 3);
    for i in 0..fs.nodes.len() {
        for j in 0..fs.nodes.len() {
            if i != j {
                assert!(fs.nodes[i].qid != fs.nodes[j].qid);
            }
        }
    }
}

#[test]
fn resolve_root_stable() {
    let records = vec![rec("A", 1, "c", "t", 10, 20, "0.1")];
    let fs = build(&records, 0, 0, now());
    let r1 = resolve(&fs, &vec![]).unwrap();
    let r2 = resolve(&fs, &vec![]).unwrap();
    assert_eq!(r1, r2);
    assert_eq!(fs.nodes[r1].qid, fs.nodes[r2].qid);
    assert_eq!(fs.nodes[r1].qid.kind, NodeKind::Dir);
    assert_eq!(fs.nodes[r1].qid.inode, 0);
}

#[test]
fn readdir_returns_all_entries() {
    let records = vec![
        rec("A", 1, "c", "t", 10, 20, "0.1"),
        rec("B", 2, "c", "t", 11, 21, "0.2"),
        rec("C", 3, "c", "t", 12, 22, "0.3"),
    ];
    let fs = build(&records, 0, 0, now());
    let (session, _) = attach(&fs);
    let entries = readdir(&fs, &session, 0, 100000).unwrap();
    assert_eq!(entries.len(), 3);
    let mut names: Vec<Vec<u8>> = entries.iter().map(|e| e.name.clone()).collect();
    names.sort();
    names.dedup();
    assert_eq!(names, vec![b("A"), b("B"), b("C")]);
    for (j, e) in entries.iter().enumerate() {
        assert_eq!(e.offset, 2 + j as u64);
        assert_eq!(e.typ, 0);
    }
}

#[test]
fn readdir_offset_past_end_is_empty() {
    let records = vec![
        rec("A", 1, "c", "t", 10, 20, "0.1"),
        rec("B", 2, "c", "t", 11, 21, "0.2"),
    ];
    let fs = build(&records, 0, 0, now());
    let (session, _) = attach(&fs);
    let entries = readdir(&fs, &session, 2, 100000).unwrap();
    assert_eq!(entries.len(), 0);
}

#[test]
fn readdir_respects_byte_budget() {
    let records = vec![rec("Salad", 1, "c", "t", 10, 20, "0.1")];
    let fs = build(&records, 0, 0, now());
    let (session, _) = attach(&fs);
    // one entry of a five-byte name packs into 24 + 5 = 29 bytes
    assert_eq!(readdir(&fs, &session, 0, 28).unwrap().len(), 0);
    assert_eq!(readdir(&fs, &session, 0, 29).unwrap().len(), 1);
}

#[test]
fn readdir_on_file_is_empty() {
    let records = vec![rec("Salad", 1, "c", "t", 10, 20, "0.1")];
    let fs = build(&records, 0, 0, now());
    let (session, _) = attach(&fs);
    let (session, _) = walk(&fs, &session, &vec![b("Salad"), b("price")]).unwrap();
    let entries = readdir(&fs, &session, 0, 100000).unwrap();
    assert_eq!(entries.len(), 0);
}

#[test]
fn single_shot_read_of_price() {
    let records = vec![rec("Salad", 1, "c", "t", 500, 20, "0.1")];
    let fs = build(&records, 0, 0, now());
    let (session, _) = attach(&fs);
    let (mut session, qids) = walk(&fs, &session, &vec![b("Salad"), b("price")]).unwrap();
    assert_eq!(qids.len(), 2);
    open(&fs, &session).unwrap();
    let first = read(&fs, &mut session, 0, 8192).unwrap();
    assert_eq!(first, b("500\n"));
    let second = read(&fs, &mut session, 0, 8192).unwrap();
    assert_eq!(second, Vec::<u8>::new());
    // offset and count play no part in the single-shot behaviour
    let third = read(&fs, &mut session, 77, 3).unwrap();
    assert_eq!(third, Vec::<u8>::new());
}

#[test]
fn text_fields_end_with_newline() {
    let records = vec![rec("Salad", 7, "サラダ", "salad", 500, 115, "1.5")];
    let fs = build(&records, 0, 0, now());
    let id = resolve(&fs, &vec![b("Salad"), b("id")]).unwrap();
    assert_eq!(fs.nodes[id].data, b("7\n"));
    let cat = resolve(&fs, &vec![b("Salad"), b("category")]).unwrap();
    assert_eq!(fs.nodes[cat].data, b("サラダ\n"));
    let typ = resolve(&fs, &vec![b("Salad"), b("type")]).unwrap();
    assert_eq!(fs.nodes[typ].data, b("salad\n"));
    let cal = resolve(&fs, &vec![b("Salad"), b("calorie")]).unwrap();
    assert_eq!(fs.nodes[cal].data, b("115\n"));
    let salt = resolve(&fs, &vec![b("Salad"), b("salt")]).unwrap();
    assert_eq!(fs.nodes[salt].data, b("1.5\n"));
}

#[test]
fn decimal_rendering_edges() {
    let records = vec![rec("Z", 0, "c", "t", 4294967295, 1000000, "0")];
    let fs = build(&records, 0, 0, now());
    let id = resolve(&fs, &vec![b("Z"), b("id")]).unwrap();
    assert_eq!(fs.nodes[id].data, b("0\n"));
    let price = resolve(&fs, &vec![b("Z"), b("price")]).unwrap();
    assert_eq!(fs.nodes[price].data, b("4294967295\n"));
    let cal = resolve(&fs, &vec![b("Z"), b("calorie")]).unwrap();
    assert_eq!(fs.nodes[cal].data, b("1000000\n"));
}

#[test]
fn walk_unknown_first_segment_fails() {
    let records = vec![rec("Salad", 1, "c", "t", 500, 20, "0.1")];
    let fs = build(&records, 0, 0, now());
    let (session, _) = attach(&fs);
    let r = walk(&fs, &session, &vec![b("nope")]);
    assert!(matches!(r, Err(FsError::NotFound)));
}

#[test]
fn walk_known_then_unknown_stops_early() {
    let records = vec![rec("Salad", 1, "c", "t", 500, 20, "0.1")];
    let fs = build(&records, 0, 0, now());
    let (session, _) = attach(&fs);
    let (walked, qids) = walk(&fs, &session, &vec![b("Salad"), b("nope")]).unwrap();
    assert_eq!(qids.len(), 1);
    let dish = resolve(&fs, &vec![b("Salad")]).unwrap();
    assert_eq!(qids[0], fs.nodes[dish].qid);
    // the handle landed on the furthest resolved path and still works
    let (q, _) = getattr(&fs, &walked).unwrap();
    assert_eq!(q, fs.nodes[dish].qid);
}

#[test]
fn walk_relative_markers_fail() {
    let records = vec![rec("Salad", 1, "c", "t", 500, 20, "0.1")];
    let fs = build(&records, 0, 0, now());
    let (session, _) = attach(&fs);
    assert!(matches!(
        walk(&fs, &session, &vec![b(".")]),
        Err(FsError::NotFound)
    ));
    assert!(matches!(
        walk(&fs, &session, &vec![b("..")]),
        Err(FsError::NotFound)
    ));
}

#[test]
fn walk_no_segments_clones_handle() {
    let records = vec![rec("Salad", 1, "c", "t", 500, 20, "0.1")];
    let fs = build(&records, 0, 0, now());
    let (session, root_qid) = attach(&fs);
    let (walked, qids) = walk(&fs, &session, &vec![]).unwrap();
    assert_eq!(qids.len(), 0);
    let (q, _) = getattr(&fs, &walked).unwrap();
    assert_eq!(q, root_qid);
}

#[test]
fn attach_twice_gives_independent_handles() {
    let records = vec![rec("Salad", 1, "c", "t", 500, 20, "0.1")];
    let fs = build(&records, 0, 0, now());
    let (s1, q1) = attach(&fs);
    let (s2, q2) = attach(&fs);
    assert_eq!(q1, q2);
    let (mut h1, _) = walk(&fs, &s1, &vec![b("Salad"), b("price")]).unwrap();
    let (mut h2, _) = walk(&fs, &s2, &vec![b("Salad"), b("price")]).unwrap();
    assert_eq!(read(&fs, &mut h1, 0, 8192).unwrap(), b("500\n"));
    assert_eq!(read(&fs, &mut h1, 0, 8192).unwrap(), Vec::<u8>::new());
    // the second handle's cursor is untouched by the first one's reads
    assert_eq!(read(&fs, &mut h2, 0, 8192).unwrap(), b("500\n"));
    assert_eq!(read(&fs, &mut h2, 0, 8192).unwrap(), Vec::<u8>::new());
}

#[test]
fn duplicate_record_names_last_wins() {
    let records = vec![
        rec("Dup", 1, "c", "t", 100, 20, "0.1"),
        rec("Dup", 2, "c", "t", 200, 21, "0.2"),
    ];
    let fs = build(&records, 0, 0, now());
    // every record still allocates its seven nodes
    assert_eq!(fs.nodes.len(), 1 + 2 * 7);
    let (session, _) = attach(&fs);
    let entries = readdir(&fs, &session, 0, 100000).unwrap();
    assert_eq!(entries.len(), 1);
    assert_eq!(entries[0].name, b("Dup"));
    let price = resolve(&fs, &vec![b("Dup"), b("price")]).unwrap();
    assert_eq!(fs.nodes[price].data, b("200\n"));
}

#[test]
fn operations_on_dangling_handle_are_invalid() {
    let records = vec![rec("Salad", 1, "c", "t", 500, 20, "0.1")];
    let fs = build(&records, 0, 0, now());
    let mut ghost_handle = Session {
        path: vec![b("ghost")],
        consumed: false,
    };
    assert!(matches!(
        getattr(&fs, &ghost_handle),
        Err(FsError::Invalid)
    ));
    assert!(matches!(open(&fs, &ghost_handle), Err(FsError::Invalid)));
    assert!(matches!(
        readdir(&fs, &ghost_handle, 0, 8192),
        Err(FsError::Invalid)
    ));
    assert!(matches!(
        read(&fs, &mut ghost_handle, 0, 8192),
        Err(FsError::Invalid)
    ));
}

#[test]
fn attributes_are_fixed_and_read_only() {
    let records = vec![rec("Salad", 1, "c", "t", 500, 20, "0.1")];
    let fs = build(&records, 1234, 5678, Timespec { sec: 99, nsec: 7 });
    let (session, _) = attach(&fs);
    let (q, a) = getattr(&fs, &session).unwrap();
    assert_eq!(q.kind, NodeKind::Dir);
    assert_eq!(a.mode, DIR_MODE);
    assert_eq!(a.mode, 0o040555);
    assert_eq!(a.uid, 1234);
    assert_eq!(a.gid, 5678);
    assert_eq!(a.nlink, 1);
    assert_eq!(a.atime.sec, 99);
    assert_eq!(a.mtime.nsec, 7);
    let (file_sess, _) = walk(&fs, &session, &vec![b("Salad"), b("price")]).unwrap();
    let (fq, fa) = getattr(&fs, &file_sess).unwrap();
    assert_eq!(fq.kind, NodeKind::File);
    assert_eq!(fa.mode, FILE_MODE);
    assert_eq!(fa.mode, 0o100444);
}

#[test]
fn open_returns_identity_and_clunk_releases() {
    let records = vec![rec("Salad", 1, "c", "t", 500, 20, "0.1")];
    let fs = build(&records, 0, 0, now());
    let (session, _) = attach(&fs);
    let (file_sess, _) = walk(&fs, &session, &vec![b("Salad"), b("price")]).unwrap();
    let q = open(&fs, &file_sess).unwrap();
    let price = resolve(&fs, &vec![b("Salad"), b("price")]).unwrap();
    assert_eq!(q, fs.nodes[price].qid);
    clunk(file_sess);
    clunk(session);
}

#[test]
fn empty_record_set_has_only_root() {
    let records: Vec<Record> = vec![];
    let fs = build(&records, 0, 0, now());
    assert_eq!(fs.nodes.len(), 1);
    let (session, _) = attach(&fs);
    let entries = readdir(&fs, &session, 0, 100000).unwrap();
    assert_eq!(entries.len(), 0);
}

#[test]
fn textual_paths_need_the_root_marker() {
    let records = vec![rec("Salad", 1, "c", "t", 500, 20, "0.1")];
    let fs = build(&records, 0, 0, now());
    assert!(resolve_path(&fs, &b("Salad")).is_none());
    assert!(resolve_path(&fs, &b("")).is_none());
    assert!(resolve_path(&fs, &b("Salad/price")).is_none());
}

#[test]
fn textual_paths_collapse_extra_slashes() {
    let records = vec![rec("Salad", 1, "c", "t", 500, 20, "0.1")];
    let fs = build(&records, 0, 0, now());
    let direct = resolve_path(&fs, &b("/Salad/price")).unwrap();
    assert_eq!(resolve_path(&fs, &b("/Salad/price/")).unwrap(), direct);
    assert_eq!(resolve_path(&fs, &b("//Salad///price")).unwrap(), direct);
}

#[test]
fn textual_paths_reject_relative_markers_and_depth() {
    let records = vec![rec("Salad", 1, "c", "t", 500, 20, "0.1")];
    let fs = build(&records, 0, 0, now());
    assert!(resolve_path(&fs, &b("/.")).is_none());
    assert!(resolve_path(&fs, &b("/Salad/..")).is_none());
    assert!(resolve_path(&fs, &b("/Salad/price/deeper")).is_none());
    assert!(resolve_path(&fs, &b("/nope")).is_none());
}
