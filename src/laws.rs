use vstd::prelude::*;

use crate::fst::{
    align_up, layout_children, layout_node, lemma_align_up, lemma_layout_children,
    lemma_layout_node, FstEntry, FstNodeType, Layout, IMAGE_LIMIT,
};
use crate::image::{
    be32, built, dol_start, encode_entries, final_entries, final_image, fst_region_len, fst_start,
    image_prefix, layout_top, lemma_encode_entries_len, lemma_layout_top, root_placeholder,
    write_at, DOL_ALIGNMENT, FST_ALIGNMENT, OFFSET_DOL_OFFSET,
};
use crate::tree::{Directory, Node};

verus! {

/// Entry `k` is sound: a file's payload offset is a multiple of 32, and a
/// directory other than entry 0 names as its parent an earlier directory entry.
pub open spec fn entry_ok(s: Seq<FstEntry>, k: int) -> bool {
    &&& s[k].kind == FstNodeType::File ==> s[k].file_offset_parent_dir % 32 == 0
    &&& (s[k].kind == FstNodeType::Directory && k > 0) ==> {
        &&& s[k].file_offset_parent_dir < k
        &&& s[s[k].file_offset_parent_dir as int].kind == FstNodeType::Directory
    }
}

/// The table entries are well formed: entry 0 is a directory and every entry is sound.
pub open spec fn entries_ok(s: Seq<FstEntry>) -> bool {
    &&& s.len() > 0
    &&& s[0].kind == FstNodeType::Directory
    &&& forall|k: int| 0 <= k < s.len() ==> #[trigger] entry_ok(s, k)
}

/// Following parent indices from directory entry `k` ends at entry 0.
pub open spec fn reaches_root(s: Seq<FstEntry>, k: int) -> bool
    decreases k,
{
    if k <= 0 {
        k == 0
    } else {
        &&& k < s.len()
        &&& s[k].kind == FstNodeType::Directory
        &&& s[k].file_offset_parent_dir < k
        &&& reaches_root(s, s[k].file_offset_parent_dir as int)
    }
}

proof fn lemma_layout_node_ok(n: Node, parent: nat, l: Layout)
    requires
        entries_ok(l.0),
        parent < l.0.len(),
        l.0[parent as int].kind == FstNodeType::Directory,
        layout_node(n, parent, l).0.len() <= usize::MAX,
        layout_node(n, parent, l).2.len() <= usize::MAX,
    ensures
        ({
            let r = layout_node(n, parent, l);
            &&& entries_ok(r.0)
            &&& r.0.subrange(0, l.0.len() as int) == l.0
        }),
    decreases n, 0int,
{
    let r = layout_node(n, parent, l);
    match n {
        Node::File(f) => {
            lemma_align_up(l.2.len(), 32);
            assert(r.0.subrange(0, l.0.len() as int) =~= l.0);
            assert forall|k: int| 0 <= k < r.0.len() implies #[trigger] entry_ok(r.0, k) by {
                if k < l.0.len() {
                    assert(entry_ok(l.0, k));
                    assert(r.0[k] == l.0[k]);
                    if r.0[k].kind == FstNodeType::Directory && k > 0 {
                        assert(r.0[r.0[k].file_offset_parent_dir as int] == l.0[l.0[k].file_offset_parent_dir as int]);
                    }
                }
            }
        },
        Node::Directory(d) => {
            let idx = l.0.len();
            let e = FstEntry {
                kind: FstNodeType::Directory,
                file_name_offset: l.1.len() as usize,
                file_offset_parent_dir: parent as usize,
                file_size_next_dir_index: 0,
            };
            let opened = (l.0.push(e), l.1 + d.name@ + seq![0u8], l.2);
            let len = d.children@.len() as int;
            lemma_layout_children(d, len, idx, opened);
            assert forall|k: int| 0 <= k < opened.0.len() implies #[trigger] entry_ok(opened.0, k) by {
                if k < idx {
                    assert(entry_ok(l.0, k));
                    assert(opened.0[k] == l.0[k]);
                    if opened.0[k].kind == FstNodeType::Directory && k > 0 {
                        assert(opened.0[opened.0[k].file_offset_parent_dir as int] == l.0[l.0[k].file_offset_parent_dir as int]);
                    }
                } else {
                    assert(opened.0[k] == e);
                    assert(opened.0[parent as int] == l.0[parent as int]);
                }
            }
            lemma_layout_children(d, len, idx, opened);
            lemma_layout_children_ok(d, len, idx, opened);
            let done = layout_children(d, len, idx, opened);
            assert(done.0[idx as int] == opened.0.subrange(0, opened.0.len() as int)[idx as int]);
            assert(r.0.subrange(0, l.0.len() as int) =~= l.0) by {
                assert forall|k: int| 0 <= k < l.0.len() implies r.0[k] == l.0[k] by {
                    assert(done.0[k] == opened.0.subrange(0, opened.0.len() as int)[k]);
                }
            }
            assert forall|k: int| 0 <= k < r.0.len() implies #[trigger] entry_ok(r.0, k) by {
                assert(entry_ok(done.0, k));
                if k != idx {
                    assert(r.0[k] == done.0[k]);
                }
                if r.0[k].kind == FstNodeType::Directory && k > 0 {
                    let p = r.0[k].file_offset_parent_dir as int;
                    assert(done.0[p].kind == FstNodeType::Directory);
                }
            }
        },
    }
}

proof fn lemma_layout_children_ok(d: Directory, i: int, parent: nat, l: Layout)
    requires
        entries_ok(l.0),
        parent < l.0.len(),
        l.0[parent as int].kind == FstNodeType::Directory,
        0 <= i <= d.children@.len(),
        layout_children(d, i, parent, l).0.len() <= usize::MAX,
        layout_children(d, i, parent, l).2.len() <= usize::MAX,
    ensures
        ({
            let r = layout_children(d, i, parent, l);
            &&& entries_ok(r.0)
            &&& r.0.subrange(0, l.0.len() as int) == l.0
        }),
    decreases d, i,
{
    if i == 0 {
        assert(l.0.subrange(0, l.0.len() as int) =~= l.0);
    } else {
        let m = layout_children(d, i - 1, parent, l);
        lemma_layout_node(d.children@[i - 1], parent, m);
        lemma_layout_children(d, i - 1, parent, l);
        lemma_layout_children_ok(d, i - 1, parent, l);
        assert(m.0.subrange(0, l.0.len() as int)[parent as int] == m.0[parent as int]);
        lemma_layout_node_ok(d.children@[i - 1], parent, m);
        let r = layout_children(d, i, parent, l);
        assert(r.0.subrange(0, l.0.len() as int) =~= m.0.subrange(0, l.0.len() as int));
        assert(m.0[parent as int] == l.0[parent as int]);
    }
}

proof fn lemma_layout_top_ok(root: Directory, skip: int, i: int, l: Layout)
    requires
        entries_ok(l.0),
        0 <= i <= root.children@.len(),
        layout_top(root, skip, i, l).0.len() <= usize::MAX,
        layout_top(root, skip, i, l).2.len() <= usize::MAX,
    ensures
        ({
            let r = layout_top(root, skip, i, l);
            &&& entries_ok(r.0)
            &&& r.0.subrange(0, l.0.len() as int) == l.0
        }),
    decreases i,
{
    if i == 0 {
        assert(l.0.subrange(0, l.0.len() as int) =~= l.0);
    } else {
        let m = layout_top(root, skip, i - 1, l);
        lemma_layout_top(root, skip, i - 1, l);
        if i - 1 != skip {
            lemma_layout_node(root.children@[i - 1], 0, m);
        }
        lemma_layout_top_ok(root, skip, i - 1, l);
        if i - 1 != skip {
            lemma_layout_node_ok(root.children@[i - 1], 0, m);
            let r = layout_top(root, skip, i, l);
            assert(r.0.subrange(0, l.0.len() as int) =~= m.0.subrange(0, l.0.len() as int));
        }
    }
}

/// Closing the root entry keeps the entries well formed.
proof fn lemma_final_entries_ok(b: Layout)
    requires
        entries_ok(b.0),
        b.0.len() <= usize::MAX,
    ensures
        entries_ok(final_entries(b)),
{
    let s = final_entries(b);
    assert forall|k: int| 0 <= k < s.len() implies #[trigger] entry_ok(s, k) by {
        assert(entry_ok(b.0, k));
        if k > 0 && s[k].kind == FstNodeType::Directory {
            assert(s[k] == b.0[k]);
            let p = s[k].file_offset_parent_dir as int;
            assert(s[p].kind == b.0[p].kind);
        }
    }
}

/// From a sound directory entry, parent indices lead to entry 0.
proof fn lemma_reaches_root(s: Seq<FstEntry>, k: int)
    requires
        entries_ok(s),
        0 <= k < s.len(),
        s[k].kind == FstNodeType::Directory,
    ensures
        reaches_root(s, k),
    decreases k,
{
    if k > 0 {
        assert(entry_ok(s, k));
        lemma_reaches_root(s, s[k].file_offset_parent_dir as int);
    }
}

/// The build of an image that fits has well-formed entries.
proof fn lemma_built_ok(root: Directory, skip: int, h: Seq<u8>, a: Seq<u8>, d: Seq<u8>)
    requires
        built(root, skip, h, a, d).2.len() <= IMAGE_LIMIT,
    ensures
        entries_ok(built(root, skip, h, a, d).0),
        built(root, skip, h, a, d).0.len() <= usize::MAX,
{
    let n = root.children@.len() as int;
    let init: Layout = (
        seq![root_placeholder()],
        Seq::empty(),
        image_prefix(h, a, d, fst_region_len(root, skip)),
    );
    lemma_layout_top(root, skip, n, init);
    let b = layout_top(root, skip, n, init);
    assert(init.2.len() >= fst_region_len(root, skip));
    assert(b.0.len() <= usize::MAX);
    assert(entry_ok(init.0, 0));
    lemma_layout_top_ok(root, skip, n, init);
}

/// The table region that the size estimate reserves is exactly as long as the
/// encoded entries and the name bank that the build produces.
pub proof fn law_size_agreement(root: Directory, skip: int, h: Seq<u8>, a: Seq<u8>, d: Seq<u8>)
    ensures
        ({
            let b = built(root, skip, h, a, d);
            (encode_entries(final_entries(b)) + b.1).len() == fst_region_len(root, skip)
        }),
{
    let n = root.children@.len() as int;
    let init: Layout = (
        seq![root_placeholder()],
        Seq::empty(),
        image_prefix(h, a, d, fst_region_len(root, skip)),
    );
    lemma_layout_top(root, skip, n, init);
    lemma_encode_entries_len(final_entries(built(root, skip, h, a, d)));
}

/// In an image that fits, every file's payload offset is a multiple of 32, the
/// executable's offset a multiple of `DOL_ALIGNMENT`, and the table's offset a
/// multiple of `FST_ALIGNMENT`.
pub proof fn law_alignment(root: Directory, skip: int, h: Seq<u8>, a: Seq<u8>, d: Seq<u8>)
    requires
        built(root, skip, h, a, d).2.len() <= IMAGE_LIMIT,
    ensures
        ({
            let s = final_entries(built(root, skip, h, a, d));
            forall|k: int|
                0 <= k < s.len() && (#[trigger] s[k]).kind == FstNodeType::File
                    ==> s[k].file_offset_parent_dir % 32 == 0
        }),
        dol_start(h, a) % (DOL_ALIGNMENT as nat) == 0,
        fst_start(h, a, d) % (FST_ALIGNMENT as nat) == 0,
{
    lemma_built_ok(root, skip, h, a, d);
    lemma_final_entries_ok(built(root, skip, h, a, d));
    let s = final_entries(built(root, skip, h, a, d));
    assert forall|k: int|
        0 <= k < s.len() && (#[trigger] s[k]).kind == FstNodeType::File implies s[k].file_offset_parent_dir
        % 32 == 0 by {
        assert(entry_ok(s, k));
    }
    lemma_align_up(h.len() + a.len(), DOL_ALIGNMENT as nat);
    lemma_align_up(dol_start(h, a) + d.len(), FST_ALIGNMENT as nat);
}

/// In an image that fits, entry 0 is the root directory and its subtree ends at
/// the entry count; from every directory entry, parent indices lead to entry 0.
pub proof fn law_root_closure(root: Directory, skip: int, h: Seq<u8>, a: Seq<u8>, d: Seq<u8>)
    requires
        built(root, skip, h, a, d).2.len() <= IMAGE_LIMIT,
    ensures
        ({
            let s = final_entries(built(root, skip, h, a, d));
            &&& s[0].kind == FstNodeType::Directory
            &&& s[0].file_size_next_dir_index == s.len()
            &&& forall|k: int|
                0 <= k < s.len() && (#[trigger] s[k]).kind == FstNodeType::Directory
                    ==> reaches_root(s, k)
        }),
{
    lemma_built_ok(root, skip, h, a, d);
    lemma_final_entries_ok(built(root, skip, h, a, d));
    let s = final_entries(built(root, skip, h, a, d));
    assert forall|k: int|
        0 <= k < s.len() && (#[trigger] s[k]).kind == FstNodeType::Directory implies reaches_root(
        s,
        k,
    ) by {
        lemma_reaches_root(s, k);
    }
}

/// The nodes of `n`'s subtree in pre-order, `n` first.
pub open spec fn preorder(n: Node) -> Seq<Node>
    decreases n, 0int,
{
    match n {
        Node::File(_) => seq![n],
        Node::Directory(d) => seq![n] + preorder_children(d, d.children@.len() as int),
    }
}

/// The pre-order nodes of the first `i` children of `d`.
pub open spec fn preorder_children(d: Directory, i: int) -> Seq<Node>
    decreases d, i,
{
    if i <= 0 || i > d.children@.len() {
        Seq::empty()
    } else {
        preorder_children(d, i - 1) + preorder(d.children@[i - 1])
    }
}

/// The pre-order nodes of the first `i` top-level children but `skip`.
pub open spec fn preorder_top(root: Directory, skip: int, i: int) -> Seq<Node>
    decreases i,
{
    if i <= 0 || i > root.children@.len() {
        Seq::empty()
    } else if i - 1 == skip {
        preorder_top(root, skip, i - 1)
    } else {
        preorder_top(root, skip, i - 1) + preorder(root.children@[i - 1])
    }
}

/// `bank` holds `name` at `off`, followed by a terminator.
pub open spec fn name_at(bank: Seq<u8>, off: int, name: Seq<u8>) -> bool {
    &&& 0 <= off
    &&& off + name.len() < bank.len()
    &&& bank.subrange(off, off + name.len()) == name
    &&& bank[off + name.len()] == 0
}

/// Entry `e`, at index `k`, describes node `m`: same kind, its name in `bank` at
/// the entry's name offset; for a file, its payload in `image` at the entry's
/// offset, which is at least `lo`; for a directory, its subtree ends where the
/// entry says.
pub open spec fn entry_matches(e: FstEntry, m: Node, bank: Seq<u8>, image: Seq<u8>, lo: int, k: int) -> bool {
    &&& (e.kind == FstNodeType::File) == (m is File)
    &&& m is Directory ==> e.file_size_next_dir_index == k + preorder(m).len()
    &&& name_at(bank, e.file_name_offset as int, m.spec_name())
    &&& m is File ==> {
        &&& lo <= e.file_offset_parent_dir
        &&& e.file_offset_parent_dir + e.file_size_next_dir_index <= image.len()
        &&& image.subrange(
            e.file_offset_parent_dir as int,
            e.file_offset_parent_dir + e.file_size_next_dir_index,
        ) == m->File_0.data@
    }
}

/// Bytes that the names of the first `j` of `nodes` take in the bank, terminators included.
pub open spec fn names_len(nodes: Seq<Node>, j: int) -> nat
    decreases j,
{
    if j <= 0 || j > nodes.len() {
        0
    } else {
        names_len(nodes, j - 1) + nodes[j - 1].spec_name().len() + 1
    }
}

proof fn lemma_names_len_concat(p: Seq<Node>, q: Seq<Node>, j: int)
    requires
        0 <= j <= p.len() + q.len(),
    ensures
        j <= p.len() ==> names_len(p + q, j) == names_len(p, j),
        j >= p.len() ==> names_len(p + q, j) == names_len(p, p.len() as int) + names_len(q, j - p.len()),
    decreases j,
{
    if j > 0 {
        lemma_names_len_concat(p, q, j - 1);
        if j <= p.len() {
            assert((p + q)[j - 1] == p[j - 1]);
        } else {
            assert((p + q)[j - 1] == q[j - 1 - p.len()]);
        }
    }
}

/// Names further on in `nodes` start further on in the bank.
proof fn lemma_names_len_mono(nodes: Seq<Node>, i: int, j: int)
    requires
        0 <= i <= j <= nodes.len(),
    ensures
        names_len(nodes, i) <= names_len(nodes, j),
    decreases j - i,
{
    if i < j {
        lemma_names_len_mono(nodes, i, j - 1);
    }
}

/// The entries of `l` from `base` on describe `nodes`, one for one, with payloads
/// at `lo` or later and names packed in order from `bank_base` to the bank's end.
pub open spec fn entries_match(l: Layout, base: int, nodes: Seq<Node>, lo: int, bank_base: int) -> bool {
    &&& l.0.len() == base + nodes.len()
    &&& l.1.len() == bank_base + names_len(nodes, nodes.len() as int)
    &&& forall|j: int|
        0 <= j < nodes.len() ==> #[trigger] l.0[base + j].file_name_offset == bank_base + names_len(
            nodes,
            j,
        )
    &&& forall|j: int|
        0 <= j < nodes.len() ==> #[trigger] entry_matches(l.0[base + j], nodes[j], l.1, l.2, lo, base + j)
}

/// A match survives longer banks and images.
proof fn lemma_entry_matches_extend(
    e: FstEntry,
    m: Node,
    bank: Seq<u8>,
    image: Seq<u8>,
    lo: int,
    bank2: Seq<u8>,
    image2: Seq<u8>,
    lo2: int,
    k: int,
)
    requires
        entry_matches(e, m, bank, image, lo, k),
        lo2 <= lo,
        bank2.len() >= bank.len(),
        bank2.subrange(0, bank.len() as int) == bank,
        image2.len() >= image.len(),
        image2.subrange(0, image.len() as int) == image,
    ensures
        entry_matches(e, m, bank2, image2, lo2, k),
{
    assert(bank2.subrange(0, bank.len() as int) == bank);
    assert(image2.subrange(0, image.len() as int) == image);
    let off = e.file_name_offset as int;
    let nl = m.spec_name().len();
    assert(bank2.subrange(off, off + nl) =~= bank2.subrange(0, bank.len() as int).subrange(off, off + nl));
    assert(bank2[off + nl] == bank2.subrange(0, bank.len() as int)[off + nl]);
    if m is File {
        let a = e.file_offset_parent_dir as int;
        let b = a + e.file_size_next_dir_index;
        assert(image2.subrange(a, b) =~= image2.subrange(0, image.len() as int).subrange(a, b));
    }
}

proof fn lemma_layout_node_matches(n: Node, parent: nat, l: Layout)
    requires
        layout_node(n, parent, l).0.len() <= usize::MAX,
        layout_node(n, parent, l).1.len() <= usize::MAX,
        layout_node(n, parent, l).2.len() <= usize::MAX,
    ensures
        entries_match(layout_node(n, parent, l), l.0.len() as int, preorder(n), l.2.len() as int, l.1.len() as int),
    decreases n, 0int,
{
    let r = layout_node(n, parent, l);
    let base = l.0.len() as int;
    lemma_layout_node(n, parent, l);
    match n {
        Node::File(f) => {
            lemma_align_up(l.2.len(), 32);
            let start = align_up(l.2.len(), 32);
            assert(r.1.subrange(l.1.len() as int, (l.1.len() + f.name@.len()) as int) =~= f.name@);
            assert(r.2.subrange(start as int, (start + f.data@.len()) as int) =~= f.data@);
            assert(entry_matches(r.0[base + 0], preorder(n)[0], r.1, r.2, l.2.len() as int, base));
            assert(names_len(preorder(n), 0) == 0);
            assert(preorder(n)[0] == n);
        },
        Node::Directory(d) => {
            let idx = l.0.len();
            let e = FstEntry {
                kind: FstNodeType::Directory,
                file_name_offset: l.1.len() as usize,
                file_offset_parent_dir: parent as usize,
                file_size_next_dir_index: 0,
            };
            let opened = (l.0.push(e), l.1 + d.name@ + seq![0u8], l.2);
            let len = d.children@.len() as int;
            lemma_layout_children(d, len, idx, opened);
            let done = layout_children(d, len, idx, opened);
            lemma_layout_children_matches(d, len, idx, opened);
            let pc = preorder_children(d, len);
            assert(opened.1.subrange(l.1.len() as int, (l.1.len() + d.name@.len()) as int) =~= d.name@);
            let closed = FstEntry { file_size_next_dir_index: done.0.len() as usize, ..e };
            assert(preorder(n) == seq![n] + pc);
            assert(done.0.len() == idx + preorder(n).len());
            assert(entry_matches(closed, n, opened.1, opened.2, l.2.len() as int, base));
            lemma_entry_matches_extend(closed, n, opened.1, opened.2, l.2.len() as int, done.1, done.2, l.2.len() as int, base);
            assert forall|j: int| 0 <= j < preorder(n).len() implies #[trigger] entry_matches(
                r.0[base + j],
                preorder(n)[j],
                r.1,
                r.2,
                l.2.len() as int,
                base + j,
            ) by {
                if j == 0 {
                    assert(preorder(n)[0] == n);
                } else {
                    assert(preorder(n)[j] == pc[j - 1]);
                    assert(entry_matches(done.0[idx + 1 + (j - 1)], pc[j - 1], done.1, done.2, l.2.len() as int, idx + 1 + (j - 1)));
                    assert(r.0[base + j] == done.0[idx + 1 + (j - 1)]);
                }
            }
            let one = seq![n];
            assert(preorder(n) == one + pc);
            assert(one[0] == n);
            assert(names_len(one, 0) == 0);
            assert(n.spec_name() == d.name@);
            assert(names_len(one, 1) == d.name@.len() + 1);
            assert forall|j: int| 0 <= j < preorder(n).len() implies #[trigger] r.0[base
                + j].file_name_offset == l.1.len() + names_len(preorder(n), j) by {
                lemma_names_len_concat(one, pc, j);
                if j > 0 {
                    assert(r.0[base + j] == done.0[idx + 1 + (j - 1)]);
                    assert(done.0[idx + 1 + (j - 1)].file_name_offset == opened.1.len() + names_len(pc, j - 1));
                }
            }
            lemma_names_len_concat(one, pc, preorder(n).len() as int);
        },
    }
}

proof fn lemma_layout_children_matches(d: Directory, i: int, parent: nat, l: Layout)
    requires
        layout_children(d, i, parent, l).0.len() <= usize::MAX,
        layout_children(d, i, parent, l).1.len() <= usize::MAX,
        layout_children(d, i, parent, l).2.len() <= usize::MAX,
    ensures
        entries_match(
            layout_children(d, i, parent, l),
            l.0.len() as int,
            preorder_children(d, i),
            l.2.len() as int,
            l.1.len() as int,
        ),
    decreases d, i,
{
    if i > 0 && i <= d.children@.len() {
        let m = layout_children(d, i - 1, parent, l);
        let c = d.children@[i - 1];
        lemma_layout_node(c, parent, m);
        lemma_layout_children(d, i - 1, parent, l);
        lemma_layout_children_matches(d, i - 1, parent, l);
        lemma_layout_node_matches(c, parent, m);
        let r = layout_children(d, i, parent, l);
        let pm = preorder_children(d, i - 1);
        let pn = preorder(c);
        let base = l.0.len() as int;
        assert(preorder_children(d, i) == pm + pn);
        assert forall|j: int| 0 <= j < pm.len() + pn.len() implies #[trigger] entry_matches(
            r.0[base + j],
            preorder_children(d, i)[j],
            r.1,
            r.2,
            l.2.len() as int,
            base + j,
        ) by {
            if j < pm.len() {
                assert((pm + pn)[j] == pm[j]);
                assert(entry_matches(m.0[base + j], pm[j], m.1, m.2, l.2.len() as int, base + j));
                assert(r.0[base + j] == r.0.subrange(0, m.0.len() as int)[base + j]);
                lemma_entry_matches_extend(m.0[base + j], pm[j], m.1, m.2, l.2.len() as int, r.1, r.2, l.2.len() as int, base + j);
            } else {
                assert((pm + pn)[j] == pn[j - pm.len()]);
                assert(entry_matches(r.0[m.0.len() + (j - pm.len())], pn[j - pm.len()], r.1, r.2, m.2.len() as int, m.0.len() + (j - pm.len())));
                assert(r.1.subrange(0, r.1.len() as int) =~= r.1);
                assert(r.2.subrange(0, r.2.len() as int) =~= r.2);
                lemma_entry_matches_extend(r.0[m.0.len() + (j - pm.len())], pn[j - pm.len()], r.1, r.2, m.2.len() as int, r.1, r.2, l.2.len() as int, base + j);
            }
        }
        assert forall|j: int| 0 <= j < pm.len() + pn.len() implies #[trigger] r.0[base
            + j].file_name_offset == l.1.len() + names_len(pm + pn, j) by {
            lemma_names_len_concat(pm, pn, j);
            if j < pm.len() {
                assert(r.0[base + j] == r.0.subrange(0, m.0.len() as int)[base + j]);
                assert(m.0[base + j].file_name_offset == l.1.len() + names_len(pm, j));
            } else {
                assert(r.0[m.0.len() + (j - pm.len())].file_name_offset == m.1.len() + names_len(pn, j - pm.len()));
            }
        }
        lemma_names_len_concat(pm, pn, (pm.len() + pn.len()) as int);
    }
}

proof fn lemma_layout_top_matches(root: Directory, skip: int, i: int, l: Layout)
    requires
        0 <= i <= root.children@.len(),
        layout_top(root, skip, i, l).0.len() <= usize::MAX,
        layout_top(root, skip, i, l).1.len() <= usize::MAX,
        layout_top(root, skip, i, l).2.len() <= usize::MAX,
    ensures
        entries_match(
            layout_top(root, skip, i, l),
            l.0.len() as int,
            preorder_top(root, skip, i),
            l.2.len() as int,
            l.1.len() as int,
        ),
    decreases i,
{
    if i > 0 {
        let m = layout_top(root, skip, i - 1, l);
        lemma_layout_top(root, skip, i - 1, l);
        if i - 1 != skip {
            let c = root.children@[i - 1];
            lemma_layout_node(c, 0, m);
        }
        lemma_layout_top_matches(root, skip, i - 1, l);
        if i - 1 != skip {
            let c = root.children@[i - 1];
            lemma_layout_node_matches(c, 0, m);
            let r = layout_top(root, skip, i, l);
            let pm = preorder_top(root, skip, i - 1);
            let pn = preorder(c);
            let base = l.0.len() as int;
            assert(preorder_top(root, skip, i) == pm + pn);
            assert(r.1.subrange(0, r.1.len() as int) =~= r.1);
            assert(r.2.subrange(0, r.2.len() as int) =~= r.2);
            assert forall|j: int| 0 <= j < pm.len() + pn.len() implies #[trigger] entry_matches(
                r.0[base + j],
                preorder_top(root, skip, i)[j],
                r.1,
                r.2,
                l.2.len() as int,
                base + j,
            ) by {
                if j < pm.len() {
                    assert((pm + pn)[j] == pm[j]);
                    assert(entry_matches(m.0[base + j], pm[j], m.1, m.2, l.2.len() as int, base + j));
                    assert(r.0[base + j] == r.0.subrange(0, m.0.len() as int)[base + j]);
                    lemma_entry_matches_extend(m.0[base + j], pm[j], m.1, m.2, l.2.len() as int, r.1, r.2, l.2.len() as int, base + j);
                } else {
                    assert((pm + pn)[j] == pn[j - pm.len()]);
                    assert(entry_matches(r.0[m.0.len() + (j - pm.len())], pn[j - pm.len()], r.1, r.2, m.2.len() as int, m.0.len() + (j - pm.len())));
                    lemma_entry_matches_extend(r.0[m.0.len() + (j - pm.len())], pn[j - pm.len()], r.1, r.2, m.2.len() as int, r.1, r.2, l.2.len() as int, base + j);
                }
            }
            assert forall|j: int| 0 <= j < pm.len() + pn.len() implies #[trigger] r.0[base
                + j].file_name_offset == l.1.len() + names_len(pm + pn, j) by {
                lemma_names_len_concat(pm, pn, j);
                if j < pm.len() {
                    assert(r.0[base + j] == r.0.subrange(0, m.0.len() as int)[base + j]);
                    assert(m.0[base + j].file_name_offset == l.1.len() + names_len(pm, j));
                } else {
                    assert(r.0[m.0.len() + (j - pm.len())].file_name_offset == m.1.len() + names_len(pn, j - pm.len()));
                }
            }
            lemma_names_len_concat(pm, pn, (pm.len() + pn.len()) as int);
        }
    }
}

/// The build of an image that fits describes the pre-order nodes of the tree
/// outside the reserved directory, one entry each after the root entry, with
/// payloads after the table region.
proof fn lemma_built_matches(root: Directory, skip: int, h: Seq<u8>, a: Seq<u8>, d: Seq<u8>)
    requires
        built(root, skip, h, a, d).2.len() <= IMAGE_LIMIT,
    ensures
        entries_match(
            built(root, skip, h, a, d),
            1,
            preorder_top(root, skip, root.children@.len() as int),
            (fst_start(h, a, d) + fst_region_len(root, skip)) as int,
            0,
        ),
        fst_start(h, a, d) + fst_region_len(root, skip) <= built(root, skip, h, a, d).2.len(),
        h.len() <= fst_start(h, a, d),
{
    let n = root.children@.len() as int;
    let init: Layout = (
        seq![root_placeholder()],
        Seq::empty(),
        image_prefix(h, a, d, fst_region_len(root, skip)),
    );
    lemma_layout_top(root, skip, n, init);
    lemma_align_up(h.len() + a.len(), DOL_ALIGNMENT as nat);
    lemma_align_up(dol_start(h, a) + d.len(), FST_ALIGNMENT as nat);
    let b = layout_top(root, skip, n, init);
    assert(init.2.len() == fst_start(h, a, d) + fst_region_len(root, skip));
    assert(b.0.len() <= usize::MAX);
    lemma_layout_top_matches(root, skip, n, init);
}

/// Writing bytes leaves those after the written span unchanged.
proof fn lemma_write_at_keeps(img: Seq<u8>, at: nat, b: Seq<u8>, x: int, y: int)
    requires
        at + b.len() <= x <= y <= img.len(),
    ensures
        write_at(img, at, b).len() == img.len(),
        write_at(img, at, b).subrange(x, y) == img.subrange(x, y),
{
    assert(write_at(img, at, b).subrange(x, y) =~= img.subrange(x, y));
}

/// In an image that fits, each entry after the root entry holds, at its name
/// offset in the name bank, the name of the node at the same place in the
/// pre-order walk of the tree outside `&&systemdata`, followed by a terminator;
/// the names are packed in that order, so a later entry's name starts after an
/// earlier one's terminator.
pub proof fn law_name_bank(root: Directory, skip: int, h: Seq<u8>, a: Seq<u8>, d: Seq<u8>)
    requires
        built(root, skip, h, a, d).2.len() <= IMAGE_LIMIT,
    ensures
        ({
            let b = built(root, skip, h, a, d);
            let s = final_entries(b);
            let nodes = preorder_top(root, skip, root.children@.len() as int);
            &&& s.len() == nodes.len() + 1
            &&& b.1.len() == names_len(nodes, nodes.len() as int)
            &&& forall|j: int|
                0 <= j < nodes.len() ==> #[trigger] name_at(
                    b.1,
                    s[j + 1].file_name_offset as int,
                    nodes[j].spec_name(),
                )
            &&& forall|i: int, j: int|
                #![trigger s[i + 1], s[j + 1]]
                0 <= i < j < nodes.len() ==> s[i + 1].file_name_offset + nodes[i].spec_name().len()
                    < s[j + 1].file_name_offset
        }),
{
    lemma_built_matches(root, skip, h, a, d);
    let b = built(root, skip, h, a, d);
    let s = final_entries(b);
    let nodes = preorder_top(root, skip, root.children@.len() as int);
    let lo = (fst_start(h, a, d) + fst_region_len(root, skip)) as int;
    assert forall|j: int| 0 <= j < nodes.len() implies #[trigger] name_at(
        b.1,
        s[j + 1].file_name_offset as int,
        nodes[j].spec_name(),
    ) by {
        assert(entry_matches(b.0[1 + j], nodes[j], b.1, b.2, lo, 1 + j));
        assert(s[j + 1] == b.0[1 + j]);
    }
    assert forall|i: int, j: int|
        #![trigger s[i + 1], s[j + 1]]
        0 <= i < j < nodes.len() implies s[i + 1].file_name_offset + nodes[i].spec_name().len()
        < s[j + 1].file_name_offset by {
        assert(s[i + 1] == b.0[1 + i]);
        assert(s[j + 1] == b.0[1 + j]);
        assert(b.0[1 + i].file_name_offset == names_len(nodes, i));
        assert(b.0[1 + j].file_name_offset == names_len(nodes, j));
        lemma_names_len_mono(nodes, i + 1, j);
    }
}

/// In an image that fits and whose header covers the patched offset fields,
/// each entry after the root entry has the kind of the node at the same place in
/// the pre-order walk of the tree outside `&&systemdata`; a directory's entry
/// ends its subtree right after that node's descendants; and for a file the
/// image holds exactly its payload at the entry's offset and length. With the
/// names that `law_name_bank` places, the entries give back that tree.
pub proof fn law_entries_recover_nodes(root: Directory, skip: int, h: Seq<u8>, a: Seq<u8>, d: Seq<u8>)
    requires
        built(root, skip, h, a, d).2.len() <= IMAGE_LIMIT,
        h.len() >= OFFSET_DOL_OFFSET + 16,
    ensures
        ({
            let s = final_entries(built(root, skip, h, a, d));
            let img = final_image(root, skip, h, a, d);
            let nodes = preorder_top(root, skip, root.children@.len() as int);
            &&& s.len() == nodes.len() + 1
            &&& forall|j: int|
                #![trigger nodes[j]]
                0 <= j < nodes.len() ==> {
                    &&& (s[j + 1].kind == FstNodeType::File) == (nodes[j] is File)
                    &&& nodes[j] is Directory ==> s[j + 1].file_size_next_dir_index == j + 1
                        + preorder(nodes[j]).len()
                    &&& nodes[j] is File ==> img.subrange(
                        s[j + 1].file_offset_parent_dir as int,
                        s[j + 1].file_offset_parent_dir + s[j + 1].file_size_next_dir_index,
                    ) == nodes[j]->File_0.data@
                }
        }),
{
    lemma_built_matches(root, skip, h, a, d);
    law_size_agreement(root, skip, h, a, d);
    let b = built(root, skip, h, a, d);
    let s = final_entries(b);
    let nodes = preorder_top(root, skip, root.children@.len() as int);
    let fst_len = fst_region_len(root, skip);
    let lo = (fst_start(h, a, d) + fst_len) as int;
    let table = encode_entries(s) + b.1;
    let img1 = write_at(b.2, fst_start(h, a, d), table);
    let patch = be32(dol_start(h, a)) + be32(fst_start(h, a, d)) + be32(fst_len) + be32(fst_len);
    assert forall|j: int|
        #![trigger nodes[j]]
        0 <= j < nodes.len() implies {
        &&& (s[j + 1].kind == FstNodeType::File) == (nodes[j] is File)
        &&& nodes[j] is Directory ==> s[j + 1].file_size_next_dir_index == j + 1 + preorder(
            nodes[j],
        ).len()
        &&& nodes[j] is File ==> final_image(root, skip, h, a, d).subrange(
            s[j + 1].file_offset_parent_dir as int,
            s[j + 1].file_offset_parent_dir + s[j + 1].file_size_next_dir_index,
        ) == nodes[j]->File_0.data@
    } by {
        assert(entry_matches(b.0[1 + j], nodes[j], b.1, b.2, lo, 1 + j));
        assert(s[j + 1] == b.0[1 + j]);
        if nodes[j] is File {
            let x = s[j + 1].file_offset_parent_dir as int;
            let y = x + s[j + 1].file_size_next_dir_index;
            lemma_write_at_keeps(b.2, fst_start(h, a, d), table, x, y);
            lemma_write_at_keeps(img1, OFFSET_DOL_OFFSET as nat, patch, x, y);
        }
    }
}

} // verus!
