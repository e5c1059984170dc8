use vstd::prelude::*;

use crate::error::Error;
use crate::tree::{lemma_child_decreases, Directory, Node};

verus! {

/// Largest offset or size that the image's signed 32-bit fields can hold.
pub const IMAGE_LIMIT: usize = 0x7FFF_FFFF;

/// Kind of a table entry.
#[derive(Clone, Copy, Debug, PartialEq, Eq)]
pub enum FstNodeType {
    File,
    Directory,
}

/// One entry of the flattened file table.
///
/// For a file, `file_offset_parent_dir` is the payload's offset in the image and
/// `file_size_next_dir_index` its length. For a directory, they are the index of
/// the enclosing directory's entry and the index one past the directory's subtree.
#[derive(Clone, Copy, Debug)]
pub struct FstEntry {
    pub kind: FstNodeType,
    pub file_name_offset: usize,
    pub file_offset_parent_dir: usize,
    pub file_size_next_dir_index: usize,
}

/// Bytes that a node and its descendants add to the table region:
/// one entry each, plus each name with its terminator.
pub open spec fn fst_size(n: Node) -> nat
    decreases n, 0int,
{
    match n {
        Node::File(f) => 13 + f.name@.len(),
        Node::Directory(d) => 13 + d.name@.len() + fst_size_children(d, d.children@.len() as int),
    }
}

/// Bytes that the first `i` children of `d` add to the table region.
pub open spec fn fst_size_children(d: Directory, i: int) -> nat
    decreases d, i,
{
    if i <= 0 || i > d.children@.len() {
        0
    } else {
        fst_size_children(d, i - 1) + fst_size(d.children@[i - 1])
    }
}

/// `x` rounded up to a multiple of `a`.
pub open spec fn align_up(x: nat, a: nat) -> nat {
    if a == 0 {
        x
    } else {
        (x + (a - (x % a) as int) % (a as int)) as nat
    }
}

/// A rounded-up value is a multiple of the alignment, no smaller than the value,
/// and less than one alignment step above it.
pub proof fn lemma_align_up(x: nat, a: nat)
    requires
        a > 0,
    ensures
        align_up(x, a) % a == 0,
        x <= align_up(x, a) < x + a,
{
    let r = x % a;
    assert(x == a * (x / a) + r) by (nonlinear_arith)
        requires a > 0, r == x % a;
    assert(0 <= r < a) by (nonlinear_arith)
        requires a > 0, r == x % a;
    if r == 0 {
        assert((a - r) as int % (a as int) == 0) by (nonlinear_arith)
            requires a > 0, r == 0;
        assert(align_up(x, a) == x);
    } else {
        assert((a - r) as int % (a as int) == a - r) by (nonlinear_arith)
            requires a > 0, 0 < r < a;
        assert(align_up(x, a) == a * (x / a + 1)) by (nonlinear_arith)
            requires x == a * (x / a) + r, align_up(x, a) == x + (a - r);
        assert((a * (x / a + 1)) % a == 0) by (nonlinear_arith)
            requires a > 0, x / a + 1 >= 0;
    }
}

/// Zero bytes that follow a payload of `len` bytes up to the next 32-byte boundary.
pub open spec fn pad32(len: nat) -> nat {
    ((32 - (len % 32) as int) % 32) as nat
}

pub open spec fn zeros(n: nat) -> Seq<u8> {
    Seq::new(n, |i: int| 0u8)
}

/// The state of a table build: entries so far, name bank so far, image bytes so far.
pub type Layout = (Seq<FstEntry>, Seq<u8>, Seq<u8>);

/// What the build does for one node whose enclosing directory has entry `parent`.
pub open spec fn layout_node(n: Node, parent: nat, l: Layout) -> Layout
    decreases n, 0int,
{
    match n {
        Node::File(f) => {
            let start = align_up(l.2.len(), 32);
            let e = FstEntry {
                kind: FstNodeType::File,
                file_name_offset: l.1.len() as usize,
                file_offset_parent_dir: start as usize,
                file_size_next_dir_index: f.data@.len() as usize,
            };
            (
                l.0.push(e),
                l.1 + f.name@ + seq![0u8],
                l.2 + zeros((start - l.2.len()) as nat) + f.data@ + zeros(pad32(f.data@.len())),
            )
        },
        Node::Directory(d) => {
            let idx = l.0.len();
            let e = FstEntry {
                kind: FstNodeType::Directory,
                file_name_offset: l.1.len() as usize,
                file_offset_parent_dir: parent as usize,
                file_size_next_dir_index: 0,
            };
            let opened = (l.0.push(e), l.1 + d.name@ + seq![0u8], l.2);
            let done = layout_children(d, d.children@.len() as int, idx, opened);
            let closed = FstEntry { file_size_next_dir_index: done.0.len() as usize, ..e };
            (done.0.update(idx as int, closed), done.1, done.2)
        },
    }
}

/// What the build does for the first `i` children of `d`.
pub open spec fn layout_children(d: Directory, i: int, parent: nat, l: Layout) -> Layout
    decreases d, i,
{
    if i <= 0 || i > d.children@.len() {
        l
    } else {
        layout_node(d.children@[i - 1], parent, layout_children(d, i - 1, parent, l))
    }
}

/// Growth of a build over one node: its entries and names add `fst_size(n)` bytes,
/// and the image only grows at its end.
pub proof fn lemma_layout_node(n: Node, parent: nat, l: Layout)
    ensures
        ({
            let r = layout_node(n, parent, l);
            &&& 12 * r.0.len() + r.1.len() == 12 * l.0.len() + l.1.len() + fst_size(n)
            &&& r.0.len() > l.0.len()
            &&& r.1.len() >= l.1.len()
            &&& r.2.len() >= l.2.len()
            &&& r.2.subrange(0, l.2.len() as int) == l.2
            &&& r.1.subrange(0, l.1.len() as int) == l.1
            &&& r.0.subrange(0, l.0.len() as int) == l.0
        }),
    decreases n, 0int,
{
    match n {
        Node::File(f) => {
            let r = layout_node(n, parent, l);
            assert(r.2.subrange(0, l.2.len() as int) =~= l.2);
            assert(r.1.subrange(0, l.1.len() as int) =~= l.1);
            assert(r.0.subrange(0, l.0.len() as int) =~= l.0);
        },
        Node::Directory(d) => {
            let idx = l.0.len();
            let e = FstEntry {
                kind: FstNodeType::Directory,
                file_name_offset: l.1.len() as usize,
                file_offset_parent_dir: parent as usize,
                file_size_next_dir_index: 0,
            };
            let opened = (l.0.push(e), l.1 + d.name@ + seq![0u8], l.2);
            lemma_layout_children(d, d.children@.len() as int, idx, opened);
            let done = layout_children(d, d.children@.len() as int, idx, opened);
            assert(done.1.subrange(0, l.1.len() as int) =~= opened.1.subrange(0, opened.1.len() as int).subrange(0, l.1.len() as int));
            assert(opened.1.subrange(0, l.1.len() as int) =~= l.1);
            let r = layout_node(n, parent, l);
            assert(r.0.subrange(0, l.0.len() as int) =~= done.0.subrange(0, opened.0.len() as int).subrange(0, l.0.len() as int));
        },
    }
}

/// Growth of a build over the first `i` children of `d`.
pub proof fn lemma_layout_children(d: Directory, i: int, parent: nat, l: Layout)
    ensures
        ({
            let r = layout_children(d, i, parent, l);
            &&& 12 * r.0.len() + r.1.len() == 12 * l.0.len() + l.1.len() + fst_size_children(d, i)
            &&& r.0.len() >= l.0.len()
            &&& r.1.len() >= l.1.len()
            &&& r.2.len() >= l.2.len()
            &&& r.2.subrange(0, l.2.len() as int) == l.2
            &&& r.1.subrange(0, l.1.len() as int) == l.1
            &&& r.0.subrange(0, l.0.len() as int) == l.0
        }),
    decreases d, i,
{
    if i <= 0 || i > d.children@.len() {
        assert(l.2.subrange(0, l.2.len() as int) =~= l.2);
        assert(l.1.subrange(0, l.1.len() as int) =~= l.1);
        assert(l.0.subrange(0, l.0.len() as int) =~= l.0);
    } else {
        let m = layout_children(d, i - 1, parent, l);
        lemma_layout_children(d, i - 1, parent, l);
        lemma_layout_node(d.children@[i - 1], parent, m);
        let r = layout_node(d.children@[i - 1], parent, m);
        assert(r.2.subrange(0, l.2.len() as int) =~= m.2.subrange(0, l.2.len() as int));
        assert(r.1.subrange(0, l.1.len() as int) =~= m.1.subrange(0, l.1.len() as int));
        assert(r.0.subrange(0, l.0.len() as int) =~= m.0.subrange(0, l.0.len() as int));
    }
}

/// Image growth is monotone in the number of children laid out.
pub proof fn lemma_layout_children_mono(d: Directory, i: int, j: int, parent: nat, l: Layout)
    requires
        0 <= i <= j <= d.children@.len(),
    ensures
        layout_children(d, i, parent, l).2.len() <= layout_children(d, j, parent, l).2.len(),
    decreases j - i,
{
    if i < j {
        lemma_layout_children_mono(d, i, j - 1, parent, l);
        lemma_layout_node(d.children@[j - 1], parent, layout_children(d, j - 1, parent, l));
    }
}

/// Table bytes of `node` added to `cur_value`, saturating at `usize::MAX`.
pub fn calculate_fst_len(cur_value: usize, node: &Node) -> (r: usize)
    ensures
        r == (if cur_value + fst_size(*node) > usize::MAX {
            usize::MAX as int
        } else {
            cur_value + fst_size(*node)
        }),
    decreases node,
{
    let mut cur_value = cur_value;
    match *node {
        Node::Directory(ref dir) => {
            let ghost start = cur_value as int;
            cur_value = cur_value.saturating_add(13).saturating_add(dir.name.len());
            let mut i: usize = 0;
            while i < dir.children.len()
                invariant
                    *node == Node::Directory(*dir),
                    i <= dir.children@.len(),
                    cur_value == (if start + 13 + dir.name@.len() + fst_size_children(*dir, i as int)
                        > usize::MAX {
                        usize::MAX as int
                    } else {
                        start + 13 + dir.name@.len() + fst_size_children(*dir, i as int)
                    }),
                decreases dir.children@.len() - i,
            {
                let child = &dir.children[i];
                proof {
                    lemma_child_decreases(*node, i as int);
                }
                cur_value = calculate_fst_len(cur_value, child);
                i = i + 1;
            }
        },
        Node::File(ref file) => {
            cur_value = cur_value.saturating_add(13).saturating_add(file.name.len());
        },
    }
    cur_value
}

/// Appends the bytes of `src` to `dst`.
pub fn append_bytes(dst: &mut Vec<u8>, src: &Vec<u8>)
    ensures
        final(dst)@ == old(dst)@ + src@,
{
    let mut i: usize = 0;
    while i < src.len()
        invariant
            i <= src@.len(),
            dst@ == old(dst)@ + src@.subrange(0, i as int),
        decreases src@.len() - i,
    {
        dst.push(src[i]);
        i = i + 1;
        assert(dst@ =~= old(dst)@ + src@.subrange(0, i as int));
    }
    assert(src@.subrange(0, i as int) =~= src@);
}

/// Appends `n` zero bytes to `dst`.
pub fn push_zeros(dst: &mut Vec<u8>, n: usize)
    ensures
        final(dst)@ == old(dst)@ + zeros(n as nat),
{
    let mut i: usize = 0;
    while i < n
        invariant
            i <= n,
            dst@ == old(dst)@ + zeros(i as nat),
        decreases n - i,
    {
        dst.push(0);
        i = i + 1;
        assert(dst@ =~= old(dst)@ + zeros(i as nat));
    }
}

/// Lays out `node`, whose enclosing directory has entry `cur_parent_dir_index`:
/// appends its entries and names, and writes each file's payload into `image` at
/// the next 32-byte boundary followed by zero padding to the next boundary.
/// Fails, exactly when the image would outgrow its 32-bit offsets, with
/// `ImageTooLarge`.
pub fn do_output_prep(
    node: &Node,
    output_fst: &mut Vec<FstEntry>,
    fst_name_bank: &mut Vec<u8>,
    image: &mut Vec<u8>,
    cur_parent_dir_index: usize,
) -> (r: Result<(), Error>)
    requires
        old(image)@.len() <= IMAGE_LIMIT,
    ensures
        ({
            let want = layout_node(
                *node,
                cur_parent_dir_index as nat,
                (old(output_fst)@, old(fst_name_bank)@, old(image)@),
            );
            match r {
                Ok(_) => {
                    &&& final(output_fst)@ == want.0
                    &&& final(fst_name_bank)@ == want.1
                    &&& final(image)@ == want.2
                    &&& want.2.len() <= IMAGE_LIMIT
                },
                Err(e) => e is ImageTooLarge && want.2.len() > IMAGE_LIMIT,
            }
        }),
    decreases node,
{
    match *node {
        Node::Directory(ref dir) => {
            let name_off = fst_name_bank.len();
            append_bytes(fst_name_bank, &dir.name);
            fst_name_bank.push(0);
            let this_dir_index = output_fst.len();
            output_fst.push(
                FstEntry {
                    kind: FstNodeType::Directory,
                    file_name_offset: name_off,
                    file_offset_parent_dir: cur_parent_dir_index,
                    file_size_next_dir_index: 0,
                },
            );
            let ghost opened = (output_fst@, fst_name_bank@, image@);
            assert(opened.1 =~= old(fst_name_bank)@ + dir.name@ + seq![0u8]);
            let mut i: usize = 0;
            while i < dir.children.len()
                invariant
                    *node == Node::Directory(*dir),
                    i <= dir.children@.len(),
                    this_dir_index == opened.0.len() - 1,
                    opened.0.len() >= 1,
                    name_off == old(fst_name_bank)@.len(),
                    opened.0 == old(output_fst)@.push(
                        FstEntry {
                            kind: FstNodeType::Directory,
                            file_name_offset: name_off,
                            file_offset_parent_dir: cur_parent_dir_index,
                            file_size_next_dir_index: 0,
                        },
                    ),
                    opened.1 == old(fst_name_bank)@ + dir.name@ + seq![0u8],
                    opened.2 == old(image)@,
                    (output_fst@, fst_name_bank@, image@) == layout_children(
                        *dir,
                        i as int,
                        this_dir_index as nat,
                        opened,
                    ),
                    image@.len() <= IMAGE_LIMIT,
                decreases dir.children@.len() - i,
            {
                proof {
                    lemma_child_decreases(*node, i as int);
                }
                let ghost before = (output_fst@, fst_name_bank@, image@);
                let res = do_output_prep(
                    &dir.children[i],
                    output_fst,
                    fst_name_bank,
                    image,
                    this_dir_index,
                );
                match res {
                    Ok(_) => {},
                    Err(e) => {
                        proof {
                            assert(layout_children(*dir, i + 1, this_dir_index as nat, opened)
                                == layout_node(dir.children@[i as int], this_dir_index as nat, before));
                            lemma_layout_children_mono(
                                *dir,
                                i + 1,
                                dir.children@.len() as int,
                                this_dir_index as nat,
                                opened,
                            );
                        }
                        return Err(e);
                    },
                }
                i = i + 1;
            }
            proof {
                lemma_layout_children(*dir, i as int, this_dir_index as nat, opened);
            }
            let dir_end_index = output_fst.len();
            output_fst.set(
                this_dir_index,
                FstEntry {
                    kind: FstNodeType::Directory,
                    file_name_offset: name_off,
                    file_offset_parent_dir: cur_parent_dir_index,
                    file_size_next_dir_index: dir_end_index,
                },
            );
            Ok(())
        },
        Node::File(ref file) => {
            let pos = image.len();
            let new_pos = pos + (32 - pos % 32) % 32;
            proof {
                lemma_align_up(pos as nat, 32);
            }
            let len = file.data.len();
            if new_pos > IMAGE_LIMIT || len > IMAGE_LIMIT - new_pos {
                return Err(Error::ImageTooLarge);
            }
            let pad = (32 - len % 32) % 32;
            if pad > IMAGE_LIMIT - new_pos - len {
                return Err(Error::ImageTooLarge);
            }
            let name_off = fst_name_bank.len();
            append_bytes(fst_name_bank, &file.name);
            fst_name_bank.push(0);
            push_zeros(image, new_pos - pos);
            append_bytes(image, &file.data);
            push_zeros(image, pad);
            output_fst.push(
                FstEntry {
                    kind: FstNodeType::File,
                    file_name_offset: name_off,
                    file_offset_parent_dir: new_pos,
                    file_size_next_dir_index: len,
                },
            );
            assert(fst_name_bank@ =~= old(fst_name_bank)@ + file.name@ + seq![0u8]);
            Ok(())
        },
    }
}

} // verus!
