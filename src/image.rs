use vstd::prelude::*;

use crate::error::Error;
use crate::fst::{
    align_up, append_bytes, calculate_fst_len, do_output_prep, fst_size, layout_node,
    lemma_align_up, lemma_layout_node, push_zeros, zeros, FstEntry, FstNodeType, Layout,
    IMAGE_LIMIT,
};
use crate::tree::{
    copy_bytes, file_data, find_dir, find_file, first_dir_named, first_file_matching,
    lemma_first_dir_named, lemma_first_file_matching, Directory, Node,
};

verus! {

/// Alignment of the executable's start in the image.
pub const DOL_ALIGNMENT: usize = 1024;

/// Alignment of the file table's start in the image.
pub const FST_ALIGNMENT: usize = 256;

/// Header offset of the executable-offset field; the table offset and the table
/// length (twice) follow it, four bytes each.
pub const OFFSET_DOL_OFFSET: usize = 0x420;

/// `&&systemdata`: the reserved directory that holds header, loader and executable.
pub open spec fn system_data_name() -> Seq<u8> {
    seq![38u8, 38, 115, 121, 115, 116, 101, 109, 100, 97, 116, 97]
}

/// `iso.hdr`: the disc header.
pub open spec fn header_name() -> Seq<u8> {
    seq![105u8, 115, 111, 46, 104, 100, 114]
}

/// `AppLoader.ldr`: the second-stage loader.
pub open spec fn apploader_name() -> Seq<u8> {
    seq![65u8, 112, 112, 76, 111, 97, 100, 101, 114, 46, 108, 100, 114]
}

/// `.dol`: the extension of the executable.
pub open spec fn dol_extension() -> Seq<u8> {
    seq![46u8, 100, 111, 108]
}

pub fn system_data() -> (r: Vec<u8>)
    ensures
        r@ == system_data_name(),
{
    let r = vec![38u8, 38, 115, 121, 115, 116, 101, 109, 100, 97, 116, 97];
    assert(r@ =~= system_data_name());
    r
}

pub(crate) fn header_file() -> (r: Vec<u8>)
    ensures
        r@ == header_name(),
{
    let r = vec![105u8, 115, 111, 46, 104, 100, 114];
    assert(r@ =~= header_name());
    r
}

pub(crate) fn apploader_file() -> (r: Vec<u8>)
    ensures
        r@ == apploader_name(),
{
    let r = vec![65u8, 112, 112, 76, 111, 97, 100, 101, 114, 46, 108, 100, 114];
    assert(r@ =~= apploader_name());
    r
}

pub(crate) fn dol_suffix() -> (r: Vec<u8>)
    ensures
        r@ == dol_extension(),
{
    let r = vec![46u8, 100, 111, 108];
    assert(r@ =~= dol_extension());
    r
}

/// Two big-endian bytes of `x`, truncated to 16 bits.
pub open spec fn be16(x: nat) -> Seq<u8> {
    seq![((x / 0x100) % 0x100) as u8, (x % 0x100) as u8]
}

/// Four big-endian bytes of `x`, truncated to 32 bits.
pub open spec fn be32(x: nat) -> Seq<u8> {
    seq![
        ((x / 0x100_0000) % 0x100) as u8,
        ((x / 0x1_0000) % 0x100) as u8,
        ((x / 0x100) % 0x100) as u8,
        (x % 0x100) as u8,
    ]
}

pub open spec fn kind_byte(k: FstNodeType) -> u8 {
    match k {
        FstNodeType::File => 0,
        FstNodeType::Directory => 1,
    }
}

/// The 12 bytes of one table entry.
pub open spec fn encode_entry(e: FstEntry) -> Seq<u8> {
    seq![kind_byte(e.kind), 0u8] + be16(e.file_name_offset as nat) + be32(
        e.file_offset_parent_dir as nat,
    ) + be32(e.file_size_next_dir_index as nat)
}

/// The entries, encoded one after another.
pub open spec fn encode_entries(s: Seq<FstEntry>) -> Seq<u8>
    decreases s.len(),
{
    if s.len() == 0 {
        Seq::empty()
    } else {
        encode_entries(s.drop_last()) + encode_entry(s.last())
    }
}

/// `img` with `b` written at `at`; where `img` is shorter it is first zero-extended.
pub open spec fn write_at(img: Seq<u8>, at: nat, b: Seq<u8>) -> Seq<u8> {
    let ext = if img.len() < at + b.len() {
        img + zeros((at + b.len() - img.len()) as nat)
    } else {
        img
    };
    ext.subrange(0, at as int) + b + ext.subrange((at + b.len()) as int, ext.len() as int)
}

/// Table bytes of the top-level children other than `skip`, among the first `i`.
pub open spec fn fst_size_top(root: Directory, skip: int, i: int) -> nat
    decreases i,
{
    if i <= 0 || i > root.children@.len() {
        0
    } else if i - 1 == skip {
        fst_size_top(root, skip, i - 1)
    } else {
        fst_size_top(root, skip, i - 1) + fst_size(root.children@[i - 1])
    }
}

/// The build over the top-level children other than `skip`, among the first `i`.
pub open spec fn layout_top(root: Directory, skip: int, i: int, l: Layout) -> Layout
    decreases i,
{
    if i <= 0 || i > root.children@.len() {
        l
    } else if i - 1 == skip {
        layout_top(root, skip, i - 1, l)
    } else {
        layout_node(root.children@[i - 1], 0, layout_top(root, skip, i - 1, l))
    }
}

/// Growth of the top-level build.
pub proof fn lemma_layout_top(root: Directory, skip: int, i: int, l: Layout)
    ensures
        ({
            let r = layout_top(root, skip, i, l);
            &&& 12 * r.0.len() + r.1.len() == 12 * l.0.len() + l.1.len() + fst_size_top(root, skip, i)
            &&& r.0.len() >= l.0.len()
            &&& r.2.len() >= l.2.len()
            &&& r.2.subrange(0, l.2.len() as int) == l.2
        }),
    decreases i,
{
    if i <= 0 || i > root.children@.len() {
        assert(l.2.subrange(0, l.2.len() as int) =~= l.2);
    } else {
        lemma_layout_top(root, skip, i - 1, l);
        if i - 1 != skip {
            let m = layout_top(root, skip, i - 1, l);
            lemma_layout_node(root.children@[i - 1], 0, m);
            let r = layout_node(root.children@[i - 1], 0, m);
            assert(r.2.subrange(0, l.2.len() as int) =~= m.2.subrange(0, l.2.len() as int));
        }
    }
}

/// The top-level build's image grows with the number of children laid out.
pub proof fn lemma_layout_top_mono(root: Directory, skip: int, i: int, j: int, l: Layout)
    requires
        0 <= i <= j <= root.children@.len(),
    ensures
        layout_top(root, skip, i, l).2.len() <= layout_top(root, skip, j, l).2.len(),
    decreases j - i,
{
    if i < j {
        lemma_layout_top_mono(root, skip, i, j - 1, l);
        if j - 1 != skip {
            lemma_layout_node(root.children@[j - 1], 0, layout_top(root, skip, j - 1, l));
        }
    }
}

pub open spec fn dol_start(h: Seq<u8>, a: Seq<u8>) -> nat {
    align_up(h.len() + a.len(), DOL_ALIGNMENT as nat)
}

pub open spec fn fst_start(h: Seq<u8>, a: Seq<u8>, d: Seq<u8>) -> nat {
    align_up(dol_start(h, a) + d.len(), FST_ALIGNMENT as nat)
}

/// Length of the table region for `root` without the child `skip`.
pub open spec fn fst_region_len(root: Directory, skip: int) -> nat {
    12 + fst_size_top(root, skip, root.children@.len() as int)
}

/// Header, loader, executable and the zeroed table region, each at its offset.
pub open spec fn image_prefix(h: Seq<u8>, a: Seq<u8>, d: Seq<u8>, fst_len: nat) -> Seq<u8> {
    h + a + zeros((dol_start(h, a) - h.len() - a.len()) as nat) + d + zeros(
        (fst_start(h, a, d) - dol_start(h, a) - d.len()) as nat,
    ) + zeros(fst_len)
}

pub open spec fn root_placeholder() -> FstEntry {
    FstEntry {
        kind: FstNodeType::Directory,
        file_name_offset: 0,
        file_offset_parent_dir: 0,
        file_size_next_dir_index: 0,
    }
}

/// The build over every top-level child but the reserved directory at `skip`,
/// after the placeholder root entry, on an image that holds the prefix.
pub open spec fn built(root: Directory, skip: int, h: Seq<u8>, a: Seq<u8>, d: Seq<u8>) -> Layout {
    layout_top(
        root,
        skip,
        root.children@.len() as int,
        (seq![root_placeholder()], Seq::empty(), image_prefix(h, a, d, fst_region_len(root, skip))),
    )
}

/// The entries of a finished build: the root entry closes over all of them.
pub open spec fn final_entries(b: Layout) -> Seq<FstEntry> {
    b.0.update(
        0,
        FstEntry {
            kind: FstNodeType::Directory,
            file_name_offset: 0,
            file_offset_parent_dir: 0,
            file_size_next_dir_index: b.0.len() as usize,
        },
    )
}

/// The finished image: the table and name bank written over the reserved region,
/// then the header's offset fields patched.
pub open spec fn final_image(root: Directory, skip: int, h: Seq<u8>, a: Seq<u8>, d: Seq<u8>) -> Seq<u8> {
    let b = built(root, skip, h, a, d);
    let fst_len = fst_region_len(root, skip);
    let with_table = write_at(
        b.2,
        fst_start(h, a, d),
        encode_entries(final_entries(b)) + b.1,
    );
    write_at(
        with_table,
        OFFSET_DOL_OFFSET as nat,
        be32(dol_start(h, a)) + be32(fst_start(h, a, d)) + be32(fst_len) + be32(fst_len),
    )
}

/// What writing an image of a tree comes to.
pub enum IsoOutcome {
    Missing { container: Seq<u8>, expected: Seq<u8> },
    TooLarge,
    Image(Seq<u8>),
}

/// Data of the file at `s[i]`.
pub open spec fn data_at(s: Seq<Node>, i: int) -> Seq<u8> {
    s[i]->File_0.data@
}

pub open spec fn iso_outcome(root: Directory) -> IsoOutcome {
    match first_dir_named(root.children@, system_data_name(), 0) {
        None => IsoOutcome::Missing { container: root.name@, expected: system_data_name() },
        Some(si) => {
            let sys = root.children@[si]->Directory_0;
            let s = sys.children@;
            match first_file_matching(s, header_name(), false, 0) {
                None => IsoOutcome::Missing { container: sys.name@, expected: header_name() },
                Some(hi) => match first_file_matching(s, apploader_name(), false, 0) {
                    None => IsoOutcome::Missing { container: sys.name@, expected: apploader_name() },
                    Some(ai) => match first_file_matching(s, dol_extension(), true, 0) {
                        None => IsoOutcome::Missing { container: sys.name@, expected: dol_extension() },
                        Some(di) => {
                            let (h, a, d) = (data_at(s, hi), data_at(s, ai), data_at(s, di));
                            if built(root, si, h, a, d).2.len() > IMAGE_LIMIT {
                                IsoOutcome::TooLarge
                            } else {
                                IsoOutcome::Image(final_image(root, si, h, a, d))
                            }
                        },
                    },
                },
            }
        },
    }
}

/// Whether `r` is the result that `o` describes.
pub open spec fn result_is(r: Result<Vec<u8>, Error>, o: IsoOutcome) -> bool {
    match o {
        IsoOutcome::Missing { container, expected } => r matches Err(
            Error::MissingSpecialEntry { container_name, expected_name },
        ) && container_name@ == container && expected_name@ == expected,
        IsoOutcome::TooLarge => r matches Err(Error::ImageTooLarge),
        IsoOutcome::Image(img) => r matches Ok(v) && v@ == img,
    }
}

/// Each entry encodes to 12 bytes.
pub proof fn lemma_encode_entries_len(s: Seq<FstEntry>)
    ensures
        encode_entries(s).len() == 12 * s.len(),
    decreases s.len(),
{
    if s.len() > 0 {
        lemma_encode_entries_len(s.drop_last());
    }
}

fn push_be16(out: &mut Vec<u8>, x: usize)
    ensures
        final(out)@ == old(out)@ + be16(x as nat),
{
    out.push(((x / 0x100) % 0x100) as u8);
    out.push((x % 0x100) as u8);
    assert(out@ =~= old(out)@ + be16(x as nat));
}

fn push_be32(out: &mut Vec<u8>, x: usize)
    ensures
        final(out)@ == old(out)@ + be32(x as nat),
{
    out.push(((x / 0x100_0000) % 0x100) as u8);
    out.push(((x / 0x1_0000) % 0x100) as u8);
    out.push(((x / 0x100) % 0x100) as u8);
    out.push((x % 0x100) as u8);
    assert(out@ =~= old(out)@ + be32(x as nat));
}

/// The encoded entries followed by the name bank.
pub fn encode_table(entries: &Vec<FstEntry>, bank: &Vec<u8>) -> (r: Vec<u8>)
    ensures
        r@ == encode_entries(entries@) + bank@,
{
    let mut out: Vec<u8> = Vec::new();
    let mut i: usize = 0;
    while i < entries.len()
        invariant
            i <= entries@.len(),
            out@ == encode_entries(entries@.subrange(0, i as int)),
        decreases entries@.len() - i,
    {
        let e = entries[i];
        let ghost before = out@;
        out.push(
            match e.kind {
                FstNodeType::File => 0u8,
                FstNodeType::Directory => 1u8,
            },
        );
        out.push(0);
        push_be16(&mut out, e.file_name_offset);
        push_be32(&mut out, e.file_offset_parent_dir);
        push_be32(&mut out, e.file_size_next_dir_index);
        assert(entries@.subrange(0, i + 1).drop_last() =~= entries@.subrange(0, i as int));
        assert(out@ =~= before + encode_entry(e));
        i = i + 1;
    }
    assert(entries@.subrange(0, i as int) =~= entries@);
    append_bytes(&mut out, bank);
    out
}

/// Writes `b` into `image` at `at`, zero-extending `image` where it is shorter.
pub fn write_bytes_at(image: &mut Vec<u8>, at: usize, b: &Vec<u8>)
    requires
        at + b@.len() <= usize::MAX,
    ensures
        final(image)@ == write_at(old(image)@, at as nat, b@),
{
    let end = at + b.len();
    if image.len() < end {
        let n = end - image.len();
        push_zeros(image, n);
    }
    let ghost ext = image@;
    let mut k: usize = 0;
    while k < b.len()
        invariant
            k <= b@.len(),
            end == at + b@.len(),
            ext.len() >= end,
            image@ == ext.subrange(0, at as int) + b@.subrange(0, k as int) + ext.subrange(
                at + k,
                ext.len() as int,
            ),
        decreases b@.len() - k,
    {
        image.set(at + k, b[k]);
        assert(image@ =~= ext.subrange(0, at as int) + b@.subrange(0, k + 1) + ext.subrange(
            at + k + 1,
            ext.len() as int,
        ));
        k = k + 1;
    }
    assert(image@ =~= write_at(old(image)@, at as nat, b@));
}

/// Writes the disc image of `root`: header and loader, the executable at the next
/// `DOL_ALIGNMENT` boundary, the file table at the next `FST_ALIGNMENT` boundary,
/// then the payload of every file outside `&&systemdata`; the table and the four
/// header offset fields are filled in once all payloads are placed.
pub fn write_iso(root: &Directory) -> (r: Result<Vec<u8>, Error>)
    ensures
        result_is(r, iso_outcome(*root)),
{
    let sys_name = system_data();
    let sys_index = match find_dir(&root.children, &sys_name) {
        Some(k) => k,
        None => {
            return Err(
                Error::MissingSpecialEntry {
                    container_name: copy_bytes(&root.name),
                    expected_name: sys_name,
                },
            );
        },
    };
    proof {
        lemma_first_dir_named(root.children@, system_data_name(), 0);
    }
    match root.children[sys_index] {
        Node::Directory(ref sys_dir) => write_iso_with(root, sys_index, sys_dir),
        // `find_dir` only yields directories.
        Node::File(_) => Err(Error::ImageTooLarge),
    }
}

/// Lays out every top-level child of `root` but the one at `skip`, with the root
/// entry as their parent. Fails, exactly when the image would outgrow its 32-bit
/// offsets, with `ImageTooLarge`.
fn build_top(
    root: &Directory,
    skip: usize,
    output_fst: &mut Vec<FstEntry>,
    fst_name_bank: &mut Vec<u8>,
    image: &mut Vec<u8>,
) -> (r: Result<(), Error>)
    requires
        old(image)@.len() <= IMAGE_LIMIT,
    ensures
        ({
            let want = layout_top(
                *root,
                skip as int,
                root.children@.len() as int,
                (old(output_fst)@, old(fst_name_bank)@, old(image)@),
            );
            match r {
                Ok(_) => {
                    &&& (final(output_fst)@, final(fst_name_bank)@, final(image)@) == want
                    &&& want.2.len() <= IMAGE_LIMIT
                },
                Err(e) => e is ImageTooLarge && want.2.len() > IMAGE_LIMIT,
            }
        }),
{
    let ghost init = (output_fst@, fst_name_bank@, image@);
    let ghost n = root.children@.len() as int;
    let mut i: usize = 0;
    while i < root.children.len()
        invariant
            i <= n,
            n == root.children@.len(),
            init == (old(output_fst)@, old(fst_name_bank)@, old(image)@),
            (output_fst@, fst_name_bank@, image@) == layout_top(*root, skip as int, i as int, init),
            image@.len() <= IMAGE_LIMIT,
        decreases n - i,
    {
        if i != skip {
            let ghost before = (output_fst@, fst_name_bank@, image@);
            let res = do_output_prep(&root.children[i], output_fst, fst_name_bank, image, 0);
            if let Err(e) = res {
                proof {
                    assert(layout_top(*root, skip as int, i + 1, init) == layout_node(
                        root.children@[i as int],
                        0,
                        before,
                    ));
                    lemma_layout_top_mono(*root, skip as int, i + 1, n, init);
                }
                return Err(e);
            }
        }
        i = i + 1;
    }
    Ok(())
}

/// `write_iso` once the reserved directory `sys_dir` is found at `sys_index`.
fn write_iso_with(root: &Directory, sys_index: usize, sys_dir: &Directory) -> (r: Result<
    Vec<u8>,
    Error,
>)
    requires
        first_dir_named(root.children@, system_data_name(), 0) == Some(sys_index as int),
        sys_index < root.children@.len(),
        root.children@[sys_index as int] == Node::Directory(*sys_dir),
    ensures
        result_is(r, iso_outcome(*root)),
{
    let ghost s = sys_dir.children@;
    proof {
        lemma_first_file_matching(s, header_name(), false, 0);
        lemma_first_file_matching(s, apploader_name(), false, 0);
        lemma_first_file_matching(s, dol_extension(), true, 0);
    }
    let hname = header_file();
    let hi = match find_file(&sys_dir.children, &hname, false) {
        Some(k) => k,
        None => {
            return Err(
                Error::MissingSpecialEntry {
                    container_name: copy_bytes(&sys_dir.name),
                    expected_name: hname,
                },
            );
        },
    };
    let aname = apploader_file();
    let ai = match find_file(&sys_dir.children, &aname, false) {
        Some(k) => k,
        None => {
            return Err(
                Error::MissingSpecialEntry {
                    container_name: copy_bytes(&sys_dir.name),
                    expected_name: aname,
                },
            );
        },
    };
    let dname = dol_suffix();
    let di = match find_file(&sys_dir.children, &dname, true) {
        Some(k) => k,
        None => {
            return Err(
                Error::MissingSpecialEntry {
                    container_name: copy_bytes(&sys_dir.name),
                    expected_name: dname,
                },
            );
        },
    };
    let header = file_data(&sys_dir.children[hi]);
    let apploader = file_data(&sys_dir.children[ai]);
    let dol = file_data(&sys_dir.children[di]);
    let ghost (h, a, d) = (header@, apploader@, dol@);
    let ghost skip = sys_index as int;
    let ghost n = root.children@.len() as int;
    let ghost init: Layout = (
        seq![root_placeholder()],
        Seq::empty(),
        image_prefix(h, a, d, fst_region_len(*root, skip)),
    );
    proof {
        lemma_layout_top(*root, skip, n, init);
        lemma_align_up((h.len() + a.len()) as nat, DOL_ALIGNMENT as nat);
        lemma_align_up(dol_start(h, a) + d.len(), FST_ALIGNMENT as nat);
        assert(built(*root, skip, h, a, d) == layout_top(*root, skip, n, init));
        assert(init.2.len() == fst_start(h, a, d) + fst_region_len(*root, skip));
    }

    let hl = header.len();
    let al = apploader.len();
    let dl = dol.len();
    if hl > IMAGE_LIMIT || al > IMAGE_LIMIT - hl {
        return Err(Error::ImageTooLarge);
    }
    let dol_offset_without_padding = hl + al;
    let dol_offset = dol_offset_without_padding + (DOL_ALIGNMENT - dol_offset_without_padding
        % DOL_ALIGNMENT) % DOL_ALIGNMENT;
    if dol_offset > IMAGE_LIMIT || dl > IMAGE_LIMIT - dol_offset {
        return Err(Error::ImageTooLarge);
    }
    let fst_list_offset_without_padding = dol_offset + dl;
    let fst_list_offset = fst_list_offset_without_padding + (FST_ALIGNMENT
        - fst_list_offset_without_padding % FST_ALIGNMENT) % FST_ALIGNMENT;
    if fst_list_offset > IMAGE_LIMIT {
        return Err(Error::ImageTooLarge);
    }

    let mut fst_len: usize = 12;
    let mut i: usize = 0;
    while i < root.children.len()
        invariant
            i <= n,
            n == root.children@.len(),
            skip == sys_index,
            fst_len == (if 12 + fst_size_top(*root, skip, i as int) > usize::MAX {
                usize::MAX as int
            } else {
                (12 + fst_size_top(*root, skip, i as int)) as int
            }),
        decreases n - i,
    {
        if i != sys_index {
            fst_len = calculate_fst_len(fst_len, &root.children[i]);
        }
        i = i + 1;
    }
    if fst_len > IMAGE_LIMIT - fst_list_offset {
        return Err(Error::ImageTooLarge);
    }

    let mut image: Vec<u8> = Vec::new();
    append_bytes(&mut image, header);
    append_bytes(&mut image, apploader);
    push_zeros(&mut image, dol_offset - dol_offset_without_padding);
    append_bytes(&mut image, dol);
    push_zeros(&mut image, fst_list_offset - fst_list_offset_without_padding);
    push_zeros(&mut image, fst_len);
    assert(image@ =~= init.2);

    let mut output_fst: Vec<FstEntry> = Vec::new();
    output_fst.push(
        FstEntry {
            kind: FstNodeType::Directory,
            file_name_offset: 0,
            file_offset_parent_dir: 0,
            file_size_next_dir_index: 0,
        },
    );
    let mut fst_name_bank: Vec<u8> = Vec::new();
    assert(output_fst@ =~= init.0);
    assert(fst_name_bank@ =~= init.1);
    let res = build_top(root, sys_index, &mut output_fst, &mut fst_name_bank, &mut image);
    if let Err(e) = res {
        return Err(e);
    }

    let entry_count = output_fst.len();
    output_fst.set(
        0,
        FstEntry {
            kind: FstNodeType::Directory,
            file_name_offset: 0,
            file_offset_parent_dir: 0,
            file_size_next_dir_index: entry_count,
        },
    );
    let table = encode_table(&output_fst, &fst_name_bank);
    proof {
        lemma_encode_entries_len(output_fst@);
    }
    write_bytes_at(&mut image, fst_list_offset, &table);

    let mut patch: Vec<u8> = Vec::new();
    push_be32(&mut patch, dol_offset);
    push_be32(&mut patch, fst_list_offset);
    push_be32(&mut patch, fst_len);
    push_be32(&mut patch, fst_len);
    write_bytes_at(&mut image, OFFSET_DOL_OFFSET, &patch);
    proof {
        assert(patch@ =~= be32(dol_start(h, a)) + be32(fst_start(h, a, d)) + be32(
            fst_region_len(*root, skip),
        ) + be32(fst_region_len(*root, skip)));
    }
    Ok(image)
}

} // verus!
