use vstd::prelude::*;

use crate::error::Error;
use crate::image::{data_at, system_data, system_data_name};
use crate::tree::{
    copy_bytes, file_data, find_dir, find_file, first_dir_named, first_file_matching,
    lemma_child_decreases, lemma_first_dir_named, lemma_first_file_matching, Directory, Node,
};

verus! {

/// One operation on the host filesystem, with a path of components relative to
/// the export's target directory.
#[derive(Debug)]
pub enum HostAction {
    CreateDir { path: Vec<Vec<u8>> },
    WriteFile { path: Vec<Vec<u8>>, data: Vec<u8> },
}

/// A host operation as plain values.
pub enum HostActionView {
    CreateDir(Seq<Seq<u8>>),
    WriteFile(Seq<Seq<u8>>, Seq<u8>),
}

pub open spec fn path_view(p: Seq<Vec<u8>>) -> Seq<Seq<u8>> {
    p.map_values(|c: Vec<u8>| c@)
}

pub open spec fn action_view(a: HostAction) -> HostActionView {
    match a {
        HostAction::CreateDir { path } => HostActionView::CreateDir(path_view(path@)),
        HostAction::WriteFile { path, data } => HostActionView::WriteFile(path_view(path@), data@),
    }
}

pub open spec fn actions_view(s: Seq<HostAction>) -> Seq<HostActionView> {
    s.map_values(|a: HostAction| action_view(a))
}

/// The operations that mirror `n` under the host directory `at`.
pub open spec fn mirror_node(n: Node, at: Seq<Seq<u8>>) -> Seq<HostActionView>
    decreases n, 0int,
{
    match n {
        Node::File(f) => seq![HostActionView::WriteFile(at.push(f.name@), f.data@)],
        Node::Directory(d) => seq![HostActionView::CreateDir(at.push(d.name@))] + mirror_children(
            d,
            d.children@.len() as int,
            at.push(d.name@),
        ),
    }
}

/// The operations that mirror the first `i` children of `d` under `at`.
pub open spec fn mirror_children(d: Directory, i: int, at: Seq<Seq<u8>>) -> Seq<HostActionView>
    decreases d, i,
{
    if i <= 0 || i > d.children@.len() {
        Seq::empty()
    } else {
        mirror_children(d, i - 1, at) + mirror_node(d.children@[i - 1], at)
    }
}

/// The operations that mirror the first `i` top-level children but `skip` under `at`.
pub open spec fn mirror_top(root: Directory, skip: int, i: int, at: Seq<Seq<u8>>) -> Seq<HostActionView>
    decreases i,
{
    if i <= 0 || i > root.children@.len() {
        Seq::empty()
    } else if i - 1 == skip {
        mirror_top(root, skip, i - 1, at)
    } else {
        mirror_top(root, skip, i - 1, at) + mirror_node(root.children@[i - 1], at)
    }
}

/// What exporting a tree comes to: a missing reserved entry, or the operations.
pub enum ExportOutcome {
    Missing { container: Seq<u8>, expected: Seq<u8> },
    Plan(Seq<HostActionView>),
}

/// `acc` followed by `s`, unless `acc` already failed.
pub open spec fn add_actions(acc: ExportOutcome, s: Seq<HostActionView>) -> ExportOutcome {
    match acc {
        ExportOutcome::Missing { .. } => acc,
        ExportOutcome::Plan(p) => ExportOutcome::Plan(p + s),
    }
}

/// Exports the first file of `dir` whose name matches `virt` as `host_name` in
/// the host directory `host`; an absent file fails the export if `required`.
pub open spec fn export_step(
    acc: ExportOutcome,
    dir: Directory,
    host: Seq<Seq<u8>>,
    host_name: Seq<u8>,
    virt: Seq<u8>,
    suffix: bool,
    required: bool,
) -> ExportOutcome {
    match acc {
        ExportOutcome::Missing { .. } => acc,
        ExportOutcome::Plan(p) => match first_file_matching(dir.children@, virt, suffix, 0) {
            Some(k) => ExportOutcome::Plan(
                p.push(HostActionView::WriteFile(host.push(host_name), data_at(dir.children@, k))),
            ),
            None => if required {
                ExportOutcome::Missing { container: dir.name@, expected: virt }
            } else {
                acc
            },
        },
    }
}

pub open spec fn export_root_data(acc: ExportOutcome, root: Directory) -> ExportOutcome {
    match first_dir_named(root.children@, root_data_name(), 0) {
        None => acc,
        Some(i) => {
            let d = root.children@[i]->Directory_0;
            let h = Seq::<Seq<u8>>::empty();
            let o = export_step(acc, d, h, cert_bin_name(), cert_bin_name(), false, true);
            let o = export_step(o, d, h, h3_bin_name(), h3_bin_name(), false, true);
            let o = export_step(o, d, h, ticket_bin_name(), ticket_bin_name(), false, true);
            export_step(o, d, h, tmd_bin_name(), tmd_bin_name(), false, true)
        },
    }
}

pub open spec fn export_system_data(acc: ExportOutcome, root: Directory) -> ExportOutcome {
    match first_dir_named(root.children@, system_data_name(), 0) {
        None => match acc {
            ExportOutcome::Missing { .. } => acc,
            ExportOutcome::Plan(_) => ExportOutcome::Missing {
                container: root.name@,
                expected: system_data_name(),
            },
        },
        Some(i) => {
            let d = root.children@[i]->Directory_0;
            let h = seq![sys_dir_name()];
            let o = add_actions(acc, seq![HostActionView::CreateDir(h)]);
            let o = export_step(o, d, h, bi2_bin_name(), crate::image::header_name(), false, true);
            let o = export_step(
                o,
                d,
                h,
                apploader_img_name(),
                crate::image::apploader_name(),
                false,
                true,
            );
            let o = export_step(o, d, h, main_dol_name(), crate::image::dol_extension(), true, true);
            let o = export_step(o, d, h, boot_bin_name(), game_toc_name(), false, false);
            export_step(o, d, h, fst_bin_name(), fst_bin_name(), false, false)
        },
    }
}

pub open spec fn export_disc_data(acc: ExportOutcome, root: Directory) -> ExportOutcome {
    match first_dir_named(root.children@, disc_data_name(), 0) {
        None => acc,
        Some(i) => {
            let d = root.children@[i]->Directory_0;
            let h = seq![disc_dir_name()];
            let o = add_actions(acc, seq![HostActionView::CreateDir(h)]);
            let o = export_step(o, d, h, header_bin_name(), header_bin_name(), false, true);
            export_step(o, d, h, region_bin_name(), region_bin_name(), false, true)
        },
    }
}

/// The export of `root`: the target directory; the files of `&&rootdata` in it;
/// `sys/` with the files of `&&systemdata`; `disc/` with those of `&&discdata`;
/// and `files/` mirroring every other top-level entry but `&&systemdata`.
pub open spec fn export_outcome(root: Directory) -> ExportOutcome {
    let o = ExportOutcome::Plan(seq![HostActionView::CreateDir(Seq::empty())]);
    let o = export_root_data(o, root);
    let o = export_system_data(o, root);
    let o = export_disc_data(o, root);
    match first_dir_named(root.children@, system_data_name(), 0) {
        None => o,
        Some(si) => {
            let at = seq![files_dir_name()];
            add_actions(
                o,
                seq![HostActionView::CreateDir(at)] + mirror_top(
                    root,
                    si,
                    root.children@.len() as int,
                    at,
                ),
            )
        },
    }
}

/// Whether `r` is the result that `o` describes.
pub open spec fn export_result_is(r: Result<Vec<HostAction>, Error>, o: ExportOutcome) -> bool {
    match o {
        ExportOutcome::Missing { container, expected } => r matches Err(
            Error::MissingSpecialEntry { container_name, expected_name },
        ) && container_name@ == container && expected_name@ == expected,
        ExportOutcome::Plan(p) => r matches Ok(v) && actions_view(v@) == p,
    }
}

/// `&&rootdata`
pub open spec fn root_data_name() -> Seq<u8> {
    seq![38u8, 38, 114, 111, 111, 116, 100, 97, 116, 97]
}

fn root_data() -> (r: Vec<u8>)
    ensures
        r@ == root_data_name(),
{
    let r = vec![38u8, 38, 114, 111, 111, 116, 100, 97, 116, 97];
    assert(r@ =~= root_data_name());
    r
}

/// `&&discdata`
pub open spec fn disc_data_name() -> Seq<u8> {
    seq![38u8, 38, 100, 105, 115, 99, 100, 97, 116, 97]
}

fn disc_data() -> (r: Vec<u8>)
    ensures
        r@ == disc_data_name(),
{
    let r = vec![38u8, 38, 100, 105, 115, 99, 100, 97, 116, 97];
    assert(r@ =~= disc_data_name());
    r
}

/// `cert.bin`
pub open spec fn cert_bin_name() -> Seq<u8> {
    seq![99u8, 101, 114, 116, 46, 98, 105, 110]
}

fn cert_bin() -> (r: Vec<u8>)
    ensures
        r@ == cert_bin_name(),
{
    let r = vec![99u8, 101, 114, 116, 46, 98, 105, 110];
    assert(r@ =~= cert_bin_name());
    r
}

/// `h3.bin`
pub open spec fn h3_bin_name() -> Seq<u8> {
    seq![104u8, 51, 46, 98, 105, 110]
}

fn h3_bin() -> (r: Vec<u8>)
    ensures
        r@ == h3_bin_name(),
{
    let r = vec![104u8, 51, 46, 98, 105, 110];
    assert(r@ =~= h3_bin_name());
    r
}

/// `ticket.bin`
pub open spec fn ticket_bin_name() -> Seq<u8> {
    seq![116u8, 105, 99, 107, 101, 116, 46, 98, 105, 110]
}

fn ticket_bin() -> (r: Vec<u8>)
    ensures
        r@ == ticket_bin_name(),
{
    let r = vec![116u8, 105, 99, 107, 101, 116, 46, 98, 105, 110];
    assert(r@ =~= ticket_bin_name());
    r
}

/// `tmd.bin`
pub open spec fn tmd_bin_name() -> Seq<u8> {
    seq![116u8, 109, 100, 46, 98, 105, 110]
}

fn tmd_bin() -> (r: Vec<u8>)
    ensures
        r@ == tmd_bin_name(),
{
    let r = vec![116u8, 109, 100, 46, 98, 105, 110];
    assert(r@ =~= tmd_bin_name());
    r
}

/// `sys`
pub open spec fn sys_dir_name() -> Seq<u8> {
    seq![115u8, 121, 115]
}

fn sys_dir() -> (r: Vec<u8>)
    ensures
        r@ == sys_dir_name(),
{
    let r = vec![115u8, 121, 115];
    assert(r@ =~= sys_dir_name());
    r
}

/// `bi2.bin`
pub open spec fn bi2_bin_name() -> Seq<u8> {
    seq![98u8, 105, 50, 46, 98, 105, 110]
}

fn bi2_bin() -> (r: Vec<u8>)
    ensures
        r@ == bi2_bin_name(),
{
    let r = vec![98u8, 105, 50, 46, 98, 105, 110];
    assert(r@ =~= bi2_bin_name());
    r
}

/// `apploader.img`
pub open spec fn apploader_img_name() -> Seq<u8> {
    seq![97u8, 112, 112, 108, 111, 97, 100, 101, 114, 46, 105, 109, 103]
}

fn apploader_img() -> (r: Vec<u8>)
    ensures
        r@ == apploader_img_name(),
{
    let r = vec![97u8, 112, 112, 108, 111, 97, 100, 101, 114, 46, 105, 109, 103];
    assert(r@ =~= apploader_img_name());
    r
}

/// `main.dol`
pub open spec fn main_dol_name() -> Seq<u8> {
    seq![109u8, 97, 105, 110, 46, 100, 111, 108]
}

fn main_dol() -> (r: Vec<u8>)
    ensures
        r@ == main_dol_name(),
{
    let r = vec![109u8, 97, 105, 110, 46, 100, 111, 108];
    assert(r@ =~= main_dol_name());
    r
}

/// `boot.bin`
pub open spec fn boot_bin_name() -> Seq<u8> {
    seq![98u8, 111, 111, 116, 46, 98, 105, 110]
}

fn boot_bin() -> (r: Vec<u8>)
    ensures
        r@ == boot_bin_name(),
{
    let r = vec![98u8, 111, 111, 116, 46, 98, 105, 110];
    assert(r@ =~= boot_bin_name());
    r
}

/// `Game.toc`
pub open spec fn game_toc_name() -> Seq<u8> {
    seq![71u8, 97, 109, 101, 46, 116, 111, 99]
}

fn game_toc() -> (r: Vec<u8>)
    ensures
        r@ == game_toc_name(),
{
    let r = vec![71u8, 97, 109, 101, 46, 116, 111, 99];
    assert(r@ =~= game_toc_name());
    r
}

/// `fst.bin`
pub open spec fn fst_bin_name() -> Seq<u8> {
    seq![102u8, 115, 116, 46, 98, 105, 110]
}

fn fst_bin() -> (r: Vec<u8>)
    ensures
        r@ == fst_bin_name(),
{
    let r = vec![102u8, 115, 116, 46, 98, 105, 110];
    assert(r@ =~= fst_bin_name());
    r
}

/// `disc`
pub open spec fn disc_dir_name() -> Seq<u8> {
    seq![100u8, 105, 115, 99]
}

fn disc_dir() -> (r: Vec<u8>)
    ensures
        r@ == disc_dir_name(),
{
    let r = vec![100u8, 105, 115, 99];
    assert(r@ =~= disc_dir_name());
    r
}

/// `header.bin`
pub open spec fn header_bin_name() -> Seq<u8> {
    seq![104u8, 101, 97, 100, 101, 114, 46, 98, 105, 110]
}

fn header_bin() -> (r: Vec<u8>)
    ensures
        r@ == header_bin_name(),
{
    let r = vec![104u8, 101, 97, 100, 101, 114, 46, 98, 105, 110];
    assert(r@ =~= header_bin_name());
    r
}

/// `region.bin`
pub open spec fn region_bin_name() -> Seq<u8> {
    seq![114u8, 101, 103, 105, 111, 110, 46, 98, 105, 110]
}

fn region_bin() -> (r: Vec<u8>)
    ensures
        r@ == region_bin_name(),
{
    let r = vec![114u8, 101, 103, 105, 111, 110, 46, 98, 105, 110];
    assert(r@ =~= region_bin_name());
    r
}

/// `files`
pub open spec fn files_dir_name() -> Seq<u8> {
    seq![102u8, 105, 108, 101, 115]
}

fn files_dir() -> (r: Vec<u8>)
    ensures
        r@ == files_dir_name(),
{
    let r = vec![102u8, 105, 108, 101, 115];
    assert(r@ =~= files_dir_name());
    r
}

/// Whether `e` is the failure that `o` describes.
pub open spec fn error_is(e: Error, o: ExportOutcome) -> bool {
    o matches ExportOutcome::Missing { container, expected } && e matches Error::MissingSpecialEntry {
        container_name,
        expected_name,
    } && container_name@ == container && expected_name@ == expected
}

/// Whether a step that left `actions` and returned `r` did what `o` describes.
pub open spec fn step_done(r: Result<(), Error>, o: ExportOutcome, actions: Seq<HostAction>) -> bool {
    match r {
        Ok(_) => o == ExportOutcome::Plan(actions_view(actions)),
        Err(e) => error_is(e, o),
    }
}

/// Once an export has failed, later steps keep the failure.
pub proof fn lemma_missing_stays(o: ExportOutcome, root: Directory)
    requires
        o is Missing,
    ensures
        export_system_data(o, root) == o,
        export_disc_data(o, root) == o,
        forall|s: Seq<HostActionView>| add_actions(o, s) == o,
{
}

fn push_action(actions: &mut Vec<HostAction>, a: HostAction)
    ensures
        actions_view(final(actions)@) == actions_view(old(actions)@).push(action_view(a)),
{
    let ghost a0 = a;
    actions.push(a);
    assert(actions_view(actions@) =~= actions_view(old(actions)@).push(action_view(a0)));
}

/// A copy of the host path `p`.
fn copy_path(p: &Vec<Vec<u8>>) -> (r: Vec<Vec<u8>>)
    ensures
        path_view(r@) == path_view(p@),
{
    let mut r: Vec<Vec<u8>> = Vec::new();
    let mut i: usize = 0;
    while i < p.len()
        invariant
            i <= p@.len(),
            r@.len() == i,
            forall|k: int| 0 <= k < i ==> #[trigger] r@[k]@ == p@[k]@,
        decreases p@.len() - i,
    {
        let c = copy_bytes(&p[i]);
        r.push(c);
        i = i + 1;
    }
    assert(path_view(r@) =~= path_view(p@));
    r
}

/// The host path `p` with the component `c` added.
fn path_with(p: &Vec<Vec<u8>>, c: &Vec<u8>) -> (r: Vec<Vec<u8>>)
    ensures
        path_view(r@) == path_view(p@).push(c@),
{
    let mut r = copy_path(p);
    let ghost r0 = r@;
    r.push(copy_bytes(c));
    assert(path_view(r@) =~= path_view(r0).push(c@));
    r
}

/// Adds the export of the first file of `dir` whose name matches `given_name`,
/// as `fs_name` in the host directory `dir_path`; when there is none, fails with
/// `MissingSpecialEntry` if `required`.
fn write_data_file(
    actions: &mut Vec<HostAction>,
    dir_path: &Vec<Vec<u8>>,
    fs_name: &Vec<u8>,
    given_name: &Vec<u8>,
    suffix: bool,
    required: bool,
    dir: &Directory,
) -> (r: Result<(), Error>)
    ensures
        step_done(
            r,
            export_step(
                ExportOutcome::Plan(actions_view(old(actions)@)),
                *dir,
                path_view(dir_path@),
                fs_name@,
                given_name@,
                suffix,
                required,
            ),
            final(actions)@,
        ),
{
    proof {
        lemma_first_file_matching(dir.children@, given_name@, suffix, 0);
    }
    match find_file(&dir.children, given_name, suffix) {
        Some(k) => {
            let data = copy_bytes(file_data(&dir.children[k]));
            let path = path_with(dir_path, fs_name);
            push_action(actions, HostAction::WriteFile { path, data });
            Ok(())
        },
        None => {
            if required {
                Err(
                    Error::MissingSpecialEntry {
                        container_name: copy_bytes(&dir.name),
                        expected_name: copy_bytes(given_name),
                    },
                )
            } else {
                Ok(())
            }
        },
    }
}

/// Adds the operations that mirror `node` under the host directory `parent_path`.
pub fn write_files_recursive(node: &Node, parent_path: &Vec<Vec<u8>>, actions: &mut Vec<HostAction>)
    ensures
        actions_view(final(actions)@) == actions_view(old(actions)@) + mirror_node(
            *node,
            path_view(parent_path@),
        ),
    decreases node,
{
    match *node {
        Node::Directory(ref dir) => {
            let dir_path = path_with(parent_path, &dir.name);
            push_action(actions, HostAction::CreateDir { path: copy_path(&dir_path) });
            let ghost start = actions_view(actions@);
            let mut i: usize = 0;
            while i < dir.children.len()
                invariant
                    *node == Node::Directory(*dir),
                    i <= dir.children@.len(),
                    actions_view(actions@) == start + mirror_children(
                        *dir,
                        i as int,
                        path_view(dir_path@),
                    ),
                decreases dir.children@.len() - i,
            {
                proof {
                    lemma_child_decreases(*node, i as int);
                }
                write_files_recursive(&dir.children[i], &dir_path, actions);
                i = i + 1;
                proof {
                    assert(start + mirror_children(*dir, i as int, path_view(dir_path@)) =~= start
                        + mirror_children(*dir, i - 1, path_view(dir_path@)) + mirror_node(
                        dir.children@[i - 1],
                        path_view(dir_path@),
                    ));
                }
            }
            assert(actions_view(actions@) =~= actions_view(old(actions)@) + mirror_node(
                *node,
                path_view(parent_path@),
            ));
        },
        Node::File(ref file) => {
            let path = path_with(parent_path, &file.name);
            let data = copy_bytes(&file.data);
            push_action(actions, HostAction::WriteFile { path, data });
            assert(actions_view(actions@) =~= actions_view(old(actions)@) + mirror_node(
                *node,
                path_view(parent_path@),
            ));
        },
    }
}

/// Adds the export of `&&rootdata`, when present, to the target directory.
fn write_root_data(actions: &mut Vec<HostAction>, root: &Directory) -> (r: Result<(), Error>)
    ensures
        step_done(r, export_root_data(ExportOutcome::Plan(actions_view(old(actions)@)), *root), final(actions)@),
{
    proof {
        lemma_first_dir_named(root.children@, root_data_name(), 0);
    }
    let ri = match find_dir(&root.children, &root_data()) {
        Some(k) => k,
        None => return Ok(()),
    };
    match root.children[ri] {
        Node::Directory(ref dir) => {
            let host: Vec<Vec<u8>> = Vec::new();
            assert(path_view(host@) =~= Seq::<Seq<u8>>::empty());
            let r = write_data_file(actions, &host, &cert_bin(), &cert_bin(), false, true, dir);
            if r.is_err() {
                return r;
            }
            let r = write_data_file(actions, &host, &h3_bin(), &h3_bin(), false, true, dir);
            if r.is_err() {
                return r;
            }
            let r = write_data_file(actions, &host, &ticket_bin(), &ticket_bin(), false, true, dir);
            if r.is_err() {
                return r;
            }
            write_data_file(actions, &host, &tmd_bin(), &tmd_bin(), false, true, dir)
        },
        // `find_dir` only yields directories.
        Node::File(_) => Ok(()),
    }
}

/// Adds the export of `&&systemdata` to `sys/`; fails if it is absent.
fn write_system_data(actions: &mut Vec<HostAction>, root: &Directory) -> (r: Result<(), Error>)
    ensures
        step_done(
            r,
            export_system_data(ExportOutcome::Plan(actions_view(old(actions)@)), *root),
            final(actions)@,
        ),
{
    proof {
        lemma_first_dir_named(root.children@, system_data_name(), 0);
    }
    let si = match find_dir(&root.children, &system_data()) {
        Some(k) => k,
        None => {
            return Err(
                Error::MissingSpecialEntry {
                    container_name: copy_bytes(&root.name),
                    expected_name: system_data(),
                },
            )
        },
    };
    match root.children[si] {
        Node::Directory(ref dir) => {
            let empty: Vec<Vec<u8>> = Vec::new();
            let host = path_with(&empty, &sys_dir());
            assert(path_view(empty@) =~= Seq::<Seq<u8>>::empty());
            assert(path_view(host@) =~= seq![sys_dir_name()]);
            push_action(actions, HostAction::CreateDir { path: copy_path(&host) });
            assert(actions_view(actions@) =~= actions_view(old(actions)@) + seq![
                HostActionView::CreateDir(seq![sys_dir_name()]),
            ]);
            let r = write_data_file(
                actions,
                &host,
                &bi2_bin(),
                &crate::image::header_file(),
                false,
                true,
                dir,
            );
            if r.is_err() {
                return r;
            }
            let r = write_data_file(
                actions,
                &host,
                &apploader_img(),
                &crate::image::apploader_file(),
                false,
                true,
                dir,
            );
            if r.is_err() {
                return r;
            }
            let r = write_data_file(
                actions,
                &host,
                &main_dol(),
                &crate::image::dol_suffix(),
                true,
                true,
                dir,
            );
            if r.is_err() {
                return r;
            }
            let r = write_data_file(actions, &host, &boot_bin(), &game_toc(), false, false, dir);
            if r.is_err() {
                return r;
            }
            write_data_file(actions, &host, &fst_bin(), &fst_bin(), false, false, dir)
        },
        // `find_dir` only yields directories.
        Node::File(_) => Ok(()),
    }
}

/// Adds the export of `&&discdata`, when present, to `disc/`.
fn write_disc_data(actions: &mut Vec<HostAction>, root: &Directory) -> (r: Result<(), Error>)
    ensures
        step_done(r, export_disc_data(ExportOutcome::Plan(actions_view(old(actions)@)), *root), final(actions)@),
{
    proof {
        lemma_first_dir_named(root.children@, disc_data_name(), 0);
    }
    let di = match find_dir(&root.children, &disc_data()) {
        Some(k) => k,
        None => return Ok(()),
    };
    match root.children[di] {
        Node::Directory(ref dir) => {
            let empty: Vec<Vec<u8>> = Vec::new();
            let host = path_with(&empty, &disc_dir());
            assert(path_view(empty@) =~= Seq::<Seq<u8>>::empty());
            assert(path_view(host@) =~= seq![disc_dir_name()]);
            push_action(actions, HostAction::CreateDir { path: copy_path(&host) });
            assert(actions_view(actions@) =~= actions_view(old(actions)@) + seq![
                HostActionView::CreateDir(seq![disc_dir_name()]),
            ]);
            let r = write_data_file(actions, &host, &header_bin(), &header_bin(), false, true, dir);
            if r.is_err() {
                return r;
            }
            write_data_file(actions, &host, &region_bin(), &region_bin(), false, true, dir)
        },
        // `find_dir` only yields directories.
        Node::File(_) => Ok(()),
    }
}

/// The host operations that export `root` (see `export_outcome`), or the
/// reserved entry that is missing.
pub fn write_fs(root: &Directory) -> (r: Result<Vec<HostAction>, Error>)
    ensures
        export_result_is(r, export_outcome(*root)),
{
    let mut actions: Vec<HostAction> = Vec::new();
    let top: Vec<Vec<u8>> = Vec::new();
    assert(path_view(top@) =~= Seq::<Seq<u8>>::empty());
    assert(actions_view(actions@) =~= Seq::<HostActionView>::empty());
    push_action(&mut actions, HostAction::CreateDir { path: top });
    assert(actions_view(actions@) =~= seq![HostActionView::CreateDir(Seq::empty())]);
    let ghost o0 = ExportOutcome::Plan(seq![HostActionView::CreateDir(Seq::empty())]);
    let ghost o1 = export_root_data(o0, *root);
    let ghost o2 = export_system_data(o1, *root);
    let ghost o3 = export_disc_data(o2, *root);
    if let Err(e) = write_root_data(&mut actions, root) {
        proof {
            lemma_missing_stays(o1, *root);
            lemma_missing_stays(o2, *root);
            lemma_missing_stays(o3, *root);
        }
        return Err(e);
    }
    if let Err(e) = write_system_data(&mut actions, root) {
        proof {
            lemma_missing_stays(o2, *root);
            lemma_missing_stays(o3, *root);
        }
        return Err(e);
    }
    if let Err(e) = write_disc_data(&mut actions, root) {
        proof {
            lemma_missing_stays(o3, *root);
        }
        return Err(e);
    }
    proof {
        lemma_first_dir_named(root.children@, system_data_name(), 0);
    }
    let sys_index = match find_dir(&root.children, &system_data()) {
        Some(k) => k,
        None => return Ok(actions),
    };
    let empty: Vec<Vec<u8>> = Vec::new();
    let files_path = path_with(&empty, &files_dir());
    assert(path_view(empty@) =~= Seq::<Seq<u8>>::empty());
    let ghost at = seq![files_dir_name()];
    assert(path_view(files_path@) =~= at);
    let ghost before = actions_view(actions@);
    push_action(&mut actions, HostAction::CreateDir { path: copy_path(&files_path) });
    assert(actions_view(actions@) =~= before + seq![HostActionView::CreateDir(at)]);
    let ghost start = actions_view(actions@);
    let mut i: usize = 0;
    while i < root.children.len()
        invariant
            i <= root.children@.len(),
            path_view(files_path@) == at,
            actions_view(actions@) == start + mirror_top(*root, sys_index as int, i as int, at),
        decreases root.children@.len() - i,
    {
        if i != sys_index {
            write_files_recursive(&root.children[i], &files_path, &mut actions);
        }
        i = i + 1;
        assert(start + mirror_top(*root, sys_index as int, i as int, at) =~= start + mirror_top(
            *root,
            sys_index as int,
            i - 1,
            at,
        ) + (if i - 1 == sys_index {
            Seq::empty()
        } else {
            mirror_node(root.children@[i - 1], at)
        }));
    }
    assert(actions_view(actions@) =~= start + mirror_top(
        *root,
        sys_index as int,
        root.children@.len() as int,
        at,
    ));
    assert(before + seq![HostActionView::CreateDir(at)] + mirror_top(
        *root,
        sys_index as int,
        root.children@.len() as int,
        at,
    ) =~= before + (seq![HostActionView::CreateDir(at)] + mirror_top(
        *root,
        sys_index as int,
        root.children@.len() as int,
        at,
    )));
    Ok(actions)
}

} // verus!
