use gc_iso::error::Error;
use gc_iso::export::{write_fs, HostAction};
use gc_iso::tree::{Directory, File, Node};

fn file(name: &str, data: Vec<u8>) -> Node {
    Node::File(File { name: name.as_bytes().to_vec(), data })
}

fn dir(name: &str, children: Vec<Node>) -> Node {
    Node::Directory(Directory { name: name.as_bytes().to_vec(), children })
}

fn path(parts: &[&str]) -> Vec<Vec<u8>> {
    parts.iter().map(|p| p.as_bytes().to_vec()).collect()
}

fn written(actions: &[HostAction], parts: &[&str]) -> Option<Vec<u8>> {
    let want = path(parts);
    actions.iter().find_map(|a| match a {
        HostAction::WriteFile { path, data } if *path == want => Some(data.clone()),
        _ => None,
    })
}

fn created(actions: &[HostAction], parts: &[&str]) -> bool {
    let want = path(parts);
    actions.iter().any(|a| matches!(a, HostAction::CreateDir { path } if *path == want))
}

fn scenario_tree() -> Directory {
    Directory {
        name: b"root".to_vec(),
        children: vec![
            dir(
                "&&systemdata",
                vec![
                    file("iso.hdr", vec![0xAA; 4]),
                    file("AppLoader.ldr", vec![0; 8]),
                    file("game.dol", vec![3; 16]),
                ],
            ),
            file("a.txt", vec![1, 2, 3, 4, 5]),
        ],
    }
}

#[test]
fn export_mapping_scenario() {
    let actions = write_fs(&scenario_tree()).unwrap();
    assert!(created(&actions, &[]));
    assert!(created(&actions, &["sys"]));
    assert!(created(&actions, &["files"]));
    assert_eq!(written(&actions, &["sys", "bi2.bin"]), Some(vec![0xAA; 4]));
    assert_eq!(written(&actions, &["sys", "apploader.img"]), Some(vec![0; 8]));
    assert_eq!(written(&actions, &["sys", "main.dol"]), Some(vec![3; 16]));
    assert_eq!(written(&actions, &["files", "a.txt"]), Some(vec![1, 2, 3, 4, 5]));
    assert_eq!(actions.len(), 7);
}

#[test]
fn export_missing_apploader() {
    let mut tree = scenario_tree();
    if let Node::Directory(sys) = &mut tree.children[0] {
        sys.children.remove(1);
    }
    match write_fs(&tree) {
        Err(Error::MissingSpecialEntry { container_name, expected_name }) => {
            assert_eq!(container_name, b"&&systemdata".to_vec());
            assert_eq!(expected_name, b"AppLoader.ldr".to_vec());
        }
        other => panic!("unexpected {:?}", other.map(|v| v.len())),
    }
}

#[test]
fn export_all_reserved_directories() {
    let tree = Directory {
        name: b"root".to_vec(),
        children: vec![
            dir(
                "&&rootdata",
                vec![
                    file("cert.bin", vec![1]),
                    file("h3.bin", vec![2]),
                    file("ticket.bin", vec![3]),
                    file("tmd.bin", vec![4]),
                ],
            ),
            dir(
                "&&systemdata",
                vec![
                    file("iso.hdr", vec![5]),
                    file("AppLoader.ldr", vec![6]),
                    file("Start.dol", vec![7]),
                    file("Game.toc", vec![8]),
                    file("fst.bin", vec![9]),
                ],
            ),
            dir("&&discdata", vec![file("header.bin", vec![10]), file("region.bin", vec![11])]),
            dir("sub", vec![dir("deep", vec![file("z", vec![12])])]),
        ],
    };
    let actions = write_fs(&tree).unwrap();
    assert_eq!(written(&actions, &["cert.bin"]), Some(vec![1]));
    assert_eq!(written(&actions, &["tmd.bin"]), Some(vec![4]));
    assert_eq!(written(&actions, &["sys", "main.dol"]), Some(vec![7]));
    assert_eq!(written(&actions, &["sys", "boot.bin"]), Some(vec![8]));
    assert_eq!(written(&actions, &["sys", "fst.bin"]), Some(vec![9]));
    assert!(created(&actions, &["disc"]));
    assert_eq!(written(&actions, &["disc", "region.bin"]), Some(vec![11]));
    assert!(created(&actions, &["files", "sub", "deep"]));
    assert_eq!(written(&actions, &["files", "sub", "deep", "z"]), Some(vec![12]));
    assert!(created(&actions, &["files", "&&rootdata"]));
    assert!(!created(&actions, &["files", "&&systemdata"]));
}

#[test]
fn export_missing_root_data_file() {
    let tree = Directory {
        name: b"root".to_vec(),
        children: vec![dir("&&rootdata", vec![file("cert.bin", vec![1])])],
    };
    match write_fs(&tree) {
        Err(Error::MissingSpecialEntry { container_name, expected_name }) => {
            assert_eq!(container_name, b"&&rootdata".to_vec());
            assert_eq!(expected_name, b"h3.bin".to_vec());
        }
        other => panic!("unexpected {:?}", other.map(|v| v.len())),
    }
}

#[test]
fn export_missing_system_directory() {
    let tree = Directory { name: b"root".to_vec(), children: vec![file("a", vec![])] };
    assert!(matches!(
        write_fs(&tree),
        Err(Error::MissingSpecialEntry { expected_name, .. }) if expected_name == b"&&systemdata".to_vec()
    ));
}
