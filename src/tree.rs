use vstd::prelude::*;

verus! {

/// A file of the virtual tree: its name and its payload bytes.
pub struct File {
    pub name: Vec<u8>,
    pub data: Vec<u8>,
}

/// A directory of the virtual tree: its name and its ordered children.
pub struct Directory {
    pub name: Vec<u8>,
    pub children: Vec<Node>,
}

/// A node of the virtual tree.
pub enum Node {
    File(File),
    Directory(Directory),
}

impl Node {
    pub open spec fn spec_name(&self) -> Seq<u8> {
        match self {
            Node::File(f) => f.name@,
            Node::Directory(d) => d.name@,
        }
    }
}

/// A child of a directory node is smaller than the node.
pub proof fn lemma_child_decreases(n: Node, i: int)
    requires
        n is Directory,
        0 <= i < n->Directory_0.children@.len(),
    ensures
        decreases_to!(n => n->Directory_0.children@[i]),
{
    assert(decreases_to!(n => n->Directory_0));
    assert(decreases_to!(n->Directory_0 => n->Directory_0.children));
    assert(decreases_to!(n->Directory_0.children => n->Directory_0.children@));
    assert(decreases_to!(n->Directory_0.children@ => n->Directory_0.children@[i]));
}

/// Whether `name` is `pat` (or, with `suffix`, ends with `pat`).
pub open spec fn name_matches(name: Seq<u8>, pat: Seq<u8>, suffix: bool) -> bool {
    if suffix {
        name.len() >= pat.len() && name.subrange(name.len() - pat.len(), name.len() as int) == pat
    } else {
        name == pat
    }
}

/// Index of the first directory named `name` among `s[i..]`.
pub open spec fn first_dir_named(s: Seq<Node>, name: Seq<u8>, i: int) -> Option<int>
    decreases s.len() - i,
{
    if i < 0 || i >= s.len() {
        None
    } else if s[i] is Directory && s[i]->Directory_0.name@ == name {
        Some(i)
    } else {
        first_dir_named(s, name, i + 1)
    }
}

/// Index of the first file among `s[i..]` whose name matches `pat`.
pub open spec fn first_file_matching(s: Seq<Node>, pat: Seq<u8>, suffix: bool, i: int) -> Option<int>
    decreases s.len() - i,
{
    if i < 0 || i >= s.len() {
        None
    } else if s[i] is File && name_matches(s[i]->File_0.name@, pat, suffix) {
        Some(i)
    } else {
        first_file_matching(s, pat, suffix, i + 1)
    }
}

/// What a found directory index points at.
pub proof fn lemma_first_dir_named(s: Seq<Node>, name: Seq<u8>, i: int)
    ensures
        first_dir_named(s, name, i) matches Some(k) ==> 0 <= i <= k < s.len() && s[k] is Directory
            && s[k]->Directory_0.name@ == name,
    decreases s.len() - i,
{
    if 0 <= i < s.len() {
        lemma_first_dir_named(s, name, i + 1);
    }
}

/// What a found file index points at.
pub proof fn lemma_first_file_matching(s: Seq<Node>, pat: Seq<u8>, suffix: bool, i: int)
    ensures
        first_file_matching(s, pat, suffix, i) matches Some(k) ==> 0 <= i <= k < s.len() && s[k] is File
            && name_matches(s[k]->File_0.name@, pat, suffix),
    decreases s.len() - i,
{
    if 0 <= i < s.len() {
        lemma_first_file_matching(s, pat, suffix, i + 1);
    }
}

/// The payload of a file node.
pub fn file_data(n: &Node) -> (r: &Vec<u8>)
    requires
        n is File,
    ensures
        r@ == n->File_0.data@,
{
    match n {
        Node::File(f) => &f.data,
        Node::Directory(d) => &d.name,
    }
}

/// Whether `name` matches `pat` as `name_matches` states it.
pub fn name_is(name: &Vec<u8>, pat: &Vec<u8>, suffix: bool) -> (r: bool)
    ensures
        r == name_matches(name@, pat@, suffix),
{
    if name.len() < pat.len() || (!suffix && name.len() != pat.len()) {
        return false;
    }
    let off = name.len() - pat.len();
    let mut i: usize = 0;
    while i < pat.len()
        invariant
            i <= pat@.len(),
            off == name@.len() - pat@.len(),
            pat@.len() <= name@.len() <= usize::MAX,
            !suffix ==> off == 0,
            forall|k: int| 0 <= k < i ==> name@[off + k] == pat@[k],
        decreases pat@.len() - i,
    {
        if name[off + i] != pat[i] {
            proof {
                if suffix {
                    assert(name@.subrange(off as int, name@.len() as int)[i as int] != pat@[i as int]);
                }
            }
            return false;
        }
        i = i + 1;
    }
    assert(name@.subrange(off as int, name@.len() as int) =~= pat@);
    proof {
        if !suffix {
            assert(name@ =~= name@.subrange(0, name@.len() as int));
        }
    }
    true
}

/// Index of the first directory named `name` among `children`.
pub fn find_dir(children: &Vec<Node>, name: &Vec<u8>) -> (r: Option<usize>)
    ensures
        match r {
            Some(k) => first_dir_named(children@, name@, 0) == Some(k as int),
            None => first_dir_named(children@, name@, 0) is None,
        },
{
    let mut i: usize = 0;
    while i < children.len()
        invariant
            i <= children@.len(),
            first_dir_named(children@, name@, 0) == first_dir_named(children@, name@, i as int),
        decreases children@.len() - i,
    {
        match children[i] {
            Node::Directory(ref d) => {
                if name_is(&d.name, name, false) {
                    return Some(i);
                }
            },
            Node::File(_) => {},
        }
        i = i + 1;
    }
    None
}

/// Index of the first file among `children` whose name matches `pat`.
pub fn find_file(children: &Vec<Node>, pat: &Vec<u8>, suffix: bool) -> (r: Option<usize>)
    ensures
        match r {
            Some(k) => first_file_matching(children@, pat@, suffix, 0) == Some(k as int),
            None => first_file_matching(children@, pat@, suffix, 0) is None,
        },
{
    let mut i: usize = 0;
    while i < children.len()
        invariant
            i <= children@.len(),
            first_file_matching(children@, pat@, suffix, 0) == first_file_matching(
                children@,
                pat@,
                suffix,
                i as int,
            ),
        decreases children@.len() - i,
    {
        match children[i] {
            Node::File(ref f) => {
                if name_is(&f.name, pat, suffix) {
                    return Some(i);
                }
            },
            Node::Directory(_) => {},
        }
        i = i + 1;
    }
    None
}

/// A copy of `v`.
pub fn copy_bytes(v: &Vec<u8>) -> (r: Vec<u8>)
    ensures
        r@ == v@,
{
    let mut r: Vec<u8> = Vec::new();
    let mut i: usize = 0;
    while i < v.len()
        invariant
            i <= v@.len(),
            r@ == v@.subrange(0, i as int),
        decreases v@.len() - i,
    {
        r.push(v[i]);
        i = i + 1;
        assert(r@ =~= v@.subrange(0, i as int));
    }
    assert(r@ =~= v@);
    r
}

} // verus!
