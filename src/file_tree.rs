use vstd::prelude::*;
use vstd::string::StringExecFns;

verus! {

/// Kind of a filesystem entry, as reported by the device's metadata tag.
#[derive(Debug, Clone, Copy, PartialEq, Eq, Structural)]
pub enum FileType {
    Directory,
    File,
    Symlink,
    CharDevice,
    BlockDevice,
    NamedPipe,
    Socket,
    Unknown,
}

/// The kind that a metadata type tag stands for; any unrecognised tag is `Unknown`.
pub open spec fn file_type_of_tag(tag: Seq<char>) -> FileType {
    if tag == "S_IFDIR"@ {
        FileType::Directory
    } else if tag == "S_IFREG"@ {
        FileType::File
    } else if tag == "S_IFLNK"@ {
        FileType::Symlink
    } else if tag == "S_IFCHR"@ {
        FileType::CharDevice
    } else if tag == "S_IFBLK"@ {
        FileType::BlockDevice
    } else if tag == "S_IFIFO"@ {
        FileType::NamedPipe
    } else if tag == "S_IFSOCK"@ {
        FileType::Socket
    } else {
        FileType::Unknown
    }
}

/// A tag that is none of the seven known ones names the `Unknown` kind; no tag is an
/// error.
pub proof fn lemma_unknown_tag(tag: Seq<char>)
    requires
        tag != "S_IFDIR"@,
        tag != "S_IFREG"@,
        tag != "S_IFLNK"@,
        tag != "S_IFCHR"@,
        tag != "S_IFBLK"@,
        tag != "S_IFIFO"@,
        tag != "S_IFSOCK"@,
    ensures
        file_type_of_tag(tag) == FileType::Unknown,
{
}

/// Whether `tag` holds exactly the characters of `literal`.
pub fn tag_is(tag: &String, literal: &str) -> (r: bool)
    ensures
        r == (tag@ == literal@),
{
    let lit = String::from_str(literal);
    *tag == lit
}

impl FileType {
    /// Maps a metadata type tag (`S_IFDIR`, `S_IFREG`, ...) to its kind. Never fails.
    pub fn from_tag(tag: &String) -> (r: FileType)
        ensures
            r == file_type_of_tag(tag@),
    {
        proof {
            reveal_strlit("S_IFDIR");
            reveal_strlit("S_IFREG");
            reveal_strlit("S_IFLNK");
            reveal_strlit("S_IFCHR");
            reveal_strlit("S_IFBLK");
            reveal_strlit("S_IFIFO");
            reveal_strlit("S_IFSOCK");
        }
        if tag_is(tag, "S_IFDIR") {
            FileType::Directory
        } else if tag_is(tag, "S_IFREG") {
            FileType::File
        } else if tag_is(tag, "S_IFLNK") {
            FileType::Symlink
        } else if tag_is(tag, "S_IFCHR") {
            FileType::CharDevice
        } else if tag_is(tag, "S_IFBLK") {
            FileType::BlockDevice
        } else if tag_is(tag, "S_IFIFO") {
            FileType::NamedPipe
        } else if tag_is(tag, "S_IFSOCK") {
            FileType::Socket
        } else {
            FileType::Unknown
        }
    }
}

impl From<String> for FileType {
    fn from(value: String) -> (r: FileType)
        ensures
            r == file_type_of_tag(value@),
    {
        FileType::from_tag(&value)
    }
}

impl vstd::std_specs::convert::FromSpecImpl<String> for FileType {
    open spec fn obeys_from_spec() -> bool {
        true
    }

    open spec fn from_spec(v: String) -> FileType {
        file_type_of_tag(v@)
    }
}


/// The human-readable name of a kind.
pub open spec fn file_type_label(ft: FileType) -> Seq<char> {
    match ft {
        FileType::File => "file"@,
        FileType::Directory => "directory"@,
        FileType::Symlink => "symlink"@,
        FileType::CharDevice => "character device"@,
        FileType::BlockDevice => "block device"@,
        FileType::NamedPipe => "named pipe(fifo)"@,
        FileType::Socket => "socket"@,
        FileType::Unknown => "unknown"@,
    }
}

impl FileType {
    /// The human-readable name of this kind (`"file"`, `"directory"`, ...).
    pub fn label(&self) -> (r: String)
        ensures
            r@ == file_type_label(*self),
    {
        match self {
            FileType::File => String::from_str("file"),
            FileType::Directory => String::from_str("directory"),
            FileType::Symlink => String::from_str("symlink"),
            FileType::CharDevice => String::from_str("character device"),
            FileType::BlockDevice => String::from_str("block device"),
            FileType::NamedPipe => String::from_str("named pipe(fifo)"),
            FileType::Socket => String::from_str("socket"),
            FileType::Unknown => String::from_str("unknown"),
        }
    }
}

/// Metadata of one entry. Timestamps are seconds since the Unix epoch.
#[derive(Debug)]
pub struct PathInfo {
    pub size: usize,
    pub blocks: usize,
    pub nlink: String,
    pub creation: i64,
    pub modified: i64,
    pub file_type: FileType,
}

impl PathInfo {
    /// Metadata built from the raw fields of a metadata reply; the type tag is mapped
    /// to its kind.
    pub fn from_parts(
        size: usize,
        blocks: usize,
        nlink: String,
        creation: i64,
        modified: i64,
        type_tag: &String,
    ) -> (r: PathInfo)
        ensures
            r.size == size,
            r.blocks == blocks,
            r.nlink@ == nlink@,
            r.creation == creation,
            r.modified == modified,
            r.file_type == file_type_of_tag(type_tag@),
    {
        PathInfo { size, blocks, nlink, creation, modified, file_type: FileType::from_tag(type_tag) }
    }

    pub fn is_dir(&self) -> (r: bool)
        ensures
            r == (self.file_type == FileType::Directory),
    {
        self.file_type == FileType::Directory
    }

    pub fn is_file(&self) -> (r: bool)
        ensures
            r == (self.file_type == FileType::File),
    {
        self.file_type == FileType::File
    }
}

/// Metadata of an entry about which nothing is known yet.
pub open spec fn is_blank_info(info: PathInfo) -> bool {
    &&& info.size == 0
    &&& info.blocks == 0
    &&& info.nlink@.len() == 0
    &&& info.creation == 0
    &&& info.modified == 0
    &&& info.file_type == FileType::Unknown
}

impl Default for PathInfo {
    fn default() -> (r: PathInfo)
        ensures
            is_blank_info(r),
    {
        PathInfo {
            size: 0,
            blocks: 0,
            nlink: String::new(),
            creation: 0,
            modified: 0,
            file_type: FileType::Unknown,
        }
    }
}

/// An owned tree of filesystem entries.
#[derive(Debug)]
pub struct FSTree {
    pub path: String,
    pub info: PathInfo,
    pub children: Vec<FSTree>,
}

/// Every entry of the tree has children only where it is a directory.
pub open spec fn children_only_in_dirs(t: FSTree) -> bool
    decreases t,
{
    &&& (t.children.len() > 0 ==> t.info.file_type == FileType::Directory)
    &&& forall|i: int|
        0 <= i < t.children.len() ==> children_only_in_dirs(#[trigger] t.children@[i])
}

impl FSTree {
    /// A childless entry at `path` with blank metadata.
    pub fn new(path: &str) -> (r: FSTree)
        ensures
            r.path@ == path@,
            is_blank_info(r.info),
            r.children.len() == 0,
    {
        FSTree { path: String::from_str(path), info: PathInfo::default(), children: Vec::new() }
    }

    /// Appends `child` after the existing children.
    pub fn add_child(&mut self, child: FSTree)
        ensures
            final(self).path == old(self).path,
            final(self).info == old(self).info,
            final(self).children@ == old(self).children@.push(child),
    {
        self.children.push(child);
    }
}


/// The characters of each string of `v`, in order.
pub open spec fn texts(v: Seq<String>) -> Seq<Seq<char>> {
    v.map_values(|s: String| s@)
}

/// A name of a directory listing that stands for a real child: not `.` nor `..`.
pub open spec fn is_child_name(name: Seq<char>) -> bool {
    name != "."@ && name != ".."@
}

/// The names of `names` that stand for real children, in listing order.
pub open spec fn child_names(names: Seq<Seq<char>>) -> Seq<Seq<char>>
    decreases names.len(),
{
    if names.len() == 0 {
        Seq::empty()
    } else {
        let earlier = child_names(names.drop_last());
        if is_child_name(names.last()) {
            earlier.push(names.last())
        } else {
            earlier
        }
    }
}

/// The full remote path of the child `name` of the directory `parent`.
pub open spec fn joined_path(parent: Seq<char>, name: Seq<char>) -> Seq<char> {
    parent + "/"@ + name
}

/// Drops the `.` and `..` entries of a directory listing, keeping the order of the rest.
pub fn listing_child_names(names: &Vec<String>) -> (r: Vec<String>)
    ensures
        texts(r@) == child_names(texts(names@)),
{
    proof {
        reveal_strlit(".");
        reveal_strlit("..");
    }
    let mut r: Vec<String> = Vec::new();
    let mut i: usize = 0;
    while i < names.len()
        invariant
            i <= names.len(),
            texts(r@) == child_names(texts(names@).take(i as int)),
        decreases names.len() - i,
    {
        let name = &names[i];
        let keep = !(tag_is(name, ".") || tag_is(name, ".."));
        proof {
            assert(texts(names@).take(i + 1).drop_last() == texts(names@).take(i as int));
        }
        if keep {
            r.push(name.clone());
            assert(texts(r@) == child_names(texts(names@).take(i as int)).push(name@));
        }
        i += 1;
    }
    assert(texts(names@).take(names.len() as int) == texts(names@));
    r
}

/// The full remote path of the child `name` of the directory `parent`: `parent/name`.
pub fn child_path(parent: &String, name: &String) -> (r: String)
    ensures
        r@ == joined_path(parent@, name@),
{
    let with_slash = parent.clone().concat("/");
    with_slash.concat(name.as_str())
}

/// Assembles the tree that one listing call returns: the entry at `path` with `info`
/// and, where it is a directory, one childless child per name, with the metadata of the
/// same position. Children of a directory child are not fetched, so they stay empty.
pub fn listing_tree(path: &str, info: PathInfo, names: Vec<String>, infos: Vec<PathInfo>) -> (r:
    FSTree)
    requires
        names.len() == infos.len(),
    ensures
        r.path@ == path@,
        r.info == info,
        info.file_type == FileType::Directory ==> r.children.len() == names.len(),
        info.file_type != FileType::Directory ==> r.children.len() == 0,
        children_only_in_dirs(r),
        forall|i: int|
            0 <= i < r.children.len() ==> {
                &&& (#[trigger] r.children@[i]).path@ == names@[i]@
                &&& r.children@[i].info == infos@[i]
                &&& r.children@[i].children.len() == 0
            },
{
    let mut node = FSTree::new(path);
    let is_dir = info.is_dir();
    node.info = info;
    if is_dir {
        let mut names = names;
        let mut infos = infos;
        let ghost names0 = names@;
        let ghost infos0 = infos@;
        let n = names.len();
        let mut k: usize = 0;
        while k < n
            invariant
                k <= n,
                n == names0.len(),
                n == infos0.len(),
                names@ == names0.subrange(k as int, n as int),
                infos@ == infos0.subrange(k as int, n as int),
                node.path@ == path@,
                node.info == info,
                node.children.len() == k,
                forall|i: int|
                    0 <= i < k ==> {
                        &&& (#[trigger] node.children@[i]).path@ == names0[i]@
                        &&& node.children@[i].info == infos0[i]
                        &&& node.children@[i].children.len() == 0
                    },
            decreases n - k,
        {
            let name = names.remove(0);
            let child_info = infos.remove(0);
            let mut child = FSTree::new(name.as_str());
            child.info = child_info;
            node.add_child(child);
            k += 1;
            assert(names@ == names0.subrange(k as int, n as int));
            assert(infos@ == infos0.subrange(k as int, n as int));
        }
    }
    assert forall|i: int| 0 <= i < node.children.len() implies children_only_in_dirs(
        #[trigger] node.children@[i],
    ) by {
        assert(node.children@[i].children.len() == 0);
    }
    node
}

} // verus!
