//! The kind of a file, the entries of a directory that are worth a visit,
//! and the paths of what is found there.

use crate::arena::{Arena, ArenaString, Span};
use crate::intern::{same_bytes, Intern, PoolState, StrPool};
use vstd::prelude::*;
use vstd::string::StringSliceAdditionalSpecFns;

verus! {

/// The bits of a file mode that hold the kind of the file.
pub const S_IFMT: u32 = 0xF000;

/// The kind of a socket.
pub const S_IFSOCK: u32 = 0xC000;

/// The kind of a symbolic link.
pub const S_IFLNK: u32 = 0xA000;

/// The kind of a regular file.
pub const S_IFREG: u32 = 0x8000;

/// The kind of a block device.
pub const S_IFBLK: u32 = 0x6000;

/// The kind of a directory.
pub const S_IFDIR: u32 = 0x4000;

/// The kind of a character device.
pub const S_IFCHR: u32 = 0x2000;

/// The kind of a pipe.
pub const S_IFIFO: u32 = 0x1000;

/// The byte of a dot.
pub const DOT: u8 = 46;

/// The byte of a slash.
pub const SLASH: u8 = 47;

/// The kind of a directory entry that is a directory.
pub const DT_DIR: u8 = 4;

/// The kind of a directory entry that is a regular file.
pub const DT_REG: u8 = 8;

/// The kinds of files that a file mode tells apart.
#[derive(Clone, Copy, Debug, PartialEq, Eq, Structural)]
pub enum FileType {
    BlockDevice,
    CharacterDevice,
    Directory,
    Pipe,
    SymLink,
    Regular,
    Socket,
    Unknown,
}

/// The kind of file that a mode stands for.
pub open spec fn file_type_of(mode: u32) -> FileType {
    let kind = mode & S_IFMT;
    if kind == S_IFBLK {
        FileType::BlockDevice
    } else if kind == S_IFCHR {
        FileType::CharacterDevice
    } else if kind == S_IFDIR {
        FileType::Directory
    } else if kind == S_IFIFO {
        FileType::Pipe
    } else if kind == S_IFLNK {
        FileType::SymLink
    } else if kind == S_IFREG {
        FileType::Regular
    } else if kind == S_IFSOCK {
        FileType::Socket
    } else {
        FileType::Unknown
    }
}

/// The kind of file that `mode` stands for.
pub fn file_type(mode: u32) -> (kind: FileType)
    ensures
        kind == file_type_of(mode),
{
    let kind = mode & S_IFMT;
    if kind == S_IFBLK {
        FileType::BlockDevice
    } else if kind == S_IFCHR {
        FileType::CharacterDevice
    } else if kind == S_IFDIR {
        FileType::Directory
    } else if kind == S_IFIFO {
        FileType::Pipe
    } else if kind == S_IFLNK {
        FileType::SymLink
    } else if kind == S_IFREG {
        FileType::Regular
    } else if kind == S_IFSOCK {
        FileType::Socket
    } else {
        FileType::Unknown
    }
}

/// The permission bits of a mode do not decide the kind of the file.
pub proof fn lemma_file_type_ignores_permissions(mode: u32, permissions: u32)
    requires
        permissions & S_IFMT == 0,
    ensures
        file_type_of(mode | permissions) == file_type_of(mode),
{
    assert((mode | permissions) & 0xF000u32 == mode & 0xF000u32) by (bit_vector)
        requires
            permissions & 0xF000u32 == 0,
    ;
}

/// What a walk does with an entry of a directory.
#[derive(Clone, Copy, Debug, PartialEq, Eq, Structural)]
pub enum Visit {
    /// The entry is passed over.
    Skip,
    /// The entry is a directory, and the walk goes down into it.
    Descend,
    /// The entry is a file, and its path is recorded.
    Record,
}

/// Whether a walk passes over every entry of this name: the directory
/// itself, the one above it, and the store of a version control system.
pub open spec fn is_hidden(name: Seq<u8>) -> bool {
    name == seq![DOT] || name == seq![DOT, DOT] || name == seq![DOT, 103u8, 105u8, 116u8]
}

/// What a walk does with an entry of the given name and kind.
pub open spec fn visit_of(name: Seq<u8>, kind: u8) -> Visit {
    if is_hidden(name) {
        Visit::Skip
    } else if kind == DT_DIR {
        Visit::Descend
    } else if kind == DT_REG {
        Visit::Record
    } else {
        Visit::Skip
    }
}

/// What a walk does with the entry `name` of kind `kind`.
pub fn visit(name: &str, kind: u8) -> (visit: Visit)
    ensures
        visit == visit_of(name.spec_bytes(), kind),
{
    let bytes = name.as_bytes();
    let dot: [u8; 1] = [DOT];
    let dots: [u8; 2] = [DOT, DOT];
    let git: [u8; 4] = [DOT, 103, 105, 116];
    assert(dot@ =~= seq![DOT]);
    assert(dots@ =~= seq![DOT, DOT]);
    assert(git@ =~= seq![DOT, 103u8, 105u8, 116u8]);
    if same_bytes(bytes, dot.as_slice()) || same_bytes(bytes, dots.as_slice()) || same_bytes(
        bytes,
        git.as_slice(),
    ) {
        Visit::Skip
    } else if kind == DT_DIR {
        Visit::Descend
    } else if kind == DT_REG {
        Visit::Record
    } else {
        Visit::Skip
    }
}

/// The path of the entry `name` of the directory `path`: the two, with a
/// slash between them.
pub open spec fn joined(path: Seq<u8>, name: Seq<u8>) -> Seq<u8> {
    path + seq![SLASH] + name
}

/// Reserves room for the path of the entry `name` of the directory `path`
/// and writes the path into it. Fails, and changes nothing, when the arena
/// has no room for it.
pub fn join_path(arena: &mut Arena, path: &str, name: &str) -> (joined_path: Option<ArenaString>)
    requires
        old(arena)@.wf(),
    ensures
        match joined_path {
            Some(s) => {
                let text = joined(path.spec_bytes(), name.spec_bytes());
                &&& old(arena)@.granted(1, 1, text.len()) == Some(s@.span)
                &&& s@.written == text.len()
                &&& final(arena)@ == old(arena)@.reserve(1, 1, text.len()).write(
                    s@.span.address,
                    text,
                )
            },
            None => {
                &&& !old(arena)@.fits(
                    1,
                    1,
                    joined(path.spec_bytes(), name.spec_bytes()).len(),
                )
                &&& final(arena)@ == old(arena)@
            },
        },
        final(arena)@.wf(),
{
    let ghost text = joined(path.spec_bytes(), name.spec_bytes());
    let len = match path.as_bytes().len().checked_add(name.as_bytes().len()) {
        Some(sum) => match sum.checked_add(1) {
            Some(len) => len,
            None => {
                return None;
            },
        },
        None => {
            return None;
        },
    };
    let mut joined_path = match arena.allocate_string(len) {
        Some(joined_path) => joined_path,
        None => {
            return None;
        },
    };
    let ghost reserved = arena@;
    proof {
        reveal_strlit("/");
        vstd::string::is_ascii_spec_bytes("/");
        assert("/".spec_bytes() =~= seq![47u8]);
        crate::layout::lemma_round_up_bounds(old(arena)@.occupied, 1);
    }
    let first = joined_path.write_str(arena, path);
    let second = joined_path.write_str(arena, "/");
    let third = joined_path.write_str(arena, name);
    proof {
        let at = joined_path@.span.address as int;
        let p = path.spec_bytes();
        let n = name.spec_bytes();
        assert(text.len() == len);
        assert(old(arena)@.fits(1, 1, len as nat));
        assert(reserved == old(arena)@.reserve(1, 1, len as nat));
        assert(at + text.len() <= reserved.capacity());
        crate::plain::lemma_splice_concat(reserved.bytes, at, p, seq![47u8]);
        crate::plain::lemma_splice_concat(reserved.bytes, at, p + seq![47u8], n);
    }
    Some(joined_path)
}

/// What a table of open files is: the pool that its paths are interned in,
/// and the descriptor of each open file, by the handle of its path, in the
/// order in which the files were opened.
pub struct TableState {
    pub strings: PoolState,
    pub open: Seq<(Span, i32)>,
}

impl TableState {
    /// No path is open twice.
    pub open spec fn wf(self) -> bool {
        &&& self.strings.wf()
        &&& forall|i: int, j: int|
            0 <= i < j < self.open.len() ==> (#[trigger] self.open[i]).0 != (
            #[trigger] self.open[j]).0
    }

    /// Whether the file of the path with the given handle is open.
    pub open spec fn is_open(self, key: Span) -> bool {
        exists|i: int| 0 <= i < self.open.len() && (#[trigger] self.open[i]).0 == key
    }

    /// Where in the table the file of the path with the given handle is.
    pub open spec fn position(self, key: Span) -> int {
        choose|i: int| 0 <= i < self.open.len() && (#[trigger] self.open[i]).0 == key
    }

    /// The descriptor of the open file of the path with the given handle.
    pub open spec fn descriptor(self, key: Span) -> i32 {
        self.open[self.position(key)].1
    }
}

/// What looking a path up in a table of open files finds.
pub enum Slot {
    /// The file is open, with this descriptor.
    Open(i32),
    /// The file is not open. The handle is that of its path.
    Vacant(Intern<u8>),
}

/// An open file, by the handle of its interned path.
struct Entry {
    address: usize,
    len: usize,
    generation: u64,
    descriptor: i32,
}

/// The files that a program holds open, by path. Paths are interned, so
/// that a path is stored once however often it is asked for.
pub struct FileTable {
    strings: StrPool,
    entries: Vec<Entry>,
}

impl View for FileTable {
    type V = TableState;

    closed spec fn view(&self) -> TableState {
        TableState {
            strings: self.strings@,
            open: Seq::new(
                self.entries@.len(),
                |i: int|
                    (
                        Span {
                            address: self.entries@[i].address as nat,
                            len: self.entries@[i].len as nat,
                            generation: self.entries@[i].generation as nat,
                        },
                        self.entries@[i].descriptor,
                    ),
            ),
        }
    }
}

impl FileTable {
    pub closed spec fn wf(&self) -> bool {
        self.strings.wf() && self@.wf()
    }

    /// A well-formed table has a well-formed model.
    pub proof fn lemma_wf(&self)
        requires
            self.wf(),
        ensures
            self@.wf(),
    {
    }

    /// A table without open files, with `size` bytes of room for paths.
    pub fn new(size: usize) -> (table: FileTable)
        ensures
            table.wf(),
            table@.open == Seq::<(Span, i32)>::empty(),
            table@.strings == (PoolState {
                images: Seq::empty(),
                addresses: Seq::empty(),
                occupied: 0,
                capacity: size as nat,
                generation: 0,
            }),
    {
        let table = FileTable { strings: StrPool::new(size), entries: Vec::new() };
        proof {
            table.strings.lemma_wf();
            assert(table@.open =~= Seq::<(Span, i32)>::empty());
        }
        table
    }

    /// Number of open files.
    pub fn len(&self) -> (len: usize)
        ensures
            len == self@.open.len(),
    {
        self.entries.len()
    }

    /// The descriptors of the open files, in the order in which the files
    /// were opened.
    pub fn loaded(&self) -> (descriptors: Vec<i32>)
        ensures
            descriptors@.len() == self@.open.len(),
            forall|i: int|
                0 <= i < descriptors@.len() ==> #[trigger] descriptors@[i] == self@.open[i].1,
    {
        let mut descriptors: Vec<i32> = Vec::with_capacity(self.entries.len());
        let mut i: usize = 0;
        while i < self.entries.len()
            invariant
                i <= self.entries@.len(),
                descriptors@.len() == i,
                forall|j: int| 0 <= j < i ==> #[trigger] descriptors@[j] == self@.open[j].1,
            decreases self.entries@.len() - i,
        {
            descriptors.push(self.entries[i].descriptor);
            i = i + 1;
        }
        descriptors
    }

    /// Where the entry with the given handle is, if there is one.
    fn index_of(&self, key: &Intern<u8>) -> (found: Option<usize>)
        requires
            self.wf(),
        ensures
            match found {
                Some(i) => self@.is_open(key@) && self@.position(key@) == i && i
                    < self@.open.len(),
                None => !self@.is_open(key@),
            },
    {
        let mut i: usize = 0;
        while i < self.entries.len()
            invariant
                i <= self.entries@.len(),
                self.wf(),
                forall|j: int| 0 <= j < i ==> (#[trigger] self@.open[j]).0 != key@,
            decreases self.entries@.len() - i,
        {
            let entry = &self.entries[i];
            if entry.address == key.address() && entry.len == key.len() && entry.generation
                == key.generation() {
                proof {
                    assert(self@.open[i as int].0 == key@);
                    let p = self@.position(key@);
                    if p < i {
                        assert(self@.open[p].0 != self@.open[i as int].0);
                    } else if i < p {
                        assert(self@.open[i as int].0 != self@.open[p].0);
                    }
                }
                return Some(i);
            }
            assert(self@.open[i as int].0 != key@);
            i = i + 1;
        }
        None
    }

    /// Interns `path` and looks its file up. `None` when the pool has no
    /// room for the path.
    pub fn find(&mut self, path: &str) -> (slot: Option<Slot>)
        requires
            old(self).wf(),
        ensures
            final(self).wf(),
            final(self)@.strings == old(self)@.strings.intern(1, path.spec_bytes()),
            final(self)@.open == old(self)@.open,
            match slot {
                None => old(self)@.strings.handle(1, path.spec_bytes()) is None,
                Some(Slot::Open(descriptor)) => {
                    &&& old(self)@.strings.handle(1, path.spec_bytes()) matches Some(key)
                    &&& old(self)@.is_open(key)
                    &&& descriptor == old(self)@.descriptor(key)
                },
                Some(Slot::Vacant(handle)) => {
                    &&& old(self)@.strings.handle(1, path.spec_bytes()) == Some(handle@)
                    &&& !old(self)@.is_open(handle@)
                },
            },
    {
        let handle = match self.strings.intern(path) {
            Some(handle) => handle,
            None => {
                proof {
                    self.strings.lemma_wf();
                    assert(self@.open =~= old(self)@.open);
                }
                return None;
            },
        };
        proof {
            self.strings.lemma_wf();
            assert(self@.open =~= old(self)@.open);
        }
        match self.index_of(&handle) {
            Some(i) => Some(Slot::Open(self.entries[i].descriptor)),
            None => Some(Slot::Vacant(handle)),
        }
    }

    /// Records that the file of the path with the given handle is open.
    pub fn insert(&mut self, key: Intern<u8>, descriptor: i32)
        requires
            old(self).wf(),
            !old(self)@.is_open(key@),
        ensures
            final(self).wf(),
            final(self)@.strings == old(self)@.strings,
            final(self)@.open == old(self)@.open.push((key@, descriptor)),
    {
        self.entries.push(
            Entry {
                address: key.address(),
                len: key.len(),
                generation: key.generation(),
                descriptor,
            },
        );
        proof {
            assert(self@.open =~= old(self)@.open.push((key@, descriptor)));
            assert forall|i: int, j: int| 0 <= i < j < self@.open.len() implies (
            #[trigger] self@.open[i]).0 != (#[trigger] self@.open[j]).0 by {
                if j < old(self)@.open.len() {
                    assert(old(self)@.open[i].0 != old(self)@.open[j].0);
                } else {
                    assert(old(self)@.open[i].0 != key@);
                }
            }
        }
    }

    /// Interns `path` and, if its file is open, forgets the file and returns
    /// its descriptor.
    pub fn remove(&mut self, path: &str) -> (descriptor: Option<i32>)
        requires
            old(self).wf(),
        ensures
            final(self).wf(),
            final(self)@.strings == old(self)@.strings.intern(1, path.spec_bytes()),
            match descriptor {
                Some(d) => {
                    &&& old(self)@.strings.handle(1, path.spec_bytes()) matches Some(key)
                    &&& old(self)@.is_open(key)
                    &&& d == old(self)@.descriptor(key)
                    &&& final(self)@.open == old(self)@.open.remove(old(self)@.position(key))
                },
                None => {
                    &&& final(self)@.open == old(self)@.open
                    &&& old(self)@.strings.handle(1, path.spec_bytes()) matches Some(key)
                        ==> !old(self)@.is_open(key)
                },
            },
    {
        let handle = match self.strings.intern(path) {
            Some(handle) => handle,
            None => {
                proof {
                    self.strings.lemma_wf();
                    assert(self@.open =~= old(self)@.open);
                }
                return None;
            },
        };
        proof {
            self.strings.lemma_wf();
            assert(self@.open =~= old(self)@.open);
        }
        match self.index_of(&handle) {
            Some(i) => {
                let ghost before = self@.open;
                let entry = self.entries.remove(i);
                proof {
                    assert(self@.open =~= before.remove(i as int));
                    assert forall|a: int, b: int| 0 <= a < b < self@.open.len() implies (
                    #[trigger] self@.open[a]).0 != (#[trigger] self@.open[b]).0 by {
                        let a0 = if a < i { a } else { a + 1 };
                        let b0 = if b < i { b } else { b + 1 };
                        assert(before[a0].0 != before[b0].0);
                    }
                }
                Some(entry.descriptor)
            },
            None => None,
        }
    }
}

} // verus!
