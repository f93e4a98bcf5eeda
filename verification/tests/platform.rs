use monolith::arena::Arena;
use monolith::platform::unix::filesystem::{
    file_type, join_path, visit, FileTable, FileType, Slot, Visit, DT_DIR, DT_REG, S_IFBLK,
    S_IFCHR, S_IFDIR, S_IFIFO, S_IFLNK, S_IFMT, S_IFREG, S_IFSOCK,
};
use monolith::platform::unix::Clock;

#[test]
fn the_kinds_of_files_are_those_of_the_system() {
    assert_eq!(S_IFMT, libc::S_IFMT);
    assert_eq!(S_IFBLK, libc::S_IFBLK);
    assert_eq!(S_IFCHR, libc::S_IFCHR);
    assert_eq!(S_IFDIR, libc::S_IFDIR);
    assert_eq!(S_IFIFO, libc::S_IFIFO);
    assert_eq!(S_IFLNK, libc::S_IFLNK);
    assert_eq!(S_IFREG, libc::S_IFREG);
    assert_eq!(S_IFSOCK, libc::S_IFSOCK);
    assert_eq!(DT_DIR, libc::DT_DIR);
    assert_eq!(DT_REG, libc::DT_REG);
}

#[test]
fn a_mode_tells_the_kind_of_file() {
    assert_eq!(file_type(libc::S_IFBLK | 0o660), FileType::BlockDevice);
    assert_eq!(file_type(libc::S_IFCHR | 0o620), FileType::CharacterDevice);
    assert_eq!(file_type(libc::S_IFDIR | 0o755), FileType::Directory);
    assert_eq!(file_type(libc::S_IFIFO | 0o600), FileType::Pipe);
    assert_eq!(file_type(libc::S_IFLNK | 0o777), FileType::SymLink);
    assert_eq!(file_type(libc::S_IFREG | 0o644), FileType::Regular);
    assert_eq!(file_type(libc::S_IFSOCK | 0o755), FileType::Socket);
    assert_eq!(file_type(0o644), FileType::Unknown);
    assert_eq!(file_type(0xF000), FileType::Unknown);
    assert_eq!(file_type(0o100644 | 0o4000), FileType::Regular);
}

#[test]
fn a_walk_skips_what_is_hidden() {
    assert_eq!(visit(".", DT_DIR), Visit::Skip);
    assert_eq!(visit("..", DT_DIR), Visit::Skip);
    assert_eq!(visit(".git", DT_DIR), Visit::Skip);
    assert_eq!(visit(".git", DT_REG), Visit::Skip);
    assert_eq!(visit(".gitignore", DT_REG), Visit::Record);
    assert_eq!(visit("...", DT_DIR), Visit::Descend);
    assert_eq!(visit("src", DT_DIR), Visit::Descend);
    assert_eq!(visit("lib.rs", DT_REG), Visit::Record);
    assert_eq!(visit("", DT_REG), Visit::Record);
    assert_eq!(visit("link", 10), Visit::Skip);
    assert_eq!(visit("fifo", 1), Visit::Skip);
    assert_eq!(visit(".gi", DT_DIR), Visit::Descend);
}

#[test]
fn a_path_is_joined_with_a_slash() {
    let mut arena = Arena::new(32);
    let path = join_path(&mut arena, "src", "lib.rs").unwrap();
    assert_eq!(arena.text(&path), Some("src/lib.rs"));
    assert_eq!(path.len(), 10);
    assert_eq!(path.capacity(), 10);
    assert_eq!(arena.occupied(), 10);
    let nested = join_path(&mut arena, "src/ünï", "").unwrap();
    assert_eq!(arena.text(&nested), Some("src/ünï/"));
    assert_eq!(arena.occupied(), 10 + 10);
    // no room for thirteen bytes more
    assert!(join_path(&mut arena, "0123456", "89abc").is_none());
    assert_eq!(arena.occupied(), 20);
    assert!(join_path(&mut arena, "0123456", "89ab").is_some());
    assert!(arena.is_full());
    assert!(join_path(&mut arena, "", "").is_none());
}

#[test]
fn a_clock_converts_its_readings() {
    let mut clock = Clock::monotonic(1, 5_000_000_000);
    assert_eq!(clock.resolution(), 1);
    assert_eq!(clock.ticks(), 0);
    assert_eq!(clock.delta_ticks(), 0);
    clock.update(5_000_000_000 + 1_234_567_890);
    assert_eq!(clock.ticks(), 1_234_567_890);
    assert_eq!(clock.nanoseconds(), 1_234_567_890);
    assert_eq!(clock.microseconds(), 1_234_567);
    assert_eq!(clock.milliseconds(), 1_234);
    assert_eq!(clock.delta_ticks(), 1_234_567_890);
    assert_eq!(clock.delta_milliseconds(), 1_234);
    clock.update(5_000_000_000 + 1_300_000_000);
    assert_eq!(clock.ticks(), 1_300_000_000);
    assert_eq!(clock.delta_ticks(), 65_432_110);
    assert_eq!(clock.delta_nanoseconds(), 65_432_110);
    assert_eq!(clock.delta_microseconds(), 65_432);
    assert_eq!(clock.delta_milliseconds(), 65);
    assert_eq!(clock.milliseconds(), 1_300);
    clock.update(5_000_000_000 + 1_300_000_000);
    assert_eq!(clock.delta_ticks(), 0);
    assert_eq!(clock.ticks(), 1_300_000_000);
}

#[test]
fn a_coarse_clock_divides_by_its_resolution() {
    let mut clock = Clock::monotonic(4, 0);
    clock.update(4_000_003);
    assert_eq!(clock.nanoseconds(), 1_000_000);
    assert_eq!(clock.microseconds(), 1_000);
    assert_eq!(clock.milliseconds(), 1);
}

fn open_as(table: &mut FileTable, path: &str, descriptor: i32) {
    match table.find(path) {
        Some(Slot::Vacant(key)) => table.insert(key, descriptor),
        _ => panic!("the file is open"),
    }
}

fn descriptor_of(table: &mut FileTable, path: &str) -> Option<i32> {
    match table.find(path) {
        Some(Slot::Open(descriptor)) => Some(descriptor),
        _ => None,
    }
}

#[test]
fn a_file_is_opened_once() {
    let mut table = FileTable::new(64);
    assert_eq!(table.len(), 0);
    assert_eq!(descriptor_of(&mut table, "a.txt"), None);
    open_as(&mut table, "a.txt", 3);
    open_as(&mut table, "b.txt", 4);
    assert_eq!(descriptor_of(&mut table, "a.txt"), Some(3));
    assert_eq!(descriptor_of(&mut table, "b.txt"), Some(4));
    assert_eq!(descriptor_of(&mut table, "c.txt"), None);
    assert_eq!(table.len(), 2);
    assert_eq!(table.loaded(), vec![3, 4]);
}

#[test]
fn a_closed_file_can_be_opened_again() {
    let mut table = FileTable::new(64);
    open_as(&mut table, "a.txt", 3);
    open_as(&mut table, "b.txt", 4);
    open_as(&mut table, "c.txt", 5);
    assert_eq!(table.remove("b.txt"), Some(4));
    assert_eq!(table.remove("b.txt"), None);
    assert_eq!(table.remove("never"), None);
    assert_eq!(table.loaded(), vec![3, 5]);
    assert_eq!(descriptor_of(&mut table, "b.txt"), None);
    open_as(&mut table, "b.txt", 6);
    assert_eq!(table.loaded(), vec![3, 5, 6]);
    assert_eq!(descriptor_of(&mut table, "b.txt"), Some(6));
    assert_eq!(descriptor_of(&mut table, "c.txt"), Some(5));
}

#[test]
fn a_table_without_room_for_a_path_finds_nothing() {
    let mut table = FileTable::new(8);
    open_as(&mut table, "12345", 3);
    assert!(table.find("67890").is_none());
    assert_eq!(table.remove("67890"), None);
    assert_eq!(descriptor_of(&mut table, "12345"), Some(3));
    // the empty path shares its address with no other path that is open
    open_as(&mut table, "", 9);
    open_as(&mut table, "abc", 10);
    assert_eq!(descriptor_of(&mut table, ""), Some(9));
    assert_eq!(descriptor_of(&mut table, "abc"), Some(10));
    assert_eq!(table.loaded(), vec![3, 9, 10]);
}
