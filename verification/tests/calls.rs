use fstn::attr::{FileAttr, FileType, Timespec};
use fstn::error::FsError;
use fstn::fs::{AttrReply, CreateReply, DirRecord, EntryReply, FstnFS};

const EPOCH: Timespec = Timespec { sec: 0, nsec: 0 };
const THREE_SECONDS: Timespec = Timespec { sec: 3, nsec: 0 };

fn record(ino: u64, kind: FileType, size: u64) -> FileAttr {
    let perm = match kind {
        FileType::Directory => 0o700,
        FileType::RegularFile => 0o600,
    };
    FileAttr {
        ino,
        size,
        blocks: 0,
        atime: EPOCH,
        mtime: EPOCH,
        ctime: EPOCH,
        crtime: EPOCH,
        kind,
        perm,
        nlink: 2,
        uid: 1000,
        gid: 100,
        rdev: 0,
        flags: 0,
    }
}

#[test]
fn lookup_of_an_absent_name_is_not_found() {
    let fs = FstnFS::default();
    assert_eq!(fs.lookup(1, b"nothing"), Err(FsError::NotFound));
    assert_eq!(fs.lookup(1, b""), Err(FsError::NotFound));
    assert_eq!(fs.lookup(1, b"hello.tx"), Err(FsError::NotFound));
    assert_eq!(fs.lookup(1, b"hello.txt2"), Err(FsError::NotFound));
}

#[test]
fn lookup_of_an_absent_name_in_a_new_directory_is_not_found() {
    let mut fs = FstnFS::default();
    let dir = fs.mkdir(1, b"d").unwrap().attr.ino;
    assert_eq!(fs.lookup(dir, b"hello.txt"), Err(FsError::NotFound));
}

#[test]
fn lookup_in_a_file_or_in_nothing_is_not_found() {
    let fs = FstnFS::default();
    assert_eq!(fs.lookup(2, b"hello.txt"), Err(FsError::NotFound));
    assert_eq!(fs.lookup(3, b"hello.txt"), Err(FsError::NotFound));
    assert_eq!(fs.lookup(0, b"hello.txt"), Err(FsError::NotFound));
    assert_eq!(fs.lookup(u64::MAX, b"hello.txt"), Err(FsError::NotFound));
}

#[test]
fn lookup_of_the_bootstrap_file() {
    let fs = FstnFS::default();
    assert_eq!(
        fs.lookup(1, b"hello.txt"),
        Ok(EntryReply { ttl: THREE_SECONDS, attr: record(2, FileType::RegularFile, 11), generation: 0 })
    );
}

#[test]
fn create_then_lookup_gives_an_empty_file() {
    let mut fs = FstnFS::default();
    let created = fs.create(1, b"x").unwrap();
    let found = fs.lookup(1, b"x").unwrap();
    assert_eq!(
        created,
        CreateReply {
            ttl: THREE_SECONDS,
            attr: record(3, FileType::RegularFile, 0),
            generation: 0,
            fh: 0,
            flags: 0,
        }
    );
    assert_eq!(found.attr, created.attr);
    assert_eq!(found.attr.size, 0);
    assert_eq!(found.attr.kind, FileType::RegularFile);
    assert_eq!(found.attr.perm, 0o600);
    assert_eq!(found.ttl, THREE_SECONDS);
}

#[test]
fn create_write_read_returns_what_was_written() {
    let mut fs = FstnFS::default();
    let x = fs.create(1, b"x").unwrap().attr.ino;
    assert_eq!(fs.write(x, 0, b"hello"), Ok(5));
    assert_eq!(fs.read(x, 0, 5), Ok(&b"hello"[..]));
    assert_eq!(fs.getattr(x).unwrap().attr.size, 5);
}

#[test]
fn write_past_the_end_fills_the_gap_with_zeros() {
    let mut fs = FstnFS::default();
    let f = fs.create(1, b"f").unwrap().attr.ino;
    assert_eq!(fs.write(f, 5, b"ab"), Ok(2));
    assert_eq!(fs.read(f, 0, 7), Ok(&[0u8, 0, 0, 0, 0, b'a', b'b'][..]));
    assert_eq!(fs.getattr(f).unwrap().attr.size, 7);
}

#[test]
fn write_past_the_end_of_a_file_with_bytes_keeps_them() {
    let mut fs = FstnFS::default();
    assert_eq!(fs.write(2, 13, b"!!"), Ok(2));
    assert_eq!(fs.read(2, 0, 100), Ok(&b"Hello world\0\0!!"[..]));
}

#[test]
fn write_of_nothing_past_the_end_still_grows_the_file() {
    let mut fs = FstnFS::default();
    let f = fs.create(1, b"f").unwrap().attr.ino;
    assert_eq!(fs.write(f, 3, b""), Ok(0));
    assert_eq!(fs.read(f, 0, 10), Ok(&[0u8, 0, 0][..]));
}

#[test]
fn write_inside_a_file_overwrites_in_place() {
    let mut fs = FstnFS::default();
    assert_eq!(fs.write(2, 6, b"W"), Ok(1));
    assert_eq!(fs.read(2, 0, 11), Ok(&b"Hello World"[..]));
    assert_eq!(fs.write(2, 9, b"m!"), Ok(2));
    assert_eq!(fs.read(2, 0, 64), Ok(&b"Hello Worm!"[..]));
    assert_eq!(fs.write(2, 9, b"ld, again"), Ok(9));
    assert_eq!(fs.read(2, 0, 64), Ok(&b"Hello World, again"[..]));
}

#[test]
fn write_to_a_directory_or_to_nothing_is_not_found() {
    let mut fs = FstnFS::default();
    assert_eq!(fs.write(1, 0, b"data"), Err(FsError::NotFound));
    assert_eq!(fs.write(9, 0, b"data"), Err(FsError::NotFound));
    assert_eq!(fs.getattr(1).unwrap().attr, record(1, FileType::Directory, 0));
    assert_eq!(fs.getattr(9), Err(FsError::NotFound));
    assert_eq!(fs.readdir(1, 0).unwrap().len(), 1);
}

#[test]
fn write_that_ends_beyond_any_buffer_is_refused() {
    let mut fs = FstnFS::default();
    assert_eq!(fs.write(2, u64::MAX, b"x"), Err(FsError::InvalidOffset));
    assert_eq!(fs.write(2, u64::MAX, b""), Err(FsError::InvalidOffset));
    assert_eq!(fs.write(2, isize::MAX as u64, b"x"), Err(FsError::InvalidOffset));
    assert_eq!(fs.read(2, 0, 64), Ok(&b"Hello world"[..]));
}

#[test]
fn read_of_the_bootstrap_file() {
    let fs = FstnFS::default();
    assert_eq!(fs.read(2, 0, 11), Ok(&b"Hello world"[..]));
    assert_eq!(fs.read(2, 0, 4096), Ok(&b"Hello world"[..]));
    assert_eq!(fs.read(2, 0, 5), Ok(&b"Hello"[..]));
    assert_eq!(fs.read(2, 6, 5), Ok(&b"world"[..]));
    assert_eq!(fs.read(2, 6, 2), Ok(&b"wo"[..]));
    assert_eq!(fs.read(2, 6, 0), Ok(&b""[..]));
    assert_eq!(fs.read(2, 10, u32::MAX), Ok(&b"d"[..]));
}

#[test]
fn read_at_the_end_is_empty_and_beyond_it_is_refused() {
    let fs = FstnFS::default();
    assert_eq!(fs.read(2, 11, 10), Ok(&b""[..]));
    assert_eq!(fs.read(2, 12, 10), Err(FsError::InvalidOffset));
    assert_eq!(fs.read(2, 12, 0), Err(FsError::InvalidOffset));
    assert_eq!(fs.read(2, u64::MAX, 1), Err(FsError::InvalidOffset));
}

#[test]
fn read_of_a_directory_or_of_nothing_is_not_found() {
    let fs = FstnFS::default();
    assert_eq!(fs.read(1, 0, 10), Err(FsError::NotFound));
    assert_eq!(fs.read(3, 0, 10), Err(FsError::NotFound));
    assert_eq!(fs.read(1, 100, 10), Err(FsError::NotFound));
}

#[test]
fn setattr_to_size_zero_then_read_is_empty() {
    let mut fs = FstnFS::default();
    assert_eq!(
        fs.setattr(2, Some(0)),
        Ok(AttrReply { ttl: THREE_SECONDS, attr: record(2, FileType::RegularFile, 0) })
    );
    assert_eq!(fs.read(2, 0, 10), Ok(&b""[..]));
}

#[test]
fn setattr_truncates_to_the_size() {
    let mut fs = FstnFS::default();
    assert_eq!(fs.setattr(2, Some(5)).unwrap().attr.size, 5);
    assert_eq!(fs.read(2, 0, 64), Ok(&b"Hello"[..]));
    assert_eq!(fs.lookup(1, b"hello.txt").unwrap().attr.size, 5);
}

#[test]
fn setattr_never_grows_a_file() {
    let mut fs = FstnFS::default();
    assert_eq!(fs.setattr(2, Some(11)).unwrap().attr.size, 11);
    assert_eq!(fs.setattr(2, Some(12)).unwrap().attr.size, 11);
    assert_eq!(fs.setattr(2, Some(u64::MAX)).unwrap().attr.size, 11);
    assert_eq!(fs.read(2, 0, 64), Ok(&b"Hello world"[..]));
}

#[test]
fn setattr_without_a_size_replies_with_the_attributes() {
    let mut fs = FstnFS::default();
    assert_eq!(
        fs.setattr(2, None),
        Ok(AttrReply { ttl: THREE_SECONDS, attr: record(2, FileType::RegularFile, 11) })
    );
    assert_eq!(
        fs.setattr(1, None),
        Ok(AttrReply { ttl: THREE_SECONDS, attr: record(1, FileType::Directory, 0) })
    );
}

#[test]
fn setattr_with_a_size_leaves_a_directory_alone() {
    let mut fs = FstnFS::default();
    assert_eq!(
        fs.setattr(1, Some(0)),
        Ok(AttrReply { ttl: THREE_SECONDS, attr: record(1, FileType::Directory, 0) })
    );
    assert_eq!(fs.lookup(1, b"hello.txt").unwrap().attr.ino, 2);
}

#[test]
fn setattr_of_nothing_is_not_found() {
    let mut fs = FstnFS::default();
    assert_eq!(fs.setattr(3, Some(0)), Err(FsError::NotFound));
    assert_eq!(fs.setattr(3, None), Err(FsError::NotFound));
}

#[test]
fn readdir_of_the_bootstrap_root() {
    let fs = FstnFS::default();
    assert_eq!(
        fs.readdir(1, 0),
        Ok(vec![DirRecord {
            name: b"hello.txt".to_vec(),
            offset: 1,
            attr: record(2, FileType::RegularFile, 11),
        }])
    );
    let listing = fs.readdir(1, 0).unwrap();
    assert_eq!(listing.len(), 1);
    assert_eq!(listing[0].name, b"hello.txt");
    assert_eq!(listing[0].attr.kind, FileType::RegularFile);
    assert_eq!(listing[0].attr.size, 11);
}

#[test]
fn readdir_goes_on_from_an_offset() {
    let mut fs = FstnFS::default();
    fs.mkdir(1, b"d").unwrap();
    fs.create(1, b"x").unwrap();
    let all = fs.readdir(1, 0).unwrap();
    assert_eq!(all.len(), 3);
    assert_eq!(all[0].name, b"hello.txt");
    assert_eq!(all[1].name, b"d");
    assert_eq!(all[1].attr, record(3, FileType::Directory, 0));
    assert_eq!(all[2].name, b"x");
    assert_eq!(all[2].attr, record(4, FileType::RegularFile, 0));
    assert_eq!(all.iter().map(|r| r.offset).collect::<Vec<u64>>(), vec![1, 2, 3]);
    assert_eq!(&fs.readdir(1, 1).unwrap()[..], &all[1..]);
    assert_eq!(&fs.readdir(1, 2).unwrap()[..], &all[2..]);
    assert_eq!(fs.readdir(1, 3), Ok(vec![]));
    assert_eq!(fs.readdir(1, 4), Ok(vec![]));
    assert_eq!(fs.readdir(1, u64::MAX), Ok(vec![]));
}

#[test]
fn readdir_of_an_empty_directory_is_empty() {
    let mut fs = FstnFS::default();
    let d = fs.mkdir(1, b"d").unwrap().attr.ino;
    assert_eq!(fs.readdir(d, 0), Ok(vec![]));
}

#[test]
fn readdir_of_a_file_or_of_nothing_is_not_found() {
    let fs = FstnFS::default();
    assert_eq!(fs.readdir(2, 0), Err(FsError::NotFound));
    assert_eq!(fs.readdir(3, 0), Err(FsError::NotFound));
    assert_eq!(fs.readdir(2, 7), Err(FsError::NotFound));
}

#[test]
fn mkdir_then_lookup_gives_an_empty_directory() {
    let mut fs = FstnFS::default();
    let made = fs.mkdir(1, b"d").unwrap();
    assert_eq!(
        made,
        EntryReply { ttl: THREE_SECONDS, attr: record(3, FileType::Directory, 0), generation: 0 }
    );
    let found = fs.lookup(1, b"d").unwrap();
    assert_eq!(found, made);
    assert_eq!(found.attr.kind, FileType::Directory);
    assert_eq!(found.attr.size, 0);
    assert_eq!(found.attr.perm, 0o700);
}

#[test]
fn create_and_mkdir_inside_a_new_directory() {
    let mut fs = FstnFS::default();
    let d = fs.mkdir(1, b"d").unwrap().attr.ino;
    let e = fs.mkdir(d, b"e").unwrap().attr.ino;
    let f = fs.create(e, b"f").unwrap().attr.ino;
    assert_eq!((d, e, f), (3, 4, 5));
    assert_eq!(fs.lookup(d, b"e").unwrap().attr, record(4, FileType::Directory, 0));
    assert_eq!(fs.lookup(e, b"f").unwrap().attr, record(5, FileType::RegularFile, 0));
    assert_eq!(fs.lookup(1, b"e"), Err(FsError::NotFound));
    assert_eq!(fs.lookup(d, b"f"), Err(FsError::NotFound));
    assert_eq!(fs.write(f, 0, b"deep"), Ok(4));
    assert_eq!(fs.lookup(e, b"f").unwrap().attr.size, 4);
}

#[test]
fn create_under_a_file_or_under_nothing_is_not_found() {
    let mut fs = FstnFS::default();
    assert_eq!(fs.create(2, b"x"), Err(FsError::NotFound));
    assert_eq!(fs.create(7, b"x"), Err(FsError::NotFound));
    assert_eq!(fs.mkdir(2, b"d"), Err(FsError::NotFound));
    assert_eq!(fs.mkdir(7, b"d"), Err(FsError::NotFound));
}

#[test]
fn a_creation_that_fails_hands_out_no_identifier() {
    let mut fs = FstnFS::default();
    assert_eq!(fs.create(2, b"x"), Err(FsError::NotFound));
    assert_eq!(fs.mkdir(9, b"d"), Err(FsError::NotFound));
    assert_eq!(fs.getattr(3), Err(FsError::NotFound));
    assert_eq!(fs.create(1, b"x").unwrap().attr.ino, 3);
}

#[test]
fn identifiers_count_up_from_three() {
    let mut fs = FstnFS::default();
    assert_eq!(fs.create(1, b"a").unwrap().attr.ino, 3);
    assert_eq!(fs.mkdir(1, b"b").unwrap().attr.ino, 4);
    assert_eq!(fs.create(4, b"c").unwrap().attr.ino, 5);
    assert_eq!(fs.create(1, b"d").unwrap().attr.ino, 6);
}

#[test]
fn create_over_a_bound_name_rebinds_it() {
    let mut fs = FstnFS::default();
    fs.create(1, b"x").unwrap();
    assert_eq!(fs.write(3, 0, b"old"), Ok(3));
    assert_eq!(fs.create(1, b"x").unwrap().attr.ino, 4);
    assert_eq!(fs.lookup(1, b"x").unwrap().attr, record(4, FileType::RegularFile, 0));
    assert_eq!(fs.getattr(3).unwrap().attr, record(3, FileType::RegularFile, 3));
    let listing = fs.readdir(1, 0).unwrap();
    assert_eq!(listing.len(), 2);
    assert_eq!(listing[1].name, b"x");
    assert_eq!(listing[1].attr.ino, 4);
}

#[test]
fn create_over_the_bootstrap_name_keeps_its_place_in_the_listing() {
    let mut fs = FstnFS::default();
    fs.create(1, b"later").unwrap();
    assert_eq!(fs.mkdir(1, b"hello.txt").unwrap().attr.ino, 4);
    let listing = fs.readdir(1, 0).unwrap();
    assert_eq!(listing.len(), 2);
    assert_eq!(listing[0].name, b"hello.txt");
    assert_eq!(listing[0].attr, record(4, FileType::Directory, 0));
    assert_eq!(listing[1].name, b"later");
    assert_eq!(fs.read(2, 0, 64), Ok(&b"Hello world"[..]));
}

#[test]
fn names_are_opaque_bytes() {
    let mut fs = FstnFS::default();
    let a = fs.create(1, b"").unwrap().attr.ino;
    let b = fs.create(1, &[0xff, 0x00, b'/']).unwrap().attr.ino;
    let c = fs.create(1, b"Hello.txt").unwrap().attr.ino;
    assert_eq!(fs.lookup(1, b"").unwrap().attr.ino, a);
    assert_eq!(fs.lookup(1, &[0xff, 0x00, b'/']).unwrap().attr.ino, b);
    assert_eq!(fs.lookup(1, b"Hello.txt").unwrap().attr.ino, c);
    assert_eq!(fs.lookup(1, b"hello.txt").unwrap().attr.ino, 2);
    assert_eq!(fs.lookup(1, &[0xff, 0x00]), Err(FsError::NotFound));
}

#[test]
fn getattr_of_the_bootstrap_entries() {
    let fs = FstnFS::default();
    assert_eq!(
        fs.getattr(1),
        Ok(AttrReply { ttl: THREE_SECONDS, attr: record(1, FileType::Directory, 0) })
    );
    assert_eq!(
        fs.getattr(2),
        Ok(AttrReply { ttl: THREE_SECONDS, attr: record(2, FileType::RegularFile, 11) })
    );
    assert_eq!(fs.getattr(0), Err(FsError::NotFound));
    assert_eq!(fs.getattr(3), Err(FsError::NotFound));
}

#[test]
fn getattr_repeats_itself_while_nothing_changes() {
    let mut fs = FstnFS::default();
    let x = fs.create(1, b"x").unwrap().attr.ino;
    fs.write(x, 2, b"abc").unwrap();
    for ino in 0..6 {
        let first = fs.getattr(ino);
        let second = fs.getattr(ino);
        let _ = fs.lookup(1, b"x");
        let _ = fs.readdir(1, 0);
        let _ = fs.read(x, 0, 3);
        let third = fs.getattr(ino);
        assert_eq!(first, second);
        assert_eq!(second, third);
    }
}

#[test]
fn getattr_of_one_entry_ignores_writes_to_another() {
    let mut fs = FstnFS::default();
    let x = fs.create(1, b"x").unwrap().attr.ino;
    let before = fs.getattr(2);
    fs.write(x, 0, b"abc").unwrap();
    fs.setattr(x, Some(1)).unwrap();
    assert_eq!(fs.getattr(2), before);
}

#[test]
fn the_root_stays_a_directory() {
    let mut fs = FstnFS::default();
    let _ = fs.write(1, 0, b"x");
    let _ = fs.setattr(1, Some(0));
    let _ = fs.create(1, b"a");
    let _ = fs.mkdir(1, b"b");
    let _ = fs.create(1, b"a");
    assert_eq!(fs.getattr(1).unwrap().attr, record(1, FileType::Directory, 0));
}
