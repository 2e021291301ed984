use rcore_kernel::fs::bitmap::{Bitmap, BitmapBlock};
use rcore_kernel::fs::dir::{create, sys_linkat, sys_unlinkat, unlink, Directory, InodeTable};

fn fs() -> (Directory, Bitmap, Vec<BitmapBlock>, InodeTable) {
    let mut disk: Vec<BitmapBlock> = vec![[0u64; 64]; 2];
    disk[1][0] = 0b11;
    (Directory::new(), Bitmap::new(1, 1), disk, InodeTable::new(4096))
}

#[test]
fn create_takes_the_lowest_free_inode() {
    let (mut dir, inodes, mut disk, mut table) = fs();
    assert_eq!(create(&mut dir, &inodes, &mut disk, &mut table, b"filea"), Some(2));
    assert_eq!(create(&mut dir, &inodes, &mut disk, &mut table, b"fileb"), Some(3));
    assert_eq!(dir.len(), 2);
    assert_eq!(dir.size(), 64);
    assert_eq!(disk[1][0], 0b1111);
    assert_eq!(dir.find_inode_id(b"fileb"), Some(3));
    assert_eq!(dir.find_inode_id(b"filec"), None);
    assert_eq!(dir.ls(), vec![b"filea".to_vec(), b"fileb".to_vec()]);
    assert!(table.is_file(3));
    assert_eq!(table.size(3), 0);
    assert_eq!(dir.link_count(3), 1);
}

#[test]
fn create_refuses_an_existing_name() {
    let (mut dir, inodes, mut disk, mut table) = fs();
    assert_eq!(create(&mut dir, &inodes, &mut disk, &mut table, b"filea"), Some(2));
    let before = disk.clone();
    assert_eq!(create(&mut dir, &inodes, &mut disk, &mut table, b"filea"), None);
    assert_eq!(disk, before);
    assert_eq!(dir.len(), 1);
}

#[test]
fn unlink_removes_the_entry_and_clears_the_file() {
    let (mut dir, inodes, mut disk, mut table) = fs();
    create(&mut dir, &inodes, &mut disk, &mut table, b"filea");
    create(&mut dir, &inodes, &mut disk, &mut table, b"fileb");
    unlink(&mut dir, &mut table, b"filea");
    assert_eq!(dir.len(), 1);
    assert_eq!(dir.find_inode_id(b"filea"), None);
    assert_eq!(dir.ls(), vec![b"fileb".to_vec()]);
    assert_eq!(table.size(2), 0);
}

#[test]
fn link_and_unlink_calls() {
    let (mut dir, inodes, mut disk, mut table) = fs();
    create(&mut dir, &inodes, &mut disk, &mut table, b"filea");
    assert_eq!(sys_linkat(&mut dir, &inodes, &mut disk, &mut table, b"filea", b"filea"), -1);
    assert_eq!(sys_linkat(&mut dir, &inodes, &mut disk, &mut table, b"filea", b"114514"), 0);
    assert_eq!(dir.find_inode_id(b"114514"), Some(3));
    assert!(table.is_file(3));
    assert_eq!(sys_unlinkat(&mut dir, &mut table, b"114514"), 0);
    assert_eq!(sys_unlinkat(&mut dir, &mut table, b"114514"), -1);
    assert_eq!(dir.ls(), vec![b"filea".to_vec()]);
}
