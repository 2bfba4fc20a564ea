use bmap_parser::append;
use bmap_parser::extension_split;

#[test]
fn append_map_suffix() {
    assert_eq!("disk.img.bmap", append(String::from("disk.img")));
    assert_eq!("disk.bmap", append(String::from("disk")));
    assert_eq!(".bmap", append(String::new()));
}

#[test]
fn extension_split_points_at_the_last_dot() {
    assert_eq!(Some(8), extension_split("disk.img.gz"));
    assert_eq!(Some(4), extension_split("disk.img"));
    assert_eq!(None, extension_split("disk"));
    assert_eq!(None, extension_split(".bashrc"));
    assert_eq!(None, extension_split("a/.hidden"));
    assert_eq!(Some(8), extension_split("a.b/disk.img"));
    assert_eq!(None, extension_split("a.b/disk"));
}
