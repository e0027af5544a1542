use gbafix::apply::{contains_pad, title_from_file_name};
use gbafix::header::{
    CHECKSUM_OFFSET, GAME_CODE_OFFSET, LOGO_OFFSET, MAKER_CODE_OFFSET, TITLE_OFFSET,
    VERSION_OFFSET,
};
use gbafix::{apply_patches, PatchOp, HEADER_SIZE};

fn image(len: usize) -> Vec<u8> {
    (0..len).map(|i| (i * 31 + 5) as u8).collect()
}

fn expected_checksum(buf: &[u8]) -> u8 {
    let sum = buf[LOGO_OFFSET..CHECKSUM_OFFSET]
        .iter()
        .fold(0u8, |acc, &b| acc.wrapping_add(b));
    0u8.wrapping_sub(0x19).wrapping_sub(sum)
}

#[test]
fn title_derived_from_file_name() {
    let mut buf = image(HEADER_SIZE);
    apply_patches(&[PatchOp::Title(None)], &mut buf, "mygame.gba");
    assert_eq!(&buf[TITLE_OFFSET..TITLE_OFFSET + 12], b"mygame\0\0\0\0\0\0");
    assert_eq!(buf[CHECKSUM_OFFSET], expected_checksum(&buf));
}

#[test]
fn derived_titles() {
    assert_eq!(&title_from_file_name(b"mygame.gba"), b"mygame\0\0\0\0\0\0");
    assert_eq!(&title_from_file_name(b"roms/dir/mygame.gba"), b"mygame\0\0\0\0\0\0");
    assert_eq!(&title_from_file_name(b"averyverylongname.gba"), b"averyverylon");
    assert_eq!(&title_from_file_name(b"some.game.gba"), b"some.game\0\0\0");
    assert_eq!(&title_from_file_name(b".hidden"), b".hidden\0\0\0\0\0");
    assert_eq!(&title_from_file_name(b"noext"), b"noext\0\0\0\0\0\0\0");
    assert_eq!(&title_from_file_name(b""), &[0u8; 12]);
}

#[test]
fn later_version_wins() {
    let mut buf = image(HEADER_SIZE);
    apply_patches(&[PatchOp::Version(1), PatchOp::Version(2)], &mut buf, "a.gba");
    assert_eq!(buf[VERSION_OFFSET], 2);
    assert_eq!(buf[CHECKSUM_OFFSET], expected_checksum(&buf));
    let mut once = image(HEADER_SIZE);
    apply_patches(&[PatchOp::Version(2)], &mut once, "a.gba");
    assert_eq!(buf, once);
}

#[test]
fn pad_maker_code_version_scenario() {
    let mut buf = image(1000);
    let orig = buf.clone();
    let ops = [PatchOp::Pad, PatchOp::MakerCode(*b"AB"), PatchOp::Version(5)];
    apply_patches(&ops, &mut buf, "game.gba");
    assert_eq!(buf.len(), 1024);
    assert!(buf[1000..].iter().all(|&b| b == 0));
    assert_eq!(&buf[MAKER_CODE_OFFSET..MAKER_CODE_OFFSET + 2], b"AB");
    assert_eq!(buf[VERSION_OFFSET], 5);
    assert_eq!(buf[CHECKSUM_OFFSET], expected_checksum(&buf));
    assert_eq!(&buf[HEADER_SIZE..1000], &orig[HEADER_SIZE..]);
}

#[test]
fn empty_operation_list_still_fixes_checksum() {
    let mut buf = image(500);
    let orig = buf.clone();
    apply_patches(&[], &mut buf, "x.gba");
    assert_eq!(buf.len(), 500);
    assert_eq!(buf[CHECKSUM_OFFSET], expected_checksum(&orig));
    for i in 0..500 {
        if i != CHECKSUM_OFFSET {
            assert_eq!(buf[i], orig[i]);
        }
    }
}

#[test]
fn no_padding_without_pad_operation() {
    let mut buf = image(1000);
    apply_patches(&[PatchOp::GameCode(*b"WXYZ")], &mut buf, "x.gba");
    assert_eq!(buf.len(), 1000);
    assert_eq!(&buf[GAME_CODE_OFFSET..GAME_CODE_OFFSET + 4], b"WXYZ");
}

#[test]
fn explicit_title_and_debug() {
    let mut buf = image(HEADER_SIZE);
    let ops = [PatchOp::Title(Some(*b"TITLE\0\0\0\0\0\0\0")), PatchOp::Debug(true)];
    apply_patches(&ops, &mut buf, "ignored.gba");
    assert_eq!(&buf[TITLE_OFFSET..TITLE_OFFSET + 12], b"TITLE\0\0\0\0\0\0\0");
    assert_eq!(buf[0x9C] & 0x84, 0x84);
    assert_eq!(buf[0xB4] & 0x80, 0x80);
    assert_eq!(buf[CHECKSUM_OFFSET], expected_checksum(&buf));
}

#[test]
fn pad_detection() {
    assert!(!contains_pad(&[]));
    assert!(!contains_pad(&[PatchOp::Version(1), PatchOp::Debug(false)]));
    assert!(contains_pad(&[PatchOp::Version(1), PatchOp::Pad]));
}
