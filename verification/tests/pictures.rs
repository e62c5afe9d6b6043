//! Icon files.

use wsltray::icon::{best_entry, load, IconFiles, Kind};

/// An icon file with one image for each width; the bytes of an image repeat
/// the low byte of its width.
fn ico(widths: &[u32]) -> Vec<u8> {
    let mut data = vec![0u8, 0, 1, 0];
    data.extend_from_slice(&(widths.len() as u16).to_le_bytes());
    let mut offset = 6 + 16 * widths.len();
    for &w in widths {
        let len = w as usize * 2;
        data.extend_from_slice(&[w as u8, w as u8, 0, 0, 1, 0, 32, 0]);
        data.extend_from_slice(&(len as u32).to_le_bytes());
        data.extend_from_slice(&(offset as u32).to_le_bytes());
        offset += len;
    }
    for &w in widths {
        data.extend(std::iter::repeat(w as u8).take(w as usize * 2));
    }
    data
}

const SIZES: [u32; 8] = [16, 20, 24, 32, 40, 48, 64, 256];

fn files() -> IconFiles {
    IconFiles { color: ico(&SIZES), mono: ico(&SIZES) }
}

#[test]
fn both_icons_load_at_every_tray_size() {
    let files = files();
    for kind in [Kind::Color, Kind::Mono] {
        for size in [16, 20, 24, 32, 48] {
            let image = load(kind, size, &files).unwrap();
            assert_eq!(image, vec![size as u8; size * 2]);
        }
    }
}

#[test]
fn best_entry_picks_the_closest_size() {
    let color = files().color;
    assert_eq!(best_entry(&color, 16).unwrap().width, 16);
    assert_eq!(best_entry(&color, 24).unwrap().width, 24);
    assert_eq!(best_entry(&color, 256).unwrap().width, 256);
    // 100 is closer to 64 than to 256, and closer sizes should never
    // round up to the huge one.
    assert_eq!(best_entry(&color, 100).unwrap().width, 64);
}

#[test]
fn rejects_a_truncated_file() {
    assert!(best_entry(&files().color[..4], 16).is_err());
}

#[test]
fn each_way_a_file_can_be_broken_has_its_words() {
    let whole = files().color;
    assert_eq!(best_entry(&[], 16).unwrap_err(), "truncated ICO header");
    assert_eq!(best_entry(&whole[..5], 16).unwrap_err(), "truncated ICO header");
    assert_eq!(best_entry(&whole[..6], 16).unwrap_err(), "truncated ICONDIRENTRY");
    assert_eq!(best_entry(&whole[..6 + 16 * 7 + 15], 16).unwrap_err(), "truncated ICONDIRENTRY");
    assert_eq!(best_entry(&ico(&[]), 16).unwrap_err(), "ICO file has no images");
    assert!(best_entry(&whole[..6 + 16 * 8], 16).is_ok());
}

#[test]
fn an_image_outside_the_file_is_an_error() {
    let mut broken = files();
    broken.mono.truncate(6 + 16 * 8 + 31);
    assert_eq!(
        load(Kind::Mono, 16, &broken).unwrap_err(),
        "icon directory entry points outside the file"
    );
    assert!(load(Kind::Color, 16, &broken).is_ok());
}

#[test]
fn the_larger_image_wins_a_tie() {
    assert_eq!(best_entry(&ico(&[16, 24]), 20).unwrap().width, 24);
    assert_eq!(best_entry(&ico(&[24, 16]), 20).unwrap().width, 24);
}

#[test]
fn the_first_of_two_equal_images_is_taken() {
    let data = ico(&[32, 16, 16]);
    let entry = best_entry(&data, 16).unwrap();
    assert_eq!((entry.width, entry.offset, entry.len), (16, 6 + 48 + 64, 32));
}

#[test]
fn a_width_of_zero_means_256() {
    assert_eq!(best_entry(&ico(&[256]), 16).unwrap().width, 256);
    assert_eq!(best_entry(&ico(&[256, 48]), 200).unwrap().width, 256);
}

#[test]
fn a_huge_size_takes_the_largest_image() {
    if usize::BITS == 64 {
        let entry = best_entry(&ico(&[16, 256]), (1u64 << 32) as usize + 16).unwrap();
        assert_eq!(entry.width, 256);
        let e = |w: u8, o: u8| [w, w, 0, 0, 1, 0, 32, 0, 1, 0, 0, 0, o, 0, 0, 0];
        let mut data = vec![0u8, 0, 1, 0, 2, 0];
        data.extend_from_slice(&e(16, 38));
        data.extend_from_slice(&e(0, 39));
        let entry = best_entry(&data, (1u64 << 32) as usize + 16).unwrap();
        assert_eq!((entry.width, entry.offset, entry.len), (256, 39, 1));
    }
    assert_eq!(best_entry(&ico(&[16, 256]), usize::MAX).unwrap().width, 256);
}

#[test]
fn each_kind_has_its_own_file() {
    let files = IconFiles { color: ico(&[16]), mono: ico(&[20]) };
    assert_eq!(Kind::Color.bytes(&files), ico(&[16]));
    assert_eq!(Kind::Mono.bytes(&files), ico(&[20]));
    assert_eq!(load(Kind::Mono, 16, &files).unwrap(), vec![20u8; 40]);
}
