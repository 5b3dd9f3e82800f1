use sharpr::image_ops::{
    apply_transform, baked_pixel_tags, edit_encoding, edit_extension, edit_target, edit_transform_of,
    requires_jpeg_reencode_warning, rgba_to_rgb, temp_save_attempts, temp_save_path, EditEncoding,
    EditOutcome, EditTransform,
};
use std::path::Path;

const A: [u8; 4] = [1, 2, 3, 4];
const B: [u8; 4] = [5, 6, 7, 8];
const C: [u8; 4] = [9, 10, 11, 12];
const D: [u8; 4] = [13, 14, 15, 16];

fn pixels(ps: &[[u8; 4]]) -> Vec<u8> {
    ps.iter().flat_map(|p| p.iter().copied()).collect()
}

fn transformed(op: &str, rgba: Vec<u8>, w: u32, h: u32) -> (Vec<u8>, u32, u32) {
    match apply_transform(op, rgba, w, h) {
        EditOutcome::Transformed { rgba, width, height } => (rgba, width, height),
        other => panic!("expected a transformed image, got {other:?}"),
    }
}

#[test]
fn jpeg_edits_need_a_warning() {
    assert!(requires_jpeg_reencode_warning("/photos/cat.JPG"));
    assert!(requires_jpeg_reencode_warning("/photos/cat.jpeg"));
    assert!(!requires_jpeg_reencode_warning("/photos/cat.png"));
    assert!(!requires_jpeg_reencode_warning("/photos/jpg"));
    assert!(!requires_jpeg_reencode_warning(Path::new("/photos/.jpg").to_str().unwrap()));
}

#[test]
fn edits_by_name() {
    assert_eq!(edit_transform_of("rotate-cw"), Some(EditTransform::RotateCw));
    assert_eq!(edit_transform_of("rotate-ccw"), Some(EditTransform::RotateCcw));
    assert_eq!(edit_transform_of("flip-h"), Some(EditTransform::FlipHorizontal));
    assert_eq!(edit_transform_of("flip-v"), Some(EditTransform::FlipVertical));
    assert_eq!(edit_transform_of("crop"), None);
}

#[test]
fn rotations_move_pixels() {
    let square = pixels(&[A, B, C, D]);
    assert_eq!(transformed("rotate-cw", square.clone(), 2, 2), (pixels(&[C, A, D, B]), 2, 2));
    assert_eq!(transformed("rotate-ccw", square.clone(), 2, 2), (pixels(&[B, D, A, C]), 2, 2));
    let row = pixels(&[A, B, C]);
    assert_eq!(transformed("rotate-cw", row.clone(), 3, 1), (pixels(&[A, B, C]), 1, 3));
    assert_eq!(transformed("rotate-ccw", row, 3, 1), (pixels(&[C, B, A]), 1, 3));
}

#[test]
fn flips_mirror_pixels() {
    let square = pixels(&[A, B, C, D]);
    assert_eq!(transformed("flip-h", square.clone(), 2, 2), (pixels(&[B, A, D, C]), 2, 2));
    assert_eq!(transformed("flip-v", square, 2, 2), (pixels(&[C, D, A, B]), 2, 2));
}

#[test]
fn turning_back_and_flipping_twice_restore_the_image() {
    let img = pixels(&[A, B, C, D, A, C]);
    let (cw, w, h) = transformed("rotate-cw", img.clone(), 3, 2);
    assert_eq!((w, h), (2, 3));
    assert_eq!(transformed("rotate-ccw", cw, w, h), (img.clone(), 3, 2));
    let (f, w, h) = transformed("flip-h", img.clone(), 3, 2);
    assert_eq!(transformed("flip-h", f, w, h), (img.clone(), 3, 2));
    let (f, w, h) = transformed("flip-v", img.clone(), 3, 2);
    assert_eq!(transformed("flip-v", f, w, h), (img, 3, 2));
}

#[test]
fn edits_that_leave_or_drop_the_pixels() {
    let square = pixels(&[A, B, C, D]);
    match apply_transform("blur", square.clone(), 2, 2) {
        EditOutcome::Unchanged { rgba, width, height } => {
            assert_eq!((rgba, width, height), (square.clone(), 2, 2));
        }
        other => panic!("unexpected {other:?}"),
    }
    match apply_transform("rotate-cw", square.clone(), 0, 2) {
        EditOutcome::Unchanged { rgba, width, height } => {
            assert_eq!((rgba, width, height), (square.clone(), 0, 2));
        }
        other => panic!("unexpected {other:?}"),
    }
    assert!(matches!(apply_transform("rotate-cw", pixels(&[A, B]), 2, 2), EditOutcome::Dropped));
}

#[test]
fn where_and_how_an_edit_is_saved() {
    assert_eq!(edit_encoding("/p/cat.JPEG"), Some(EditEncoding::Jpeg));
    assert_eq!(edit_encoding("/p/cat.jpg"), Some(EditEncoding::Jpeg));
    assert_eq!(edit_encoding("/p/cat.png"), Some(EditEncoding::Png));
    assert_eq!(edit_encoding("/p/cat.gif"), Some(EditEncoding::Gif));
    assert_eq!(edit_encoding("/p/cat.WebP"), Some(EditEncoding::WebP));
    assert_eq!(edit_encoding("/p/cat.tif"), Some(EditEncoding::Tiff));
    assert_eq!(edit_encoding("/p/cat.bmp"), Some(EditEncoding::Bmp));
    assert_eq!(edit_encoding("/p/cat.heic"), None);
    assert_eq!(edit_encoding("/p/cat"), None);
    assert_eq!(edit_target("/p/cat.gif"), (EditEncoding::Gif, "/p/cat.gif".to_string()));
    assert_eq!(edit_target("/p/cat.JPG"), (EditEncoding::Jpeg, "/p/cat.JPG".to_string()));
    assert_eq!(edit_target("/p/cat.heic"), (EditEncoding::Png, "/p/cat.png".to_string()));
    assert_eq!(edit_target("/p/cat.ico"), (EditEncoding::Png, "/p/cat.png".to_string()));
    assert_eq!(edit_target("/p/cat"), (EditEncoding::Png, "/p/cat.png".to_string()));
}

#[test]
fn alpha_is_dropped_for_jpeg() {
    assert_eq!(rgba_to_rgb(&pixels(&[A, B])), vec![1, 2, 3, 5, 6, 7]);
    assert_eq!(rgba_to_rgb(&[1, 2, 3, 4, 5, 6]), vec![1, 2, 3]);
    assert_eq!(rgba_to_rgb(&[]), Vec::<u8>::new());
}

#[test]
fn temporary_save_files() {
    assert_eq!(temp_save_path("/p/cat.png", 42, 3), "/p/.cat.png.sharpr-save-42-3.tmp");
    assert_eq!(temp_save_path("/", 1, 0), "./.image.sharpr-save-1-0.tmp");
    assert_eq!(temp_save_attempts(), 1000);
}

#[test]
fn size_tags_of_saved_jpegs() {
    let tags = baked_pixel_tags(640, 480);
    assert_eq!(
        tags,
        vec![
            ("Exif.Photo.PixelXDimension", "640".to_string()),
            ("Exif.Photo.PixelYDimension", "480".to_string()),
            ("Exif.Image.ImageWidth", "640".to_string()),
            ("Exif.Image.ImageLength", "480".to_string()),
        ]
    );
}

#[test]
fn edited_file_extension_is_lowercased() {
    assert_eq!(edit_extension("/p/Cat.JPG"), "jpg");
    assert_eq!(edit_extension("/p/cat.tar.PNG"), "png");
    assert_eq!(edit_extension("/p/cat"), "");
    assert_eq!(edit_extension("/p/.hidden"), "");
}

#[test]
fn four_quarter_turns_give_the_image_back() {
    let start = pixels(&[A, B, C, D, A, C]);
    let (mut px, mut w, mut h) = (start.clone(), 3u32, 2u32);
    for _ in 0..4 {
        let next = transformed("rotate-cw", px, w, h);
        px = next.0;
        w = next.1;
        h = next.2;
    }
    assert_eq!((px, w, h), (start, 3, 2));
}
