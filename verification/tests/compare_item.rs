use sharpr::compare::{compare_asset_format, compare_output_title};

#[test]
fn compare_output_title_uses_plain_output_for_png() {
    assert_eq!(compare_output_title("/tmp/example.png"), "Output");
    assert_eq!(compare_output_title("/tmp/example.jxl"), "Compressed Output");
}

#[test]
fn compare_asset_format_normalizes_common_extensions() {
    assert_eq!(compare_asset_format("/tmp/example.jpg"), "JPEG");
    assert_eq!(compare_asset_format("/tmp/example.jxl"), "JPEG XL");
    assert_eq!(compare_asset_format("/tmp/example.webp"), "WebP");
}
