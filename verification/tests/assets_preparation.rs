use md_editor::assets::{
    asset_file_name, ext_from_mime, prepare_image_asset, sanitize_stem,
};
use md_editor::errors::AppErrorCode;

const ONE_PIXEL_PNG: &str =
    "iVBORw0KGgoAAAANSUhEUgAAAAEAAAABCAQAAAC1HAwCAAAAC0lEQVR42mP8/w8AAgMBgNf2N7kAAAAASUVORK5CYII=";

#[test]
fn sanitizes_preferred_stems() {
    assert_eq!(sanitize_stem("My Shot (1).png"), "my-shot-1png");
    assert_eq!(sanitize_stem("Clean_name-1"), "clean_name-1");
    assert_eq!(sanitize_stem("   "), "image");
    assert_eq!(sanitize_stem("---"), "image");
    assert_eq!(sanitize_stem("Ünïcode"), "ncode");
}

#[test]
fn picks_extensions_from_mime_types() {
    assert_eq!(ext_from_mime("image/png"), Some("png"));
    assert_eq!(ext_from_mime("IMAGE/JPEG"), Some("jpg"));
    assert_eq!(ext_from_mime("image/jpg"), Some("jpg"));
    assert_eq!(ext_from_mime("image/svg+xml"), Some("svg"));
    assert_eq!(ext_from_mime("text/plain"), None);
}

#[test]
fn builds_candidate_asset_names() {
    assert_eq!(asset_file_name("shot", 1700, None, "png"), "shot-1700.png");
    assert_eq!(asset_file_name("shot", 1700, Some(2), "png"), "shot-1700-2.png");
}

#[test]
fn decodes_pasted_images() {
    let prepared = prepare_image_asset("clip.png", "image/png", ONE_PIXEL_PNG)
        .expect("decode should succeed");
    // Genuinely decoded: the bytes start with the PNG signature.
    assert_eq!(&prepared.bytes[..4], &[0x89u8, 0x50, 0x4E, 0x47]);
    assert_eq!(prepared.extension, "png");
    assert_eq!(prepared.stem, "clip");
}

#[test]
fn strips_data_url_prefixes_before_decoding() {
    let data_url = format!("data:image/png;base64,{}", ONE_PIXEL_PNG);
    let prepared = prepare_image_asset("", "image/png", &data_url).expect("decode data url");
    assert_eq!(&prepared.bytes[..4], &[0x89u8, 0x50, 0x4E, 0x47]);
    // A blank file name falls back to the fixed stem.
    assert_eq!(prepared.stem, "image");
}

#[test]
fn refuses_undecodable_payloads() {
    let error = prepare_image_asset("x.png", "image/png", "!!!not-base64!!!")
        .expect_err("invalid base64");
    assert_eq!(error.code, AppErrorCode::Io);
}

#[test]
fn falls_back_to_the_file_names_extension() {
    let prepared = prepare_image_asset("shot.JPG", "application/octet-stream", ONE_PIXEL_PNG)
        .expect("decode");
    assert_eq!(prepared.extension, "jpg");
    assert_eq!(prepared.stem, "shot");
    let prepared = prepare_image_asset("bare", "application/octet-stream", ONE_PIXEL_PNG)
        .expect("decode");
    assert_eq!(prepared.extension, "png");
    assert_eq!(prepared.stem, "bare");
}
