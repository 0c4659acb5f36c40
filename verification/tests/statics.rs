use oneshare::statics::{
    asset_etag, asset_for, asset_reply, bundle_files, embed_asset, static_version, AssetReply,
    EmbeddedFile,
};

const SHA256_EMPTY: &str = "e3b0c44298fc1c149afbf4c8996fb92427ae41e4649b934ca495991b7852b855";
const SHA256_ABC: &str = "ba7816bf8f01cfea414140de5dae2223b00361a396177a9cb410ff61f20015ad";

#[test]
fn etags_are_the_quoted_sha256_of_the_body() {
    assert_eq!(asset_etag(b""), format!("\"{SHA256_EMPTY}\""));
    assert_eq!(asset_etag(b"abc"), format!("\"{SHA256_ABC}\""));
}

#[test]
fn the_bundle_version_hashes_every_file_in_order() {
    let parts = vec![b"a".to_vec(), b"".to_vec(), b"bc".to_vec()];
    assert_eq!(static_version(Some(&parts)), SHA256_ABC);
    assert_eq!(static_version(Some(&vec![])), SHA256_EMPTY);
    assert_eq!(static_version(None), "");
    let files = bundle_files();
    assert_eq!(files.len(), 11);
    assert_eq!(files[0], EmbeddedFile::IndexHtml);
    assert_eq!(files[10], EmbeddedFile::LibfwClientWasm);
}

#[test]
fn the_asset_table_covers_the_embedded_paths() {
    for p in ["/", "/index.html"] {
        let e = asset_for(p).unwrap();
        assert_eq!(e.file, EmbeddedFile::IndexHtml);
        assert_eq!(e.content_type, "text/html; charset=utf-8");
        assert!(e.html);
    }
    let css = asset_for("/css/main.css").unwrap();
    assert_eq!((css.file, css.content_type.as_str(), css.html), (EmbeddedFile::MainCss, "text/css; charset=utf-8", false));
    let js = asset_for("/js/file-explorer.js").unwrap();
    assert_eq!(js.file, EmbeddedFile::FileExplorerJs);
    assert_eq!(js.content_type, "application/javascript; charset=utf-8");
    let wasm = asset_for("/vendor/libfw_client_bg.wasm").unwrap();
    assert_eq!((wasm.file, wasm.content_type.as_str()), (EmbeddedFile::LibfwClientWasm, "application/wasm"));
    assert!(asset_for("/config.js").is_none());
    assert!(asset_for("/js/missing.js").is_none());
    assert!(asset_for("js/app.js").is_none());
}

#[test]
fn embedded_pages_are_versioned_and_tagged_by_their_served_body() {
    let page = br#"<script src="js/app.js"></script>"#.to_vec();
    let a = embed_asset(asset_for("/").unwrap(), page, "v1");
    assert_eq!(a.body, br#"<script src="js/app.js?v=v1"></script>"#.to_vec());
    assert_eq!(a.etag, asset_etag(&a.body));
    assert!(a.html);
    let js = embed_asset(asset_for("/js/app.js").unwrap(), b"abc".to_vec(), "v1");
    assert_eq!(js.body, b"abc".to_vec());
    assert_eq!(js.etag, format!("\"{SHA256_ABC}\""));
}

#[test]
fn conditional_gets_and_cache_policy() {
    let tag = format!("\"{SHA256_ABC}\"");
    assert!(matches!(asset_reply(false, &tag, Some(&tag)), AssetReply::NotModified));
    assert!(matches!(asset_reply(true, &tag, Some(&tag)), AssetReply::NotModified));
    match asset_reply(false, &tag, Some("\"other\"")) {
        AssetReply::Serve { cache_control } => assert_eq!(cache_control, "public, max-age=31536000, immutable"),
        _ => panic!("expected a body"),
    }
    match asset_reply(true, &tag, None) {
        AssetReply::Serve { cache_control } => assert_eq!(cache_control, "no-cache, must-revalidate"),
        _ => panic!("expected a body"),
    }
}
