use farol::images::{
    extract_attr, is_image, lqip_from_webp, mime_for, path_to_url, process_bytes, rewrite_images,
    short_hash, ImageMeta,
};

fn tiny_png(w: u32, h: u32) -> Vec<u8> {
    let img = image::RgbaImage::from_pixel(w, h, image::Rgba([200, 40, 40, 255]));
    let mut out = std::io::Cursor::new(Vec::new());
    img.write_to(&mut out, image::ImageFormat::Png).unwrap();
    out.into_inner()
}

fn meta() -> ImageMeta {
    ImageMeta {
        original_url: "/img/logo.abcd.png".into(),
        webp_url: Some("/img/logo.abcd.webp".into()),
        lqip: "data:image/webp;base64,ZZ".into(),
        width: 200,
        height: 100,
        mime: "image/png",
    }
}

#[test]
fn rewrites_img_with_picture() {
    let idx = vec![("img/logo.png".to_string(), meta())];
    let html = r#"<p><img src="./img/logo.png" alt="Logo"></p>"#;
    let out = rewrite_images(html, "index.md", &idx);
    assert!(out.contains("<picture>"));
    assert!(out.contains("/img/logo.abcd.webp"));
    assert!(out.contains(r#"width="200""#));
    assert!(out.contains(r#"alt="Logo""#));
}

#[test]
fn leaves_absolute_urls_alone() {
    let idx = vec![];
    let html = r#"<img src="https://example.com/x.png">"#;
    assert_eq!(rewrite_images(html, "index.md", &idx), html);
    let idx = vec![("x.png".to_string(), meta())];
    assert_eq!(rewrite_images(html, "index.md", &idx), html);
    let rooted = r#"<img src="/x.png">"#;
    assert_eq!(rewrite_images(rooted, "index.md", &idx), rooted);
}

#[test]
fn leaves_unknown_local_paths_alone() {
    let idx = vec![];
    let html = r#"<img src="./missing.png">"#;
    assert_eq!(rewrite_images(html, "index.md", &idx), html);
    let idx = vec![("img/logo.png".to_string(), meta())];
    assert_eq!(rewrite_images(html, "index.md", &idx), html);
}

#[test]
fn picture_markup_is_exact() {
    let mut m = meta();
    m.lqip = String::new();
    m.webp_url = None;
    let idx = vec![("guide/img/a.png".to_string(), m)];
    let html = r#"x<img alt='A "q"' src="../guide/img/a.png">y"#;
    let out = rewrite_images(html, "guide/page.md", &idx);
    assert_eq!(
        out,
        "x<picture><img src=\"/img/logo.abcd.png\" alt=\"A &quot;q&quot;\" loading=\"lazy\" decoding=\"async\" width=\"200\" height=\"100\"></picture>y"
    );
}

#[test]
fn attributes_and_helpers() {
    let tag: Vec<char> = r#"<img src='a.png' alt="b">"#.chars().collect();
    assert_eq!(extract_attr(&tag, "src").map(|v| v.into_iter().collect::<String>()), Some("a.png".to_string()));
    assert_eq!(extract_attr(&tag, "alt").map(|v| v.into_iter().collect::<String>()), Some("b".to_string()));
    assert_eq!(extract_attr(&tag, "title"), None);
    assert!(is_image("a/B.PNG"));
    assert!(!is_image("a/b.svg"));
    assert_eq!(mime_for("jpeg"), "image/jpeg");
    assert_eq!(mime_for("bmp"), "application/octet-stream");
    assert_eq!(short_hash(b"abc"), "ba7816bf");
    assert_eq!(path_to_url("img\\x.png"), "img/x.png");
    assert_eq!(lqip_from_webp(b"hi"), "data:image/webp;base64,aGk=");
}

#[test]
fn undecodable_bytes_keep_only_the_copy() {
    let bytes = b"not an image".to_vec();
    let hash = short_hash(&bytes);
    let (meta, webp) = process_bytes("img/logo.png", &bytes);
    assert_eq!(meta.original_url, format!("/img/logo.{hash}.png"));
    assert_eq!(meta.webp_url, None);
    assert_eq!(meta.lqip, "");
    assert_eq!((meta.width, meta.height), (0, 0));
    assert_eq!(meta.mime, "image/png");
    assert!(webp.is_none());
}

#[test]
fn decoded_png_gets_webp_and_placeholder() {
    let bytes = tiny_png(4, 2);
    let hash = short_hash(&bytes);
    let (meta, webp) = process_bytes("img/dot.PNG", &bytes);
    assert_eq!((meta.width, meta.height), (4, 2));
    assert_eq!(meta.original_url, format!("/img/dot.{hash}.png"));
    assert_eq!(meta.webp_url, Some(format!("/img/dot.{hash}.webp")));
    let (rel, webp_bytes) = webp.expect("webp written");
    assert_eq!(rel, format!("img/dot.{hash}.webp"));
    assert_eq!(&webp_bytes[..4], b"RIFF");
    assert_eq!(&webp_bytes[8..12], b"WEBP");
    assert!(meta.lqip.starts_with("data:image/webp;base64,"));
    assert!(meta.lqip.len() > "data:image/webp;base64,".len());
}

#[test]
fn webp_source_gets_no_second_webp() {
    let img = image::RgbaImage::from_pixel(3, 3, image::Rgba([0, 0, 255, 255]));
    let mut bytes = Vec::new();
    image::codecs::webp::WebPEncoder::new_lossless(&mut bytes)
        .encode(img.as_raw(), 3, 3, image::ExtendedColorType::Rgba8)
        .unwrap();
    let (meta, webp) = process_bytes("pics/blue.webp", &bytes);
    assert_eq!((meta.width, meta.height), (3, 3));
    assert_eq!(meta.webp_url, None);
    assert!(webp.is_none());
    assert_eq!(meta.mime, "image/webp");
    assert!(meta.lqip.starts_with("data:image/webp;base64,"));
}
