use static_server::content::{extension_of, not_found_path, resolve, ContentType};

#[test]
fn media_types() {
    assert_eq!(ContentType::Html.as_str(), "text/html");
    assert_eq!(ContentType::Css.as_str(), "text/css");
    assert_eq!(ContentType::Js.as_str(), "application/javascript");
    assert_eq!(ContentType::Png.as_str(), "image/png");
    assert_eq!(ContentType::Jpg.as_str(), "image/jpeg");
    assert_eq!(ContentType::Ico.as_str(), "image/x-icon");
}

#[test]
fn image_kinds() {
    assert!(ContentType::Png.is_image());
    assert!(ContentType::Jpg.is_image());
    assert!(ContentType::Ico.is_image());
    assert!(!ContentType::Html.is_image());
    assert!(!ContentType::Css.is_image());
    assert!(!ContentType::Js.is_image());
}

#[test]
fn kinds_by_extension() {
    assert_eq!(ContentType::from_extension(b"html"), Some(ContentType::Html));
    assert_eq!(ContentType::from_extension(b"css"), Some(ContentType::Css));
    assert_eq!(ContentType::from_extension(b"js"), Some(ContentType::Js));
    assert_eq!(ContentType::from_extension(b"png"), Some(ContentType::Png));
    assert_eq!(ContentType::from_extension(b"jpg"), Some(ContentType::Jpg));
    assert_eq!(ContentType::from_extension(b"ico"), Some(ContentType::Ico));
    for unknown in [&b""[..], b"htm", b"jpeg", b"PNG", b"txt", b"html ", b".png", b"min.js"] {
        assert_eq!(ContentType::from_extension(unknown), None);
    }
}

#[test]
fn extension_is_what_follows_the_last_dot_of_the_final_segment() {
    assert_eq!(extension_of(b"index.html"), Some(&b"html"[..]));
    assert_eq!(extension_of(b"a/b/c.png"), Some(&b"png"[..]));
    assert_eq!(extension_of(b"jquery.min.js"), Some(&b"js"[..]));
    assert_eq!(extension_of(b"v1.2/readme"), None);
    assert_eq!(extension_of(b"v1.2/"), None);
    assert_eq!(extension_of(b"noext"), None);
    assert_eq!(extension_of(b""), None);
    assert_eq!(extension_of(b"trailing."), Some(&b""[..]));
    assert_eq!(extension_of(b".png"), Some(&b"png"[..]));
    assert_eq!(extension_of(b"dir.d/.hidden"), Some(&b"hidden"[..]));
}

#[test]
fn kinds_by_path() {
    assert_eq!(ContentType::of_path(b"index.html"), Some(ContentType::Html));
    assert_eq!(ContentType::of_path(b"404.html"), Some(ContentType::Html));
    assert_eq!(ContentType::of_path(b"img/logo.png"), Some(ContentType::Png));
    assert_eq!(ContentType::of_path(b"jquery.min.js"), Some(ContentType::Js));
    assert_eq!(ContentType::of_path(b"favicon.ico"), Some(ContentType::Ico));
    assert_eq!(ContentType::of_path(b"photo.jpg"), Some(ContentType::Jpg));
    assert_eq!(ContentType::of_path(b"photo.jpeg"), None);
    assert_eq!(ContentType::of_path(b"a.png/b"), None);
    assert_eq!(ContentType::of_path(b"README"), None);
}

#[test]
fn root_resolves_to_the_default_document() {
    assert_eq!(resolve(b"/"), b"index.html".to_vec());
}

#[test]
fn other_paths_lose_their_leading_separator() {
    assert_eq!(resolve(b"/style.css"), b"style.css".to_vec());
    assert_eq!(resolve(b"/a/b/c.png"), b"a/b/c.png".to_vec());
    assert_eq!(resolve(b"//"), b"/".to_vec());
    assert_eq!(resolve(b"/index.html"), b"index.html".to_vec());
    assert_eq!(resolve(b"/with?query=1"), b"with?query=1".to_vec());
}

#[test]
fn paths_without_leading_separator_stay() {
    assert_eq!(resolve(b"style.css"), b"style.css".to_vec());
    assert_eq!(resolve(b"*"), b"*".to_vec());
    assert_eq!(resolve(b""), Vec::<u8>::new());
}

#[test]
fn not_found_document_name() {
    assert_eq!(not_found_path(), b"404.html".to_vec());
}
