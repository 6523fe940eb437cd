use anycms_spa::mime::{classify, extension_of, mime_from_guess};
use anycms_spa::resolver::SpaHandler;
use anycms_spa::store::AssetStore;
use anycms_spa::{SpaConfig, SpaError};

fn sample_store() -> AssetStore {
    let mut store = AssetStore::new();
    store.insert("index.html", b"<html>home</html>".to_vec());
    store.insert("css/style.css", b"body{}".to_vec());
    store.insert("js/app.js", b"run()".to_vec());
    store.insert("README", b"readme".to_vec());
    store
}

#[test]
fn default_config_is_root_with_index_html() {
    let config = SpaConfig::default();
    assert_eq!(config.base_path, "/");
    assert_eq!(config.index_files, vec!["index.html".to_string()]);
}

#[test]
fn config_builders_set_what_they_name() {
    let config = SpaConfig::default().with_base_path("/dashboard");
    assert_eq!(config.base_path, "/dashboard");
    assert_eq!(config.index_files, vec!["index.html".to_string()]);

    let config = config.with_index_files(&["app.html", "index.html"]);
    assert_eq!(config.base_path, "/dashboard");
    assert_eq!(config.index_files, vec!["app.html".to_string(), "index.html".to_string()]);

    let config = config.add_index_file("last.html");
    assert_eq!(
        config.index_files,
        vec!["app.html".to_string(), "index.html".to_string(), "last.html".to_string()]
    );

    let config = config.with_index_files(&[]);
    assert!(config.index_files.is_empty());
}

#[test]
fn config_knows_its_index_documents() {
    let config = SpaConfig::default().with_index_files(&["shell.tpl"]);
    assert!(config.is_index_document("shell.tpl"));
    assert!(config.is_index_document("index.html"));
    assert!(!config.is_index_document("other.html"));
    assert!(!config.is_index_document(""));
}

#[test]
fn store_returns_what_was_inserted_last() {
    let mut store = AssetStore::new();
    assert!(store.get("a").is_none());
    store.insert("a", vec![1]);
    store.insert("b", vec![2, 3]);
    assert_eq!(store.get("a"), Some(&[1u8][..]));
    assert_eq!(store.get("b"), Some(&[2u8, 3][..]));
    store.insert("a", vec![9]);
    assert_eq!(store.get("a"), Some(&[9u8][..]));
    assert_eq!(store.get("b"), Some(&[2u8, 3][..]));
    assert!(store.get("c").is_none());
    assert!(store.get("").is_none());
}

#[test]
fn extension_is_the_text_after_the_last_dot_of_the_name() {
    assert_eq!(extension_of("style.css"), Some("css".to_string()));
    assert_eq!(extension_of("a/b.c/file.tar.gz"), Some("gz".to_string()));
    assert_eq!(extension_of("a.b/file"), None);
    assert_eq!(extension_of(".gitignore"), None);
    assert_eq!(extension_of("dir/.env"), None);
    assert_eq!(extension_of("dir/.env.local"), Some("local".to_string()));
    assert_eq!(extension_of("name."), Some(String::new()));
    assert_eq!(extension_of(""), None);
    assert_eq!(extension_of("dir/"), None);
}

#[test]
fn classification_follows_the_extension_table() {
    let config = SpaConfig::default();
    assert_eq!(classify("style.css", &config).unwrap(), "text/css");
    assert_eq!(classify("img/logo.png", &config).unwrap(), "image/png");
    assert_eq!(classify("PAGE.HTML", &config).unwrap(), "text/html");
    assert!(matches!(classify("README", &config), Err(SpaError::MimeDetection)));
    assert!(matches!(classify("file.", &config), Err(SpaError::MimeDetection)));
    assert!(matches!(classify("file.no-such-extension", &config), Err(SpaError::MimeDetection)));
}

#[test]
fn classification_of_index_documents_is_html() {
    let config = SpaConfig::default().with_index_files(&["shell.css", "entry"]);
    assert_eq!(classify("shell.css", &config).unwrap(), "text/html");
    assert_eq!(classify("entry", &config).unwrap(), "text/html");
    assert_eq!(classify("index.html", &config).unwrap(), "text/html");
    assert_eq!(classify("other.css", &config).unwrap(), "text/css");
}

#[test]
fn a_guess_becomes_the_classification() {
    assert_eq!(mime_from_guess(Some("text/css")).unwrap(), "text/css");
    assert!(matches!(mime_from_guess(None), Err(SpaError::MimeDetection)));
}

#[test]
fn resolves_an_asset_with_its_mime_type() {
    let handler = SpaHandler::new(SpaConfig::default(), sample_store());
    let (bytes, mime) = handler.get_file("/css/style.css").unwrap();
    assert_eq!(bytes, b"body{}");
    assert_eq!(mime, "text/css");
    let (bytes, mime) = handler.get_file("style.css/../css//style.css").unwrap();
    assert_eq!(bytes, b"body{}");
    assert_eq!(mime, "text/css");
}

#[test]
fn resolves_the_mount_point_to_the_index_document() {
    let config = SpaConfig::default().with_base_path("/dashboard");
    let handler = SpaHandler::new(config, sample_store());
    for path in ["/dashboard", "/dashboard/", "/dashboard/index.html"] {
        let (bytes, mime) = handler.get_file(path).unwrap();
        assert_eq!(bytes, b"<html>home</html>");
        assert_eq!(mime, "text/html");
    }
    let (bytes, mime) = handler.get_file("/dashboard/js/app.js").unwrap();
    assert_eq!(bytes, b"run()");
    assert_eq!(mime, "text/javascript");
}

#[test]
fn unknown_paths_fall_back_to_the_first_index_document() {
    let mut store = AssetStore::new();
    store.insert("app.html", b"<html>app</html>".to_vec());
    let config = SpaConfig::default().with_index_files(&["app.html", "index.html"]);
    let handler = SpaHandler::new(config, store);
    for path in ["/", "/users/42", "/no/such/file.css", "deep/../route", ""] {
        let (bytes, mime) = handler.get_file(path).unwrap();
        assert_eq!(bytes, b"<html>app</html>");
        assert_eq!(mime, "text/html");
    }
}

#[test]
fn fallback_follows_the_configured_order() {
    let mut store = AssetStore::new();
    store.insert("second.html", b"2".to_vec());
    store.insert("third.html", b"3".to_vec());
    store.insert("index.html", b"i".to_vec());
    let config =
        SpaConfig::default().with_index_files(&["first.html", "second.html", "third.html"]);
    let handler = SpaHandler::new(config, store);
    let (bytes, mime) = handler.get_file("/route").unwrap();
    assert_eq!(bytes, b"2");
    assert_eq!(mime, "text/html");
}

#[test]
fn fallback_ends_with_index_html() {
    let mut store = AssetStore::new();
    store.insert("index.html", b"i".to_vec());
    let config = SpaConfig::default().with_index_files(&["app.html"]);
    let handler = SpaHandler::new(config, store);
    let (bytes, mime) = handler.get_file("/route").unwrap();
    assert_eq!(bytes, b"i");
    assert_eq!(mime, "text/html");

    let handler = SpaHandler::new(SpaConfig::default().with_index_files(&[]), sample_store());
    let (bytes, mime) = handler.get_file("/route").unwrap();
    assert_eq!(bytes, b"<html>home</html>");
    assert_eq!(mime, "text/html");
}

#[test]
fn an_index_document_is_html_whatever_its_name() {
    let mut store = AssetStore::new();
    store.insert("shell.css", b"<html>shell</html>".to_vec());
    store.insert("plain.css", b"p{}".to_vec());
    let config = SpaConfig::default().with_index_files(&["shell.css"]);
    let handler = SpaHandler::new(config, store);
    // Asked for by name.
    let (bytes, mime) = handler.get_file("/shell.css").unwrap();
    assert_eq!(bytes, b"<html>shell</html>");
    assert_eq!(mime, "text/html");
    // Served in place of a route.
    let (bytes, mime) = handler.get_file("/some/route").unwrap();
    assert_eq!(bytes, b"<html>shell</html>");
    assert_eq!(mime, "text/html");
    // Any other asset goes by its extension.
    let (_, mime) = handler.get_file("/plain.css").unwrap();
    assert_eq!(mime, "text/css");
}

#[test]
fn empty_store_fails_with_index_file_not_found() {
    let handler = SpaHandler::new(SpaConfig::default(), AssetStore::new());
    for path in ["/", "/index.html", "/a/b.css", ""] {
        assert!(matches!(handler.get_file(path), Err(SpaError::IndexFileNotFound)));
    }
    let config = SpaConfig::default().with_index_files(&["app.html", "index.html"]);
    let handler = SpaHandler::new(config, AssetStore::new());
    assert!(matches!(handler.get_file("/x"), Err(SpaError::IndexFileNotFound)));
}

#[test]
fn an_asset_without_a_known_type_is_not_served() {
    let handler = SpaHandler::new(SpaConfig::default(), sample_store());
    assert!(matches!(handler.get_file("/README"), Err(SpaError::MimeDetection)));
}

#[test]
fn a_rejected_path_is_a_path_error() {
    let handler = SpaHandler::new(SpaConfig::default(), sample_store());
    assert!(matches!(
        handler.get_file("/a..b/index.html"),
        Err(SpaError::PathError(anycms_spa::path::PathError::PathTraversal))
    ));
    let handler = SpaHandler::new(SpaConfig::default(), AssetStore::new());
    assert!(matches!(handler.get_file("/..."), Err(SpaError::PathError(_))));
}

#[test]
fn traversal_never_leaves_the_store() {
    let handler = SpaHandler::new(SpaConfig::default(), sample_store());
    let (bytes, mime) = handler.get_file("/../../css/style.css").unwrap();
    assert_eq!(bytes, b"body{}");
    assert_eq!(mime, "text/css");
    let (bytes, _) = handler.get_file("/css/../../../etc/passwd").unwrap();
    assert_eq!(bytes, b"<html>home</html>");
}

#[test]
fn handle_serves_what_get_file_serves() {
    let config = SpaConfig::default().with_base_path("/app");
    let handler = SpaHandler::new(config, sample_store());
    for path in ["//app///css//style.css", "/app//", "/app/missing//route", "/app/README", "/a..b"] {
        let handled = handler.handle(path).map_err(|e| e.message());
        let resolved = handler.get_file(path).map_err(|e| e.message());
        assert_eq!(handled, resolved);
    }
    let (bytes, mime) = handler.handle("//app///css//style.css").unwrap();
    assert_eq!(bytes, b"body{}");
    assert_eq!(mime, "text/css");
}

#[test]
fn repeated_resolutions_agree() {
    let config = SpaConfig::default().with_index_files(&["app.html", "index.html"]);
    let handler = SpaHandler::new(config, sample_store());
    let paths = ["/", "/css/style.css", "/js/app.js", "/nowhere", "/README", "/x..y"];
    let first: Vec<_> = paths
        .iter()
        .map(|p| handler.get_file(p).map(|(b, m)| (b.to_vec(), m)).map_err(|e| e.message()))
        .collect();
    for _ in 0..3 {
        let again: Vec<_> = paths
            .iter()
            .map(|p| handler.get_file(p).map(|(b, m)| (b.to_vec(), m)).map_err(|e| e.message()))
            .collect();
        assert_eq!(first, again);
    }
}

#[test]
fn error_messages() {
    assert_eq!(SpaError::NotFound("x.png".to_string()).message(), "Resource not found: x.png");
    assert_eq!(SpaError::MimeDetection.message(), "MIME type detection failed");
    assert_eq!(SpaError::IndexFileNotFound.message(), "Index file not found");
    let wrapped = SpaError::from(anycms_spa::path::PathError::PathTraversal);
    assert!(matches!(wrapped, SpaError::PathError(anycms_spa::path::PathError::PathTraversal)));
    assert_eq!(wrapped.message(), "Path error: Path traversal attempt detected");
}

fn shareable<T: Send + Sync>() {}

#[test]
fn handler_can_be_shared_between_workers() {
    shareable::<SpaHandler>();
    shareable::<SpaConfig>();
    shareable::<AssetStore>();
}
