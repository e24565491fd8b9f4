use media_indexer::data::{ImagePathResult, ImageReference, ImageReferenceEmbedding, SearchParams};
use media_indexer::media_paths::{chars_of, is_media_path, replace_all, resolve_reference_paths, to_media_path};
use media_indexer::server_arguments::ServerArguments;

#[test]
fn image_reference_is_keyed_by_the_encoded_path() {
    let reference = ImageReference::new("media/holiday 2024/a&b.jpg".to_string());
    assert_eq!(reference.id, "media%2Fholiday%202024%2Fa%26b.jpg");
    assert_eq!(reference.image_path, "media/holiday 2024/a&b.jpg");
}

#[test]
fn unreserved_characters_stand_for_themselves() {
    let plain = "AZaz09-._~";
    assert_eq!(ImageReference::new(plain.to_string()).id, plain);
    assert_eq!(ImageReference::new(String::new()).id, "");
}

#[test]
fn other_bytes_are_encoded_with_upper_case_digits() {
    assert_eq!(ImageReference::new("ü/€".to_string()).id, "%C3%BC%2F%E2%82%AC");
    assert_eq!(ImageReference::new("%\u{7f}\u{0}".to_string()).id, "%25%7F%00");
    assert_eq!(ImageReference::new("a+b=c".to_string()).id, "a%2Bb%3Dc");
}

#[test]
fn image_reference_embedding_keeps_its_embedding() {
    let reference = ImageReferenceEmbedding::new("/a b.jpg".to_string(), vec![1, -2, 3]);
    assert_eq!(reference.id, "%2Fa%20b.jpg");
    assert_eq!(reference.image_path, "/a b.jpg");
    assert_eq!(reference.embedding, vec![1, -2, 3]);
}

#[test]
fn search_params_carry_text_and_references() {
    let params = SearchParams { q: "cat".to_string(), referenced_images: vec![] };
    assert_eq!(params.q, "cat");
    assert!(params.referenced_images.is_empty());
    let row = ImagePathResult { image_path: "/a.jpg".to_string() };
    assert_eq!(row.image_path, "/a.jpg");
}

#[test]
fn default_arguments_are_the_documented_ones() {
    let arguments = ServerArguments::default();
    assert_eq!(arguments.clip_model_weights, "./models/vision_model.bpk");
    assert_eq!(arguments.arcface_model_weights, "./models/arcface_model.bpk");
    assert_eq!(arguments.yolo_model_weights, "./models/yolo.bpk");
    assert_eq!(arguments.media_dir, "~/Pictures");
    assert_eq!(arguments.image_chunk_size, 500);
    assert_eq!(arguments.addr, "127.0.0.1");
    assert_eq!(arguments.port, 3000);
    assert_eq!(arguments.surrealdb_uri, "localhost:8000");
    assert_eq!(arguments.surrealdb_username, "root");
    assert_eq!(arguments.surrealdb_password, "root");
    assert_eq!(arguments.surrealdb_namespace, "pictures");
    assert_eq!(arguments.surrealdb_database, "pictures");
    assert!(arguments.is_well_formed());
    let mut broken = ServerArguments::default();
    broken.image_chunk_size = 0;
    assert!(!broken.is_well_formed());
}

#[test]
fn media_paths_begin_with_media_and_a_slash() {
    assert!(is_media_path("media/a.jpg"));
    assert!(is_media_path("media/"));
    assert!(!is_media_path("media"));
    assert!(!is_media_path("/media/a.jpg"));
    assert!(!is_media_path("Media/a.jpg"));
    assert!(!is_media_path(""));
    assert!(!is_media_path("médias/a.jpg"));
}

#[test]
fn references_resolve_to_stored_paths() {
    let references = vec![
        "media/2024/a.jpg".to_string(),
        "/etc/passwd".to_string(),
        "media/media/b.png".to_string(),
        "other/media/c.png".to_string(),
        "media/ü.gif".to_string(),
    ];
    assert_eq!(
        resolve_reference_paths(&references, "/home/me/Pictures/"),
        vec![
            "/home/me/Pictures/2024/a.jpg".to_string(),
            "/home/me/Pictures/media/b.png".to_string(),
            "/home/me/Pictures/ü.gif".to_string(),
        ]
    );
    assert_eq!(resolve_reference_paths(&vec![], "/x/"), Vec::<String>::new());
    assert_eq!(resolve_reference_paths(&vec!["media/a".to_string()], ""), vec!["a".to_string()]);
}

#[test]
fn replace_all_agrees_with_the_standard_library() {
    let cases = [
        ("/home/me/Pictures/a.jpg", "/home/me/Pictures/", "media/"),
        ("aaaa", "aa", "b"),
        ("aaa", "aa", "b"),
        ("abcabc", "bc", ""),
        ("abc", "x", "y"),
        ("abc", "abcd", "y"),
        ("", "a", "b"),
        ("", "", "x"),
        ("ab", "", "-"),
        ("üöü", "ü", "ue"),
        ("a/b/c", "/", "//"),
        ("xx", "x", "xx"),
    ];
    for (text, from, to) in cases {
        assert_eq!(replace_all(text, from, to), text.replace(from, to), "{:?}", (text, from, to));
    }
}

#[test]
fn stored_paths_are_shown_under_media() {
    assert_eq!(to_media_path("/home/me/Pictures/2024/a.jpg", "/home/me/Pictures/"), "media/2024/a.jpg");
    assert_eq!(to_media_path("/elsewhere/a.jpg", "/home/me/Pictures/"), "/elsewhere/a.jpg");
    assert_eq!(to_media_path("/p/x/p/y", "/p/"), "media/xmedia/y");
}

#[test]
fn chars_of_lists_the_characters() {
    assert_eq!(chars_of("aü€"), vec!['a', 'ü', '€']);
    assert_eq!(chars_of(""), Vec::<char>::new());
}
