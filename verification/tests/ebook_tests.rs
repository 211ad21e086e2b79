use aibook::ebook::{extract_chapter_texts, image_file_name};

#[test]
fn chapter_html_becomes_plain_text() {
    let chapters = vec![
        b"<html><body><p>Hello world</p></body></html>".to_vec(),
        b"<p>Second chapter</p>".to_vec(),
    ];
    let texts = extract_chapter_texts(&chapters).unwrap();
    assert_eq!(texts.len(), 2);
    assert!(texts[0].contains("Hello world"));
    assert!(!texts[0].contains("<p>"));
    assert!(texts[1].contains("Second chapter"));
}

#[test]
fn image_names_are_sanitized_and_typed() {
    assert_eq!(image_file_name("img/cover", "image/png"), "imgcover.png");
    assert_eq!(image_file_name("photo", "image/jpeg"), "photo.jpg");
    assert_eq!(image_file_name("anim", "image/gif"), "anim.gif");
    assert_eq!(image_file_name("vector", "image/svg+xml"), "vector.svg");
    assert_eq!(image_file_name("blob", "application/octet-stream"), "blob.bin");
}
