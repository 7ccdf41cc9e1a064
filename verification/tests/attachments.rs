use openresearch_cli::desktop::process_state_file;
use openresearch_cli::queue::ImageAttachment;
use openresearch_cli::turns::prepare_attachment;

fn image(media_type: &str, data: &str, name: Option<&str>) -> ImageAttachment {
    ImageAttachment {
        media_type: media_type.into(),
        data_base64: data.into(),
        name: name.map(str::to_string),
    }
}

#[test]
fn an_attachment_is_decoded_and_named() {
    let p = prepare_attachment(&image("image/png", "aGVsbG8=", Some("shots/My Shot.v2.png")), "u1")
        .unwrap();
    assert_eq!(p.bytes, b"hello");
    assert_eq!(p.file_name, "att-u1__My-Shot-v2.png");
    assert_eq!(p.display_name, "My Shot.v2.png");
    assert!(!p.is_pdf);
}

#[test]
fn a_pdf_without_a_name_is_called_document() {
    let p = prepare_attachment(&image("application/pdf", "", None), "u2").unwrap();
    assert_eq!(p.file_name, "att-u2__document.pdf");
    assert_eq!(p.display_name, "document.pdf");
    assert!(p.is_pdf);
    assert!(p.bytes.is_empty());
}

#[test]
fn control_characters_leave_the_shown_name() {
    let p = prepare_attachment(&image("image/jpeg", "", Some("a\u{7}b\n.jpg")), "u3").unwrap();
    assert_eq!(p.display_name, "ab.jpg");
    let p = prepare_attachment(&image("image/jpeg", "", Some("dir/\u{1}")), "u4").unwrap();
    assert_eq!(p.display_name, "image.jpg");
}

#[test]
fn unsupported_types_and_bad_data_are_refused() {
    let e = prepare_attachment(&image("text/plain", "", None), "u").err().unwrap();
    assert_eq!(e, "unsupported attachment type: text/plain");
    let e = prepare_attachment(&image("image/gif", "!!!", None), "u").err().unwrap();
    assert!(e.starts_with("bad attachment data: "));
}

#[test]
fn a_process_record_is_named_by_its_canonical_uuid() {
    assert_eq!(
        process_state_file("67E55044-10B1-426F-9247-BB680E5FE0C8").as_deref(),
        Some("67e55044-10b1-426f-9247-bb680e5fe0c8.json")
    );
    assert_eq!(process_state_file("../../etc/passwd"), None);
}
