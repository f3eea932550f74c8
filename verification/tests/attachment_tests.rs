use steer::attachments::{
    attachment_spans, cursor_position_from_byte_offset, format_inline_image_token,
    image_label_len_at, parse_inline_message_content, strip_image_token_labels, AttachmentTray,
    ImageContent, ImageSource, PendingAttachment, UserContent,
};
use steer::media::{decode_pasted_image, encode_clipboard_rgba_image, image_from_png};

const IMAGE_TOKEN_CHAR: char = '\u{E000}';

fn image(url: &str, mime: &str) -> ImageContent {
    ImageContent {
        source: ImageSource::DataUrl { data_url: url.to_string() },
        mime_type: mime.to_string(),
        width: Some(1),
        height: Some(1),
        bytes: Some(4),
        sha256: None,
    }
}

fn attachment(token: char, url: &str, mime: &str) -> PendingAttachment {
    PendingAttachment { image: image(url, mime), token }
}

fn text_of(u: &UserContent) -> Option<&str> {
    match u {
        UserContent::Text { text } => Some(text.as_str()),
        _ => None,
    }
}

fn mime_of(u: &UserContent) -> Option<&str> {
    match u {
        UserContent::Image { image } => Some(image.mime_type.as_str()),
        _ => None,
    }
}

#[test]
fn strip_image_token_labels_removes_rendered_image_marker_text() {
    let content = format!("hello{IMAGE_TOKEN_CHAR}[Image 1] world");
    assert_eq!(strip_image_token_labels(&content), "hello world");
}

#[test]
fn strip_image_token_labels_keeps_a_token_without_label() {
    let content = format!("a{IMAGE_TOKEN_CHAR}b [Image 2]");
    assert_eq!(strip_image_token_labels(&content), content);
    assert_eq!(strip_image_token_labels("plain [Image 3] text"), "plain [Image 3] text");
}

#[test]
fn strip_image_token_labels_skips_whitespace_before_the_label() {
    let content = format!("x{IMAGE_TOKEN_CHAR}  [Image 9]y");
    assert_eq!(strip_image_token_labels(&content), "xy");
}

#[test]
fn parse_inline_message_content_preserves_text_image_order() {
    let first = attachment('A', "data:image/png;base64,AAAA", "image/png");
    let second = attachment('B', "data:image/jpeg;base64,BBBB", "image/jpeg");

    let content = format!("before {} middle {} after", first.token, second.token);
    let parsed = parse_inline_message_content(&content, &[first, second]);

    assert_eq!(parsed.len(), 5);
    assert_eq!(text_of(&parsed[0]), Some("before"));
    assert_eq!(mime_of(&parsed[1]), Some("image/png"));
    assert_eq!(text_of(&parsed[2]), Some("middle"));
    assert_eq!(mime_of(&parsed[3]), Some("image/jpeg"));
    assert_eq!(text_of(&parsed[4]), Some("after"));
}

#[test]
fn parse_inline_message_content_skips_marker_labels_after_tokens() {
    let a = attachment('A', "data:image/png;base64,AAAA", "image/png");

    let content = format!("look {}{} done", a.token, format_inline_image_token(1));
    let parsed = parse_inline_message_content(&content, &[a]);

    assert_eq!(parsed.len(), 3);
    assert!(matches!(&parsed[1], UserContent::Image { .. }));
    assert_eq!(text_of(&parsed[2]), Some("done"));
}

#[test]
fn parse_without_attachments_is_the_trimmed_text() {
    let parsed = parse_inline_message_content("  hi there \n", &[]);
    assert_eq!(parsed.len(), 1);
    assert_eq!(text_of(&parsed[0]), Some("hi there"));
    assert!(parse_inline_message_content("   ", &[]).is_empty());
}

#[test]
fn format_inline_image_token_renders_the_number() {
    assert_eq!(format_inline_image_token(1), "[Image 1]");
    assert_eq!(format_inline_image_token(42), "[Image 42]");
}

#[test]
fn image_label_len_at_counts_bytes_through_the_bracket() {
    assert_eq!(image_label_len_at("[Image 1] rest"), Some(9));
    assert_eq!(image_label_len_at("[Image é]"), Some(10));
    assert_eq!(image_label_len_at("[Imag 1]"), None);
    assert_eq!(image_label_len_at("[Image 1"), None);
}

#[test]
fn attachment_spans_cover_token_and_label() {
    let a = attachment('\u{E000}', "u", "image/png");
    let content = format!("ab{}[Image 1]c", '\u{E000}');
    let spans = attachment_spans(&content, &[a]);
    assert_eq!(spans, vec![('\u{E000}', 2, 14)]);
}

#[test]
fn cursor_position_counts_rows_and_columns() {
    assert_eq!(cursor_position_from_byte_offset("ab\ncd", 4), (1, 1));
    assert_eq!(cursor_position_from_byte_offset("ab\ncd", 100), (1, 2));
    assert_eq!(cursor_position_from_byte_offset("héllo", 3), (0, 2));
}

#[test]
fn tray_hands_out_tokens_and_labels_in_order() {
    let mut tray = AttachmentTray::new();
    let first = tray.add_pending_attachment(image("u1", "image/png")).unwrap();
    let second = tray.add_pending_attachment(image("u2", "image/png")).unwrap();
    assert_eq!(first, "\u{E000}[Image 1]");
    assert_eq!(second, "\u{E001}[Image 2]");
    assert_eq!(tray.pending.len(), 2);
}

#[test]
fn sync_drops_removed_tokens_and_renumbers() {
    let mut tray = AttachmentTray::new();
    tray.add_pending_attachment(image("u1", "image/png")).unwrap();
    tray.add_pending_attachment(image("u2", "image/png")).unwrap();
    let content = "see \u{E001}[Image 2] now";
    let normalized = tray.sync_attachments_from_input_tokens(content);
    assert_eq!(normalized, "see \u{E001}[Image 1] now");
    assert_eq!(tray.pending.len(), 1);
    assert_eq!(tray.pending[0].token, '\u{E001}');
}

#[test]
fn sync_strips_labels_once_no_attachment_is_left() {
    let mut tray = AttachmentTray::new();
    tray.add_pending_attachment(image("u1", "image/png")).unwrap();
    let normalized = tray.sync_attachments_from_input_tokens("gone [Image 1]");
    assert_eq!(normalized, "gone [Image 1]");
    assert!(tray.pending.is_empty());
    let again = tray.sync_attachments_from_input_tokens("x\u{E005}[Image 4]y");
    assert_eq!(again, "xy");
}

#[test]
fn backspace_removes_the_whole_attachment() {
    let mut tray = AttachmentTray::new();
    tray.add_pending_attachment(image("u1", "image/png")).unwrap();
    let content = "ab\u{E000}[Image 1]c";
    let end_of_label = 2 + 3 + 9;
    let result = tray.handle_atomic_backspace_delete(content, end_of_label, false);
    assert_eq!(result, Some(("abc".to_string(), 2)));
    assert!(tray.pending.is_empty());
}

#[test]
fn delete_outside_an_attachment_changes_nothing() {
    let mut tray = AttachmentTray::new();
    tray.add_pending_attachment(image("u1", "image/png")).unwrap();
    let content = "ab\u{E000}[Image 1]c";
    assert_eq!(tray.handle_atomic_backspace_delete(content, 1, false), None);
    assert_eq!(tray.handle_atomic_backspace_delete(content, 0, true), None);
    assert_eq!(tray.handle_atomic_backspace_delete(content, 0, false), None);
    assert_eq!(tray.pending.len(), 1);
    let forward = tray.handle_atomic_backspace_delete(content, 2, true);
    assert_eq!(forward, Some(("abc".to_string(), 2)));
}

#[test]
fn removing_a_token_drops_only_its_attachment() {
    let mut tray = AttachmentTray::new();
    tray.add_pending_attachment(image("u1", "image/png")).unwrap();
    tray.add_pending_attachment(image("u2", "image/png")).unwrap();
    tray.remove_attachment_for_token('\u{E000}');
    assert_eq!(tray.pending.len(), 1);
    assert_eq!(tray.pending[0].token, '\u{E001}');
    tray.remove_attachment_for_token('z');
    assert_eq!(tray.pending.len(), 1);
}

#[test]
fn decode_pasted_image_recognizes_png_base64_and_sets_metadata() {
    let png_base64 = "iVBORw0KGgoAAAANSUhEUgAAAAEAAAABCAQAAAC1HAwCAAAAC0lEQVR42mP8/x8AAwMCAO+X2N8AAAAASUVORK5CYII=";

    let image = decode_pasted_image(png_base64).expect("png should decode");

    assert_eq!(image.mime_type, "image/png");
    assert!(matches!(image.source, ImageSource::DataUrl { .. }));
    assert_eq!(image.width, None);
    assert_eq!(image.height, None);
    assert!(image.bytes.is_some());
    match &image.source {
        ImageSource::DataUrl { data_url } => {
            assert_eq!(data_url, &format!("data:image/png;base64,{png_base64}"));
        }
    }
    assert_eq!(image.bytes, Some(68));
}

#[test]
fn decode_pasted_image_rejects_non_image_payload() {
    let not_image = "cGxhaW4gdGV4dA==";
    let decoded = decode_pasted_image(not_image);
    assert!(decoded.is_none());
    assert!(decode_pasted_image("not base64!").is_none());
}

#[test]
fn encode_clipboard_rgba_image_converts_to_png_data_url() {
    let rgba = [255_u8, 0, 0, 255];
    let image = encode_clipboard_rgba_image(1, 1, &rgba);

    assert!(image.is_some(), "expected clipboard image to encode");
    let image = match image {
        Some(image) => image,
        None => unreachable!("asserted Some above"),
    };

    assert_eq!(image.mime_type, "image/png");
    assert_eq!(image.width, Some(1));
    assert_eq!(image.height, Some(1));
    assert!(matches!(image.bytes, Some(bytes) if bytes > 0));
    assert!(matches!(image.source, ImageSource::DataUrl { .. }));
    match &image.source {
        ImageSource::DataUrl { data_url } => assert!(data_url.starts_with("data:image/png;base64,iVBOR")),
    }
}

#[test]
fn encode_clipboard_rgba_image_rejects_invalid_pixel_data() {
    let invalid_rgba = [255_u8, 0, 0];
    let image = encode_clipboard_rgba_image(1, 1, &invalid_rgba);
    assert!(image.is_none());
}

#[test]
fn clipboard_pixels_longer_than_the_image_are_refused() {
    let rgba = [255_u8, 0, 0, 255, 0, 255, 0, 255];
    assert!(encode_clipboard_rgba_image(1, 1, &rgba).is_none());
    assert!(encode_clipboard_rgba_image(0, 0, &rgba[..4]).is_none());
    assert!(encode_clipboard_rgba_image(2, 1, &rgba).is_some());
    assert!(encode_clipboard_rgba_image(0, 0, &[]).is_none());
    assert!(encode_clipboard_rgba_image(0, 3, &[]).is_none());
}

#[test]
fn editing_a_message_restores_its_images_as_tokens() {
    let mut tray = AttachmentTray::new();
    tray.add_pending_attachment(image("old", "image/png")).unwrap();
    let text = tray.restore_for_editing(vec![
        UserContent::Text { text: "see ".to_string() },
        UserContent::Image { image: image("u1", "image/png") },
        UserContent::Text { text: " and ".to_string() },
        UserContent::Image { image: image("u2", "image/jpeg") },
    ]);
    assert_eq!(text, "see \u{E000}[Image 1] and \u{E001}[Image 2]");
    assert_eq!(tray.pending.len(), 2);
    assert_eq!(tray.pending[1].token, '\u{E001}');
    assert_eq!(tray.pending[1].image.mime_type, "image/jpeg");
    assert_eq!(tray.next_token, 0xE002);
}

#[test]
fn tokens_are_skipped_while_in_use() {
    let mut tray = AttachmentTray::new();
    tray.pending.push(attachment('\u{E000}', "u", "image/png"));
    assert_eq!(tray.next_attachment_token(), Some('\u{E001}'));
    assert_eq!(tray.next_token, 0xE002);
    tray.next_token = 0xF8FF + 1;
    assert_eq!(tray.next_attachment_token(), None);
    assert_eq!(tray.next_token, 0x110000);
}

#[test]
fn png_attachments_carry_padded_standard_base64() {
    for (bytes, expected) in [
        (&b"Man"[..], "TWFu"),
        (&b"Ma"[..], "TWE="),
        (&b"M"[..], "TQ=="),
        (&[0xfb_u8, 0xff, 0xbf][..], "+/+/"),
        (&b""[..], ""),
    ] {
        let image = image_from_png(2, 3, bytes);
        match image.source {
            ImageSource::DataUrl { data_url } => {
                assert_eq!(data_url, format!("data:image/png;base64,{expected}"))
            }
            _ => panic!("expected a data URL"),
        }
        assert_eq!(image.bytes, Some(bytes.len() as u64));
        assert_eq!((image.width, image.height), (Some(2), Some(3)));
    }
}
