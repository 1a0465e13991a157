use shotori::clipboard::{
    DAEMON_ARG, IMAGE_MIME, SourceEvent, SourceReply, TEXT_MIME, check_payload, copy_image, copy_text,
    daemon_mime, dib_from_rgba, offered_mimes, on_source_event, unicode_text,
};
use shotori::notify::{
    NOTIFY_ARG, PREVIEW_MAX, is_stale_preview, notify_args, notify_request, preview_thumbnail, send,
    send_with_preview,
};
use shotori::save::{PendingSlot, stash, take_pending};

fn strings(v: &[&str]) -> Vec<String> {
    v.iter().map(|s| s.to_string()).collect()
}

#[test]
fn stash_then_take_hands_out_the_selection_once() {
    let mut slot = PendingSlot::new();
    assert!(take_pending(&mut slot).is_none());
    stash(&mut slot, 2, 1, vec![1, 2, 3, 4, 5, 6, 7, 8]);
    stash(&mut slot, 1, 1, vec![9, 9, 9, 9]);
    let p = take_pending(&mut slot).unwrap();
    assert_eq!((p.w(), p.h()), (1, 1));
    assert_eq!(p.rgba(), &vec![9, 9, 9, 9]);
    assert_eq!(p.into_parts(), (1, 1, vec![9, 9, 9, 9]));
    assert!(take_pending(&mut slot).is_none());
}

#[test]
fn empty_copies_are_refused() {
    assert_eq!(copy_image(vec![]).err().unwrap(), "refusing to copy empty data");
    assert_eq!(copy_text(String::new()).err().unwrap(), "refusing to copy empty data");
}

#[test]
fn copies_name_their_mime_and_carry_the_bytes() {
    let o = copy_image(vec![137, 80, 78, 71]).ok().unwrap();
    assert_eq!(o.mime, IMAGE_MIME);
    assert_eq!(o.data, vec![137, 80, 78, 71]);
    let o = copy_text("héllo".to_string()).ok().unwrap();
    assert_eq!(o.mime, TEXT_MIME);
    assert_eq!(o.data, "héllo".as_bytes().to_vec());
    assert_eq!(DAEMON_ARG, "--clipboard-daemon");
}

#[test]
fn text_offers_add_fallback_names_images_do_not() {
    assert_eq!(
        offered_mimes(TEXT_MIME),
        strings(&[TEXT_MIME, "text/plain", "UTF8_STRING", "STRING"])
    );
    assert_eq!(offered_mimes(IMAGE_MIME), strings(&[IMAGE_MIME]));
}

#[test]
fn daemon_reads_its_mime_from_the_third_word() {
    assert_eq!(daemon_mime(&strings(&["shotori", DAEMON_ARG, TEXT_MIME])), TEXT_MIME);
    assert_eq!(daemon_mime(&strings(&["shotori", DAEMON_ARG])), IMAGE_MIME);
    assert!(check_payload(&[]).is_err());
    assert!(check_payload(&[1]).is_ok());
}

#[test]
fn daemon_serves_offered_mimes_and_retires_on_cancel() {
    let mimes = offered_mimes(TEXT_MIME);
    let send = |m: &str| on_source_event(&mimes, &SourceEvent::Send { mime_type: m.to_string() });
    assert_eq!(send("UTF8_STRING"), SourceReply::WritePayload);
    assert_eq!(send(TEXT_MIME), SourceReply::WritePayload);
    assert_eq!(send("image/png"), SourceReply::CloseUnserved);
    assert_eq!(on_source_event(&mimes, &SourceEvent::Cancelled), SourceReply::Retire);
    assert_eq!(on_source_event(&mimes, &SourceEvent::Other), SourceReply::Ignore);
}

#[test]
fn notify_child_arguments() {
    assert_eq!(send("Shotori", "Copied"), strings(&[NOTIFY_ARG, "Shotori", "Copied"]));
    assert_eq!(
        send_with_preview("Shotori", "Saved", Some("/tmp/p.png")),
        strings(&[NOTIFY_ARG, "Shotori", "Saved", "/tmp/p.png"])
    );
    assert_eq!(send_with_preview("Shotori", "Saved", None), notify_args("Shotori", "Saved", None));
}

#[test]
fn notify_child_reads_back_what_the_parent_wrote() {
    let mut argv = strings(&["shotori"]);
    argv.extend(notify_args("S", "B", Some("/x.png")));
    let q = notify_request(&argv).unwrap();
    assert_eq!((q.summary.as_str(), q.body.as_str(), q.image.as_deref()), ("S", "B", Some("/x.png")));
    let q = notify_request(&strings(&["shotori", NOTIFY_ARG, "S", "B"])).unwrap();
    assert!(q.image.is_none());
    assert!(notify_request(&strings(&["shotori", NOTIFY_ARG, "S"])).is_none());
}

#[test]
fn only_old_previews_are_stale() {
    assert!(is_stale_preview("preview-2026.png", Some((86401, 0))));
    assert!(is_stale_preview("preview-2026.png", Some((86400, 1))));
    assert!(!is_stale_preview("preview-2026.png", Some((86400, 0))));
    assert!(!is_stale_preview("preview-2026.png", None));
    assert!(!is_stale_preview("other.png", Some((999999, 0))));
}

#[test]
fn preview_is_a_fixed_size_thumbnail() {
    let rgba = [200, 100, 50, 255].repeat(600 * 400);
    let (tw, th, t) = preview_thumbnail(600, 400, &rgba).unwrap();
    assert_eq!((tw, th), (PREVIEW_MAX, PREVIEW_MAX));
    assert_eq!(t.len(), 256 * 256 * 4);
    assert_eq!(&t[..4], &[200, 100, 50, 255]);
    assert!(preview_thumbnail(600, 400, &rgba[..100]).is_none());
}

#[test]
fn dib_has_a_bitmap_header_and_bottom_up_bgra_rows() {
    // 2×2: top row red, green; bottom row blue, white (half transparent)
    let rgba = vec![255, 0, 0, 255, 0, 255, 0, 255, 0, 0, 255, 255, 255, 255, 255, 128];
    let dib = dib_from_rgba(2, 2, &rgba);
    assert_eq!(dib.len(), 40 + 16);
    assert_eq!(&dib[0..4], &40u32.to_le_bytes());
    assert_eq!(&dib[4..8], &2i32.to_le_bytes());
    assert_eq!(&dib[8..12], &2i32.to_le_bytes());
    assert_eq!(&dib[12..16], &[1, 0, 32, 0]);
    assert_eq!(&dib[16..20], &[0; 4]);
    assert_eq!(&dib[20..24], &16u32.to_le_bytes());
    assert_eq!(&dib[24..40], &[0; 16]);
    // bottom row first, B,G,R and opaque alpha
    assert_eq!(&dib[40..48], &[255, 0, 0, 255, 255, 255, 255, 255]);
    assert_eq!(&dib[48..56], &[0, 0, 255, 255, 0, 255, 0, 255]);
}

#[test]
fn unicode_text_is_utf16le_with_a_nul() {
    let expected: Vec<u8> = "aé😀"
        .encode_utf16()
        .flat_map(|u| u.to_le_bytes())
        .chain([0, 0])
        .collect();
    assert_eq!(unicode_text("aé😀").unwrap(), expected);
    assert_eq!(unicode_text("").unwrap_err(), "refusing to copy empty data");
}
