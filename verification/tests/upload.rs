use lettering_core::upload::{
    image_hash, original_image_key, thumbnail_image_key, to_hex_lower, UploadAction, UploadEvent,
    UploadFlow, UploadStage,
};

#[test]
fn image_hash_is_sha256_in_lowercase_hex() {
    assert_eq!(
        image_hash(b"abc"),
        "ba7816bf8f01cfea414140de5dae2223b00361a396177a9cb410ff61f20015ad"
    );
    assert_eq!(
        image_hash(b""),
        "e3b0c44298fc1c149afbf4c8996fb92427ae41e4649b934ca495991b7852b855"
    );
    assert_eq!(image_hash(b"lettering").len(), 64);
}

#[test]
fn hex_encoding() {
    assert_eq!(to_hex_lower(&vec![0x00, 0x0f, 0xa0, 0xff]), "000fa0ff");
}

#[test]
fn storage_keys() {
    assert_eq!(original_image_key("abc"), "letterings/abc/original.webp");
    assert_eq!(thumbnail_image_key("abc", "small"), "letterings/abc/small.webp");
}

fn step(flow: &mut UploadFlow, event: UploadEvent) -> UploadAction {
    assert!(flow.accepts(&event));
    flow.step(event)
}

#[test]
fn upload_runs_every_step_in_order() {
    let (mut flow, action) = UploadFlow::start(b"abc");
    match action {
        UploadAction::FindByImageHash { image_hash } => assert_eq!(
            image_hash,
            "ba7816bf8f01cfea414140de5dae2223b00361a396177a9cb410ff61f20015ad"
        ),
        other => panic!("unexpected {:?}", other),
    }
    match step(&mut flow, UploadEvent::NoDuplicate { lettering_id: "L1".to_string() }) {
        UploadAction::StoreOriginal { key, max_width } => {
            assert_eq!(key, "letterings/L1/original.webp");
            assert_eq!(max_width, 2048);
        }
        other => panic!("unexpected {:?}", other),
    }
    let expected = [("small", 200u32), ("medium", 600), ("large", 1200)];
    let mut url = "https://cdn/original".to_string();
    for (name, width) in expected.iter() {
        match step(&mut flow, UploadEvent::Stored { url: url.clone() }) {
            UploadAction::StoreThumbnail { name: n, key, width: w } => {
                assert_eq!(n, *name);
                assert_eq!(key, format!("letterings/L1/{}.webp", name));
                assert_eq!(w, *width);
            }
            other => panic!("unexpected {:?}", other),
        }
        url = format!("https://cdn/{}", name);
    }
    match step(&mut flow, UploadEvent::Stored { url }) {
        UploadAction::Save { image_url, thumbnail_urls } => {
            assert_eq!(image_url, "https://cdn/original");
            assert_eq!(thumbnail_urls.small, "https://cdn/small");
            assert_eq!(thumbnail_urls.medium, "https://cdn/medium");
            assert_eq!(thumbnail_urls.large, "https://cdn/large");
        }
        other => panic!("unexpected {:?}", other),
    }
    match step(&mut flow, UploadEvent::Saved { image_url: "https://cdn/original".to_string() }) {
        UploadAction::EnqueueMlJob { lettering_id, image_url } => {
            assert_eq!(lettering_id, "L1");
            assert_eq!(image_url, "https://cdn/original");
        }
        other => panic!("unexpected {:?}", other),
    }
    assert!(matches!(step(&mut flow, UploadEvent::Enqueued), UploadAction::Succeed));
    assert_eq!(flow.stage(), UploadStage::Finished);
    assert!(!flow.accepts(&UploadEvent::Enqueued));
}

fn fail_message(action: UploadAction) -> String {
    match action {
        UploadAction::Fail { message } => message,
        other => panic!("unexpected {:?}", other),
    }
}

#[test]
fn duplicate_upload_is_refused() {
    let (mut flow, _) = UploadFlow::start(b"img");
    let msg = fail_message(step(&mut flow, UploadEvent::DuplicateFound { existing_id: "X9".to_string() }));
    assert_eq!(
        msg,
        "This image has already been uploaded as lettering X9. Each image can only be uploaded once."
    );
    assert_eq!(flow.stage(), UploadStage::Finished);
}

#[test]
fn failures_are_reported_with_their_step() {
    let (mut flow, _) = UploadFlow::start(b"img");
    assert_eq!(
        fail_message(step(&mut flow, UploadEvent::LookupFailed { error: "db down".to_string() })),
        "Failed to check for duplicates: db down"
    );

    let (mut flow, _) = UploadFlow::start(b"img");
    step(&mut flow, UploadEvent::NoDuplicate { lettering_id: "L".to_string() });
    assert_eq!(
        fail_message(step(&mut flow, UploadEvent::StorageFailed { error: "timeout".to_string() })),
        "Failed to store image: timeout"
    );

    let (mut flow, _) = UploadFlow::start(b"img");
    step(&mut flow, UploadEvent::NoDuplicate { lettering_id: "L".to_string() });
    assert_eq!(
        fail_message(step(&mut flow, UploadEvent::ConversionFailed { error: "Invalid or corrupted image data: x".to_string() })),
        "Invalid or corrupted image data: x"
    );

    let (mut flow, _) = UploadFlow::start(b"img");
    step(&mut flow, UploadEvent::NoDuplicate { lettering_id: "L".to_string() });
    step(&mut flow, UploadEvent::Stored { url: "u".to_string() });
    step(&mut flow, UploadEvent::Stored { url: "s".to_string() });
    assert_eq!(
        deleted_keys(step(&mut flow, UploadEvent::StorageFailed { error: "e".to_string() })),
        vec!["letterings/L/original.webp", "letterings/L/small.webp"]
    );
    assert_eq!(flow.stage(), UploadStage::RemovingStored);
    assert_eq!(fail_message(step(&mut flow, UploadEvent::Removed)), "medium thumbnail upload failed: e");
    assert_eq!(flow.stage(), UploadStage::Finished);

    let (mut flow, _) = UploadFlow::start(b"img");
    step(&mut flow, UploadEvent::NoDuplicate { lettering_id: "L".to_string() });
    for u in ["o", "s", "m", "l"] {
        step(&mut flow, UploadEvent::Stored { url: u.to_string() });
    }
    assert_eq!(flow.stage(), UploadStage::Saving);
    assert_eq!(
        deleted_keys(step(&mut flow, UploadEvent::SaveFailed { error: "constraint".to_string() })),
        vec![
            "letterings/L/original.webp",
            "letterings/L/small.webp",
            "letterings/L/medium.webp",
            "letterings/L/large.webp"
        ]
    );
    assert_eq!(fail_message(step(&mut flow, UploadEvent::Removed)), "Failed to save lettering: constraint");

    let (mut flow, _) = UploadFlow::start(b"img");
    step(&mut flow, UploadEvent::NoDuplicate { lettering_id: "L".to_string() });
    step(&mut flow, UploadEvent::Stored { url: "o".to_string() });
    assert_eq!(
        deleted_keys(step(&mut flow, UploadEvent::ConversionFailed { error: "bad".to_string() })),
        vec!["letterings/L/original.webp"]
    );
    assert!(!flow.accepts(&UploadEvent::Stored { url: "x".to_string() }));
    assert_eq!(fail_message(step(&mut flow, UploadEvent::Removed)), "bad");
}

fn deleted_keys(action: UploadAction) -> Vec<String> {
    match action {
        UploadAction::DeleteStored { keys } => keys,
        other => panic!("unexpected {:?}", other),
    }
}

#[test]
fn new_lettering_awaits_moderation_with_nothing_counted() {
    let urls = lettering_core::lettering::ThumbnailUrls {
        small: "s".to_string(),
        medium: "m".to_string(),
        large: "l".to_string(),
    };
    let l = lettering_core::upload::NewLettering::new(
        "tagger".to_string(),
        "560001".to_string(),
        Some("shop sign".to_string()),
        None,
        "abc".to_string(),
        "https://cdn/o".to_string(),
        urls,
    );
    assert_eq!(l.status, lettering_core::lettering::LetteringStatus::Pending);
    assert_eq!((l.likes_count, l.comments_count, l.report_count), (0, 0, 0));
    assert!(l.report_reasons.is_empty());
    assert!(l.is_lettering);
    assert_eq!(l.image_hash.as_deref(), Some("abc"));
    assert_eq!(l.image_url, "https://cdn/o");
    assert_eq!(l.thumbnail_urls.large, "l");
    assert_eq!(l.pin_code, "560001");
    assert!(l.detected_text.is_none() && l.cultural_context.is_none());
}
