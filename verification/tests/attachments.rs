use stoat_client::attachments::{strip_spoiler, upload_name, Attachment, AttachmentController};

fn names(c: &AttachmentController) -> Vec<(String, bool)> {
    c.get_attachments().into_iter().map(|a| (a.filename, a.spoiler)).collect()
}

#[test]
fn spoiler_prefix() {
    assert_eq!(strip_spoiler("SPOILER_cat.png".to_string()), ("cat.png".to_string(), true));
    assert_eq!(strip_spoiler("cat.png".to_string()), ("cat.png".to_string(), false));
    assert_eq!(strip_spoiler("SPOILER".to_string()), ("SPOILER".to_string(), false));
    assert_eq!(strip_spoiler("spoiler_x".to_string()), ("spoiler_x".to_string(), false));
    assert_eq!(strip_spoiler("SPOILER_".to_string()), (String::new(), true));
}

#[test]
fn upload_names() {
    let a = Attachment { id: 1, filename: "a.txt".to_string(), spoiler: true, contents: vec![1] };
    assert_eq!(upload_name(&a), "SPOILER_a.txt");
    let b = Attachment { id: 2, filename: "b.txt".to_string(), spoiler: false, contents: vec![] };
    assert_eq!(upload_name(&b), "b.txt");
}

#[test]
fn files_keep_their_order() {
    let mut c = AttachmentController::new();
    assert!(c.is_empty());
    c.add_file("one.png".to_string(), vec![1, 2]);
    c.add_file("SPOILER_two.png".to_string(), vec![3]);
    c.add_file("three.png".to_string(), vec![]);
    assert!(c.not_empty());
    assert_eq!(
        names(&c),
        vec![("one.png".to_string(), false), ("two.png".to_string(), true), ("three.png".to_string(), false)]
    );
    let ids: Vec<u64> = c.get_attachments().iter().map(|a| a.id).collect();
    c.toggle_spoiler(ids[0]);
    c.toggle_spoiler(ids[1]);
    assert_eq!(
        names(&c),
        vec![("one.png".to_string(), true), ("two.png".to_string(), false), ("three.png".to_string(), false)]
    );
    assert_eq!(c.get_attachments()[0].contents, vec![1, 2]);
    c.remove(ids[1]);
    assert_eq!(names(&c), vec![("one.png".to_string(), true), ("three.png".to_string(), false)]);
    let taken = c.take();
    assert_eq!(taken.len(), 2);
    assert!(c.is_empty());
}

#[test]
fn images_are_recognised() {
    let png = Attachment {
        id: 1,
        filename: "a.png".to_string(),
        spoiler: false,
        contents: vec![0x89, b'P', b'N', b'G', 0x0D, 0x0A, 0x1A, 0x0A, 0, 0, 0, 0],
    };
    assert!(png.is_image());
    let jpeg = Attachment { id: 2, filename: "b.jpg".to_string(), spoiler: false, contents: vec![0xFF, 0xD8, 0xFF, 0xAA] };
    assert!(jpeg.is_image());
    let text = Attachment { id: 3, filename: "c.txt".to_string(), spoiler: false, contents: b"hello".to_vec() };
    assert!(!text.is_image());
}

#[test]
fn add_file_with_id_goes_last_under_that_id() {
    let mut c = AttachmentController::new();
    c.add_file_with_id(7, "one.png".to_string(), vec![1]);
    c.add_file_with_id(3, "SPOILER_two.png".to_string(), vec![2, 2]);
    let all = c.get_attachments();
    assert_eq!(all.len(), 2);
    assert_eq!(all[0].id, 7);
    assert_eq!(all[1].id, 3);
    assert_eq!(all[1].filename, "two.png");
    assert!(all[1].spoiler);
    assert_eq!(all[1].contents, vec![2, 2]);
}

#[test]
fn add_file_with_taken_id_replaces_in_place() {
    let mut c = AttachmentController::new();
    c.add_file_with_id(1, "a.png".to_string(), vec![]);
    c.add_file_with_id(2, "b.png".to_string(), vec![]);
    c.add_file_with_id(1, "SPOILER_c.png".to_string(), vec![9]);
    assert_eq!(names(&c), vec![("c.png".to_string(), true), ("b.png".to_string(), false)]);
    let all = c.get_attachments();
    assert_eq!(all[0].id, 1);
    assert_eq!(all[0].contents, vec![9]);
}
