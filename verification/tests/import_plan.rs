use gchat_takeout::models::{
    GoogleAttachment, GoogleCreator, GoogleGroupInfo, GoogleMember, GoogleMessage,
    GoogleMessagesFile,
};
use gchat_takeout::takeout::{
    classify_group_dir, is_main_user, latest_stored_date, message_row, plan_group,
    plan_messages, stored_message_date, GroupKind,
};

fn message(author: &str, email: Option<&str>, date: &str, id: &str) -> GoogleMessage {
    GoogleMessage {
        creator: GoogleCreator {
            name: author.to_string(),
            email: email.map(|e| e.to_string()),
            user_type: "Human".to_string(),
        },
        created_date: date.to_string(),
        text: Some(format!("hello from {author}")),
        topic_id: None,
        message_id: id.to_string(),
        attached_files: None,
    }
}

#[test]
fn classifies_direct_messages() {
    let d = classify_group_dir("DM abc123");
    assert_eq!(d.kind, GroupKind::Dm);
    assert_eq!(d.google_id, "abc123");
    assert_eq!(d.kind.label(), "DM");
}

#[test]
fn classifies_spaces() {
    let d = classify_group_dir("Space AAAAxyz");
    assert_eq!(d.kind, GroupKind::Space);
    assert_eq!(d.google_id, "AAAAxyz");
    assert_eq!(d.kind.label(), "Space");
}

#[test]
fn classifies_other_directories_as_unknown() {
    let d = classify_group_dir("Archive");
    assert_eq!(d.kind, GroupKind::Unknown);
    assert_eq!(d.google_id, "Archive");
    assert_eq!(d.kind.label(), "Unknown");
}

#[test]
fn repeated_prefix_is_removed_entirely() {
    let d = classify_group_dir("DM DM x");
    assert_eq!(d.kind, GroupKind::Dm);
    assert_eq!(d.google_id, "x");
}

#[test]
fn owner_is_recognised_by_address() {
    let me = Some("me@example.com".to_string());
    assert!(is_main_user(&me, &Some("me@example.com".to_string())));
    assert!(!is_main_user(&me, &Some("you@example.com".to_string())));
    assert!(!is_main_user(&me, &None));
    assert!(!is_main_user(&None, &Some("you@example.com".to_string())));
    assert!(is_main_user(&None, &None));
}

#[test]
fn group_plan_lists_members() {
    let info = GoogleGroupInfo {
        name: Some("Team".to_string()),
        members: vec![
            GoogleMember { name: "Me".into(), email: Some("me@x.org".into()), user_type: "Human".into() },
            GoogleMember { name: "Bot".into(), email: None, user_type: "Bot".into() },
        ],
    };
    let h = plan_group("Space S1", &Some(info), &Some("me@x.org".to_string()));
    assert_eq!(h.kind, GroupKind::Space);
    assert_eq!(h.google_id, "S1");
    assert_eq!(h.name.as_deref(), Some("Team"));
    assert_eq!(h.members.len(), 2);
    assert!(h.members[0].is_main);
    assert!(!h.members[1].is_main);
    assert_eq!(h.members[1].user_type, "Bot");
}

#[test]
fn group_plan_without_info_is_unnamed() {
    let h = plan_group("DM q", &None, &None);
    assert_eq!(h.kind, GroupKind::Dm);
    assert_eq!(h.name, None);
    assert!(h.members.is_empty());
}

#[test]
fn unparsable_date_is_stored_as_written() {
    assert_eq!(stored_message_date(&"yesterday".to_string()), "yesterday");
    assert_eq!(
        stored_message_date(&"Monday, May 2, 2022 at 8:00:00 AM UTC".to_string()),
        "2022-05-02 08:00:00"
    );
}

#[test]
fn messages_plan_keeps_order_and_finds_latest() {
    let mut second = message("You", Some("you@x.org"), "Wednesday, March 2, 2022 at 9:00:00\u{202F}AM UTC", "m2");
    second.attached_files = Some(vec![GoogleAttachment {
        original_name: "cat.png".into(),
        export_name: "cat(1).png".into(),
    }]);
    let file = GoogleMessagesFile {
        messages: vec![
            message("Me", Some("me@x.org"), "Tuesday, March 1, 2022 at 9:00:00\u{202F}PM UTC", "m1"),
            second,
            message("Me", Some("me@x.org"), "Monday, February 28, 2022 at 11:00:00\u{202F}PM UTC", "m3"),
        ],
    };
    let p = plan_messages(&file, &Some("me@x.org".to_string()));
    assert_eq!(p.rows.len(), 3);
    assert_eq!(p.rows[0].message_id, "m1");
    assert_eq!(p.rows[0].created_at, "2022-03-01 21:00:00");
    assert!(p.rows[0].author.is_main);
    assert!(!p.rows[1].author.is_main);
    assert_eq!(p.rows[1].attachments.len(), 1);
    assert_eq!(p.rows[1].attachments[0].export_name, "cat(1).png");
    assert!(p.rows[0].attachments.is_empty());
    assert_eq!(p.rows[2].created_at, "2022-02-28 23:00:00");
    assert_eq!(p.last_message_at.as_deref(), Some("2022-03-02 09:00:00"));
}

#[test]
fn group_without_messages_has_no_latest_date() {
    let p = plan_messages(&GoogleMessagesFile { messages: vec![] }, &None);
    assert!(p.rows.is_empty());
    assert_eq!(p.last_message_at, None);
}

#[test]
fn unparsed_dates_take_part_in_latest_by_text_order() {
    let file = GoogleMessagesFile {
        messages: vec![
            message("A", None, "Tuesday, March 1, 2022 at 9:00:00 PM UTC", "a"),
            message("B", None, "garbled", "b"),
        ],
    };
    let p = plan_messages(&file, &None);
    assert_eq!(p.rows[1].created_at, "garbled");
    assert_eq!(p.last_message_at.as_deref(), Some("garbled"));
    assert!(p.rows[0].author.is_main);
}

#[test]
fn latest_of_given_dates_is_the_greatest_text() {
    let dates: Vec<String> = ["2022-01-02 00:00:00", "2023-05-01 10:00:00", "2021-12-31 23:59:59"]
        .iter()
        .map(|s| s.to_string())
        .collect();
    assert_eq!(latest_stored_date(&dates).as_deref(), Some("2023-05-01 10:00:00"));
    assert_eq!(latest_stored_date(&vec![]), None);
    let tie = vec!["b".to_string(), "b".to_string(), "a".to_string()];
    assert_eq!(latest_stored_date(&tie).as_deref(), Some("b"));
}

#[test]
fn message_row_keeps_the_given_date() {
    let m = message("Me", None, "whatever", "id-9");
    let r = message_row(&m, "2020-02-02 02:02:02".to_string(), &None);
    assert_eq!(r.created_at, "2020-02-02 02:02:02");
    assert_eq!(r.message_id, "id-9");
    assert!(r.author.is_main);
    assert_eq!(r.text.as_deref(), Some("hello from Me"));
}
