use taylorchat::dates::{backup_file_name, backups_to_prune, civil_date, date_stamp};

#[test]
fn stamps_of_known_days() {
    assert_eq!(date_stamp(0), "19700101");
    assert_eq!(date_stamp(86399), "19700101");
    assert_eq!(date_stamp(86400), "19700102");
    assert_eq!(date_stamp(-1), "19691231");
    assert_eq!(date_stamp(951782400), "20000229");
    assert_eq!(date_stamp(1784505600), "20260720");
    assert_eq!(civil_date(1709164800), (2024, 2, 29));
}

#[test]
fn backup_names() {
    assert_eq!(backup_file_name(1784505600), "chat-20260720.db");
}

#[test]
fn rotation_keeps_the_three_newest() {
    let names: Vec<String> = [
        "chat-20260721.db",
        "chat-20260718.db",
        "outro.db",
        "chat-20260720.db",
        "chat-20260717.db",
        "chat-20260719.db",
    ]
    .iter()
    .map(|s| s.to_string())
    .collect();
    assert_eq!(
        backups_to_prune(&names),
        vec!["chat-20260717.db".to_string(), "chat-20260718.db".to_string()]
    );
    assert!(backups_to_prune(&names[..3]).is_empty());
}
