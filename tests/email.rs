use core_flasher::email::{dedup_key, find_duplicates, imap_defaults, DedupMethod, EmailHeader};

fn header(uid: u32, message_id: &str, subject: &str, date: &str, size: u32) -> EmailHeader {
    EmailHeader {
        uid,
        message_id: message_id.to_string(),
        subject: subject.to_string(),
        from: "a@example.com".to_string(),
        date: date.to_string(),
        size,
    }
}

fn mailbox() -> Vec<EmailHeader> {
    vec![
        header(1, "<a@x>", "Hello", "Mon, 1 Jan 2024", 100),
        header(2, " <a@x> ", "Hello ", "Mon, 1 Jan 2024", 100),
        header(3, "<b@x>", "Other", "Tue, 2 Jan 2024", 200),
        header(4, "", "Hello", "Mon, 1 Jan 2024", 100),
        header(5, "<a@x>", "Re: Hello", "Wed, 3 Jan 2024", 300),
    ]
}

#[test]
fn provider_defaults() {
    assert_eq!(imap_defaults("gmail"), ("imap.gmail.com", 993));
    assert_eq!(imap_defaults("outlook"), ("outlook.office365.com", 993));
    assert_eq!(imap_defaults("icloud"), ("imap.mail.me.com", 993));
    assert_eq!(imap_defaults("generic"), ("", 993));
}

#[test]
fn message_id_groups() {
    let r = find_duplicates(&mailbox(), DedupMethod::MessageId);
    assert_eq!(r.total_scanned, 5);
    assert!(r.dry_run);
    assert_eq!(r.duplicate_groups.len(), 1);
    let g = &r.duplicate_groups[0];
    assert_eq!(g.key, "<a@x>");
    assert_eq!(g.method, "Message-ID");
    let uids: Vec<u32> = g.emails.iter().map(|e| e.uid).collect();
    assert_eq!(uids, vec![1, 2, 5]);
    assert_eq!(r.total_duplicates, 2);
}

#[test]
fn subject_date_hash_groups() {
    let r = find_duplicates(&mailbox(), DedupMethod::SubjectDateHash);
    assert_eq!(r.duplicate_groups.len(), 1);
    let g = &r.duplicate_groups[0];
    assert_eq!(g.key, "9f716a7ca9c28fb3143da571eacd9d28d303746eaa996a6e5033dc1a28735223");
    assert_eq!(g.method, "Subject+Date Hash");
    let uids: Vec<u32> = g.emails.iter().map(|e| e.uid).collect();
    assert_eq!(uids, vec![1, 2, 4]);
    assert_eq!(r.total_duplicates, 2);
}

#[test]
fn size_subject_groups_and_keys() {
    let r = find_duplicates(&mailbox(), DedupMethod::SizeSubject);
    assert_eq!(r.duplicate_groups.len(), 1);
    assert_eq!(r.duplicate_groups[0].key, "100|Hello");
    assert_eq!(r.duplicate_groups[0].emails.len(), 3);
    assert_eq!(dedup_key(&header(9, "", "  ", "", 5), DedupMethod::SizeSubject), None);
    assert_eq!(dedup_key(&header(9, "  ", "x", "", 5), DedupMethod::MessageId), None);
    assert_eq!(dedup_key(&header(9, "", " ", " ", 5), DedupMethod::SubjectDateHash), None);
}

#[test]
fn sha256_key_is_the_digest_of_subject_and_date() {
    let key = dedup_key(&header(1, "", "abc", "", 0), DedupMethod::SubjectDateHash).unwrap();
    assert_eq!(key, "39674985912ef8498ad99f2df9524c7ad24a9785f1cab66cd50e0c1f82988e25");
    let again = dedup_key(&header(2, "", " abc ", "", 0), DedupMethod::SubjectDateHash).unwrap();
    assert_eq!(key, again);
}

#[test]
fn no_duplicates_in_distinct_mail() {
    let r = find_duplicates(&mailbox()[2..4], DedupMethod::MessageId);
    assert!(r.duplicate_groups.is_empty());
    assert_eq!(r.total_duplicates, 0);
    assert!(find_duplicates(&[], DedupMethod::MessageId).duplicate_groups.is_empty());
}
