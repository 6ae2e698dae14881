use rust_mail::config::{Account, Config};
use rust_mail::mailbox::{file_for, name_for, FetchAction, MailBox, RemoteMessage, RemoteMessageInfo};
use rust_mail::store::KnownIds;
use rust_mail::subject::get_subject;

fn s(t: &str) -> String {
    t.to_string()
}

fn message(id: u32, uid: &str, header: &str) -> RemoteMessage {
    RemoteMessage {
        info: RemoteMessageInfo { message_id: id, unique_id: s(uid) },
        header: s(header),
    }
}

fn account(user: &str, host: &str) -> Account {
    Account { host: s(host), port: 995, username: s(user), password: s("pw") }
}

#[test]
fn subject_keeps_safe_characters() {
    let h = "From: a@b.c\r\nSubject: Hello, World! 123\r\nTo: x@y.z\r\n";
    let r = get_subject(h).unwrap();
    assert_eq!(r, " Hello World 123");
    assert_eq!(r.trim(), "Hello World 123");
}

#[test]
fn subject_absent() {
    assert_eq!(get_subject("From: a@b.c\nTo: x@y.z\n"), None);
    assert_eq!(get_subject(""), None);
    assert_eq!(get_subject("subject: lower case\n"), None);
}

#[test]
fn subject_first_line_wins_and_is_trimmed() {
    let h = "X: 1\n \t Subject:a_b-c  \nSubject: second\n";
    assert_eq!(get_subject(h), Some(s("a_b-c")));
}

#[test]
fn subject_empty_after_filtering() {
    assert_eq!(get_subject("Subject:!!?\n"), Some(s("")));
    assert_eq!(get_subject("Subject:"), Some(s("")));
    assert_eq!(get_subject("Subject: caf\u{e9} \u{2603}x"), Some(s(" caf x")));
}

#[test]
fn record_keeps_first_name() {
    let mut k = KnownIds::new();
    k.record(s("u1"), s("a"));
    k.record(s("u1"), s("b"));
    assert_eq!(k.lookup(&s("u1")), Some(s("a")));
    assert!(k.contains(&s("u1")));
    assert!(!k.contains(&s("u2")));
    assert_eq!(k.lookup(&s("u2")), None);
}

#[test]
fn store_json_round_trip() {
    let mut k = KnownIds::new();
    k.record(s("u1"), s("first \"quoted\""));
    k.record(s("u2"), s("second"));
    let text = k.to_json().unwrap();
    assert!(text.contains('\n'));
    let mut fresh = KnownIds::new();
    fresh.load_json(&text);
    assert_eq!(fresh.lookup(&s("u1")), Some(s("first \"quoted\"")));
    assert_eq!(fresh.lookup(&s("u2")), Some(s("second")));
    assert_eq!(fresh.to_json(), Some(text));
}

#[test]
fn store_json_round_trip_empty() {
    let k = KnownIds::new();
    let text = k.to_json().unwrap();
    let mut fresh = KnownIds::new();
    fresh.load_json(&text);
    assert_eq!(fresh.to_json(), Some(text));
}

#[test]
fn store_ignores_malformed_json() {
    let mut k = KnownIds::new();
    k.record(s("u1"), s("a"));
    k.load_json("{ not json");
    k.load_json("[1, 2]");
    assert_eq!(k.lookup(&s("u1")), Some(s("a")));
    k.load_json("{\"u1\": \"z\", \"u3\": \"c\"}");
    assert_eq!(k.lookup(&s("u1")), Some(s("a")));
    assert_eq!(k.lookup(&s("u3")), Some(s("c")));
}

#[test]
fn fetch_downloads_only_new_message() {
    let mut mb = MailBox::new(s("/tmp/box"), Some("{\"u1\": \"old\"}"));
    let remote = vec![
        message(1, "u1", "Subject: one\n"),
        message(2, "u2", "Subject: Two!\n"),
    ];
    assert_eq!(mb.next_action(&remote[0].info), FetchAction::Skip);
    assert_eq!(mb.next_action(&remote[1].info), FetchAction::Download);
    let files = mb.fetch(&remote);
    assert_eq!(files, vec![s(" Two.msg")]);
    assert_eq!(mb.lookup(&s("u1")), Some(s("old")));
    assert_eq!(mb.lookup(&s("u2")), Some(s(" Two")));
    let mut again = MailBox::new(s("/tmp/box"), None);
    again.load(&mb.save().unwrap());
    assert_eq!(again.lookup(&s("u1")), Some(s("old")));
    assert_eq!(again.lookup(&s("u2")), Some(s(" Two")));
    assert_eq!(again.save(), mb.save());
}

#[test]
fn fetch_names_file_after_id_without_subject() {
    let mut mb = MailBox::new(s("/tmp/box"), None);
    let files = mb.fetch(&vec![message(1, "AB12", "From: a@b.c\nTo: x@y.z\n")]);
    assert_eq!(files, vec![s("AB12.msg")]);
    assert_eq!(mb.lookup(&s("AB12")), Some(s("AB12")));
}

#[test]
fn fetch_twice_downloads_nothing_new() {
    let mut mb = MailBox::new(s("/tmp/box"), None);
    let remote = vec![
        message(1, "a", "Subject: x\n"),
        message(2, "b", "\n"),
        message(3, "c", "Subject: z\n"),
    ];
    let first = mb.fetch(&remote);
    assert_eq!(first, vec![s(" x.msg"), s("b.msg"), s(" z.msg")]);
    let before = mb.save();
    let second = mb.fetch(&remote);
    assert!(second.is_empty());
    assert_eq!(mb.save(), before);
}

#[test]
fn mailbox_keeps_path_and_ignores_bad_store() {
    let mb = MailBox::new(s("/tmp/box"), Some("garbage"));
    assert_eq!(mb.path(), "/tmp/box");
    assert!(!mb.contains(&s("u1")));
}

#[test]
fn names_and_files() {
    assert_eq!(name_for("Subject: Re: hi\n", &s("id")), s(" Re hi"));
    assert_eq!(name_for("", &s("id")), s("id"));
    assert_eq!(file_for(&s("name")), s("name.msg"));
}

#[test]
fn take_message_names_and_records() {
    let mut mb = MailBox::new(s("/tmp/box"), None);
    let info = RemoteMessageInfo { message_id: 1, unique_id: s("u9") };
    assert_eq!(mb.take_message(&info, "Subject: Hi there\n"), s(" Hi there"));
    assert_eq!(mb.lookup(&s("u9")), Some(s(" Hi there")));
    assert_eq!(mb.next_action(&info), FetchAction::Skip);
    assert_eq!(mb.take_message(&info, "Subject: other\n"), s(" other"));
    assert_eq!(mb.lookup(&s("u9")), Some(s(" Hi there")));
}

#[test]
fn fetch_names_file_after_id_in_longer_list() {
    let mut mb = MailBox::new(s("/tmp/box"), None);
    let files = mb.fetch(&vec![message(1, "k1", "Subject: a\n"), message(2, "k2", "X: y\n")]);
    assert_eq!(files, vec![s(" a.msg"), s("k2.msg")]);
    assert_eq!(mb.lookup(&s("k2")), Some(s("k2")));
}

#[test]
fn mail_dir_replaces_every_marker() {
    let c = Config::load(Some(Config { accounts: vec![], certificates: vec![], mail_dir: s("${HOME}/m/${HOME}") }));
    assert_eq!(c.get_mail_dir("/h"), "/h/m//h");
}

#[test]
fn record_into_mailbox() {
    let mut mb = MailBox::new(s("/tmp/box"), None);
    mb.record(s("u"), s("n"));
    mb.record(s("u"), s("m"));
    assert_eq!(mb.lookup(&s("u")), Some(s("n")));
}

#[test]
fn config_defaults() {
    let c = Config::load(None);
    assert!(c.accounts.is_empty());
    assert!(c.certificates.is_empty());
    assert_eq!(c.mail_dir, "${HOME}/mail");
    assert_eq!(c.get_mail_dir("/home/u"), "/home/u/mail");
    let kept = Config::load(Some(Config { accounts: vec![], certificates: vec![], mail_dir: s("/m") }));
    assert_eq!(kept.mail_dir, "/m");
}

#[test]
fn config_accounts() {
    let mut c = Config::load(None);
    c.add_account(account("a@x", "h1"));
    c.add_account(account("b@x", "h2"));
    c.add_account(account("a@x", "h3"));
    assert_eq!(c.accounts.len(), 2);
    assert_eq!(c.accounts[0].host, "h1");
    c.remove_account(s("a@x"));
    assert_eq!(c.accounts.len(), 1);
    assert_eq!(c.accounts[0].username, "b@x");
    c.remove_account(s("nobody"));
    assert_eq!(c.accounts.len(), 1);
}

#[test]
fn config_certificates() {
    let mut c = Config::load(None);
    c.add_certificate(s("ca"), s("one"));
    c.add_certificate(s("ca"), s("two"));
    c.add_certificate(s("cb"), s("three"));
    assert_eq!(c.certificates.len(), 2);
    assert_eq!(c.certificates[0].cert, "one");
    c.remove_certificate(s("ca"));
    assert_eq!(c.certificates.len(), 1);
    assert_eq!(c.certificates[0].name, "cb");
}
