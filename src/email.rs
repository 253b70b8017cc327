//! Mailbox records and the grouping of duplicate messages by a chosen key.
use vstd::prelude::*;
use vstd::utf8::encode_utf8;
use vstd::string::{StrSliceExecFns, StringExecFns};
use crate::digest::{sha256_hex, sha256_hex_of};
use crate::text::{decimal, decimal_of, str_eq, trim_of, trim_text};

verus! {

#[derive(Clone, Debug)]
pub struct ImapAccount {
    pub label: String,
    pub host: String,
    pub port: u16,
    pub username: String,
    pub password: String,
    /// One of `gmail`, `outlook`, `icloud` or `generic`.
    pub provider: String,
}

#[derive(Clone, Debug)]
pub struct MailboxInfo {
    pub name: String,
    pub message_count: u32,
}

#[derive(Clone, Debug)]
pub struct EmailHeader {
    pub uid: u32,
    pub message_id: String,
    pub subject: String,
    pub from: String,
    pub date: String,
    pub size: u32,
}

/// Messages that share one key.
#[derive(Clone, Debug)]
pub struct DuplicateGroup {
    pub key: String,
    pub method: String,
    pub emails: Vec<EmailHeader>,
}

#[derive(Clone, Debug)]
pub struct DedupResult {
    pub total_scanned: usize,
    pub duplicate_groups: Vec<DuplicateGroup>,
    /// Messages beyond the first of each group.
    pub total_duplicates: usize,
    pub dry_run: bool,
}

#[derive(Clone, Debug)]
pub struct TransferProgress {
    pub transferred: usize,
    pub total: usize,
    pub current_subject: String,
}

#[derive(Clone, Debug)]
pub struct TransferResult {
    pub transferred: usize,
    pub failed: usize,
    pub errors: Vec<String>,
}

/// What makes two messages duplicates.
#[derive(Clone, Copy, Debug, PartialEq, Eq, Structural)]
pub enum DedupMethod {
    MessageId,
    SubjectDateHash,
    SizeSubject,
}

/// IMAP server and port of a known provider; an empty host for any other.
pub fn imap_defaults(provider: &str) -> (r: (&'static str, u16))
    ensures
        r.1 == 993,
        provider@ == "gmail"@ ==> r.0@ == "imap.gmail.com"@,
        provider@ != "gmail"@ && provider@ == "outlook"@ ==> r.0@ == "outlook.office365.com"@,
        provider@ != "gmail"@ && provider@ != "outlook"@ && provider@ == "icloud"@ ==> r.0@
            == "imap.mail.me.com"@,
        provider@ != "gmail"@ && provider@ != "outlook"@ && provider@ != "icloud"@ ==> r.0@ == ""@,
{
    if str_eq(provider, "gmail") {
        ("imap.gmail.com", 993)
    } else if str_eq(provider, "outlook") {
        ("outlook.office365.com", 993)
    } else if str_eq(provider, "icloud") {
        ("imap.mail.me.com", 993)
    } else {
        ("", 993)
    }
}

pub open spec fn method_name_of(m: DedupMethod) -> Seq<char> {
    match m {
        DedupMethod::MessageId => "Message-ID"@,
        DedupMethod::SubjectDateHash => "Subject+Date Hash"@,
        DedupMethod::SizeSubject => "Size+Subject"@,
    }
}

/// The key of a message under a method; `None` where the fields it reads are blank.
pub open spec fn key_of(h: EmailHeader, m: DedupMethod) -> Option<Seq<char>> {
    match m {
        DedupMethod::MessageId => {
            let mid = trim_of(h.message_id@);
            if mid.len() == 0 { None } else { Some(mid) }
        },
        DedupMethod::SubjectDateHash => {
            let input = trim_of(h.subject@) + "|"@ + trim_of(h.date@);
            if input == "|"@ { None } else { Some(sha256_hex_of(encode_utf8(input))) }
        },
        DedupMethod::SizeSubject => {
            let subject = trim_of(h.subject@);
            if subject.len() == 0 { None } else { Some(decimal_of(h.size as nat) + "|"@ + subject) }
        },
    }
}

/// The messages of `hs` whose key is `k`, in their order.
pub open spec fn with_key(hs: Seq<EmailHeader>, m: DedupMethod, k: Seq<char>) -> Seq<EmailHeader>
    decreases hs.len(),
{
    if hs.len() == 0 {
        hs
    } else if key_of(hs.last(), m) == Some(k) {
        with_key(hs.drop_last(), m, k).push(hs.last())
    } else {
        with_key(hs.drop_last(), m, k)
    }
}

pub fn method_name(m: DedupMethod) -> (r: &'static str)
    ensures
        r@ == method_name_of(m),
{
    match m {
        DedupMethod::MessageId => "Message-ID",
        DedupMethod::SubjectDateHash => "Subject+Date Hash",
        DedupMethod::SizeSubject => "Size+Subject",
    }
}

/// The key of one message under a method.
pub fn dedup_key(email: &EmailHeader, method: DedupMethod) -> (r: Option<String>)
    ensures
        match r {
            Some(s) => key_of(*email, method) == Some(s@),
            None => key_of(*email, method) is None,
        },
{
    match method {
        DedupMethod::MessageId => {
            let mid = trim_text(email.message_id.as_str());
            if mid.as_str().unicode_len() == 0 {
                None
            } else {
                Some(mid)
            }
        },
        DedupMethod::SubjectDateHash => {
            let subject = trim_text(email.subject.as_str());
            let date = trim_text(email.date.as_str());
            let input = subject.concat("|").concat(date.as_str());
            if str_eq(input.as_str(), "|") {
                None
            } else {
                Some(sha256_hex(input.as_str().as_bytes()))
            }
        },
        DedupMethod::SizeSubject => {
            let subject = trim_text(email.subject.as_str());
            if subject.as_str().unicode_len() == 0 {
                None
            } else {
                Some(decimal(email.size as u64).concat("|").concat(subject.as_str()))
            }
        },
    }
}

fn copy_header(h: &EmailHeader) -> (r: EmailHeader)
    ensures
        r == *h,
{
    EmailHeader {
        uid: h.uid,
        message_id: h.message_id.clone(),
        subject: h.subject.clone(),
        from: h.from.clone(),
        date: h.date.clone(),
        size: h.size,
    }
}

/// Messages whose key already occurred earlier in the list.
pub open spec fn repeats(hs: Seq<EmailHeader>, m: DedupMethod) -> int
    decreases hs.len(),
{
    if hs.len() == 0 {
        0
    } else {
        repeats(hs.drop_last(), m) + if key_of(hs.last(), m) is Some && exists|t: int|
            0 <= t < hs.len() - 1 && key_of(#[trigger] hs[t], m) == key_of(hs.last(), m) {
            1int
        } else {
            0int
        }
    }
}

/// The computed keys stand beside the messages they belong to.
pub open spec fn keys_match(keys: Seq<Option<String>>, hs: Seq<EmailHeader>, m: DedupMethod) -> bool {
    keys.len() == hs.len() && forall|j: int| 0 <= j < hs.len() ==> match #[trigger] keys[j] {
        Some(s) => key_of(hs[j], m) == Some(s@),
        None => key_of(hs[j], m) is None,
    }
}

fn occurs_before(keys: &Vec<Option<String>>, i: usize, k: &String, Ghost(hs): Ghost<Seq<EmailHeader>>, Ghost(m): Ghost<DedupMethod>) -> (r: bool)
    requires
        keys_match(keys@, hs, m),
        i <= keys@.len(),
    ensures
        r == exists|t: int| 0 <= t < i && key_of(#[trigger] hs[t], m) == Some(k@),
{
    let mut j: usize = 0;
    while j < i
        invariant
            keys_match(keys@, hs, m),
            j <= i <= keys@.len(),
            forall|t: int| 0 <= t < j ==> key_of(#[trigger] hs[t], m) != Some(k@),
        decreases i - j,
    {
        if let Some(other) = &keys[j] {
            if str_eq(other.as_str(), k.as_str()) {
                assert(key_of(hs[j as int], m) == Some(k@));
                return true;
            }
        }
        j = j + 1;
    }
    false
}

fn members_with_key(headers: &[EmailHeader], keys: &Vec<Option<String>>, k: &String, Ghost(m): Ghost<DedupMethod>) -> (r: Vec<EmailHeader>)
    requires
        keys_match(keys@, headers@, m),
    ensures
        r@ == with_key(headers@, m, k@),
{
    let n = headers.len();
    let mut members: Vec<EmailHeader> = Vec::new();
    let mut t: usize = 0;
    while t < n
        invariant
            n == headers@.len(),
            keys_match(keys@, headers@, m),
            t <= n,
            members@ == with_key(headers@.take(t as int), m, k@),
        decreases n - t,
    {
        let ghost pre = headers@.take(t as int);
        assert(headers@.take(t + 1).drop_last() == pre);
        assert(headers@.take(t + 1).last() == headers@[t as int]);
        let mut hit = false;
        if let Some(other) = &keys[t] {
            hit = str_eq(other.as_str(), k.as_str());
        }
        if hit {
            members.push(copy_header(&headers[t]));
        }
        t = t + 1;
    }
    assert(headers@.take(n as int) == headers@);
    members
}

/// Groups the messages that share a key under `method`; only keys held by two
/// or more messages form a group, in the order in which each key first occurs.
#[verifier::rlimit(60)]
pub fn find_duplicates(headers: &[EmailHeader], method: DedupMethod) -> (r: DedupResult)
    ensures
        r.total_scanned == headers@.len(),
        r.dry_run,
        forall|g: int| 0 <= g < r.duplicate_groups@.len() ==> {
            let grp = #[trigger] r.duplicate_groups@[g];
            &&& grp.emails@ == with_key(headers@, method, grp.key@)
            &&& grp.emails@.len() >= 2
            &&& grp.method@ == method_name_of(method)
        },
        forall|g: int, h: int|
            0 <= g < h < r.duplicate_groups@.len() ==> #[trigger] r.duplicate_groups@[g].key@
                != #[trigger] r.duplicate_groups@[h].key@,
        forall|i: int|
            0 <= i < headers@.len() && #[trigger] key_of(headers@[i], method) is Some && with_key(
                headers@,
                method,
                key_of(headers@[i], method)->Some_0,
            ).len() >= 2 ==> exists|g: int|
                0 <= g < r.duplicate_groups@.len() && #[trigger] r.duplicate_groups@[g].key@ == key_of(
                    headers@[i],
                    method,
                )->Some_0,
        r.total_duplicates == repeats(headers@, method),
{
    let n = headers.len();
    let mut keys: Vec<Option<String>> = Vec::new();
    let mut i: usize = 0;
    while i < n
        invariant
            n == headers@.len(),
            i <= n,
            keys_match(keys@, headers@.take(i as int), method),
        decreases n - i,
    {
        keys.push(dedup_key(&headers[i], method));
        i = i + 1;
        assert forall|j: int| 0 <= j < i implies headers@.take(i as int)[j] == headers@[j] by {}
    }
    assert(headers@.take(n as int) == headers@);
    let mut groups: Vec<DuplicateGroup> = Vec::new();
    let mut total: usize = 0;
    let mut i: usize = 0;
    while i < n
        invariant
            n == headers@.len(),
            i <= n,
            keys_match(keys@, headers@, method),
            forall|g: int| 0 <= g < groups@.len() ==> {
                let grp = #[trigger] groups@[g];
                &&& grp.emails@ == with_key(headers@, method, grp.key@)
                &&& grp.emails@.len() >= 2
                &&& grp.method@ == method_name_of(method)
                &&& exists|j: int| 0 <= j < i && key_of(#[trigger] headers@[j], method) == Some(grp.key@)
            },
            forall|g: int, h: int|
                0 <= g < h < groups@.len() ==> #[trigger] groups@[g].key@ != #[trigger] groups@[h].key@,
            forall|j: int|
                0 <= j < i && #[trigger] key_of(headers@[j], method) is Some && with_key(
                    headers@,
                    method,
                    key_of(headers@[j], method)->Some_0,
                ).len() >= 2 ==> exists|g: int|
                    0 <= g < groups@.len() && #[trigger] groups@[g].key@ == key_of(
                        headers@[j],
                        method,
                    )->Some_0,
            total == repeats(headers@.take(i as int), method),
            total <= i,
        decreases n - i,
    {
        let ghost groups0 = groups@;
        let ghost pre = headers@.take(i as int);
        assert(headers@.take(i + 1).drop_last() == pre);
        assert(headers@.take(i + 1).last() == headers@[i as int]);
        assert forall|t: int| 0 <= t < i implies #[trigger] headers@.take(i + 1)[t] == headers@[t] by {}
        match &keys[i] {
            Some(k) => {
                let seen = occurs_before(&keys, i, k, Ghost(headers@), Ghost(method));
                if seen {
                    let ghost t = choose|t: int| 0 <= t < i && key_of(#[trigger] headers@[t], method) == Some(k@);
                    assert(headers@.take(i + 1)[t] == headers@[t]);
                    total = total + 1;
                } else {
                    assert forall|t: int| 0 <= t < i implies key_of(#[trigger] headers@.take(i + 1)[t], method)
                        != key_of(headers@[i as int], method) by {
                        assert(headers@.take(i + 1)[t] == headers@[t]);
                    }
                    let members = members_with_key(headers, &keys, k, Ghost(method));
                    if members.len() >= 2 {
                        let grp = DuplicateGroup {
                            key: k.clone(),
                            method: method_name(method).to_string(),
                            emails: members,
                        };
                        groups.push(grp);
                        assert forall|g: int, h: int|
                            0 <= g < h < groups@.len() implies #[trigger] groups@[g].key@
                                != #[trigger] groups@[h].key@ by {
                            if h == groups@.len() - 1 {
                                assert(groups@[g] == groups0[g]);
                                let jj = choose|jj: int|
                                    0 <= jj < i && key_of(#[trigger] headers@[jj], method) == Some(groups0[g].key@);
                            }
                        }
                    }
                }
                assert forall|g: int| 0 <= g < groups0.len() implies groups@[g] == groups0[g] by {}
                assert forall|j: int|
                    0 <= j < i + 1 && #[trigger] key_of(headers@[j], method) is Some && with_key(
                        headers@,
                        method,
                        key_of(headers@[j], method)->Some_0,
                    ).len() >= 2 implies exists|g: int|
                        0 <= g < groups@.len() && #[trigger] groups@[g].key@ == key_of(
                            headers@[j],
                            method,
                        )->Some_0 by {
                    if j == i {
                        if seen {
                            let t = choose|t: int| 0 <= t < i && key_of(#[trigger] headers@[t], method) == Some(k@);
                            let g = choose|g: int|
                                0 <= g < groups0.len() && #[trigger] groups0[g].key@ == key_of(headers@[t], method)->Some_0;
                        } else {
                            assert(groups@[groups@.len() - 1].key@ == k@);
                        }
                    } else {
                        let g = choose|g: int|
                            0 <= g < groups0.len() && #[trigger] groups0[g].key@ == key_of(headers@[j], method)->Some_0;
                    }
                }
                assert forall|g: int| 0 <= g < groups@.len() implies ({
                    let grp = #[trigger] groups@[g];
                    exists|j: int| 0 <= j < i + 1 && key_of(#[trigger] headers@[j], method) == Some(grp.key@)
                }) by {
                    if g < groups0.len() {
                        let jj = choose|jj: int|
                            0 <= jj < i && key_of(#[trigger] headers@[jj], method) == Some(groups0[g].key@);
                    } else {
                        assert(key_of(headers@[i as int], method) == Some(k@));
                    }
                }
            },
            None => {
                assert forall|j: int|
                    0 <= j < i + 1 && #[trigger] key_of(headers@[j], method) is Some && with_key(
                        headers@,
                        method,
                        key_of(headers@[j], method)->Some_0,
                    ).len() >= 2 implies exists|g: int|
                        0 <= g < groups@.len() && #[trigger] groups@[g].key@ == key_of(
                            headers@[j],
                            method,
                        )->Some_0 by {
                    if j < i {
                        let g = choose|g: int|
                            0 <= g < groups0.len() && #[trigger] groups0[g].key@ == key_of(headers@[j], method)->Some_0;
                    }
                }
                assert forall|g: int| 0 <= g < groups@.len() implies ({
                    let grp = #[trigger] groups@[g];
                    exists|j: int| 0 <= j < i + 1 && key_of(#[trigger] headers@[j], method) == Some(grp.key@)
                }) by {
                    let jj = choose|jj: int|
                        0 <= jj < i && key_of(#[trigger] headers@[jj], method) == Some(groups0[g].key@);
                }
            },
        }
        i = i + 1;
    }
    assert(headers@.take(n as int) == headers@);
    DedupResult { total_scanned: n, duplicate_groups: groups, total_duplicates: total, dry_run: true }
}

} // verus!
