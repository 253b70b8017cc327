//! The line-oriented output of macOS `diskutil`: the disk identifiers of
//! `diskutil list external physical`, and the fields of `diskutil info <disk>`
//! that decide whether a disk may be offered.
use vstd::prelude::*;
use vstd::string::{StrSliceExecFns, StringExecFns};
use crate::drives::{DriveInfo, all_offerable, drive_view, drive_views, human_size, human_size_of, is_denylisted, is_denylisted_device};
use crate::text::{contains, is_whitespace, is_whitespace_char, is_prefix, occurs_in, starts_with, trim_of, trim_text};

verus! {

/// What `diskutil info` says of one disk.
#[derive(Clone, Debug)]
pub struct DiskutilInfo {
    pub media_name: Option<String>,
    pub size: u64,
    pub removable_media: bool,
    /// Marked virtual or internal: part of the running system.
    pub is_system: bool,
}

/// The fields of a `DiskutilInfo`, as plain values.
pub open spec fn info_view(d: DiskutilInfo) -> (Option<Seq<char>>, u64, bool, bool) {
    (
        match d.media_name {
            Some(n) => Some(n@),
            None => None,
        },
        d.size,
        d.removable_media,
        d.is_system,
    )
}

pub open spec fn is_space(c: char) -> bool {
    is_whitespace(c)
}

pub open spec fn skip_spaces(s: Seq<char>) -> Seq<char>
    decreases s.len(),
{
    if s.len() > 0 && is_space(s[0]) {
        skip_spaces(s.drop_first())
    } else {
        s
    }
}

pub open spec fn take_word(s: Seq<char>) -> Seq<char>
    decreases s.len(),
{
    if s.len() == 0 || is_space(s[0]) {
        Seq::empty()
    } else {
        seq![s[0]] + take_word(s.drop_first())
    }
}

/// The first word of `s`, between whitespace.
pub open spec fn first_word(s: Seq<char>) -> Seq<char> {
    take_word(skip_spaces(s))
}

/// The text of `s` before its first `c`, or all of `s`.
pub open spec fn before_char(s: Seq<char>, c: char) -> Seq<char>
    decreases s.len(),
{
    if s.len() == 0 || s[0] == c {
        Seq::empty()
    } else {
        seq![s[0]] + before_char(s.drop_first(), c)
    }
}

/// The text of `s` after its first `c`, if it has one.
pub open spec fn after_char(s: Seq<char>, c: char) -> Option<Seq<char>>
    decreases s.len(),
{
    if s.len() == 0 {
        None
    } else if s[0] == c {
        Some(s.drop_first())
    } else {
        after_char(s.drop_first(), c)
    }
}

pub open spec fn digit_value(c: char) -> int {
    (c as u32) - ('0' as u32)
}

pub open spec fn all_digits(s: Seq<char>) -> bool {
    forall|i: int| 0 <= i < s.len() ==> '0' <= #[trigger] s[i] <= '9'
}

pub open spec fn digits_value(s: Seq<char>) -> int
    decreases s.len(),
{
    if s.len() == 0 {
        0
    } else {
        digits_value(s.drop_last()) * 10 + digit_value(s.last())
    }
}

/// What `str::parse::<u64>` accepts: an optional `+` and one or more digits
/// whose value fits.
pub open spec fn parse_u64_of(s: Seq<char>) -> Option<u64> {
    let d = if s.len() > 0 && s[0] == '+' { s.drop_first() } else { s };
    if d.len() > 0 && all_digits(d) && digits_value(d) <= u64::MAX {
        Some(digits_value(d) as u64)
    } else {
        None
    }
}

/// One line of `diskutil info` applied to what the earlier lines said.
pub open spec fn apply_info_line(
    info: (Option<Seq<char>>, u64, bool, bool),
    line: Seq<char>,
) -> (Option<Seq<char>>, u64, bool, bool) {
    let l = trim_of(line);
    if is_prefix("Media Name:"@, l) {
        (Some(trim_of(before_char(l.subrange(11, l.len() as int), ':'))), info.1, info.2, info.3)
    } else if is_prefix("Disk Size:"@, l) {
        match after_char(l, '(') {
            Some(rest) => {
                let word = first_word(before_char(rest, '('));
                if word.len() == 0 {
                    info
                } else {
                    (info.0, match parse_u64_of(word) {
                        Some(n) => n,
                        None => 0,
                    }, info.2, info.3)
                }
            },
            None => info,
        }
    } else if is_prefix("Removable Media:"@, l) {
        (info.0, info.1, occurs_in("Removable"@, l.subrange(16, l.len() as int)), info.3)
    } else if is_prefix("Virtual:"@, l) || is_prefix("Internal:"@, l) {
        (info.0, info.1, info.2, info.3 || occurs_in("Yes"@, l))
    } else {
        info
    }
}

/// Lines ended so far, and the line still open, after reading `t`.
pub open spec fn lines_acc(t: Seq<char>) -> (Seq<Seq<char>>, Seq<char>)
    decreases t.len(),
{
    if t.len() == 0 {
        (Seq::empty(), Seq::empty())
    } else {
        let (done, open) = lines_acc(t.drop_last());
        if t.last() == '\n' {
            (done.push(strip_cr(open)), Seq::empty())
        } else {
            (done, open.push(t.last()))
        }
    }
}

/// A line without the `\r` of a `\r\n` ending.
pub open spec fn strip_cr(l: Seq<char>) -> Seq<char> {
    if l.len() > 0 && l.last() == '\r' {
        l.drop_last()
    } else {
        l
    }
}

/// The lines of a text as `str::lines` gives them.
pub open spec fn lines_of(t: Seq<char>) -> Seq<Seq<char>> {
    let (done, open) = lines_acc(t);
    if open.len() == 0 {
        done
    } else {
        done.push(open)
    }
}

pub open spec fn empty_info() -> (Option<Seq<char>>, u64, bool, bool) {
    (None, 0, false, false)
}

/// All the lines applied in order.
pub open spec fn info_of(lines: Seq<Seq<char>>) -> (Option<Seq<char>>, u64, bool, bool)
    decreases lines.len(),
{
    if lines.len() == 0 {
        empty_info()
    } else {
        apply_info_line(info_of(lines.drop_last()), lines.last())
    }
}

/// The disk identifiers that lines starting with `/dev/disk` begin with.
pub open spec fn identifiers_of(lines: Seq<Seq<char>>) -> Seq<Seq<char>>
    decreases lines.len(),
{
    if lines.len() == 0 {
        Seq::empty()
    } else if is_prefix("/dev/disk"@, lines.last()) {
        identifiers_of(lines.drop_last()).push(first_word(lines.last()))
    } else {
        identifiers_of(lines.drop_last())
    }
}

pub fn is_space_char(c: char) -> (r: bool)
    ensures
        r == is_space(c),
{
    is_whitespace_char(c)
}

/// The first word of `s`.
pub fn first_word_of(s: &str) -> (r: String)
    ensures
        r@ == first_word(s@),
{
    let n = s.unicode_len();
    let mut i: usize = 0;
    assert(s@.subrange(0, n as int) == s@);
    while i < n && is_space_char(s.get_char(i))
        invariant
            n == s@.len(),
            i <= n,
            skip_spaces(s@) == skip_spaces(s@.subrange(i as int, n as int)),
        decreases n - i,
    {
        assert(s@.subrange(i as int, n as int).drop_first() == s@.subrange(i + 1, n as int));
        i = i + 1;
    }
    assert(skip_spaces(s@) == s@.subrange(i as int, n as int));
    let mut j: usize = i;
    while j < n && !is_space_char(s.get_char(j))
        invariant
            n == s@.len(),
            i <= j <= n,
            take_word(s@.subrange(i as int, n as int)) == s@.subrange(i as int, j as int) + take_word(
                s@.subrange(j as int, n as int),
            ),
        decreases n - j,
    {
        let ghost rest = s@.subrange(j as int, n as int);
        assert(rest.drop_first() == s@.subrange(j + 1, n as int));
        assert(take_word(rest) == seq![rest[0]] + take_word(rest.drop_first()));
        assert(s@.subrange(i as int, j + 1) == s@.subrange(i as int, j as int) + seq![rest[0]]);
        assert(s@.subrange(i as int, j as int) + (seq![rest[0]] + take_word(rest.drop_first())) == s@.subrange(
            i as int,
            j + 1,
        ) + take_word(s@.subrange(j + 1, n as int)));
        j = j + 1;
    }
    assert(take_word(s@.subrange(j as int, n as int)) == Seq::<char>::empty());
    assert(s@.subrange(i as int, j as int) + Seq::<char>::empty() == s@.subrange(i as int, j as int));
    s.substring_char(i, j).to_string()
}

/// The text of `s` before its first `c`, and the text after it if `c` occurs.
pub fn split_at_char(s: &str, c: char) -> (r: (String, Option<String>))
    ensures
        r.0@ == before_char(s@, c),
        match r.1 {
            Some(a) => after_char(s@, c) == Some(a@),
            None => after_char(s@, c) is None,
        },
{
    let n = s.unicode_len();
    let mut i: usize = 0;
    assert(s@.subrange(0, n as int) == s@);
    while i < n && s.get_char(i) != c
        invariant
            n == s@.len(),
            i <= n,
            before_char(s@, c) == s@.subrange(0, i as int) + before_char(s@.subrange(i as int, n as int), c),
            after_char(s@, c) == after_char(s@.subrange(i as int, n as int), c),
        decreases n - i,
    {
        let ghost rest = s@.subrange(i as int, n as int);
        assert(rest.drop_first() == s@.subrange(i + 1, n as int));
        assert(s@.subrange(0, i + 1) == s@.subrange(0, i as int) + seq![rest[0]]);
        assert(s@.subrange(0, i as int) + (seq![rest[0]] + before_char(rest.drop_first(), c)) == s@.subrange(
            0,
            i + 1,
        ) + before_char(s@.subrange(i + 1, n as int), c));
        i = i + 1;
    }
    let ghost rest = s@.subrange(i as int, n as int);
    assert(s@.subrange(0, i as int) + Seq::<char>::empty() == s@.subrange(0, i as int));
    let before = s.substring_char(0, i).to_string();
    if i == n {
        (before, None)
    } else {
        assert(rest.drop_first() == s@.subrange(i + 1, n as int));
        (before, Some(s.substring_char(i + 1, n).to_string()))
    }
}

/// `str::parse::<u64>` on a word.
pub fn parse_u64(s: &str) -> (r: Option<u64>)
    ensures
        r == parse_u64_of(s@),
{
    let n = s.unicode_len();
    let start: usize = if n > 0 && s.get_char(0) == '+' { 1 } else { 0 };
    let ghost d = if s@.len() > 0 && s@[0] == '+' { s@.drop_first() } else { s@ };
    assert(d == s@.subrange(start as int, n as int));
    if start == n {
        return None;
    }
    let mut value: u64 = 0;
    let mut i: usize = start;
    while i < n
        invariant
            n == s@.len(),
            start <= i <= n,
            d == s@.subrange(start as int, n as int),
            d == (if s@.len() > 0 && s@[0] == '+' { s@.drop_first() } else { s@ }),
            all_digits(s@.subrange(start as int, i as int)),
            value == digits_value(s@.subrange(start as int, i as int)),
        decreases n - i,
    {
        let c = s.get_char(i);
        let ghost pre = s@.subrange(start as int, i as int);
        let ghost cur = s@.subrange(start as int, i + 1);
        assert(cur.drop_last() == pre);
        assert(cur.last() == c);
        if c < '0' || c > '9' {
            assert(d[i - start] == s@[i as int]);
            assert(!('0' <= d[i - start] <= '9'));
            assert(!all_digits(d));
            return None;
        }
        let digit = (c as u32 - '0' as u32) as u64;
        assert(digits_value(cur) == digits_value(pre) * 10 + digit);
        if value > (u64::MAX - digit) / 10 {
            proof {
                lemma_digits_grow(d, i - start + 1);
                assert(d.subrange(0, i - start + 1) =~= cur);
                assert(digits_value(cur) > u64::MAX) by (nonlinear_arith)
                    requires
                        digits_value(cur) == value * 10 + digit,
                        value > (u64::MAX - digit) / 10,
                        digit <= 9,
                ;
            }
            return None;
        }
        assert(value * 10 + digit <= u64::MAX) by (nonlinear_arith)
            requires
                value <= (u64::MAX - digit) / 10,
                digit <= 9,
        ;
        value = value * 10 + digit;
        i = i + 1;
    }
    Some(value)
}

/// The value of a digit prefix never exceeds the value of the whole.
proof fn lemma_digits_grow(d: Seq<char>, k: int)
    requires
        0 <= k <= d.len(),
    ensures
        all_digits(d) ==> digits_value(d.subrange(0, k)) <= digits_value(d),
    decreases d.len() - k,
{
    if k == d.len() {
        assert(d.subrange(0, k) =~= d);
    }
    if k < d.len() && all_digits(d) {
        lemma_digits_grow(d, k + 1);
        let p = d.subrange(0, k + 1);
        assert(p.drop_last() == d.subrange(0, k));
        assert('0' <= p.last() <= '9');
        assert(digits_value(d.subrange(0, k)) >= 0) by {
            lemma_digits_nonneg(d.subrange(0, k));
        }
        assert(digits_value(p) >= digits_value(d.subrange(0, k))) by (nonlinear_arith)
            requires
                digits_value(p) == digits_value(d.subrange(0, k)) * 10 + digit_value(p.last()),
                digits_value(d.subrange(0, k)) >= 0,
                digit_value(p.last()) >= 0,
        ;
    }
}

proof fn lemma_digits_nonneg(s: Seq<char>)
    requires
        all_digits(s),
    ensures
        digits_value(s) >= 0,
    decreases s.len(),
{
    if s.len() > 0 {
        assert(all_digits(s.drop_last())) by {
            assert forall|i: int| 0 <= i < s.drop_last().len() implies '0' <= #[trigger] s.drop_last()[i] <= '9' by {
                assert(s.drop_last()[i] == s[i]);
            }
        }
        lemma_digits_nonneg(s.drop_last());
        assert('0' <= s[s.len() - 1] <= '9');
    }
}

pub open spec fn views(v: Seq<String>) -> Seq<Seq<char>> {
    v.map_values(|s: String| s@)
}

/// The lines of a text, as `str::lines` splits it.
pub fn split_lines(text: &str) -> (r: Vec<String>)
    ensures
        views(r@) == lines_of(text@),
{
    let n = text.unicode_len();
    let mut out: Vec<String> = Vec::new();
    let mut start: usize = 0;
    let mut i: usize = 0;
    while i < n
        invariant
            n == text@.len(),
            start <= i <= n,
            lines_acc(text@.take(i as int)) == (views(out@), text@.subrange(start as int, i as int)),
        decreases n - i,
    {
        let ghost pre = text@.take(i as int);
        let ghost cur = text@.take(i + 1);
        assert(cur.drop_last() == pre);
        assert(cur.last() == text@[i as int]);
        let c = text.get_char(i);
        if c == '\n' {
            let ghost open = text@.subrange(start as int, i as int);
            let end: usize = if i > start && text.get_char(i - 1) == '\r' { i - 1 } else { i };
            assert(text@.subrange(start as int, end as int) == strip_cr(open));
            let line = text.substring_char(start, end).to_string();
            let ghost before = out@;
            out.push(line);
            assert(views(out@) =~= views(before).push(strip_cr(open)));
            start = i + 1;
            assert(text@.subrange(start as int, i + 1) =~= Seq::<char>::empty());
        } else {
            assert(text@.subrange(start as int, i + 1) =~= text@.subrange(start as int, i as int).push(c));
        }
        i = i + 1;
    }
    assert(text@.take(n as int) == text@);
    if start < n {
        let line = text.substring_char(start, n).to_string();
        let ghost before = out@;
        out.push(line);
        assert(views(out@) =~= views(before).push(text@.subrange(start as int, n as int)));
    }
    out
}

/// Applies one line of `diskutil info` to what the earlier lines said.
pub fn apply_info(info: DiskutilInfo, line: &str) -> (r: DiskutilInfo)
    ensures
        info_view(r) == apply_info_line(info_view(info), line@),
{
    let t = trim_text(line);
    let l = t.as_str();
    if starts_with(l, "Media Name:") {
        proof { reveal_strlit("Media Name:"); }
        let rest = l.substring_char(11, l.unicode_len());
        let (field, _) = split_at_char(rest, ':');
        DiskutilInfo { media_name: Some(trim_text(field.as_str())), ..info }
    } else if starts_with(l, "Disk Size:") {
        let (_, after) = split_at_char(l, '(');
        match after {
            Some(rest) => {
                let (part, _) = split_at_char(rest.as_str(), '(');
                let word = first_word_of(part.as_str());
                if word.as_str().unicode_len() == 0 {
                    info
                } else {
                    let size = match parse_u64(word.as_str()) {
                        Some(n) => n,
                        None => 0,
                    };
                    DiskutilInfo { size, ..info }
                }
            },
            None => info,
        }
    } else if starts_with(l, "Removable Media:") {
        proof { reveal_strlit("Removable Media:"); }
        let value = l.substring_char(16, l.unicode_len());
        DiskutilInfo { removable_media: contains(value, "Removable"), ..info }
    } else if starts_with(l, "Virtual:") || starts_with(l, "Internal:") {
        let yes = contains(l, "Yes");
        DiskutilInfo { is_system: info.is_system || yes, ..info }
    } else {
        info
    }
}

/// What `diskutil info <disk>` prints, read line by line.
pub fn parse_info(text: &str) -> (r: DiskutilInfo)
    ensures
        info_view(r) == info_of(lines_of(text@)),
{
    let lines = split_lines(text);
    let mut info = DiskutilInfo { media_name: None, size: 0, removable_media: false, is_system: false };
    let mut i: usize = 0;
    while i < lines.len()
        invariant
            i <= lines@.len(),
            info_view(info) == info_of(views(lines@).take(i as int)),
        decreases lines@.len() - i,
    {
        let ghost cur = views(lines@).take(i + 1);
        assert(cur.drop_last() == views(lines@).take(i as int));
        assert(cur.last() == lines@[i as int]@);
        info = apply_info(info, lines[i].as_str());
        i = i + 1;
    }
    assert(views(lines@).take(lines@.len() as int) == views(lines@));
    info
}

/// The disk identifiers in what `diskutil list external physical` prints.
pub fn disk_identifiers(text: &str) -> (r: Vec<String>)
    ensures
        views(r@) == identifiers_of(lines_of(text@)),
{
    let lines = split_lines(text);
    let mut out: Vec<String> = Vec::new();
    let mut i: usize = 0;
    while i < lines.len()
        invariant
            i <= lines@.len(),
            views(out@) == identifiers_of(views(lines@).take(i as int)),
        decreases lines@.len() - i,
    {
        let ghost cur = views(lines@).take(i + 1);
        assert(cur.drop_last() == views(lines@).take(i as int));
        assert(cur.last() == lines@[i as int]@);
        if starts_with(lines[i].as_str(), "/dev/disk") {
            let word = first_word_of(lines[i].as_str());
            let ghost before = out@;
            out.push(word);
            assert(views(out@) =~= views(before).push(first_word(lines@[i as int]@)));
        }
        i = i + 1;
    }
    assert(views(lines@).take(lines@.len() as int) == views(lines@));
    out
}

pub open spec fn diskutil_accepts(device: Seq<char>, info: (Option<Seq<char>>, u64, bool, bool)) -> bool {
    !info.3 && !is_denylisted(device)
}

/// The catalog entry of an accepted external disk.
pub open spec fn diskutil_entry(device: Seq<char>, info: (Option<Seq<char>>, u64, bool, bool)) -> (Seq<char>, Seq<char>, u64, Seq<char>, bool, bool) {
    (device, match info.0 {
        Some(n) => n,
        None => "USB Drive"@,
    }, info.1, human_size_of(info.1), true, false)
}

/// The entries of the accepted disks among the first `k`, in order.
pub open spec fn diskutil_offer(devices: Seq<String>, infos: Seq<String>, k: int) -> Seq<(Seq<char>, Seq<char>, u64, Seq<char>, bool, bool)>
    decreases k,
{
    if k <= 0 {
        Seq::empty()
    } else {
        let info = info_of(lines_of(infos[k - 1]@));
        if diskutil_accepts(devices[k - 1]@, info) {
            diskutil_offer(devices, infos, k - 1).push(diskutil_entry(devices[k - 1]@, info))
        } else {
            diskutil_offer(devices, infos, k - 1)
        }
    }
}

/// The catalog's entry for a disk that `diskutil` lists as external, or `None`
/// where it is virtual, internal or on the denylist.
pub fn drive_from_diskutil(device: &str, info: &DiskutilInfo) -> (r: Option<DriveInfo>)
    ensures
        r is Some <==> diskutil_accepts(device@, info_view(*info)),
        r is Some ==> drive_view(r->Some_0) == diskutil_entry(device@, info_view(*info)),
        r is Some ==> {
            let x = r->Some_0;
            &&& x.device@ == device@
            &&& x.name@ == (match info.media_name {
                Some(n) => n@,
                None => "USB Drive"@,
            })
            &&& x.size == info.size
            &&& x.size_human@ == human_size_of(info.size)
            &&& x.removable
            &&& !x.is_system
        },
{
    if info.is_system || is_denylisted_device(device) {
        return None;
    }
    let name = match &info.media_name {
        Some(n) => n.clone(),
        None => "USB Drive".to_string(),
    };
    Some(DriveInfo {
        device: device.to_string(),
        name,
        size: info.size,
        size_human: human_size(info.size),
        removable: true,
        is_system: false,
    })
}

/// `d` is one of the listed disks.
pub open spec fn listed(devices: Seq<String>, d: DriveInfo) -> bool {
    exists|k: int| 0 <= k < devices.len() && (#[trigger] devices[k])@ == d.device@
}

/// The removable drives among external disks, from each disk's identifier and
/// the text `diskutil info` printed for it (`infos[i]` belongs to `devices[i]`).
pub fn usb_drives_from_diskutil(devices: &Vec<String>, infos: &Vec<String>) -> (r: Vec<DriveInfo>)
    requires
        devices@.len() == infos@.len(),
    ensures
        drive_views(r@) == diskutil_offer(devices@, infos@, devices@.len() as int),
        all_offerable(r@),
        forall|i: int| 0 <= i < r@.len() ==> listed(devices@, #[trigger] r@[i]),
{
    let mut out: Vec<DriveInfo> = Vec::new();
    let mut k: usize = 0;
    while k < devices.len()
        invariant
            devices@.len() == infos@.len(),
            k <= devices@.len(),
            all_offerable(out@),
            drive_views(out@) == diskutil_offer(devices@, infos@, k as int),
            forall|i: int| 0 <= i < out@.len() ==> listed(devices@, #[trigger] out@[i]),
        decreases devices@.len() - k,
    {
        let info = parse_info(infos[k].as_str());
        if let Some(d) = drive_from_diskutil(devices[k].as_str(), &info) {
            let ghost before = out@;
            out.push(d);
            assert(drive_views(out@) =~= drive_views(before).push(drive_view(d)));
            assert forall|i: int| 0 <= i < out@.len() implies listed(devices@, #[trigger] out@[i]) by {
                if i < before.len() {
                    assert(out@[i] == before[i]);
                } else {
                    assert(out@[i].device@ == devices@[k as int]@);
                    assert(devices@[k as int]@ == out@[i].device@);
                }
            }
        }
        k = k + 1;
    }
    out
}

} // verus!
