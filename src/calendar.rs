//! Calendar records and the sync rules across sources: duplicate detection,
//! conflicts between versions of one event, and two-way propagation.
use vstd::prelude::*;
use vstd::string::{StrSliceExecFns, StringExecFns};
use crate::text::{decimal, decimal_of, str_eq};

verus! {

#[derive(Clone, Debug)]
pub struct CalendarSource {
    pub id: String,
    pub source_type: String,
    pub name: String,
    pub config: String,
    pub added_at: String,
    pub url: Option<String>,
}

#[derive(Clone, Debug)]
pub struct CalendarEvent {
    pub uid: String,
    pub summary: String,
    pub description: Option<String>,
    pub dtstart: String,
    pub dtend: Option<String>,
    pub location: Option<String>,
    pub source_id: String,
    pub last_modified: String,
}

#[derive(Clone, Debug)]
pub struct LogEntry {
    pub id: String,
    pub timestamp: String,
    pub action: String,
    pub detail: String,
    pub level: String,
}

/// Two versions of one event that disagree.
#[derive(Clone, Debug)]
pub struct SyncConflict {
    pub event_uid: String,
    pub source_version: CalendarEvent,
    pub target_version: CalendarEvent,
    pub resolution: Option<String>,
}

/// What a sync decided; storing the new events and the log lines is the caller's part.
#[derive(Clone, Debug)]
pub struct SyncReport {
    pub message: String,
    /// Copies of events for the sources that lack them, each retargeted to its new source.
    pub new_events: Vec<CalendarEvent>,
    /// The conflicts found, each with the side that wins.
    pub conflicts: Vec<SyncConflict>,
    /// The events whose summary and start repeat those of an earlier event.
    pub duplicates: Vec<CalendarEvent>,
    pub total_synced: usize,
    pub total_conflicts: usize,
    pub total_deduped: usize,
}

pub open spec fn opt_view(o: Option<String>) -> Option<Seq<char>> {
    match o {
        Some(s) => Some(s@),
        None => None,
    }
}

/// All events of all sources, source after source.
pub open spec fn flatten(evs: Seq<Vec<CalendarEvent>>) -> Seq<CalendarEvent>
    decreases evs.len(),
{
    if evs.len() == 0 {
        Seq::empty()
    } else {
        flatten(evs.drop_last()) + evs.last()@
    }
}

pub open spec fn event_key(e: CalendarEvent) -> Seq<char> {
    e.summary@ + "|"@ + e.dtstart@
}

/// Events whose summary and start repeat those of an earlier event.
pub open spec fn repeated(es: Seq<CalendarEvent>) -> Seq<CalendarEvent>
    decreases es.len(),
{
    if es.len() == 0 {
        Seq::empty()
    } else if exists|t: int| 0 <= t < es.len() - 1 && event_key(#[trigger] es[t]) == event_key(es.last()) {
        repeated(es.drop_last()).push(es.last())
    } else {
        repeated(es.drop_last())
    }
}

/// Whether two versions of an event disagree on what the user sees.
pub open spec fn differs(a: CalendarEvent, b: CalendarEvent) -> bool {
    a.summary@ != b.summary@ || a.dtstart@ != b.dtstart@ || opt_view(a.description) != opt_view(
        b.description,
    )
}

/// `es[i]` is the first event with its uid.
pub open spec fn first_of_uid(es: Seq<CalendarEvent>, i: int) -> bool {
    0 <= i < es.len() && forall|t: int| 0 <= t < i ==> (#[trigger] es[t]).uid@ != es[i].uid@
}

/// `es[j]` is the next event after `es[i]` with the same uid.
pub open spec fn next_same(es: Seq<CalendarEvent>, i: int, j: int) -> bool {
    0 <= i < j < es.len() && es[j].uid@ == es[i].uid@ && forall|t: int|
        i < t < j ==> (#[trigger] es[t]).uid@ != es[i].uid@
}

/// `c` reports the first two versions `es[i]` and `es[j]` of one uid, which disagree.
pub open spec fn reports(es: Seq<CalendarEvent>, c: SyncConflict, i: int, j: int) -> bool {
    &&& first_of_uid(es, i)
    &&& next_same(es, i, j)
    &&& differs(es[i], es[j])
    &&& c.source_version == es[i]
    &&& c.target_version == es[j]
    &&& c.event_uid == es[i].uid
}

/// `c` reports the first two versions of some uid.
pub open spec fn reported(es: Seq<CalendarEvent>, c: SyncConflict) -> bool {
    exists|i: int, j: int| #[trigger] reports(es, c, i, j)
}

/// `c` is for a uid whose first event lies before index `i`.
pub open spec fn opened_before(es: Seq<CalendarEvent>, c: SyncConflict, i: int) -> bool {
    exists|p: int| 0 <= p < i && first_of_uid(es, p) && (#[trigger] es[p]).uid@ == c.event_uid@
}

/// `a` is at or after `b` in the byte order of UTF-8 text.
pub open spec fn text_ge(a: Seq<char>, b: Seq<char>) -> bool
    decreases a.len(),
{
    if b.len() == 0 {
        true
    } else if a.len() == 0 {
        false
    } else if a[0] != b[0] {
        (a[0] as u32) > (b[0] as u32)
    } else {
        text_ge(a.drop_first(), b.drop_first())
    }
}

/// The side that a strategy picks for a conflict.
pub open spec fn resolution_of(strategy: Seq<char>, a: CalendarEvent, b: CalendarEvent) -> Seq<char> {
    if strategy == "newest"@ {
        if text_ge(a.last_modified@, b.last_modified@) {
            "source"@
        } else {
            "target"@
        }
    } else if strategy == "source"@ {
        "source"@
    } else if strategy == "target"@ {
        "target"@
    } else {
        "ask"@
    }
}

pub open spec fn has_uid(es: Seq<CalendarEvent>, uid: Seq<char>) -> bool {
    exists|t: int| 0 <= t < es.len() && (#[trigger] es[t]).uid@ == uid
}

pub open spec fn retarget(e: CalendarEvent, target: String) -> CalendarEvent {
    CalendarEvent {
        uid: e.uid,
        summary: e.summary,
        description: e.description,
        dtstart: e.dtstart,
        dtend: e.dtend,
        location: e.location,
        source_id: target,
        last_modified: e.last_modified,
    }
}

/// Copies of the events of `src` whose uid `other` lacks, for the source `target`.
pub open spec fn moved(src: Seq<CalendarEvent>, other: Seq<CalendarEvent>, target: String) -> Seq<CalendarEvent>
    decreases src.len(),
{
    if src.len() == 0 {
        Seq::empty()
    } else if has_uid(other, src.last().uid@) {
        moved(src.drop_last(), other, target)
    } else {
        moved(src.drop_last(), other, target).push(retarget(src.last(), target))
    }
}

/// What source `i` hands to the sources before `upto`, other than itself.
pub open spec fn moved_to(srcs: Seq<CalendarSource>, evs: Seq<Vec<CalendarEvent>>, i: int, upto: int) -> Seq<CalendarEvent>
    decreases upto,
{
    if upto <= 0 {
        Seq::empty()
    } else if upto - 1 == i {
        moved_to(srcs, evs, i, upto - 1)
    } else {
        moved_to(srcs, evs, i, upto - 1) + moved(evs[i]@, evs[upto - 1]@, srcs[upto - 1].id)
    }
}

/// What the sources before `upto` hand to all the others.
pub open spec fn propagation(srcs: Seq<CalendarSource>, evs: Seq<Vec<CalendarEvent>>, upto: int) -> Seq<CalendarEvent>
    decreases upto,
{
    if upto <= 0 {
        Seq::empty()
    } else {
        propagation(srcs, evs, upto - 1) + moved_to(srcs, evs, upto - 1, srcs.len() as int)
    }
}

fn copy_text(o: &Option<String>) -> (r: Option<String>)
    ensures
        r == *o,
{
    match o {
        Some(s) => Some(s.clone()),
        None => None,
    }
}

fn copy_event(e: &CalendarEvent) -> (r: CalendarEvent)
    ensures
        r == *e,
{
    CalendarEvent {
        uid: e.uid.clone(),
        summary: e.summary.clone(),
        description: copy_text(&e.description),
        dtstart: e.dtstart.clone(),
        dtend: copy_text(&e.dtend),
        location: copy_text(&e.location),
        source_id: e.source_id.clone(),
        last_modified: e.last_modified.clone(),
    }
}

fn opt_str_eq(a: &Option<String>, b: &Option<String>) -> (r: bool)
    ensures
        r == (opt_view(*a) == opt_view(*b)),
{
    match (a, b) {
        (Some(x), Some(y)) => str_eq(x.as_str(), y.as_str()),
        (None, None) => true,
        _ => false,
    }
}

/// Whether `a` sorts at or after `b` as text.
pub fn text_at_or_after(a: &str, b: &str) -> (r: bool)
    ensures
        r == text_ge(a@, b@),
{
    let n = a.unicode_len();
    let m = b.unicode_len();
    let mut i: usize = 0;
    assert(a@.subrange(0, n as int) == a@);
    assert(b@.subrange(0, m as int) == b@);
    while i < n && i < m && a.get_char(i) == b.get_char(i)
        invariant
            n == a@.len(),
            m == b@.len(),
            i <= n,
            i <= m,
            text_ge(a@, b@) == text_ge(a@.subrange(i as int, n as int), b@.subrange(i as int, m as int)),
        decreases n - i,
    {
        let ghost sa = a@.subrange(i as int, n as int);
        let ghost sb = b@.subrange(i as int, m as int);
        assert(sa.drop_first() == a@.subrange(i + 1, n as int));
        assert(sb.drop_first() == b@.subrange(i + 1, m as int));
        i = i + 1;
    }
    let ghost sa = a@.subrange(i as int, n as int);
    let ghost sb = b@.subrange(i as int, m as int);
    if i == m {
        true
    } else if i == n {
        false
    } else {
        assert(sa[0] == a@[i as int]);
        assert(sb[0] == b@[i as int]);
        (a.get_char(i) as u32) > (b.get_char(i) as u32)
    }
}

/// The side that `strategy` picks for a conflict: `newest` keeps the version
/// modified last (the source on a tie); `source` and `target` pick a side; any
/// other strategy leaves the choice to the user.
pub fn resolve_conflict(conflict: &SyncConflict, strategy: &str) -> (r: String)
    ensures
        r@ == resolution_of(strategy@, conflict.source_version, conflict.target_version),
{
    if str_eq(strategy, "newest") {
        if text_at_or_after(
            conflict.source_version.last_modified.as_str(),
            conflict.target_version.last_modified.as_str(),
        ) {
            "source".to_string()
        } else {
            "target".to_string()
        }
    } else if str_eq(strategy, "source") {
        "source".to_string()
    } else if str_eq(strategy, "target") {
        "target".to_string()
    } else {
        "ask".to_string()
    }
}

/// For each uid, the first two versions in `events` when they disagree, in the
/// order in which the uids first occur.
pub fn detect_conflicts(events: &Vec<CalendarEvent>) -> (r: Vec<SyncConflict>)
    ensures
        forall|c: int| 0 <= c < r@.len() ==> reported(events@, #[trigger] r@[c]) && r@[c].resolution is None,
        forall|i: int, j: int|
            first_of_uid(events@, i) && next_same(events@, i, j) && differs(events@[i], events@[j])
                ==> exists|c: int| 0 <= c < r@.len() && (#[trigger] r@[c]).event_uid@ == events@[i].uid@,
        forall|c: int, d: int|
            0 <= c < d < r@.len() ==> (#[trigger] r@[c]).event_uid@ != (#[trigger] r@[d]).event_uid@,
{
    let n = events.len();
    let mut out: Vec<SyncConflict> = Vec::new();
    let mut i: usize = 0;
    while i < n
        invariant
            n == events@.len(),
            i <= n,
            forall|c: int| 0 <= c < out@.len() ==> reported(events@, #[trigger] out@[c]) && out@[c].resolution is None,
            forall|a: int, j: int|
                a < i && first_of_uid(events@, a) && next_same(events@, a, j) && differs(events@[a], events@[j])
                    ==> exists|c: int| 0 <= c < out@.len() && (#[trigger] out@[c]).event_uid@ == events@[a].uid@,
            forall|c: int| 0 <= c < out@.len() ==> opened_before(events@, #[trigger] out@[c], i as int),
            forall|c: int, d: int|
                0 <= c < d < out@.len() ==> (#[trigger] out@[c]).event_uid@ != (#[trigger] out@[d]).event_uid@,
        decreases n - i,
    {
        let ghost out0 = out@;
        // is this the first event with its uid?
        let mut first = true;
        let mut t: usize = 0;
        while t < i
            invariant
                n == events@.len(),
                i < n,
                t <= i,
                first <==> forall|u: int| 0 <= u < t ==> (#[trigger] events@[u]).uid@ != events@[i as int].uid@,
            decreases i - t,
        {
            if str_eq(events[t].uid.as_str(), events[i].uid.as_str()) {
                first = false;
            }
            t = t + 1;
        }
        if first {
            // the next event with the same uid
            let mut j: usize = i + 1;
            let mut found = false;
            while j < n && !found
                invariant
                    n == events@.len(),
                    i < j <= n,
                    found ==> next_same(events@, i as int, j as int),
                    !found ==> forall|u: int| i < u < j ==> (#[trigger] events@[u]).uid@ != events@[i as int].uid@,
                decreases n - j + if found { 0int } else { 1int },
            {
                if str_eq(events[j].uid.as_str(), events[i].uid.as_str()) {
                    found = true;
                } else {
                    j = j + 1;
                }
            }
            if found {
                let a = &events[i];
                let b = &events[j];
                if !str_eq(a.summary.as_str(), b.summary.as_str()) || !str_eq(a.dtstart.as_str(), b.dtstart.as_str())
                    || !opt_str_eq(&a.description, &b.description) {
                    let c = SyncConflict {
                        event_uid: a.uid.clone(),
                        source_version: copy_event(a),
                        target_version: copy_event(b),
                        resolution: None,
                    };
                    out.push(c);
                    assert(out@[out@.len() - 1] == c);
                    assert(first_of_uid(events@, i as int));
                    assert(reports(events@, out@[out@.len() - 1], i as int, j as int));
                } else {
                    assert forall|jj: int| next_same(events@, i as int, jj) implies jj == j by {
                        if jj < j {
                            assert(events@[jj].uid@ == events@[i as int].uid@);
                        } else if jj > j {
                            assert(events@[j as int].uid@ == events@[i as int].uid@);
                        }
                    }
                }
            } else {
                assert forall|jj: int| !next_same(events@, i as int, jj) by {
                    if next_same(events@, i as int, jj) {
                        assert(events@[jj].uid@ == events@[i as int].uid@);
                    }
                }
            }
        }
        assert forall|c: int| 0 <= c < out0.len() implies out@[c] == out0[c] by {}
        assert forall|c: int| 0 <= c < out@.len() implies opened_before(events@, #[trigger] out@[c], i + 1) by {
            if c < out0.len() {
                let p = choose|p: int| 0 <= p < i && first_of_uid(events@, p) && (#[trigger] events@[p]).uid@ == out0[c].event_uid@;
                assert(out@[c] == out0[c]);
                assert(events@[p].uid@ == out@[c].event_uid@);
            } else {
                assert(first_of_uid(events@, i as int));
                assert(events@[i as int].uid@ == out@[c].event_uid@);
            }
        }
        assert forall|c: int, d: int|
            0 <= c < d < out@.len() implies (#[trigger] out@[c]).event_uid@ != (#[trigger] out@[d]).event_uid@ by {
            if d >= out0.len() {
                assert(out@[c] == out0[c]);
                let p = choose|p: int| 0 <= p < i && first_of_uid(events@, p) && (#[trigger] events@[p]).uid@ == out0[c].event_uid@;
                assert(first_of_uid(events@, i as int));
                assert(events@[p].uid@ != events@[i as int].uid@);
                assert(out@[d].event_uid@ == events@[i as int].uid@);
            } else {
                assert(out@[c] == out0[c]);
                assert(out@[d] == out0[d]);
            }
        }
        assert forall|c: int| 0 <= c < out@.len() implies reported(events@, #[trigger] out@[c]) && out@[c].resolution is None by {
            if c < out0.len() {
                assert(out@[c] == out0[c]);
            }
        }
        assert forall|a: int, j: int|
            a < i + 1 && first_of_uid(events@, a) && next_same(events@, a, j) && differs(events@[a], events@[j])
                implies exists|c: int| 0 <= c < out@.len() && (#[trigger] out@[c]).event_uid@ == events@[a].uid@ by {
            if a < i {
                let c = choose|c: int| 0 <= c < out0.len() && (#[trigger] out0[c]).event_uid@ == events@[a].uid@;
                assert(out@[c] == out0[c]);
            } else {
                assert(first);
                assert(out@.len() == out0.len() + 1);
                assert(out@[out0.len() as int].event_uid@ == events@[a].uid@);
            }
        }
        i = i + 1;
    }
    out
}

/// All events of all sources in one list, source after source.
pub fn all_events(events: &[Vec<CalendarEvent>]) -> (r: Vec<CalendarEvent>)
    ensures
        r@ == flatten(events@),
{
    let mut out: Vec<CalendarEvent> = Vec::new();
    let mut i: usize = 0;
    while i < events.len()
        invariant
            i <= events@.len(),
            out@ == flatten(events@.take(i as int)),
        decreases events@.len() - i,
    {
        let ghost before = out@;
        let mut k: usize = 0;
        while k < events[i].len()
            invariant
                i < events@.len(),
                k <= events@[i as int]@.len(),
                out@ == before + events@[i as int]@.take(k as int),
            decreases events@[i as int]@.len() - k,
        {
            out.push(copy_event(&events[i][k]));
            assert(events@[i as int]@.take(k + 1) == events@[i as int]@.take(k as int).push(events@[i as int]@[k as int]));
            assert(out@ =~= before + events@[i as int]@.take(k + 1));
            k = k + 1;
        }
        assert(events@[i as int]@.take(k as int) == events@[i as int]@);
        assert(events@.take(i + 1).drop_last() == events@.take(i as int));
        assert(events@.take(i + 1).last() == events@[i as int]);
        i = i + 1;
    }
    assert(events@.take(events@.len() as int) == events@);
    out
}

fn event_key_text(e: &CalendarEvent) -> (r: String)
    ensures
        r@ == event_key(*e),
{
    e.summary.clone().concat("|").concat(e.dtstart.as_str())
}

/// The events whose summary and start repeat those of an earlier event, in order.
pub fn repeated_events(es: &Vec<CalendarEvent>) -> (r: Vec<CalendarEvent>)
    ensures
        r@ == repeated(es@),
{
    let n = es.len();
    let mut keys: Vec<String> = Vec::new();
    let mut i: usize = 0;
    while i < n
        invariant
            n == es@.len(),
            i <= n,
            keys@.len() == i,
            forall|j: int| 0 <= j < i ==> (#[trigger] keys@[j])@ == event_key(es@[j]),
        decreases n - i,
    {
        keys.push(event_key_text(&es[i]));
        i = i + 1;
    }
    let mut out: Vec<CalendarEvent> = Vec::new();
    let mut i: usize = 0;
    while i < n
        invariant
            n == es@.len(),
            i <= n,
            keys@.len() == n,
            forall|j: int| 0 <= j < n ==> (#[trigger] keys@[j])@ == event_key(es@[j]),
            out@ == repeated(es@.take(i as int)),
        decreases n - i,
    {
        let mut seen = false;
        let mut t: usize = 0;
        while t < i
            invariant
                n == es@.len(),
                i < n,
                t <= i,
                keys@.len() == n,
                forall|j: int| 0 <= j < n ==> (#[trigger] keys@[j])@ == event_key(es@[j]),
                seen <==> exists|u: int| 0 <= u < t && event_key(#[trigger] es@[u]) == event_key(es@[i as int]),
            decreases i - t,
        {
            if str_eq(keys[t].as_str(), keys[i].as_str()) {
                seen = true;
            }
            t = t + 1;
        }
        let ghost pre = es@.take(i as int);
        let ghost cur = es@.take(i + 1);
        assert(cur.drop_last() == pre);
        assert(cur.last() == es@[i as int]);
        assert forall|u: int| 0 <= u < i implies #[trigger] cur[u] == es@[u] by {}
        if seen {
            let ghost u = choose|u: int| 0 <= u < i && event_key(#[trigger] es@[u]) == event_key(es@[i as int]);
            assert(cur[u] == es@[u]);
            out.push(copy_event(&es[i]));
        } else {
            assert(!exists|u: int| 0 <= u < cur.len() - 1 && event_key(#[trigger] cur[u]) == event_key(cur.last()));
        }
        i = i + 1;
    }
    assert(es@.take(n as int) == es@);
    out
}

fn has_uid_in(es: &Vec<CalendarEvent>, uid: &String) -> (r: bool)
    ensures
        r == has_uid(es@, uid@),
{
    let mut t: usize = 0;
    while t < es.len()
        invariant
            t <= es@.len(),
            forall|u: int| 0 <= u < t ==> (#[trigger] es@[u]).uid@ != uid@,
        decreases es@.len() - t,
    {
        if str_eq(es[t].uid.as_str(), uid.as_str()) {
            return true;
        }
        t = t + 1;
    }
    false
}

/// Copies of the events of `src` whose uid `other` lacks, retargeted to `target`.
fn moved_events(src: &Vec<CalendarEvent>, other: &Vec<CalendarEvent>, target: &String) -> (r: Vec<CalendarEvent>)
    ensures
        r@ == moved(src@, other@, *target),
{
    let mut out: Vec<CalendarEvent> = Vec::new();
    let mut k: usize = 0;
    while k < src.len()
        invariant
            k <= src@.len(),
            out@ == moved(src@.take(k as int), other@, *target),
        decreases src@.len() - k,
    {
        let ghost cur = src@.take(k + 1);
        assert(cur.drop_last() == src@.take(k as int));
        assert(cur.last() == src@[k as int]);
        if !has_uid_in(other, &src[k].uid) {
            let e = &src[k];
            let copy = CalendarEvent {
                uid: e.uid.clone(),
                summary: e.summary.clone(),
                description: copy_text(&e.description),
                dtstart: e.dtstart.clone(),
                dtend: copy_text(&e.dtend),
                location: copy_text(&e.location),
                source_id: target.clone(),
                last_modified: e.last_modified.clone(),
            };
            out.push(copy);
        }
        k = k + 1;
    }
    assert(src@.take(src@.len() as int) == src@);
    out
}

/// Two-way propagation: every source receives a copy of each event of every
/// other source whose uid it lacks.
pub fn propagate(sources: &[CalendarSource], events: &[Vec<CalendarEvent>]) -> (r: Vec<CalendarEvent>)
    requires
        sources@.len() == events@.len(),
    ensures
        r@ == propagation(sources@, events@, sources@.len() as int),
{
    let n = sources.len();
    let mut out: Vec<CalendarEvent> = Vec::new();
    let mut i: usize = 0;
    while i < n
        invariant
            n == sources@.len(),
            n == events@.len(),
            i <= n,
            out@ == propagation(sources@, events@, i as int),
        decreases n - i,
    {
        let ghost base = out@;
        let mut j: usize = 0;
        while j < n
            invariant
                n == sources@.len(),
                n == events@.len(),
                i < n,
                j <= n,
                out@ == base + moved_to(sources@, events@, i as int, j as int),
            decreases n - j,
        {
            if j != i {
                let ghost before = out@;
                let add = moved_events(&events[i], &events[j], &sources[j].id);
                let mut k: usize = 0;
                while k < add.len()
                    invariant
                        k <= add@.len(),
                        out@ == before + add@.take(k as int),
                    decreases add@.len() - k,
                {
                    out.push(copy_event(&add[k]));
                    assert(add@.take(k + 1) == add@.take(k as int).push(add@[k as int]));
                    assert(out@ =~= before + add@.take(k + 1));
                    k = k + 1;
                }
                assert(add@.take(add@.len() as int) == add@);
                assert(out@ =~= base + moved_to(sources@, events@, i as int, j + 1));
            }
            j = j + 1;
        }
        assert(out@ =~= propagation(sources@, events@, i + 1));
        i = i + 1;
    }
    out
}

pub open spec fn sync_message(synced: int, conflicts: int, deduped: int) -> Seq<char> {
    "\u{2705} Sync complete: "@ + decimal_of(synced as nat) + " events processed, "@ + decimal_of(conflicts as nat)
        + " conflicts resolved, "@ + decimal_of(deduped as nat) + " duplicates removed"@
}

/// The conflicts of `flat`, each with the side that `strategy` picks.
fn settle_conflicts(flat: &Vec<CalendarEvent>, conflict_strategy: &str) -> (r: Vec<SyncConflict>)
    ensures
        forall|c: int| 0 <= c < r@.len() ==> reported(flat@, #[trigger] r@[c]) && opt_view(r@[c].resolution)
            == Some(resolution_of(conflict_strategy@, r@[c].source_version, r@[c].target_version)),
        forall|i: int, j: int|
            first_of_uid(flat@, i) && next_same(flat@, i, j) && differs(flat@[i], flat@[j]) ==> exists|c: int|
                0 <= c < r@.len() && (#[trigger] r@[c]).event_uid@ == flat@[i].uid@,
{
    let found = detect_conflicts(flat);
    let mut conflicts: Vec<SyncConflict> = Vec::new();
    let mut c: usize = 0;
    while c < found.len()
        invariant
            c <= found@.len(),
            conflicts@.len() == c,
            forall|d: int| 0 <= d < found@.len() ==> reported(flat@, #[trigger] found@[d]),
            forall|d: int| 0 <= d < c ==> {
                &&& (#[trigger] conflicts@[d]).source_version == found@[d].source_version
                &&& conflicts@[d].target_version == found@[d].target_version
                &&& conflicts@[d].event_uid == found@[d].event_uid
                &&& opt_view(conflicts@[d].resolution) == Some(resolution_of(
                    conflict_strategy@,
                    conflicts@[d].source_version,
                    conflicts@[d].target_version,
                ))
            },
        decreases found@.len() - c,
    {
        let f = &found[c];
        let resolution = resolve_conflict(f, conflict_strategy);
        conflicts.push(SyncConflict {
            event_uid: f.event_uid.clone(),
            source_version: copy_event(&f.source_version),
            target_version: copy_event(&f.target_version),
            resolution: Some(resolution),
        });
        c = c + 1;
    }
    assert forall|d: int| 0 <= d < conflicts@.len() implies reported(flat@, #[trigger] conflicts@[d]) by {
        let (i, j) = choose|i: int, j: int| #[trigger] reports(flat@, found@[d], i, j);
        assert(reports(flat@, conflicts@[d], i, j));
    }
    assert forall|i: int, j: int|
        first_of_uid(flat@, i) && next_same(flat@, i, j) && differs(flat@[i], flat@[j]) implies exists|c: int|
            0 <= c < conflicts@.len() && (#[trigger] conflicts@[c]).event_uid@ == flat@[i].uid@ by {
        let c = choose|c: int| 0 <= c < found@.len() && (#[trigger] found@[c]).event_uid@ == flat@[i].uid@;
        assert(conflicts@[c].event_uid == found@[c].event_uid);
    }
    conflicts
}

/// The closing line of a sync.
fn sync_summary(synced: usize, conflicts: usize, deduped: usize) -> (r: String)
    ensures
        r@ == sync_message(synced as int, conflicts as int, deduped as int),
{
    let r = "\u{2705} Sync complete: ".to_string().concat(decimal(synced as u64).as_str()).concat(
        " events processed, ",
    ).concat(decimal(conflicts as u64).as_str()).concat(" conflicts resolved, ").concat(
        decimal(deduped as u64).as_str(),
    ).concat(" duplicates removed");
    assert(r@ =~= sync_message(synced as int, conflicts as int, deduped as int));
    r
}

/// One sync over the sources and the events stored for each (`events[i]` belongs
/// to `sources[i]`): duplicates by summary and start when `dedup` is set,
/// conflicts between the first two versions of a uid when there are two sources
/// or more, and two-way propagation when `two_way` is set.
pub fn run_sync(
    sources: &[CalendarSource],
    events: &[Vec<CalendarEvent>],
    two_way: bool,
    dedup: bool,
    conflict_strategy: &str,
) -> (r: SyncReport)
    requires
        sources@.len() == events@.len(),
    ensures
        sources@.len() == 0 ==> r.message@ == "No sources configured. Add a calendar source first."@
            && r.new_events@.len() == 0 && r.conflicts@.len() == 0 && r.duplicates@.len() == 0
            && r.total_synced == 0 && r.total_conflicts == 0 && r.total_deduped == 0,
        sources@.len() > 0 ==> {
            let flat = flatten(events@);
            &&& r.duplicates@ == (if dedup { repeated(flat) } else { Seq::empty() })
            &&& r.total_deduped == r.duplicates@.len()
            &&& sources@.len() < 2 ==> r.conflicts@.len() == 0
            &&& forall|c: int| 0 <= c < r.conflicts@.len() ==> reported(flat, #[trigger] r.conflicts@[c])
                && opt_view(r.conflicts@[c].resolution) == Some(resolution_of(
                    conflict_strategy@,
                    r.conflicts@[c].source_version,
                    r.conflicts@[c].target_version,
                ))
            &&& sources@.len() >= 2 ==> forall|i: int, j: int|
                first_of_uid(flat, i) && next_same(flat, i, j) && differs(flat[i], flat[j])
                    ==> exists|c: int| 0 <= c < r.conflicts@.len() && (#[trigger] r.conflicts@[c]).event_uid@ == flat[i].uid@
            &&& r.total_conflicts == r.conflicts@.len()
            &&& r.new_events@ == (if two_way && sources@.len() >= 2 {
                propagation(sources@, events@, sources@.len() as int)
            } else {
                Seq::empty()
            })
            &&& r.total_synced == if flat.len() + r.new_events@.len() > usize::MAX {
                usize::MAX as int
            } else {
                (flat.len() + r.new_events@.len()) as int
            }
            &&& r.message@ == sync_message(r.total_synced as int, r.total_conflicts as int, r.total_deduped as int)
        },
{
    if sources.len() == 0 {
        return SyncReport {
            message: "No sources configured. Add a calendar source first.".to_string(),
            new_events: Vec::new(),
            conflicts: Vec::new(),
            duplicates: Vec::new(),
            total_synced: 0,
            total_conflicts: 0,
            total_deduped: 0,
        };
    }
    let flat = all_events(events);
    let duplicates = if dedup {
        repeated_events(&flat)
    } else {
        Vec::new()
    };
    let conflicts = if sources.len() >= 2 {
        settle_conflicts(&flat, conflict_strategy)
    } else {
        Vec::new()
    };
    let new_events = if two_way && sources.len() >= 2 {
        propagate(sources, events)
    } else {
        Vec::new()
    };
    let total_synced = flat.len().saturating_add(new_events.len());
    let total_conflicts = conflicts.len();
    let total_deduped = duplicates.len();
    let message = sync_summary(total_synced, total_conflicts, total_deduped);
    SyncReport { message, new_events, conflicts, duplicates, total_synced, total_conflicts, total_deduped }
}

/// The pending work per source, as HTML: each source's type and event count.
pub open spec fn preview_rows(sources: Seq<CalendarSource>, counts: Seq<usize>) -> Seq<char>
    decreases sources.len(),
{
    if sources.len() == 0 {
        Seq::empty()
    } else {
        preview_rows(sources.drop_last(), counts) + "<div class='log-entry'><span class='action'>"@
            + sources.last().source_type@ + "</span> \u{2014} "@ + decimal_of(counts[sources.len() - 1] as nat)
            + " events</div>"@
    }
}

/// A preview of a sync without applying it; `counts[i]` is the number of events
/// stored for `sources[i]`.
pub fn preview(sources: &[CalendarSource], counts: &[usize]) -> (r: String)
    requires
        sources@.len() == counts@.len(),
    ensures
        sources@.len() == 0 ==> r@ == "No sources configured."@,
        sources@.len() > 0 ==> r@ == "<div>"@ + preview_rows(sources@, counts@) + "</div>"@,
{
    if sources.len() == 0 {
        return "No sources configured.".to_string();
    }
    let mut out = "<div>".to_string();
    let mut i: usize = 0;
    while i < sources.len()
        invariant
            sources@.len() == counts@.len(),
            i <= sources@.len(),
            out@ == "<div>"@ + preview_rows(sources@.take(i as int), counts@),
        decreases sources@.len() - i,
    {
        let ghost pre = sources@.take(i as int);
        assert(sources@.take(i + 1).drop_last() == pre);
        assert(sources@.take(i + 1).last() == sources@[i as int]);
        out = out.concat("<div class='log-entry'><span class='action'>").concat(sources[i].source_type.as_str()).concat(
            "</span> \u{2014} ",
        ).concat(decimal(counts[i] as u64).as_str()).concat(" events</div>");
        assert(out@ =~= "<div>"@ + preview_rows(sources@.take(i + 1), counts@));
        i = i + 1;
    }
    assert(sources@.take(sources@.len() as int) == sources@);
    out.concat("</div>")
}

} // verus!
