//! Blocked destinations: the log of attempts and the list that an operator decides on.
use crate::connectors;
use crate::connectors::{ConnectorMapping, Mapping};
use crate::egress;
use crate::egress::{EgressError, EgressKind, EgressTarget, Target};
use crate::number;
use crate::order;
use crate::order::Ordered;
use crate::outside;
use crate::pieces;
use crate::text;
use vstd::prelude::*;
use vstd::string::*;

verus! {

broadcast use vstd::string::group_string_axioms;

// ---------------------------------------------------------------------------
// Items
// ---------------------------------------------------------------------------

/// One blocked attempt, as the log holds it.
#[derive(Debug)]
pub struct PendingLogEntry {
    pub event_epoch_nanos: String,
    pub kind: EgressKind,
    pub host: String,
    pub port: u16,
}

/// What a [`PendingLogEntry`] denotes.
pub struct Entry {
    pub event_epoch_nanos: Seq<char>,
    pub kind: EgressKind,
    pub host: Seq<char>,
    pub port: u16,
}

impl View for PendingLogEntry {
    type V = Entry;

    open spec fn view(&self) -> Entry {
        Entry {
            event_epoch_nanos: self.event_epoch_nanos@,
            kind: self.kind,
            host: self.host@,
            port: self.port,
        }
    }
}

impl PendingLogEntry {
    /// The target of the attempt.
    pub fn target(&self) -> (r: Result<EgressTarget, EgressError>)
        ensures
            egress::target_result(r) == egress::new_target(self@.kind, self@.host, self@.port),
    {
        EgressTarget::new(self.kind, self.host.as_str(), self.port)
    }

    /// The entry for an attempt to reach `target` at a time in nanoseconds since the epoch.
    pub fn blocked(target: &EgressTarget, now_nanos: u64) -> (r: PendingLogEntry)
        ensures
            r@ == blocked_entry(target@, now_nanos),
    {
        PendingLogEntry {
            event_epoch_nanos: number::decimal_of(now_nanos),
            kind: target.kind,
            host: target.host.clone(),
            port: target.port,
        }
    }
}

/// The entry for an attempt to reach `t` at `now`.
pub open spec fn blocked_entry(t: Target, now: u64) -> Entry {
    Entry {
        event_epoch_nanos: number::decimal(now as nat),
        kind: t.kind,
        host: t.host,
        port: t.port,
    }
}

/// An approved destination as it is shown.
#[derive(Debug)]
pub struct AllowedItem {
    pub target: String,
    pub kind: EgressKind,
    pub host: String,
    pub port: u16,
    pub connector_endpoint: Option<String>,
}

/// What an [`AllowedItem`] denotes.
pub struct Allowed {
    pub target: Seq<char>,
    pub kind: EgressKind,
    pub host: Seq<char>,
    pub port: u16,
    pub connector_endpoint: Option<Seq<char>>,
}

impl View for AllowedItem {
    type V = Allowed;

    open spec fn view(&self) -> Allowed {
        Allowed {
            target: self.target@,
            kind: self.kind,
            host: self.host@,
            port: self.port,
            connector_endpoint: connectors::opt_text(self.connector_endpoint),
        }
    }
}

/// The item for an approved target.
pub open spec fn allowed_item(t: Target, endpoint: Option<Seq<char>>) -> Allowed {
    Allowed {
        target: egress::target_text(t),
        kind: t.kind,
        host: t.host,
        port: t.port,
        connector_endpoint: endpoint,
    }
}

impl AllowedItem {
    /// The item for an approved target.
    pub fn from_target(target: &EgressTarget, connector_endpoint: Option<String>) -> (r: Self)
        ensures
            r@ == allowed_item(target@, connectors::opt_text(connector_endpoint)),
    {
        AllowedItem {
            target: target.to_text(),
            kind: target.kind,
            host: target.host.clone(),
            port: target.port,
            connector_endpoint,
        }
    }
}

/// A blocked destination as it is shown.
#[derive(Debug)]
pub struct PendingItem {
    pub target: String,
    pub kind: EgressKind,
    pub host: String,
    pub port: u16,
    pub connector_endpoint: Option<String>,
    pub last_seen_epoch_nanos: String,
    pub epoch: u64,
}

/// What a [`PendingItem`] denotes.
#[verifier::ext_equal]
pub struct Pending {
    pub target: Seq<char>,
    pub kind: EgressKind,
    pub host: Seq<char>,
    pub port: u16,
    pub connector_endpoint: Option<Seq<char>>,
    pub last_seen_epoch_nanos: Seq<char>,
    pub epoch: u64,
}

impl View for PendingItem {
    type V = Pending;

    open spec fn view(&self) -> Pending {
        Pending {
            target: self.target@,
            kind: self.kind,
            host: self.host@,
            port: self.port,
            connector_endpoint: connectors::opt_text(self.connector_endpoint),
            last_seen_epoch_nanos: self.last_seen_epoch_nanos@,
            epoch: self.epoch,
        }
    }
}

/// The item for a blocked target.
pub open spec fn pending_item(
    t: Target,
    endpoint: Option<Seq<char>>,
    last_seen: Seq<char>,
    epoch: u64,
) -> Pending {
    Pending {
        target: egress::target_text(t),
        kind: t.kind,
        host: t.host,
        port: t.port,
        connector_endpoint: endpoint,
        last_seen_epoch_nanos: last_seen,
        epoch,
    }
}

impl PendingItem {
    /// The item for a blocked target.
    pub fn from_target(
        target: &EgressTarget,
        connector_endpoint: Option<String>,
        last_seen_epoch_nanos: String,
        epoch: u64,
    ) -> (r: Self)
        ensures
            r@ == pending_item(
                target@,
                connectors::opt_text(connector_endpoint),
                last_seen_epoch_nanos@,
                epoch,
            ),
    {
        PendingItem {
            target: target.to_text(),
            kind: target.kind,
            host: target.host.clone(),
            port: target.port,
            connector_endpoint,
            last_seen_epoch_nanos,
            epoch,
        }
    }
}

/// What the items of a list denote.
pub open spec fn pendings(v: Seq<PendingItem>) -> Seq<Pending> {
    Seq::new(v.len(), |i: int| v[i]@)
}

/// The order of blocked destinations: the latest attempt first, then by the text of the target.
pub open spec fn pending_before(a: Pending, b: Pending) -> bool {
    if a.epoch != b.epoch {
        a.epoch > b.epoch
    } else {
        order::text_before(a.target, b.target)
    }
}

impl Ordered for PendingItem {
    open spec fn before(&self, other: &Self) -> bool {
        pending_before(self@, other@)
    }

    proof fn before_irreflexive(a: &Self) {
        order::text_before_irreflexive(a@.target);
    }

    proof fn before_transitive(a: &Self, b: &Self, c: &Self) {
        if a@.epoch == b@.epoch && b@.epoch == c@.epoch {
            order::text_before_transitive(a@.target, b@.target, c@.target);
        }
    }

    proof fn before_splits(a: &Self, b: &Self, c: &Self) {
        order::text_before_total(a@.target, b@.target);
        order::text_before_total(b@.target, c@.target);
        if order::text_before(b@.target, a@.target) && order::text_before(a@.target, c@.target) {
            order::text_before_transitive(b@.target, a@.target, c@.target);
        }
    }

    fn is_before(&self, other: &Self) -> (r: bool) {
        if self.epoch != other.epoch {
            self.epoch > other.epoch
        } else {
            order::text_is_before(self.target.as_str(), other.target.as_str())
        }
    }
}

// ---------------------------------------------------------------------------
// The log
// ---------------------------------------------------------------------------

/// A line of the log and the entry that it holds, if it holds one.
#[derive(Debug)]
pub struct LogRecord {
    pub line: String,
    pub entry: Option<PendingLogEntry>,
}

/// The log of blocked attempts.
#[derive(Debug)]
pub struct PendingLog {
    pub records: Vec<LogRecord>,
    /// Whether the log ends in a line feed, so that its last line was written to the end.
    pub complete: bool,
}

/// What a [`LogRecord`] denotes.
pub struct Line {
    pub line: Seq<char>,
    pub entry: Option<Entry>,
}

/// What a [`PendingLog`] denotes.
pub struct Log {
    pub lines: Seq<Line>,
    pub complete: bool,
}

impl View for LogRecord {
    type V = Line;

    open spec fn view(&self) -> Line {
        Line {
            line: self.line@,
            entry: match self.entry {
                Some(e) => Some(e@),
                None => None,
            },
        }
    }
}

impl View for PendingLog {
    type V = Log;

    open spec fn view(&self) -> Log {
        Log {
            lines: Seq::new(self.records@.len(), |i: int| self.records@[i]@),
            complete: self.complete,
        }
    }
}

impl PendingLog {
    /// Splits the contents of a log into lines, none of which is read yet.
    pub fn split(contents: &str) -> (r: PendingLog)
        ensures
            r@.lines.len() == pieces::lines(contents@).len(),
            forall|i: int|
                0 <= i < r@.lines.len() ==> (#[trigger] r@.lines[i]).line == pieces::lines(
                    contents@,
                )[i] && r@.lines[i].entry is None,
            r@.complete == (contents@.len() > 0 && contents@.last() == '\n'),
    {
        let list = pieces::line_list(contents);
        let chars = text::chars_of(contents);
        let n: usize = chars.len();
        let mut records: Vec<LogRecord> = Vec::new();
        let mut i: usize = 0;
        while i < list.len()
            invariant
                pieces::texts(list@) == pieces::lines(contents@),
                i <= list.len(),
                records@.len() == i,
                forall|k: int|
                    0 <= k < i ==> (#[trigger] records@[k])@.line == pieces::lines(contents@)[k]
                        && records@[k]@.entry is None,
            decreases list.len() - i,
        {
            assert(pieces::texts(list@)[i as int] == list@[i as int]@);
            records.push(LogRecord { line: list[i].clone(), entry: None });
            i = i + 1;
        }
        PendingLog { records, complete: n > 0 && chars[n - 1] == '\n' }
    }
}

/// What the log of blocked attempts is refused for.
#[derive(Debug, Clone, Copy, PartialEq, Eq, Structural)]
pub enum PendingError {
    /// This line, counted from 1, holds no entry.
    Malformed(usize),
    /// An entry names no target.
    Target(EgressError),
}

/// A blocked attempt: its target and the time that the log gives.
pub struct Event {
    pub target: Target,
    pub seen: Seq<char>,
}

/// The attempts in the first `n` lines of a log. Blank lines are skipped. The last line may hold no
/// entry where it was not written to the end.
pub open spec fn events_up_to(log: Log, n: int) -> Result<Seq<Event>, PendingError>
    decreases n,
{
    if n <= 0 {
        Ok(Seq::empty())
    } else {
        match events_up_to(log, n - 1) {
            Err(e) => Err(e),
            Ok(earlier) => {
                let line = log.lines[n - 1];
                if text::trim(line.line).len() == 0 {
                    Ok(earlier)
                } else {
                    match line.entry {
                        Some(entry) => match egress::new_target(entry.kind, entry.host, entry.port) {
                            Ok(target) => Ok(
                                earlier.push(Event { target, seen: entry.event_epoch_nanos }),
                            ),
                            Err(e) => Err(PendingError::Target(e)),
                        },
                        None => if !log.complete && n == log.lines.len() {
                            Ok(earlier)
                        } else {
                            Err(PendingError::Malformed(n as usize))
                        },
                    }
                }
            },
        }
    }
}

/// The attempts in a log.
pub open spec fn events_of(log: Log) -> Result<Seq<Event>, PendingError> {
    events_up_to(log, log.lines.len() as int)
}

/// The text that identifies the target of an attempt.
pub open spec fn event_key(e: Event) -> Seq<char> {
    egress::target_text(e.target)
}

/// The time of an attempt; 0 where the log gives no number.
pub open spec fn event_epoch(e: Event) -> u64 {
    match number::parse_up_to(e.seen, u64::MAX as nat) {
        Some(n) => n as u64,
        None => 0,
    }
}

/// Whether attempt `k` is the last one for its target.
pub open spec fn is_latest(events: Seq<Event>, k: int) -> bool {
    0 <= k < events.len() && forall|j: int|
        k < j < events.len() ==> event_key(#[trigger] events[j]) != event_key(events[k])
}

/// The time up to which attempts to reach the target with text `key` are dismissed.
pub open spec fn dismissed_until(dismissed: Map<Seq<char>, u64>, key: Seq<char>) -> u64 {
    if dismissed.contains_key(key) {
        dismissed[key]
    } else {
        0
    }
}

/// Whether an attempt asks for a decision: its target is not approved, and it came after the last
/// decision.
pub open spec fn is_open(
    e: Event,
    allowed: Set<Seq<char>>,
    dismissed: Map<Seq<char>, u64>,
) -> bool {
    !allowed.contains(event_key(e)) && dismissed_until(dismissed, event_key(e)) < event_epoch(e)
}

/// Whether attempt `k` is shown: it is the last one for its target and asks for a decision.
pub open spec fn is_shown(
    events: Seq<Event>,
    k: int,
    allowed: Set<Seq<char>>,
    dismissed: Map<Seq<char>, u64>,
) -> bool {
    is_latest(events, k) && is_open(events[k], allowed, dismissed)
}

/// The item for an attempt.
pub open spec fn event_item(e: Event, mappings: Seq<Mapping>) -> Pending {
    pending_item(
        e.target,
        connectors::endpoint_named(mappings, event_key(e)),
        e.seen,
        event_epoch(e),
    )
}

/// Whether `item` is that of an attempt that is to be shown.
pub open spec fn shows_attempt(
    item: Pending,
    events: Seq<Event>,
    allowed: Set<Seq<char>>,
    dismissed: Map<Seq<char>, u64>,
    mappings: Seq<Mapping>,
) -> bool {
    exists|k: int| #[trigger]
        is_shown(events, k, allowed, dismissed) && item == event_item(events[k], mappings)
}

/// Whether `list` shows the attempts that are to be shown, each of them once and in order.
pub open spec fn shows(
    list: Seq<Pending>,
    events: Seq<Event>,
    allowed: Set<Seq<char>>,
    dismissed: Map<Seq<char>, u64>,
    mappings: Seq<Mapping>,
) -> bool {
    &&& forall|i: int, j: int|
        0 <= i < j < list.len() ==> pending_before(#[trigger] list[i], #[trigger] list[j])
    &&& forall|i: int|
        0 <= i < list.len() ==> shows_attempt(
            #[trigger] list[i],
            events,
            allowed,
            dismissed,
            mappings,
        )
    &&& forall|k: int| #[trigger]
        is_shown(events, k, allowed, dismissed) ==> list.contains(event_item(events[k], mappings))
}

/// Looks up the time up to which attempts are dismissed.
pub fn dismissed_time(dismissed: &Vec<(String, u64)>, key: &str) -> (r: u64)
    ensures
        r == dismissed_until(outside::entry_map(dismissed@), key@),
{
    let ghost s = dismissed@;
    let mut i: usize = dismissed.len();
    assert(s.take(i as int) =~= s);
    while i > 0
        invariant
            i <= dismissed.len(),
            s == dismissed@,
            dismissed_until(outside::entry_map(s), key@) == dismissed_until(
                outside::entry_map(s.take(i as int)),
                key@,
            ),
        decreases i,
    {
        let ghost t = s.take(i as int);
        i = i - 1;
        proof {
            assert(t.drop_last() =~= s.take(i as int));
            assert(t.last() == s[i as int]);
        }
        if text::equals(dismissed[i].0.as_str(), key) {
            return dismissed[i].1;
        }
    }
    assert(s.take(0) =~= Seq::<(String, u64)>::empty());
    0
}

/// Whether `list` holds one item for each target with an attempt, that of the last attempt.
spec fn collects(list: Seq<Pending>, events: Seq<Event>, mappings: Seq<Mapping>) -> bool {
    &&& forall|i: int, j: int|
        0 <= i < j < list.len() ==> (#[trigger] list[i]).target != (#[trigger] list[j]).target
    &&& forall|i: int|
        0 <= i < list.len() ==> exists|k: int|
            #[trigger] is_latest(events, k) && #[trigger] list[i] == event_item(events[k], mappings)
    &&& forall|k: int| #[trigger]
        is_latest(events, k) ==> list.contains(event_item(events[k], mappings))
}

/// One more attempt replaces the item of its target or, where there is none, adds one.
proof fn collects_one_more(
    list: Seq<Pending>,
    after: Seq<Pending>,
    p: int,
    events: Seq<Event>,
    e: Event,
    mappings: Seq<Mapping>,
)
    requires
        collects(list, events, mappings),
        0 <= p <= list.len(),
        p < list.len() ==> list[p].target == event_key(e) && after == list.update(
            p,
            event_item(e, mappings),
        ),
        p == list.len() ==> after == list.push(event_item(e, mappings)) && forall|i: int|
            0 <= i < list.len() ==> (#[trigger] list[i]).target != event_key(e),
    ensures
        collects(after, events.push(e), mappings),
{
    let all = events.push(e);
    let n = events.len() as int;
    let item = event_item(e, mappings);
    assert forall|k: int| 0 <= k < n implies #[trigger] is_latest(all, k) == (is_latest(events, k)
        && event_key(events[k]) != event_key(e)) by {
        if is_latest(all, k) {
            assert(all[n] == e);
            assert forall|j: int| k < j < n implies event_key(#[trigger] events[j]) != event_key(
                events[k],
            ) by {
                assert(all[j] == events[j]);
            }
        }
        if is_latest(events, k) && event_key(events[k]) != event_key(e) {
            assert forall|j: int| k < j < all.len() implies event_key(#[trigger] all[j])
                != event_key(all[k]) by {
                if j < n {
                    assert(all[j] == events[j]);
                }
            }
        }
    }
    assert(is_latest(all, n));
    assert(all[n] == e);
    assert(after[p] == item);
    assert forall|i: int, j: int| 0 <= i < j < after.len() implies (#[trigger] after[i]).target
        != (#[trigger] after[j]).target by {
        if i != p && j != p {
            assert(after[i] == list[i] && after[j] == list[j]);
        } else if i == p {
            assert(after[j] == list[j]);
            assert(list[p].target == event_key(e));
        } else {
            assert(after[i] == list[i]);
            if p < list.len() {
                assert(list[i].target != list[p].target);
            }
        }
    }
    assert forall|i: int| 0 <= i < after.len() implies exists|k: int|
        #[trigger] is_latest(all, k) && #[trigger] after[i] == event_item(all[k], mappings) by {
        if i == p {
            assert(is_latest(all, n) && after[i] == event_item(all[n], mappings));
        } else {
            assert(after[i] == list[i]);
            let k = choose|k: int|
                #[trigger] is_latest(events, k) && list[i] == event_item(events[k], mappings);
            if p < list.len() {
                if i < p {
                    assert(list[i].target != list[p].target);
                } else {
                    assert(list[p].target != list[i].target);
                }
            }
            assert(event_key(events[k]) != event_key(e));
            assert(is_latest(all, k) && all[k] == events[k]);
        }
    }
    assert forall|k: int| #[trigger] is_latest(all, k) implies after.contains(
        event_item(all[k], mappings),
    ) by {
        if k == n {
            assert(after[p] == event_item(all[k], mappings));
        } else {
            assert(all[k] == events[k]);
            assert(is_latest(events, k));
            assert(list.contains(event_item(events[k], mappings)));
            let i = choose|i: int| 0 <= i < list.len() && list[i] == event_item(events[k], mappings);
            assert(list[i].target == event_key(events[k]));
            assert(i != p);
            assert(after[i] == list[i]);
        }
    }
}

/// Whether an item is shown.
spec fn is_open_item(
    item: Pending,
    allowed: Set<Seq<char>>,
    dismissed: Map<Seq<char>, u64>,
) -> bool {
    !allowed.contains(item.target) && dismissed_until(dismissed, item.target) < item.epoch
}

/// Whether `kept` holds the items of `all` from `from` on that are shown.
spec fn keeps_open(
    kept: Seq<Pending>,
    all: Seq<Pending>,
    from: int,
    allowed: Set<Seq<char>>,
    dismissed: Map<Seq<char>, u64>,
) -> bool {
    &&& forall|i: int, j: int|
        0 <= i < j < kept.len() ==> (#[trigger] kept[i]).target != (#[trigger] kept[j]).target
    &&& forall|i: int|
        0 <= i < kept.len() ==> is_open_item(#[trigger] kept[i], allowed, dismissed) && exists|q: int|
            from <= q < all.len() && kept[i] == #[trigger] all[q]
    &&& forall|q: int|
        from <= q < all.len() && is_open_item(#[trigger] all[q], allowed, dismissed)
            ==> kept.contains(all[q])
}

/// One more item is kept where it is shown.
proof fn keeps_one_more(
    kept: Seq<Pending>,
    all: Seq<Pending>,
    from: int,
    allowed: Set<Seq<char>>,
    dismissed: Map<Seq<char>, u64>,
)
    requires
        keeps_open(kept, all, from, allowed, dismissed),
        0 < from <= all.len(),
        forall|i: int, j: int|
            0 <= i < j < all.len() ==> (#[trigger] all[i]).target != (#[trigger] all[j]).target,
    ensures
        is_open_item(all[from - 1], allowed, dismissed) ==> keeps_open(
            kept.push(all[from - 1]),
            all,
            from - 1,
            allowed,
            dismissed,
        ),
        !is_open_item(all[from - 1], allowed, dismissed) ==> keeps_open(
            kept,
            all,
            from - 1,
            allowed,
            dismissed,
        ),
{
    let item = all[from - 1];
    if is_open_item(item, allowed, dismissed) {
        let after = kept.push(item);
        assert forall|i: int, j: int| 0 <= i < j < after.len() implies (#[trigger] after[i]).target
            != (#[trigger] after[j]).target by {
            assert(after[i] == kept[i]);
            if j == kept.len() {
                let q = choose|q: int| from <= q < all.len() && kept[i] == #[trigger] all[q];
                assert(all[from - 1].target != all[q].target);
            }
        }
        assert forall|i: int| 0 <= i < after.len() implies is_open_item(
            #[trigger] after[i],
            allowed,
            dismissed,
        ) && exists|q: int| from - 1 <= q < all.len() && after[i] == #[trigger] all[q] by {
            if i < kept.len() {
                assert(after[i] == kept[i]);
                let q = choose|q: int| from <= q < all.len() && kept[i] == #[trigger] all[q];
                assert(after[i] == all[q]);
            } else {
                assert(after[i] == all[from - 1]);
            }
        }
        assert forall|q: int|
            from - 1 <= q < all.len() && is_open_item(
                #[trigger] all[q],
                allowed,
                dismissed,
            ) implies after.contains(all[q]) by {
            if q == from - 1 {
                assert(after[kept.len() as int] == all[q]);
            } else {
                let i = choose|i: int| 0 <= i < kept.len() && kept[i] == all[q];
                assert(after[i] == all[q]);
            }
        }
    }
}

/// Keeps the items that are shown.
fn open_ones(
    latest: Vec<PendingItem>,
    allowed: &Vec<String>,
    dismissed: &Vec<(String, u64)>,
) -> (r: Vec<PendingItem>)
    requires
        forall|i: int, j: int|
            0 <= i < j < latest@.len() ==> (#[trigger] pendings(latest@)[i]).target != (
            #[trigger] pendings(latest@)[j]).target,
    ensures
        keeps_open(
            pendings(r@),
            pendings(latest@),
            0,
            pieces::texts(allowed@).to_set(),
            outside::entry_map(dismissed@),
        ),
{
    let ghost all = pendings(latest@);
    let ghost texts = pieces::texts(allowed@).to_set();
    let ghost map = outside::entry_map(dismissed@);
    let mut rest = latest;
    let mut shown: Vec<PendingItem> = Vec::new();
    while rest.len() > 0
        invariant
            rest@.len() <= all.len(),
            forall|i: int| 0 <= i < rest@.len() ==> (#[trigger] rest@[i])@ == all[i],
            forall|i: int, j: int|
                0 <= i < j < all.len() ==> (#[trigger] all[i]).target != (#[trigger] all[j]).target,
            texts == pieces::texts(allowed@).to_set(),
            map == outside::entry_map(dismissed@),
            keeps_open(pendings(shown@), all, rest@.len() as int, texts, map),
        decreases rest@.len(),
    {
        let ghost n = rest@.len() as int;
        let ghost kept = pendings(shown@);
        let item = match rest.pop() {
            Some(item) => item,
            None => return shown,
        };
        proof {
            assert(item@ == all[n - 1]);
            keeps_one_more(kept, all, n, texts, map);
        }
        let approved = pieces::holds_text(allowed, &item.target);
        assert(approved == texts.contains(item@.target));
        if !approved && dismissed_time(dismissed, item.target.as_str()) < item.epoch {
            shown.push(item);
            assert(pendings(shown@) =~= kept.push(all[n - 1]));
        }
    }
    shown
}

/// Items with different targets have different targets in any order.
proof fn sorted_targets_differ(from: Seq<PendingItem>, to: Seq<PendingItem>, i: int, j: int)
    requires
        order::is_stable_sort(from, to),
        forall|a: int, b: int|
            0 <= a < b < from.len() ==> (#[trigger] pendings(from)[a]).target != (
            #[trigger] pendings(from)[b]).target,
        0 <= i < j < to.len(),
    ensures
        to[i]@.target != to[j]@.target,
{
    if to[i]@.target == to[j]@.target {
        order::stable_sort_keeps_elements(from, to);
        assert forall|p: int, q: int|
            0 <= p < from.len() && 0 <= q < from.len() && p != q implies from[p]@.target
            != from[q]@.target by {
            if p < q {
                assert(pendings(from)[p].target != pendings(from)[q].target);
            } else {
                assert(pendings(from)[q].target != pendings(from)[p].target);
            }
        }
        from.to_multiset_ensures();
        to.to_multiset_ensures();
        assert(from.no_duplicates());
        from.lemma_multiset_has_no_duplicates();
        assert forall|x: PendingItem| to.to_multiset().contains(x) implies to.to_multiset().count(x)
            == 1 by {
            assert(from.to_multiset().contains(x));
        }
        to.lemma_multiset_has_no_duplicates_conv();
        assert(to.contains(to[i]) && to.contains(to[j]));
        let a = choose|a: int| 0 <= a < from.len() && from[a] == to[i];
        let b = choose|b: int| 0 <= b < from.len() && from[b] == to[j];
        assert(a == b);
        assert(to[i] == to[j]);
    }
}

/// Sorting the items that are kept gives the list that is shown.
proof fn sorted_items_show(
    kept: Seq<PendingItem>,
    sorted: Seq<PendingItem>,
    all: Seq<Pending>,
    events: Seq<Event>,
    allowed: Set<Seq<char>>,
    dismissed: Map<Seq<char>, u64>,
    mappings: Seq<Mapping>,
)
    requires
        order::is_stable_sort(kept, sorted),
        keeps_open(pendings(kept), all, 0, allowed, dismissed),
        collects(all, events, mappings),
    ensures
        shows(pendings(sorted), events, allowed, dismissed, mappings),
{
    let list = pendings(sorted);
    order::stable_sort_keeps_elements(kept, sorted);
    assert forall|i: int| 0 <= i < list.len() implies shows_attempt(
        #[trigger] list[i],
        events,
        allowed,
        dismissed,
        mappings,
    ) by {
        assert(sorted.contains(sorted[i]));
        let a = choose|a: int| 0 <= a < kept.len() && kept[a] == sorted[i];
        assert(pendings(kept)[a] == list[i]);
        let q = choose|q: int| 0 <= q < all.len() && pendings(kept)[a] == #[trigger] all[q];
        let k = choose|k: int|
            #[trigger] is_latest(events, k) && all[q] == event_item(events[k], mappings);
        assert(is_shown(events, k, allowed, dismissed));
    }
    assert forall|k: int| #[trigger] is_shown(events, k, allowed, dismissed) implies list.contains(
        event_item(events[k], mappings),
    ) by {
        assert(is_latest(events, k));
        let q = choose|q: int| 0 <= q < all.len() && all[q] == event_item(events[k], mappings);
        assert(is_open_item(all[q], allowed, dismissed));
        let a = choose|a: int| 0 <= a < pendings(kept).len() && pendings(kept)[a] == all[q];
        assert(kept.contains(kept[a]));
        let i = choose|i: int| 0 <= i < sorted.len() && sorted[i] == kept[a];
        assert(list[i] == all[q]);
    }
    assert forall|i: int, j: int| 0 <= i < j < list.len() implies pending_before(
        #[trigger] list[i],
        #[trigger] list[j],
    ) by {
        assert(!sorted[j].before(&sorted[i]));
        sorted_targets_differ(kept, sorted, i, j);
        order::text_before_total(list[i].target, list[j].target);
    }
}

/// Lists the blocked destinations that ask for a decision.
pub fn open_items(
    log: &PendingLog,
    allowed: &Vec<String>,
    dismissed: &Vec<(String, u64)>,
    mappings: &Vec<ConnectorMapping>,
) -> (r: Result<Vec<PendingItem>, PendingError>)
    ensures
        match r {
            Ok(items) => events_of(log@) matches Ok(events) && shows(
                pendings(items@),
                events,
                pieces::texts(allowed@).to_set(),
                outside::entry_map(dismissed@),
                connectors::mappings_of(mappings@),
            ),
            Err(e) => events_of(log@) == Err::<Seq<Event>, PendingError>(e),
        },
{
    let latest = match latest_items(log, mappings) {
        Ok(latest) => latest,
        Err(e) => return Err(e),
    };
    let ghost all = pendings(latest@);
    let shown = open_ones(latest, allowed, dismissed);
    let ghost kept = shown@;
    let sorted = order::sort(shown);
    proof {
        sorted_items_show(
            kept,
            sorted@,
            all,
            events_of(log@)->Ok_0,
            pieces::texts(allowed@).to_set(),
            outside::entry_map(dismissed@),
            connectors::mappings_of(mappings@),
        );
    }
    Ok(sorted)
}

/// Collects the last attempt for each target.
fn latest_items(log: &PendingLog, mappings: &Vec<ConnectorMapping>) -> (r: Result<
    Vec<PendingItem>,
    PendingError,
>)
    ensures
        match r {
            Ok(items) => events_of(log@) matches Ok(events) && collects(
                pendings(items@),
                events,
                connectors::mappings_of(mappings@),
            ),
            Err(e) => events_of(log@) == Err::<Seq<Event>, PendingError>(e),
        },
{
    let ghost ms = connectors::mappings_of(mappings@);
    let mut latest: Vec<PendingItem> = Vec::new();
    let mut n: usize = 0;
    while n < log.records.len()
        invariant
            n <= log.records.len(),
            ms == connectors::mappings_of(mappings@),
            events_up_to(log@, n as int) is Ok,
            collects(pendings(latest@), events_up_to(log@, n as int)->Ok_0, ms),
        decreases log.records.len() - n,
    {
        let record = &log.records[n];
        let ghost events = events_up_to(log@, n as int)->Ok_0;
        assert(log@.lines[n as int] == record@);
        if !text::trimmed(record.line.as_str()).is_empty() {
            match &record.entry {
                None => {
                    if log.complete || n + 1 != log.records.len() {
                        proof {
                            first_error_decides(log@, n + 1);
                        }
                        return Err(PendingError::Malformed(n + 1));
                    }
                },
                Some(entry) => {
                    let target = match entry.target() {
                        Ok(target) => target,
                        Err(e) => {
                            proof {
                                first_error_decides(log@, n + 1);
                            }
                            return Err(PendingError::Target(e));
                        },
                    };
                    let key = target.to_text();
                    let epoch: u64 = match number::read_number(
                        entry.event_epoch_nanos.as_str(),
                        u64::MAX,
                    ) {
                        Some(epoch) => epoch,
                        None => 0,
                    };
                    let item = PendingItem::from_target(
                        &target,
                        connectors::endpoint_for(mappings, key.as_str()),
                        entry.event_epoch_nanos.clone(),
                        epoch,
                    );
                    let ghost e = Event { target: target@, seen: entry@.event_epoch_nanos };
                    assert(item@ == event_item(e, ms));
                    let ghost list = pendings(latest@);
                    let mut p: usize = 0;
                    while p < latest.len() && latest[p].target != key
                        invariant
                            p <= latest.len(),
                            key@ == event_key(e),
                            list == pendings(latest@),
                            forall|i: int|
                                0 <= i < p ==> (#[trigger] list[i]).target != event_key(e),
                        decreases latest.len() - p,
                    {
                        p = p + 1;
                    }
                    if p < latest.len() {
                        latest.set(p, item);
                        assert(pendings(latest@) =~= list.update(p as int, item@));
                    } else {
                        latest.push(item);
                        assert(pendings(latest@) =~= list.push(item@));
                    }
                    proof {
                        collects_one_more(list, pendings(latest@), p as int, events, e, ms);
                        assert(events_up_to(log@, n + 1) == Ok::<Seq<Event>, PendingError>(
                            events.push(e),
                        ));
                    }
                },
            }
        }
        n = n + 1;
    }
    Ok(latest)
}

/// An error in the first `n` lines is the error of the log.
proof fn first_error_decides(log: Log, n: int)
    requires
        0 <= n <= log.lines.len(),
        events_up_to(log, n) is Err,
    ensures
        events_of(log) == events_up_to(log, n),
    decreases log.lines.len() - n,
{
    if n < log.lines.len() {
        first_error_decides(log, n + 1);
    }
}

/// There is one list that shows what is to be shown.
pub proof fn shown_list_is_unique(
    a: Seq<Pending>,
    b: Seq<Pending>,
    events: Seq<Event>,
    allowed: Set<Seq<char>>,
    dismissed: Map<Seq<char>, u64>,
    mappings: Seq<Mapping>,
)
    requires
        shows(a, events, allowed, dismissed, mappings),
        shows(b, events, allowed, dismissed, mappings),
    ensures
        a == b,
{
    let lt = |x: Pending, y: Pending| pending_before(x, y);
    assert forall|x: Pending, y: Pending| #[trigger] lt(x, y) implies !lt(y, x) by {
        if lt(y, x) {
            order::text_before_transitive(x.target, y.target, x.target);
            order::text_before_irreflexive(x.target);
        }
    }
    assert forall|x: Pending| a.contains(x) implies b.contains(x) by {
        let i = choose|i: int| 0 <= i < a.len() && a[i] == x;
        assert(shows_attempt(a[i], events, allowed, dismissed, mappings));
    }
    assert forall|x: Pending| b.contains(x) implies a.contains(x) by {
        let i = choose|i: int| 0 <= i < b.len() && b[i] == x;
        assert(shows_attempt(b[i], events, allowed, dismissed, mappings));
    }
    assert forall|i: int, j: int|
        #![trigger a[i], a[j]]
        0 <= i < j < a.len() implies lt(a[i], a[j]) by {}
    assert forall|i: int, j: int|
        #![trigger b[i], b[j]]
        0 <= i < j < b.len() implies lt(b[i], b[j]) by {}
    order::sorted_list_is_unique(a, b, lt);
}

/// No target is shown twice.
pub proof fn shown_targets_differ(
    list: Seq<Pending>,
    events: Seq<Event>,
    allowed: Set<Seq<char>>,
    dismissed: Map<Seq<char>, u64>,
    mappings: Seq<Mapping>,
    i: int,
    j: int,
)
    requires
        shows(list, events, allowed, dismissed, mappings),
        0 <= i < j < list.len(),
    ensures
        list[i].target != list[j].target,
{
    if list[i].target == list[j].target {
        assert(shows_attempt(list[i], events, allowed, dismissed, mappings));
        assert(shows_attempt(list[j], events, allowed, dismissed, mappings));
        let a = choose|a: int| #[trigger]
            is_shown(events, a, allowed, dismissed) && list[i] == event_item(events[a], mappings);
        let b = choose|b: int| #[trigger]
            is_shown(events, b, allowed, dismissed) && list[j] == event_item(events[b], mappings);
        assert(event_key(events[a]) == event_key(events[b]));
        if a < b {
            assert(event_key(events[b]) != event_key(events[a]));
        } else if b < a {
            assert(event_key(events[a]) != event_key(events[b]));
        }
        assert(list[i] == list[j]);
        assert(pending_before(list[i], list[j]));
        order::text_before_irreflexive(list[i].target);
    }
}

} // verus!
