//! Component health table: the status of each named worker, when it last
//! changed, and how often it was restarted.

use vstd::prelude::*;
use crate::text::{lemma_lt_asymmetric, lemma_lt_irreflexive, lemma_lt_total, lemma_lt_transitive, text_eq, text_less, text_lt};

verus! {

/// The health record of one component.
pub struct ComponentHealth {
    pub status: String,
    pub updated_at: String,
    pub last_ok: Option<String>,
    pub last_error: Option<String>,
    pub restart_count: u64,
}

/// What a health record holds, as plain text and integers.
pub struct ComponentHealthView {
    pub status: Seq<char>,
    pub updated_at: Seq<char>,
    pub last_ok: Option<Seq<char>>,
    pub last_error: Option<Seq<char>>,
    pub restart_count: u64,
}

pub open spec fn opt_view(o: Option<String>) -> Option<Seq<char>> {
    match o {
        Some(s) => Some(s@),
        None => None,
    }
}

impl View for ComponentHealth {
    type V = ComponentHealthView;

    open spec fn view(&self) -> ComponentHealthView {
        ComponentHealthView {
            status: self.status@,
            updated_at: self.updated_at@,
            last_ok: opt_view(self.last_ok),
            last_error: opt_view(self.last_error),
            restart_count: self.restart_count,
        }
    }
}

fn copy_opt(o: &Option<String>) -> (r: Option<String>)
    ensures
        opt_view(r) == opt_view(*o),
{
    match o {
        Some(s) => Some(s.clone()),
        None => None,
    }
}

impl ComponentHealth {
    /// A deep copy of the record.
    pub fn copy(&self) -> (r: ComponentHealth)
        ensures
            r@ == self@,
    {
        ComponentHealth {
            status: self.status.clone(),
            updated_at: self.updated_at.clone(),
            last_ok: copy_opt(&self.last_ok),
            last_error: copy_opt(&self.last_error),
            restart_count: self.restart_count,
        }
    }
}

/// A point-in-time copy of the whole table, with process facts.
pub struct HealthSnapshot {
    pub pid: u32,
    pub updated_at: String,
    pub uptime_seconds: u64,
    pub components: Vec<(String, ComponentHealth)>,
}

pub type Entries = Seq<(Seq<char>, ComponentHealthView)>;

pub open spec fn entries_view(v: Seq<(String, ComponentHealth)>) -> Entries {
    v.map_values(|e: (String, ComponentHealth)| (e.0@, e.1@))
}

/// No two entries share a name.
pub open spec fn unique_names(s: Entries) -> bool {
    forall|i: int, j: int| 0 <= i < s.len() && 0 <= j < s.len() && #[trigger] s[i].0 == #[trigger] s[j].0 ==> i == j
}

/// Entries are in strictly increasing name order (the order of `str`).
pub open spec fn sorted_names(s: Entries) -> bool {
    forall|i: int, j: int| 0 <= i < j < s.len() ==> text_lt(#[trigger] s[i].0, #[trigger] s[j].0)
}

pub proof fn lemma_sorted_unique(s: Entries)
    requires
        sorted_names(s),
    ensures
        unique_names(s),
{
    assert forall|i: int, j: int| 0 <= i < s.len() && 0 <= j < s.len() && #[trigger] s[i].0 == #[trigger] s[j].0 implies i == j by {
        if i < j {
            lemma_lt_irreflexive(s[i].0, 0);
        } else if j < i {
            lemma_lt_irreflexive(s[i].0, 0);
        }
    }
}

/// `i` is where `name` goes in the sorted table `s`.
pub open spec fn is_insert_pos(s: Entries, name: Seq<char>, i: int) -> bool {
    &&& 0 <= i <= s.len()
    &&& forall|j: int| 0 <= j < i ==> text_lt(#[trigger] s[j].0, name)
    &&& forall|j: int| i <= j < s.len() ==> text_lt(name, #[trigger] s[j].0)
}

pub open spec fn insert_pos(s: Entries, name: Seq<char>) -> int {
    choose|i: int| is_insert_pos(s, name, i)
}

proof fn lemma_insert_pos_exists(s: Entries, name: Seq<char>)
    requires
        sorted_names(s),
        !has_name(s, name),
    ensures
        is_insert_pos(s, name, insert_pos(s, name)),
    decreases s.len(),
{
    if s.len() == 0 {
        assert(is_insert_pos(s, name, 0));
    } else {
        let t = s.drop_last();
        assert(sorted_names(t));
        assert(!has_name(t, name)) by {
            if has_name(t, name) {
                let k = choose|k: int| 0 <= k < t.len() && #[trigger] t[k].0 == name;
                assert(s[k].0 == name);
            }
        }
        lemma_insert_pos_exists(t, name);
        let i = insert_pos(t, name);
        let last = s[s.len() - 1].0;
        assert(last != name) by {
            assert(s[s.len() - 1].0 == last);
        }
        if text_lt(last, name) {
            assert forall|j: int| 0 <= j < s.len() implies text_lt(#[trigger] s[j].0, name) by {
                if j < s.len() - 1 {
                    assert(text_lt(s[j].0, last));
                    lemma_lt_transitive(s[j].0, last, name, 0);
                }
            }
            assert(is_insert_pos(s, name, s.len() as int));
        } else {
            lemma_lt_total(name, last, 0);
            assert forall|j: int| i <= j < s.len() implies text_lt(name, #[trigger] s[j].0) by {
                if j < s.len() - 1 {
                    assert(t[j] == s[j]);
                }
            }
            assert forall|j: int| 0 <= j < i implies text_lt(#[trigger] s[j].0, name) by {
                assert(t[j] == s[j]);
            }
            assert(is_insert_pos(s, name, i));
        }
    }
}

proof fn lemma_insert_pos_unique(s: Entries, name: Seq<char>, i: int, k: int)
    requires
        is_insert_pos(s, name, i),
        is_insert_pos(s, name, k),
    ensures
        i == k,
{
    if i < k {
        lemma_lt_asymmetric(s[i].0, name, 0);
    } else if k < i {
        lemma_lt_asymmetric(s[k].0, name, 0);
    }
}

pub open spec fn has_name(s: Entries, name: Seq<char>) -> bool {
    exists|i: int| 0 <= i < s.len() && #[trigger] s[i].0 == name
}

pub open spec fn index_of(s: Entries, name: Seq<char>) -> int {
    choose|i: int| 0 <= i < s.len() && #[trigger] s[i].0 == name
}

/// The record of `name`, if the table has one.
pub open spec fn lookup(s: Entries, name: Seq<char>) -> Option<ComponentHealthView> {
    if has_name(s, name) {
        Some(s[index_of(s, name)].1)
    } else {
        None
    }
}

/// The record a component gets on its first mention.
pub open spec fn starting(now: Seq<char>) -> ComponentHealthView {
    ComponentHealthView {
        status: "starting"@,
        updated_at: now,
        last_ok: None,
        last_error: None,
        restart_count: 0,
    }
}

/// The change that one of the table's operations makes to a record.
pub enum Change {
    MarkOk,
    MarkError(Seq<char>),
    BumpRestart,
}

pub open spec fn apply_change(h: ComponentHealthView, c: Change, now: Seq<char>) -> ComponentHealthView {
    match c {
        Change::MarkOk => ComponentHealthView {
            status: "ok"@,
            updated_at: now,
            last_ok: Some(now),
            last_error: None,
            ..h
        },
        Change::MarkError(msg) => ComponentHealthView {
            status: "error"@,
            updated_at: now,
            last_error: Some(msg),
            ..h
        },
        Change::BumpRestart => ComponentHealthView {
            updated_at: now,
            restart_count: if h.restart_count == u64::MAX { u64::MAX } else { (h.restart_count + 1) as u64 },
            ..h
        },
    }
}

/// The table after `c` is applied to `name` at time `now`: an existing record
/// is changed in place, a new name is inserted in name order as `starting`
/// and then changed.
pub open spec fn upsert(s: Entries, name: Seq<char>, c: Change, now: Seq<char>) -> Entries {
    if has_name(s, name) {
        s.update(index_of(s, name), (name, apply_change(s[index_of(s, name)].1, c, now)))
    } else {
        s.insert(insert_pos(s, name), (name, apply_change(starting(now), c, now)))
    }
}

/// The process-wide table of component health.
pub struct HealthRegistry {
    pub components: Vec<(String, ComponentHealth)>,
}

impl View for HealthRegistry {
    type V = Entries;

    open spec fn view(&self) -> Entries {
        entries_view(self.components@)
    }
}

impl HealthRegistry {
    pub open spec fn wf(&self) -> bool {
        sorted_names(self@)
    }

    pub fn new() -> (r: HealthRegistry)
        ensures
            r.wf(),
            r@ == Seq::<(Seq<char>, ComponentHealthView)>::empty(),
    {
        let r = HealthRegistry { components: Vec::new() };
        assert(r@ =~= Seq::<(Seq<char>, ComponentHealthView)>::empty());
        r
    }

    /// Applies `c` to the record of `name`, stamped with the time `now`.
    pub fn record(&mut self, name: &str, c: ExecChange, now: String)
        requires
            old(self).wf(),
        ensures
            final(self).wf(),
            final(self)@ == upsert(old(self)@, name@, c@, now@),
    {
        let ghost before = self@;
        let mut i: usize = 0;
        while i < self.components.len() && text_less(self.components[i].0.as_str(), name)
            invariant
                self@ == before,
                sorted_names(before),
                i <= self.components@.len(),
                before.len() == self.components@.len(),
                forall|j: int| 0 <= j < i ==> text_lt(#[trigger] before[j].0, name@),
            decreases self.components@.len() - i,
        {
            i = i + 1;
        }
        proof {
            lemma_sorted_unique(before);
        }
        if i < self.components.len() && text_eq(self.components[i].0.as_str(), name) {
            assert(before[i as int].0 == name@);
            assert(has_name(before, name@));
            assert(index_of(before, name@) == i);
            let mut h = self.components[i].1.copy();
            c.apply(&mut h, now);
            self.components.set(i, (name.to_owned(), h));
            assert(self@ =~= upsert(before, name@, c@, now@));
        } else {
            proof {
                if i < before.len() {
                    assert(before[i as int].0 != name@);
                    lemma_lt_total(name@, before[i as int].0, 0);
                }
                assert forall|j: int| i <= j < before.len() implies text_lt(name@, #[trigger] before[j].0) by {
                    if j > i {
                        assert(text_lt(before[i as int].0, before[j].0));
                        lemma_lt_transitive(name@, before[i as int].0, before[j].0, 0);
                    }
                }
                assert(is_insert_pos(before, name@, i as int));
                assert(!has_name(before, name@)) by {
                    if has_name(before, name@) {
                        let k = choose|k: int| 0 <= k < before.len() && #[trigger] before[k].0 == name@;
                        lemma_lt_irreflexive(name@, 0);
                    }
                }
                lemma_insert_pos_exists(before, name@);
                lemma_insert_pos_unique(before, name@, i as int, insert_pos(before, name@));
            }
            let mut h = ComponentHealth {
                status: String::from_str("starting"),
                updated_at: now.clone(),
                last_ok: None,
                last_error: None,
                restart_count: 0,
            };
            proof {
                reveal_strlit("starting");
            }
            assert(h@ == starting(now@));
            c.apply(&mut h, now);
            self.components.insert(i, (name.to_owned(), h));
            assert(self@ =~= upsert(before, name@, c@, now@));
            proof {
                lemma_upsert_lookup(before, name@, c@, now@);
            }
        }
    }
}

/// A change to a record, as a value that executable code can apply.
pub enum ExecChange {
    MarkOk,
    MarkError(String),
    BumpRestart,
}

impl View for ExecChange {
    type V = Change;

    open spec fn view(&self) -> Change {
        match self {
            ExecChange::MarkOk => Change::MarkOk,
            ExecChange::MarkError(m) => Change::MarkError(m@),
            ExecChange::BumpRestart => Change::BumpRestart,
        }
    }
}

impl ExecChange {
    fn apply(self, h: &mut ComponentHealth, now: String)
        ensures
            final(h)@ == apply_change(old(h)@, self@, now@),
    {
        match self {
            ExecChange::MarkOk => {
                h.status = String::from_str("ok");
                h.last_ok = Some(now.clone());
                h.last_error = None;
            },
            ExecChange::MarkError(m) => {
                h.status = String::from_str("error");
                h.last_error = Some(m);
            },
            ExecChange::BumpRestart => {
                h.restart_count = h.restart_count.saturating_add(1);
            },
        }
        h.updated_at = now;
    }
}

/// Relies on chrono's `Utc::now` and `DateTime::to_rfc3339`: the current
/// wall-clock time as RFC 3339 text. Nothing is promised of its value.
#[verifier::external_body]
pub(crate) fn now_rfc3339() -> String {
    chrono::Utc::now().to_rfc3339()
}

/// The time stamp that an operation wrote on the record of `name`.
pub open spec fn stamp_of(s: Entries, name: Seq<char>) -> Seq<char> {
    lookup(s, name).unwrap().updated_at
}

/// Marks `component` healthy: status `ok`, `last_ok` equal to the new time
/// stamp, no last error.
pub fn mark_component_ok(reg: &mut HealthRegistry, component: &str)
    requires
        old(reg).wf(),
    ensures
        final(reg).wf(),
        final(reg)@ == upsert(old(reg)@, component@, Change::MarkOk, stamp_of(final(reg)@, component@)),
{
    let now = now_rfc3339();
    reg.record(component, ExecChange::MarkOk, now);
    proof { lemma_upsert_lookup(old(reg)@, component@, Change::MarkOk, now@); }
}

/// Marks `component` failed with the message `error`.
pub fn mark_component_error(reg: &mut HealthRegistry, component: &str, error: &str)
    requires
        old(reg).wf(),
    ensures
        final(reg).wf(),
        final(reg)@ == upsert(old(reg)@, component@, Change::MarkError(error@), stamp_of(final(reg)@, component@)),
{
    let now = now_rfc3339();
    reg.record(component, ExecChange::MarkError(error.to_owned()), now);
    proof { lemma_upsert_lookup(old(reg)@, component@, Change::MarkError(error@), now@); }
}

/// Counts one more restart of `component` (saturating).
pub fn bump_component_restart(reg: &mut HealthRegistry, component: &str)
    requires
        old(reg).wf(),
    ensures
        final(reg).wf(),
        final(reg)@ == upsert(old(reg)@, component@, Change::BumpRestart, stamp_of(final(reg)@, component@)),
{
    let now = now_rfc3339();
    reg.record(component, ExecChange::BumpRestart, now);
    proof { lemma_upsert_lookup(old(reg)@, component@, Change::BumpRestart, now@); }
}

/// After an operation on `name`, the table holds the changed record of
/// `name` and the records of all other names as they were.
pub proof fn lemma_upsert_lookup(s: Entries, name: Seq<char>, c: Change, now: Seq<char>)
    requires
        sorted_names(s),
    ensures
        sorted_names(upsert(s, name, c, now)),
        lookup(upsert(s, name, c, now), name) == Some(apply_change(
            match lookup(s, name) { Some(h) => h, None => starting(now) }, c, now)),
        stamp_of(upsert(s, name, c, now), name) == now,
        forall|other: Seq<char>| other != name ==> #[trigger] lookup(upsert(s, name, c, now), other) == lookup(s, other),
{
    let t = upsert(s, name, c, now);
    lemma_sorted_unique(s);
    let i = if has_name(s, name) {
        index_of(s, name)
    } else {
        lemma_insert_pos_exists(s, name);
        insert_pos(s, name)
    };
    if has_name(s, name) {
        assert(sorted_names(t)) by {
            assert forall|a: int, b: int| 0 <= a < b < t.len() implies text_lt(#[trigger] t[a].0, #[trigger] t[b].0) by {
                assert(t[a].0 == s[a].0 && t[b].0 == s[b].0);
            }
        }
    } else {
        assert(sorted_names(t)) by {
            assert forall|a: int, b: int| 0 <= a < b < t.len() implies text_lt(#[trigger] t[a].0, #[trigger] t[b].0) by {
                if b < i {
                } else if b == i {
                } else if a < i {
                    assert(t[b] == s[b - 1]);
                    assert(s[a].0 == t[a].0);
                } else if a == i {
                    assert(t[b] == s[b - 1]);
                } else {
                    assert(t[a] == s[a - 1] && t[b] == s[b - 1]);
                }
            }
        }
    }
    lemma_sorted_unique(t);
    assert(t[i].0 == name);
    assert(has_name(t, name));
    assert(index_of(t, name) == i);
    assert forall|other: Seq<char>| other != name implies #[trigger] lookup(t, other) == lookup(s, other) by {
        if has_name(s, other) {
            let k = index_of(s, other);
            let k2 = if has_name(s, name) || k < i { k } else { k + 1 };
            assert(t[k2] == s[k]);
            assert(has_name(t, other));
            assert(index_of(t, other) == k2);
        }
        if has_name(t, other) {
            let k = index_of(t, other);
            let k2 = if has_name(s, name) || k < i { k } else { k - 1 };
            assert(s[k2] == t[k]);
            assert(has_name(s, other));
        }
    }
}

/// Every operation stamps the record with its time and never lowers the
/// restart count; marking healthy makes `last_ok` equal to the new stamp,
/// marking failed leaves a last error.
pub proof fn lemma_change_keeps_record_invariants(h: ComponentHealthView, c: Change, now: Seq<char>)
    ensures
        apply_change(h, c, now).updated_at == now,
        apply_change(h, c, now).restart_count >= h.restart_count,
        c == Change::MarkOk ==> apply_change(h, c, now).last_ok == Some(apply_change(h, c, now).updated_at),
        c matches Change::MarkError(m) ==> apply_change(h, c, now).last_error == Some(m),
{
}

/// The user-facing error shape: what happened, its cause, and how to fix it.
pub open spec fn structured_error_text(what: Seq<char>, why: Seq<char>, fix: Seq<char>) -> Seq<char> {
    what + "\n  Cause: "@ + why + "\n  Fix: "@ + fix
}

/// Formats a user-visible error as `"{what}\n  Cause: {why}\n  Fix: {fix}"`.
pub fn structured_error(what: &str, why: &str, fix: &str) -> (r: String)
    ensures
        r@ == structured_error_text(what@, why@, fix@),
{
    let mut s = String::from_str(what);
    s.append("\n  Cause: ");
    s.append(why);
    s.append("\n  Fix: ");
    s.append(fix);
    s
}

/// A deep copy of the table, in name order, with the process facts that
/// the caller read.
pub fn snapshot(reg: &HealthRegistry, pid: u32, updated_at: String, uptime_seconds: u64) -> (r: HealthSnapshot)
    requires
        reg.wf(),
    ensures
        entries_view(r.components@) == reg@,
        sorted_names(entries_view(r.components@)),
        r.pid == pid,
        r.updated_at@ == updated_at@,
        r.uptime_seconds == uptime_seconds,
{
    let mut components: Vec<(String, ComponentHealth)> = Vec::new();
    let mut i: usize = 0;
    assert(entries_view(components@) =~= reg@.subrange(0, 0));
    while i < reg.components.len()
        invariant
            i <= reg.components@.len(),
            entries_view(components@) == reg@.subrange(0, i as int),
            components@.len() == i,
            reg@.len() == reg.components@.len(),
        decreases reg.components@.len() - i,
    {
        let e = &reg.components[i];
        let name = e.0.clone();
        let h = e.1.copy();
        assert(name@ == reg@[i as int].0);
        components.push((name, h));
        assert(entries_view(components@)[i as int] == reg@[i as int]);
        i = i + 1;
        assert(entries_view(components@) =~= reg@.subrange(0, i as int));
    }
    assert(reg@.subrange(0, i as int) =~= reg@);
    HealthSnapshot { pid, updated_at, uptime_seconds, components }
}

} // verus!
