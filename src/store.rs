//! The dependency store and its insert-or-touch protocol. A record is keyed by its
//! identity `(ecosystem, name, version)`; an upsert inserts a record on first sight and
//! afterwards only advances its `last_seen_at`. `last_indexed_at` belongs to the
//! downstream indexer: upserts never write it.
use crate::models::{identities, CollectorDependency, IdentityView, ProjectLanguage};
use crate::reconcile::{ReconcileProgress, ReconcileStep};
use vstd::prelude::*;

verus! {

/// A stored dependency record.
#[derive(Debug)]
pub struct DependencyRecord {
    pub name: String,
    pub version: String,
    pub language: ProjectLanguage,
    pub first_seen_at: u64,
    pub last_seen_at: u64,
    pub last_indexed_at: Option<u64>,
}

/// The abstract content of a record.
pub ghost struct RecordView {
    pub identity: IdentityView,
    pub first_seen_at: u64,
    pub last_seen_at: u64,
    pub last_indexed_at: Option<u64>,
}

impl View for DependencyRecord {
    type V = RecordView;

    open spec fn view(&self) -> RecordView {
        RecordView {
            identity: (self.language, self.name@, self.version@),
            first_seen_at: self.first_seen_at,
            last_seen_at: self.last_seen_at,
            last_indexed_at: self.last_indexed_at,
        }
    }
}

impl DependencyRecord {
    /// A copy with the same content.
    pub fn duplicate(&self) -> (r: Self)
        ensures
            r@ == self@,
    {
        DependencyRecord {
            name: self.name.clone(),
            version: self.version.clone(),
            language: self.language,
            first_seen_at: self.first_seen_at,
            last_seen_at: self.last_seen_at,
            last_indexed_at: self.last_indexed_at,
        }
    }
}

pub open spec fn records_view(v: Seq<DependencyRecord>) -> Seq<RecordView> {
    v.map_values(|r: DependencyRecord| r@)
}

/// No two records share an identity, and no record was last seen before it was first
/// seen.
pub open spec fn store_wf(s: Seq<RecordView>) -> bool {
    &&& forall|i: int, j: int|
        0 <= i < s.len() && 0 <= j < s.len() && i != j ==> #[trigger] s[i].identity
            != #[trigger] s[j].identity
    &&& forall|i: int| 0 <= i < s.len() ==> #[trigger] s[i].first_seen_at <= s[i].last_seen_at
}

/// Some record of `s` has identity `id`.
pub open spec fn holds_identity(s: Seq<RecordView>, id: IdentityView) -> bool {
    exists|i: int| 0 <= i < s.len() && #[trigger] s[i].identity == id
}

/// The identities of the records, in order.
pub open spec fn ids_of(s: Seq<RecordView>) -> Seq<IdentityView> {
    s.map_values(|r: RecordView| r.identity)
}

/// A record seen again at `now`: `last_seen_at` advances to `now` unless it is
/// already later; nothing else changes.
pub open spec fn touch(r: RecordView, now: u64) -> RecordView {
    RecordView {
        last_seen_at: if now > r.last_seen_at {
            now
        } else {
            r.last_seen_at
        },
        ..r
    }
}

/// The record inserted for an identity seen for the first time at `now`.
pub open spec fn fresh_record(id: IdentityView, now: u64) -> RecordView {
    RecordView { identity: id, first_seen_at: now, last_seen_at: now, last_indexed_at: None }
}

/// One atomic insert-or-touch of `id` at `now`.
pub open spec fn upsert_spec(s: Seq<RecordView>, id: IdentityView, now: u64) -> Seq<RecordView> {
    if holds_identity(s, id) {
        s.map_values(|r: RecordView| if r.identity == id { touch(r, now) } else { r })
    } else {
        s.push(fresh_record(id, now))
    }
}

/// Insert-or-touch of each identity of `ids`, in order, at `now`.
pub open spec fn reconcile_spec(s: Seq<RecordView>, ids: Seq<IdentityView>, now: u64) -> Seq<
    RecordView,
>
    decreases ids.len(),
{
    if ids.len() == 0 {
        s
    } else {
        upsert_spec(reconcile_spec(s, ids.drop_last(), now), ids.last(), now)
    }
}

/// The records whose `last_indexed_at` is unset, in store order.
pub open spec fn unindexed_spec(s: Seq<RecordView>) -> Seq<RecordView>
    decreases s.len(),
{
    if s.len() == 0 {
        s
    } else if s.last().last_indexed_at is None {
        unindexed_spec(s.drop_last()).push(s.last())
    } else {
        unindexed_spec(s.drop_last())
    }
}

/// "The project at `path` depends on the dependency with this identity."
#[derive(Debug)]
pub struct ProjectDependencyLink {
    pub path: String,
    pub name: String,
    pub version: String,
    pub language: ProjectLanguage,
    pub first_seen_at: u64,
    pub last_seen_at: u64,
}

/// The abstract content of a link.
pub ghost struct LinkView {
    pub path: Seq<char>,
    pub identity: IdentityView,
    pub first_seen_at: u64,
    pub last_seen_at: u64,
}

impl View for ProjectDependencyLink {
    type V = LinkView;

    open spec fn view(&self) -> LinkView {
        LinkView {
            path: self.path@,
            identity: (self.language, self.name@, self.version@),
            first_seen_at: self.first_seen_at,
            last_seen_at: self.last_seen_at,
        }
    }
}

pub open spec fn links_view(v: Seq<ProjectDependencyLink>) -> Seq<LinkView> {
    v.map_values(|l: ProjectDependencyLink| l@)
}

/// No two links share a `(path, identity)` pair, and no link was last seen before it
/// was first seen.
pub open spec fn links_wf(s: Seq<LinkView>) -> bool {
    &&& forall|i: int, j: int|
        0 <= i < s.len() && 0 <= j < s.len() && i != j ==> (#[trigger] s[i].path, s[i].identity)
            != (#[trigger] s[j].path, s[j].identity)
    &&& forall|i: int| 0 <= i < s.len() ==> #[trigger] s[i].first_seen_at <= s[i].last_seen_at
}

/// Some link of `s` joins `path` and `id`.
pub open spec fn holds_link(s: Seq<LinkView>, path: Seq<char>, id: IdentityView) -> bool {
    exists|i: int| 0 <= i < s.len() && #[trigger] s[i].path == path && s[i].identity == id
}

/// One atomic insert-or-touch of the link between `path` and `id` at `now`.
pub open spec fn link_upsert_spec(s: Seq<LinkView>, path: Seq<char>, id: IdentityView, now: u64) -> Seq<
    LinkView,
> {
    if holds_link(s, path, id) {
        s.map_values(
            |l: LinkView|
                if l.path == path && l.identity == id {
                    LinkView {
                        last_seen_at: if now > l.last_seen_at {
                            now
                        } else {
                            l.last_seen_at
                        },
                        ..l
                    }
                } else {
                    l
                },
        )
    } else {
        s.push(LinkView { path, identity: id, first_seen_at: now, last_seen_at: now })
    }
}

/// Insert-or-touch of the link between `path` and each identity of `ids`, in order.
pub open spec fn link_reconcile_spec(
    s: Seq<LinkView>,
    path: Seq<char>,
    ids: Seq<IdentityView>,
    now: u64,
) -> Seq<LinkView>
    decreases ids.len(),
{
    if ids.len() == 0 {
        s
    } else {
        link_upsert_spec(link_reconcile_spec(s, path, ids.drop_last(), now), path, ids.last(), now)
    }
}

/// An in-memory dependency store with atomic insert-or-touch.
#[derive(Debug)]
pub struct DependencyStore {
    records: Vec<DependencyRecord>,
    links: Vec<ProjectDependencyLink>,
}

impl View for DependencyStore {
    type V = Seq<RecordView>;

    closed spec fn view(&self) -> Seq<RecordView> {
        records_view(self.records@)
    }
}

impl DependencyStore {
    /// The project-dependency links, in store order.
    pub closed spec fn links_spec(&self) -> Seq<LinkView> {
        links_view(self.links@)
    }

    /// An empty store.
    pub fn new() -> (r: Self)
        ensures
            r@ == Seq::<RecordView>::empty(),
            r.links_spec() == Seq::<LinkView>::empty(),
            store_wf(r@),
            links_wf(r.links_spec()),
    {
        let r = DependencyStore { records: Vec::new(), links: Vec::new() };
        assert(r@ =~= Seq::<RecordView>::empty());
        assert(r.links_spec() =~= Seq::<LinkView>::empty());
        r
    }

    /// The project-dependency links, in store order.
    pub fn links(&self) -> (r: &Vec<ProjectDependencyLink>)
        ensures
            links_view(r@) == self.links_spec(),
    {
        &self.links
    }

    /// Atomic insert-or-touch of the link between `path` and the identity of `dep`.
    pub fn upsert_link(&mut self, path: &String, dep: &CollectorDependency, now: u64)
        requires
            links_wf(old(self).links_spec()),
        ensures
            links_wf(final(self).links_spec()),
            final(self).links_spec() == link_upsert_spec(old(self).links_spec(), path@, dep@, now),
            final(self)@ == old(self)@,
    {
        let ghost s = self.links_spec();
        let mut i: usize = 0;
        while i < self.links.len()
            invariant
                i <= self.links.len(),
                s == links_view(self.links@),
                links_wf(s),
                s == old(self).links_spec(),
                self@ == old(self)@,
                forall|k: int| 0 <= k < i ==> !(#[trigger] s[k].path == path@ && s[k].identity == dep@),
            decreases self.links.len() - i,
        {
            let l = &self.links[i];
            if l.path == *path && l.language == dep.language && l.name == dep.name && l.version == dep.version {
                assert(s[i as int].path == path@ && s[i as int].identity == dep@);
                assert(holds_link(s, path@, dep@));
                if now > self.links[i].last_seen_at {
                    self.links[i].last_seen_at = now;
                }
                assert forall|k: int| 0 <= k < s.len() && k != i implies !(s[k].path == path@ && s[k].identity == dep@) by {
                    assert((s[k].path, s[k].identity) != (s[i as int].path, s[i as int].identity));
                }
                assert(self.links_spec() =~= link_upsert_spec(s, path@, dep@, now));
                return;
            }
            i += 1;
        }
        let link = ProjectDependencyLink {
            path: path.clone(),
            name: dep.name.clone(),
            version: dep.version.clone(),
            language: dep.language,
            first_seen_at: now,
            last_seen_at: now,
        };
        self.links.push(link);
        assert(self.links_spec() =~= link_upsert_spec(s, path@, dep@, now));
    }

    /// The number of records.
    pub fn len(&self) -> (r: usize)
        ensures
            r == self@.len(),
    {
        self.records.len()
    }

    /// The records, in store order.
    pub fn records(&self) -> (r: &Vec<DependencyRecord>)
        ensures
            records_view(r@) == self@,
    {
        &self.records
    }

    fn position(&self, language: ProjectLanguage, name: &String, version: &String) -> (r: Option<usize>)
        ensures
            match r {
                Some(i) => i < self@.len() && self@[i as int].identity == (language, name@, version@),
                None => !holds_identity(self@, (language, name@, version@)),
            },
    {
        let mut i: usize = 0;
        while i < self.records.len()
            invariant
                i <= self.records.len(),
                forall|k: int| 0 <= k < i ==> #[trigger] self@[k].identity != (language, name@, version@),
            decreases self.records.len() - i,
        {
            let r = &self.records[i];
            if r.language == language && r.name == *name && r.version == *version {
                return Some(i);
            }
            i += 1;
        }
        None
    }

    /// Atomic insert-or-touch of the identity of `dep` at time `now`.
    pub fn upsert(&mut self, dep: &CollectorDependency, now: u64)
        requires
            store_wf(old(self)@),
        ensures
            store_wf(final(self)@),
            final(self)@ == upsert_spec(old(self)@, dep@, now),
            final(self).links_spec() == old(self).links_spec(),
    {
        let ghost s = self@;
        match self.position(dep.language, &dep.name, &dep.version) {
            Some(i) => {
                if now > self.records[i].last_seen_at {
                    self.records[i].last_seen_at = now;
                }
                assert(self@ =~= upsert_spec(s, dep@, now)) by {
                    assert forall|k: int| 0 <= k < s.len() && k != i implies s[k].identity != dep@ by {
                        assert(s[k].identity != s[i as int].identity);
                    }
                }
            },
            None => {
                let record = DependencyRecord {
                    name: dep.name.clone(),
                    version: dep.version.clone(),
                    language: dep.language,
                    first_seen_at: now,
                    last_seen_at: now,
                    last_indexed_at: None,
                };
                self.records.push(record);
                assert(self@ =~= upsert_spec(s, dep@, now));
            },
        }
    }

    /// Sets `last_indexed_at` of the record with the given identity: the write that the
    /// downstream indexer makes once it has processed a record. Returns whether such a
    /// record exists.
    pub fn mark_indexed(
        &mut self,
        language: ProjectLanguage,
        name: &String,
        version: &String,
        at: u64,
    ) -> (found: bool)
        requires
            store_wf(old(self)@),
        ensures
            store_wf(final(self)@),
            found == holds_identity(old(self)@, (language, name@, version@)),
            final(self).links_spec() == old(self).links_spec(),
            final(self)@ == old(self)@.map_values(
                |r: RecordView|
                    if r.identity == (language, name@, version@) {
                        RecordView { last_indexed_at: Some(at), ..r }
                    } else {
                        r
                    },
            ),
    {
        let ghost s = self@;
        let ghost id = (language, name@, version@);
        match self.position(language, name, version) {
            Some(i) => {
                self.records[i].last_indexed_at = Some(at);
                assert forall|k: int| 0 <= k < s.len() && k != i implies s[k].identity != id by {
                    assert(s[k].identity != s[i as int].identity);
                }
                assert(self@ =~= s.map_values(
                    |r: RecordView|
                        if r.identity == id {
                            RecordView { last_indexed_at: Some(at), ..r }
                        } else {
                            r
                        },
                ));
                true
            },
            None => {
                assert(s =~= s.map_values(
                    |r: RecordView|
                        if r.identity == id {
                            RecordView { last_indexed_at: Some(at), ..r }
                        } else {
                            r
                        },
                ));
                false
            },
        }
    }

    /// Reconciles the dependencies `deps` of the project at `path` into the store at
    /// time `now`, batch by batch, with one insert-or-touch of the record and one of the
    /// project link per dependency. Returns the number of dependencies upserted.
    pub fn reconcile(&mut self, path: &String, deps: &Vec<CollectorDependency>, now: u64) -> (upserted: usize)
        requires
            store_wf(old(self)@),
            links_wf(old(self).links_spec()),
        ensures
            store_wf(final(self)@),
            links_wf(final(self).links_spec()),
            final(self)@ == reconcile_spec(old(self)@, identities(deps@), now),
            final(self).links_spec() == link_reconcile_spec(
                old(self).links_spec(),
                path@,
                identities(deps@),
                now,
            ),
            upserted == deps.len(),
    {
        let ghost s0 = self@;
        let ghost l0 = self.links_spec();
        let ghost ids = identities(deps@);
        let mut progress = ReconcileProgress::new(deps.len());
        loop
            invariant
                progress.wf(),
                progress.total == deps.len(),
                !progress.failed,
                s0 == old(self)@,
                l0 == old(self).links_spec(),
                store_wf(self@),
                links_wf(self.links_spec()),
                self.links_spec() == link_reconcile_spec(l0, path@, ids.subrange(0, progress.completed as int), now),
                ids == identities(deps@),
                self@ == reconcile_spec(s0, ids.subrange(0, progress.completed as int), now),
            decreases progress.total - progress.completed,
        {
            match progress.next_step() {
                ReconcileStep::Upsert { start, end } => {
                    let mut k: usize = start;
                    while k < end
                        invariant
                            start <= k <= end <= deps.len(),
                            store_wf(self@),
                            links_wf(self.links_spec()),
                            ids == identities(deps@),
                            self@ == reconcile_spec(s0, ids.subrange(0, k as int), now),
                            self.links_spec() == link_reconcile_spec(l0, path@, ids.subrange(0, k as int), now),
                        decreases end - k,
                    {
                        self.upsert(&deps[k], now);
                        self.upsert_link(path, &deps[k], now);
                        assert(ids.subrange(0, k + 1).drop_last() =~= ids.subrange(0, k as int));
                        k += 1;
                    }
                    progress.batch_done(true);
                },
                ReconcileStep::Finished { upserted } => {
                    assert(progress.completed == deps.len());
                    assert(ids.len() == deps.len());
                    assert(ids.subrange(0, deps.len() as int) =~= ids);
                    return upserted;
                },
                ReconcileStep::Aborted { upserted } => {
                    return upserted;
                },
            }
        }
    }

    /// The records that the downstream indexer has not processed yet.
    pub fn find_unindexed(&self) -> (r: Vec<DependencyRecord>)
        ensures
            records_view(r@) == unindexed_spec(self@),
    {
        let mut out: Vec<DependencyRecord> = Vec::new();
        let mut i: usize = 0;
        assert(records_view(out@) =~= unindexed_spec(self@.subrange(0, 0)));
        while i < self.records.len()
            invariant
                i <= self.records.len(),
                records_view(out@) == unindexed_spec(self@.subrange(0, i as int)),
            decreases self.records.len() - i,
        {
            let ghost pre = records_view(out@);
            assert(self@.subrange(0, i + 1).drop_last() =~= self@.subrange(0, i as int));
            if self.records[i].last_indexed_at.is_none() {
                out.push(self.records[i].duplicate());
                assert(records_view(out@) =~= pre.push(self@[i as int]));
            }
            i += 1;
        }
        assert(self@.subrange(0, self.records.len() as int) =~= self@);
        out
    }
}

/// What one reconciliation does to a well-formed store: existing records keep their
/// place, identity, `first_seen_at` and `last_indexed_at`, and are touched exactly when
/// their identity is in `ids`; each identity of `ids` that was missing gets one fresh
/// record after them; the store stays well formed.
pub proof fn lemma_reconcile(s: Seq<RecordView>, ids: Seq<IdentityView>, now: u64)
    requires
        store_wf(s),
    ensures
        store_wf(reconcile_spec(s, ids, now)),
        s.len() <= reconcile_spec(s, ids, now).len(),
        forall|i: int|
            0 <= i < s.len() ==> #[trigger] reconcile_spec(s, ids, now)[i] == (if ids.contains(
                s[i].identity,
            ) {
                touch(s[i], now)
            } else {
                s[i]
            }),
        forall|i: int|
            s.len() <= i < reconcile_spec(s, ids, now).len() ==> {
                let r = #[trigger] reconcile_spec(s, ids, now)[i];
                &&& ids.contains(r.identity)
                &&& !holds_identity(s, r.identity)
                &&& r == fresh_record(r.identity, now)
            },
        forall|k: int| 0 <= k < ids.len() ==> holds_identity(reconcile_spec(s, ids, now), #[trigger] ids[k]),
    decreases ids.len(),
{
    if ids.len() > 0 {
        let prev_ids = ids.drop_last();
        let x = ids.last();
        lemma_reconcile(s, prev_ids, now);
        let p = reconcile_spec(s, prev_ids, now);
        let r = reconcile_spec(s, ids, now);
        assert(r == upsert_spec(p, x, now));
        assert forall|y: IdentityView| ids.contains(y) <==> (prev_ids.contains(y) || y == x) by {
            if ids.contains(y) {
                let k = choose|k: int| 0 <= k < ids.len() && ids[k] == y;
                if k < ids.len() - 1 {
                    assert(prev_ids[k] == y);
                }
            }
            if prev_ids.contains(y) {
                let k = choose|k: int| 0 <= k < prev_ids.len() && prev_ids[k] == y;
                assert(ids[k] == y);
            }
            if y == x {
                assert(ids[ids.len() - 1] == y);
            }
        }
        if holds_identity(p, x) {
            assert(r.len() == p.len());
            assert forall|i: int, j: int|
                0 <= i < r.len() && 0 <= j < r.len() && i != j implies #[trigger] r[i].identity
                != #[trigger] r[j].identity by {
                assert(p[i].identity != p[j].identity);
            }
            assert forall|i: int| 0 <= i < r.len() implies #[trigger] r[i].first_seen_at
                <= r[i].last_seen_at by {
                assert(p[i].first_seen_at <= p[i].last_seen_at);
            }
            assert forall|k: int| 0 <= k < ids.len() implies holds_identity(r, #[trigger] ids[k]) by {
                let y = ids[k];
                let w = if k < ids.len() - 1 {
                    assert(prev_ids[k] == y);
                    assert(holds_identity(p, prev_ids[k]));
                    choose|w: int| 0 <= w < p.len() && p[w].identity == y
                } else {
                    choose|w: int| 0 <= w < p.len() && p[w].identity == x
                };
                assert(r[w].identity == y);
            }
            assert forall|i: int| s.len() <= i < r.len() implies {
                let q = #[trigger] r[i];
                &&& ids.contains(q.identity)
                &&& !holds_identity(s, q.identity)
                &&& q == fresh_record(q.identity, now)
            } by {
                assert(prev_ids.contains(p[i].identity));
            }
        } else {
            assert(r == p.push(fresh_record(x, now)));
            assert(!holds_identity(s, x)) by {
                if holds_identity(s, x) {
                    let w = choose|w: int| 0 <= w < s.len() && s[w].identity == x;
                    assert(p[w].identity == x);
                }
            }
            assert forall|i: int, j: int|
                0 <= i < r.len() && 0 <= j < r.len() && i != j implies #[trigger] r[i].identity
                != #[trigger] r[j].identity by {
                if i < p.len() && j < p.len() {
                    assert(p[i].identity != p[j].identity);
                } else if i < p.len() {
                    assert(p[i].identity != x);
                } else if j < p.len() {
                    assert(p[j].identity != x);
                }
            }
            assert forall|i: int| 0 <= i < r.len() implies #[trigger] r[i].first_seen_at
                <= r[i].last_seen_at by {
                if i < p.len() {
                    assert(p[i].first_seen_at <= p[i].last_seen_at);
                }
            }
            assert forall|k: int| 0 <= k < ids.len() implies holds_identity(r, #[trigger] ids[k]) by {
                let y = ids[k];
                if k < ids.len() - 1 {
                    assert(prev_ids[k] == y);
                    assert(holds_identity(p, prev_ids[k]));
                    let w = choose|w: int| 0 <= w < p.len() && p[w].identity == y;
                    assert(r[w].identity == y);
                } else {
                    assert(r[p.len() as int].identity == y);
                }
            }
            assert forall|i: int| s.len() <= i < r.len() implies {
                let q = #[trigger] r[i];
                &&& ids.contains(q.identity)
                &&& !holds_identity(s, q.identity)
                &&& q == fresh_record(q.identity, now)
            } by {
                if i < p.len() {
                    assert(p[i] == r[i]);
                    assert(prev_ids.contains(p[i].identity));
                } else {
                    assert(r[i] == fresh_record(x, now));
                    assert(ids[ids.len() - 1] == x);
                }
            }
        }
    }
}

/// Reconciliation never changes `first_seen_at` or `last_indexed_at` of a record that
/// is already stored (in particular an indexed record stays indexed), and advances
/// `last_seen_at` of each record it touches to `now` unless it is already later.
pub proof fn law_reconcile_keeps_history(s: Seq<RecordView>, ids: Seq<IdentityView>, now: u64, i: int)
    requires
        store_wf(s),
        0 <= i < s.len(),
    ensures
        reconcile_spec(s, ids, now)[i].identity == s[i].identity,
        reconcile_spec(s, ids, now)[i].first_seen_at == s[i].first_seen_at,
        reconcile_spec(s, ids, now)[i].last_indexed_at == s[i].last_indexed_at,
        ids.contains(s[i].identity) ==> reconcile_spec(s, ids, now)[i].last_seen_at == (if now
            > s[i].last_seen_at {
            now
        } else {
            s[i].last_seen_at
        }),
        !ids.contains(s[i].identity) ==> reconcile_spec(s, ids, now)[i].last_seen_at
            == s[i].last_seen_at,
{
    lemma_reconcile(s, ids, now);
}

/// Reconciling the same identities a second time adds no record, keeps every
/// identity, `first_seen_at` and `last_indexed_at`, and moves `last_seen_at` of the
/// reconciled identities to the second time unless it is already later; where no
/// record was seen after the second time and the scans come in order, it becomes
/// exactly the second time.
pub proof fn law_rescan_is_idempotent(
    s: Seq<RecordView>,
    ids: Seq<IdentityView>,
    first: u64,
    second: u64,
)
    requires
        store_wf(s),
    ensures
        ({
            let a = reconcile_spec(s, ids, first);
            let b = reconcile_spec(a, ids, second);
            &&& b.len() == a.len()
            &&& forall|i: int|
                0 <= i < a.len() ==> {
                    &&& #[trigger] b[i].identity == a[i].identity
                    &&& b[i].first_seen_at == a[i].first_seen_at
                    &&& b[i].last_indexed_at == a[i].last_indexed_at
                    &&& ids.contains(a[i].identity) ==> b[i].last_seen_at == (if second
                        > a[i].last_seen_at {
                        second
                    } else {
                        a[i].last_seen_at
                    })
                    &&& !ids.contains(a[i].identity) ==> b[i].last_seen_at == a[i].last_seen_at
                }
        }),
        first <= second && (forall|i: int| 0 <= i < s.len() ==> #[trigger] s[i].last_seen_at <= second)
            ==> forall|i: int|
            0 <= i < reconcile_spec(s, ids, first).len() && ids.contains(
                #[trigger] reconcile_spec(s, ids, first)[i].identity,
            ) ==> reconcile_spec(reconcile_spec(s, ids, first), ids, second)[i].last_seen_at == second,
{
    let a = reconcile_spec(s, ids, first);
    let b = reconcile_spec(a, ids, second);
    lemma_reconcile(s, ids, first);
    lemma_reconcile(a, ids, second);
    if b.len() > a.len() {
        let q = b[a.len() as int];
        let k = choose|k: int| 0 <= k < ids.len() && ids[k] == q.identity;
        assert(holds_identity(a, ids[k]));
        assert(false);
    }
    if first <= second && (forall|i: int| 0 <= i < s.len() ==> #[trigger] s[i].last_seen_at <= second) {
        assert forall|i: int| 0 <= i < a.len() && ids.contains(#[trigger] a[i].identity) implies b[i].last_seen_at
            == second by {
            if i < s.len() {
                assert(s[i].last_seen_at <= second);
            } else {
                assert(a[i] == fresh_record(a[i].identity, first));
            }
        }
    }
}

/// Records of two different ecosystems never merge: reconciling two identities that
/// differ only in their ecosystem leaves two distinct records.
pub proof fn law_ecosystems_stay_apart(
    s: Seq<RecordView>,
    ids: Seq<IdentityView>,
    now: u64,
    a: IdentityView,
    b: IdentityView,
)
    requires
        store_wf(s),
        ids.contains(a),
        ids.contains(b),
        a.0 != b.0,
    ensures
        exists|i: int, j: int|
            0 <= i < reconcile_spec(s, ids, now).len() && 0 <= j < reconcile_spec(s, ids, now).len()
                && i != j && #[trigger] reconcile_spec(s, ids, now)[i].identity == a
                && #[trigger] reconcile_spec(s, ids, now)[j].identity == b,
{
    lemma_reconcile(s, ids, now);
    let r = reconcile_spec(s, ids, now);
    let ka = choose|k: int| 0 <= k < ids.len() && ids[k] == a;
    let kb = choose|k: int| 0 <= k < ids.len() && ids[k] == b;
    assert(holds_identity(r, ids[ka]));
    assert(holds_identity(r, ids[kb]));
    let i = choose|i: int| 0 <= i < r.len() && r[i].identity == a;
    let j = choose|j: int| 0 <= j < r.len() && r[j].identity == b;
    assert(r[i].identity == a && r[j].identity == b);
}

/// The store after a history of scans, each a list of identities and the time of the
/// scan, applied in order to an empty store.
pub open spec fn replay(scans: Seq<(Seq<IdentityView>, u64)>) -> Seq<RecordView>
    decreases scans.len(),
{
    if scans.len() == 0 {
        Seq::empty()
    } else {
        reconcile_spec(replay(scans.drop_last()), scans.last().0, scans.last().1)
    }
}

/// Every identity that some scan of the history reported.
pub open spec fn scanned_identities(scans: Seq<(Seq<IdentityView>, u64)>) -> Set<IdentityView> {
    Set::new(|x: IdentityView| exists|k: int| 0 <= k < scans.len() && (#[trigger] scans[k]).0.contains(x))
}

proof fn lemma_holds_identity_in_set(s: Seq<RecordView>, x: IdentityView)
    ensures
        ids_of(s).to_set().contains(x) == holds_identity(s, x),
{
    if holds_identity(s, x) {
        let i = choose|i: int| 0 <= i < s.len() && s[i].identity == x;
        assert(ids_of(s)[i] == x);
    }
    if ids_of(s).contains(x) {
        let i = choose|i: int| 0 <= i < ids_of(s).len() && ids_of(s)[i] == x;
        assert(s[i].identity == x);
    }
}

/// After any history of scans the store holds one record per identity that any scan
/// reported, and no other: its record count is the number of distinct identities.
pub proof fn law_one_record_per_identity(scans: Seq<(Seq<IdentityView>, u64)>)
    ensures
        store_wf(replay(scans)),
        ids_of(replay(scans)).to_set() == scanned_identities(scans),
        replay(scans).len() == scanned_identities(scans).len(),
    decreases scans.len(),
{
    let r = replay(scans);
    if scans.len() == 0 {
        assert(ids_of(r).to_set() =~= scanned_identities(scans));
        assert(scanned_identities(scans) =~= Set::<IdentityView>::empty());
    } else {
        let prev = scans.drop_last();
        law_one_record_per_identity(prev);
        let p = replay(prev);
        let (ids, now) = scans.last();
        lemma_reconcile(p, ids, now);
        assert forall|x: IdentityView| ids_of(r).to_set().contains(x) == scanned_identities(scans).contains(x) by {
            lemma_holds_identity_in_set(r, x);
            lemma_holds_identity_in_set(p, x);
            if holds_identity(r, x) {
                let i = choose|i: int| 0 <= i < r.len() && r[i].identity == x;
                if i < p.len() {
                    assert(p[i].identity == x);
                    assert(scanned_identities(prev).contains(x));
                    let k = choose|k: int| 0 <= k < prev.len() && (#[trigger] prev[k]).0.contains(x);
                    assert(scans[k] == prev[k]);
                } else {
                    assert(scans[scans.len() - 1].0.contains(x));
                }
            }
            if scanned_identities(scans).contains(x) {
                let k = choose|k: int| 0 <= k < scans.len() && (#[trigger] scans[k]).0.contains(x);
                if k < scans.len() - 1 {
                    assert(prev[k] == scans[k]);
                    assert(scanned_identities(prev).contains(x));
                    let i = choose|i: int| 0 <= i < p.len() && p[i].identity == x;
                    assert(r[i].identity == x);
                } else {
                    let j = choose|j: int| 0 <= j < ids.len() && ids[j] == x;
                    assert(holds_identity(r, ids[j]));
                }
            }
        }
        assert(ids_of(r).to_set() =~= scanned_identities(scans));
        assert(ids_of(r).no_duplicates()) by {
            assert forall|i: int, j: int| 0 <= i < ids_of(r).len() && 0 <= j < ids_of(r).len() && i != j
                implies ids_of(r)[i] != ids_of(r)[j] by {
                assert(r[i].identity != r[j].identity);
            }
        }
        ids_of(r).unique_seq_to_set();
    }
}

} // verus!
