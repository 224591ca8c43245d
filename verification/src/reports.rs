//! Reports to the player: notices kept for a while, newest first, and
//! warnings that stay as long as their cause lasts.
use vstd::prelude::*;

use crate::animal_id::{animal_id_eq, animal_id_text, AnimalId};
use crate::defs::CivilizationAge;
use crate::geom::Coords;

verus! {

/// How many cycles a notice is shown.
pub const COMMON_NOTICE_REPORT_SPAN: u64 = 1000;

/// What a report says.
#[derive(Clone, Debug)]
pub enum ReportContent {
    WarnHighTemp,
    WarnLowTemp,
    WarnLowOxygen,
    WarnLowCarbonDioxide,
    EventCivilized { pos: Coords, animal: AnimalId },
    EventCivAdvance { pos: Coords, id: AnimalId, age: CivilizationAge, name: Option<String> },
    EventCivExtinct { id: AnimalId, name: Option<String> },
}

/// A report and the cycle at which it was made.
#[derive(Clone, Debug)]
pub struct Report {
    pub cycles: u64,
    pub content: ReportContent,
}

/// The reports of a planet.
#[derive(Clone, Debug)]
pub struct Reports {
    count: u64,
    reports: Vec<(u64, Report)>,
    persistent_warns: Vec<Report>,
}

pub open spec fn spec_name_view(n: Option<String>) -> Option<Seq<char>> {
    match n {
        Some(s) => Some(s@),
        None => None,
    }
}

/// Two contents say the same thing: same kind, same fields, ids and names
/// compared by their text.
pub open spec fn spec_same_content(a: ReportContent, b: ReportContent) -> bool {
    match (a, b) {
        (ReportContent::WarnHighTemp, ReportContent::WarnHighTemp) => true,
        (ReportContent::WarnLowTemp, ReportContent::WarnLowTemp) => true,
        (ReportContent::WarnLowOxygen, ReportContent::WarnLowOxygen) => true,
        (ReportContent::WarnLowCarbonDioxide, ReportContent::WarnLowCarbonDioxide) => true,
        (
            ReportContent::EventCivilized { pos: p1, animal: a1 },
            ReportContent::EventCivilized { pos: p2, animal: a2 },
        ) => p1 == p2 && animal_id_text(a1) == animal_id_text(a2),
        (
            ReportContent::EventCivAdvance { pos: p1, id: i1, age: g1, name: n1 },
            ReportContent::EventCivAdvance { pos: p2, id: i2, age: g2, name: n2 },
        ) => p1 == p2 && animal_id_text(i1) == animal_id_text(i2) && g1 == g2 && spec_name_view(n1)
            == spec_name_view(n2),
        (
            ReportContent::EventCivExtinct { id: i1, name: n1 },
            ReportContent::EventCivExtinct { id: i2, name: n2 },
        ) => animal_id_text(i1) == animal_id_text(i2) && spec_name_view(n1) == spec_name_view(n2),
        _ => false,
    }
}

/// The kind of a content, regardless of its fields.
pub open spec fn spec_content_kind(c: ReportContent) -> int {
    match c {
        ReportContent::WarnHighTemp => 0,
        ReportContent::WarnLowTemp => 1,
        ReportContent::WarnLowOxygen => 2,
        ReportContent::WarnLowCarbonDioxide => 3,
        ReportContent::EventCivilized { .. } => 4,
        ReportContent::EventCivAdvance { .. } => 5,
        ReportContent::EventCivExtinct { .. } => 6,
    }
}

/// How long a report is shown: notices for a while, warnings without end.
pub open spec fn spec_span(c: ReportContent) -> Option<u64> {
    match c {
        ReportContent::EventCivilized { .. } | ReportContent::EventCivAdvance { .. } => Some(
            COMMON_NOTICE_REPORT_SPAN,
        ),
        _ => None,
    }
}

fn name_eq(a: &Option<String>, b: &Option<String>) -> (r: bool)
    ensures
        r == (spec_name_view(*a) == spec_name_view(*b)),
{
    match (a, b) {
        (Some(x), Some(y)) => *x == *y,
        (None, None) => true,
        _ => false,
    }
}

impl ReportContent {
    pub fn span(&self) -> (r: Option<u64>)
        ensures
            r == spec_span(*self),
    {
        match self {
            ReportContent::EventCivilized { .. } | ReportContent::EventCivAdvance { .. } => Some(
                COMMON_NOTICE_REPORT_SPAN,
            ),
            _ => None,
        }
    }

    /// The tile that the report is about, if any.
    pub fn pos(&self) -> (r: Option<Coords>)
        ensures
            r == (match *self {
                ReportContent::EventCivilized { pos, .. } => Some(pos),
                ReportContent::EventCivAdvance { pos, .. } => Some(pos),
                _ => None,
            }),
    {
        match self {
            ReportContent::EventCivilized { pos, .. } => Some(*pos),
            ReportContent::EventCivAdvance { pos, .. } => Some(*pos),
            _ => None,
        }
    }

    /// Whether two contents say the same thing.
    pub fn same_as(&self, other: &ReportContent) -> (r: bool)
        ensures
            r == spec_same_content(*self, *other),
    {
        match (self, other) {
            (ReportContent::WarnHighTemp, ReportContent::WarnHighTemp) => true,
            (ReportContent::WarnLowTemp, ReportContent::WarnLowTemp) => true,
            (ReportContent::WarnLowOxygen, ReportContent::WarnLowOxygen) => true,
            (ReportContent::WarnLowCarbonDioxide, ReportContent::WarnLowCarbonDioxide) => true,
            (
                ReportContent::EventCivilized { pos: p1, animal: a1 },
                ReportContent::EventCivilized { pos: p2, animal: a2 },
            ) => *p1 == *p2 && animal_id_eq(a1, a2),
            (
                ReportContent::EventCivAdvance { pos: p1, id: i1, age: g1, name: n1 },
                ReportContent::EventCivAdvance { pos: p2, id: i2, age: g2, name: n2 },
            ) => *p1 == *p2 && animal_id_eq(i1, i2) && *g1 == *g2 && name_eq(n1, n2),
            (
                ReportContent::EventCivExtinct { id: i1, name: n1 },
                ReportContent::EventCivExtinct { id: i2, name: n2 },
            ) => animal_id_eq(i1, i2) && name_eq(n1, n2),
            _ => false,
        }
    }

    fn kind_index(&self) -> (r: u8)
        ensures
            r as int == spec_content_kind(*self),
    {
        match self {
            ReportContent::WarnHighTemp => 0,
            ReportContent::WarnLowTemp => 1,
            ReportContent::WarnLowOxygen => 2,
            ReportContent::WarnLowCarbonDioxide => 3,
            ReportContent::EventCivilized { .. } => 4,
            ReportContent::EventCivAdvance { .. } => 5,
            ReportContent::EventCivExtinct { .. } => 6,
        }
    }
}

/// Keys strictly decrease along the entries: the newest entry comes first.
pub open spec fn spec_newest_first(s: Seq<(u64, Report)>) -> bool {
    forall|i: int, j: int| 0 <= i < j < s.len() ==> #[trigger] s[i].0 > #[trigger] s[j].0
}

/// Puts an entry with key `k` where the order of keys wants it, in place of an
/// entry with the same key.
pub open spec fn spec_insert_keyed(s: Seq<(u64, Report)>, k: u64, r: Report) -> Seq<(u64, Report)>
    decreases s.len(),
{
    if s.len() == 0 {
        seq![(k, r)]
    } else if s[0].0 == k {
        seq![(k, r)] + s.drop_first()
    } else if s[0].0 < k {
        seq![(k, r)] + s
    } else {
        seq![s[0]] + spec_insert_keyed(s.drop_first(), k, r)
    }
}

/// The two lists merged: at each step the notice goes first when it is
/// strictly newer than the warning, the warning otherwise.
pub open spec fn spec_merge(a: Seq<Report>, b: Seq<Report>) -> Seq<Report>
    decreases a.len() + b.len(),
{
    if a.len() == 0 {
        b
    } else if b.len() == 0 {
        a
    } else if a[0].cycles > b[0].cycles {
        seq![a[0]] + spec_merge(a.drop_first(), b)
    } else {
        seq![b[0]] + spec_merge(a, b.drop_first())
    }
}

/// The first warning that says the same as `c`.
pub open spec fn spec_first_same(warns: Seq<Report>, c: ReportContent) -> Option<int> {
    if exists|i: int| 0 <= i < warns.len() && spec_same_content(warns[i].content, c) {
        Some(
            choose|i: int|
                0 <= i < warns.len() && spec_same_content(warns[i].content, c) && forall|j: int|
                    0 <= j < i ==> !spec_same_content(warns[j].content, c),
        )
    } else {
        None
    }
}

/// A notice is kept while its span has not passed.
pub open spec fn spec_not_outdated(r: Report, cycles: u64) -> bool {
    match spec_span(r.content) {
        Some(span) => r.cycles + span > cycles,
        None => true,
    }
}

pub open spec fn spec_wrapping_next(c: u64) -> u64 {
    if c == u64::MAX {
        0
    } else {
        (c + 1) as u64
    }
}

impl Reports {
    /// The notices are kept newest first.
    pub closed spec fn wf(self) -> bool {
        spec_newest_first(self.reports@)
    }

    /// The number of notices appended so far, wrapping around.
    pub closed spec fn spec_count(self) -> u64 {
        self.count
    }

    /// The notices, each with its key, newest first.
    pub closed spec fn spec_notices(self) -> Seq<(u64, Report)> {
        self.reports@
    }

    /// The warnings in the order they were first made.
    pub closed spec fn spec_warns(self) -> Seq<Report> {
        self.persistent_warns@
    }

    pub fn new() -> (r: Reports)
        ensures
            r.wf(),
            r.spec_count() == 0,
            r.spec_notices() == Seq::<(u64, Report)>::empty(),
            r.spec_warns() == Seq::<Report>::empty(),
    {
        Reports { count: 0, reports: Vec::new(), persistent_warns: Vec::new() }
    }

    /// Appends a notice made at `cycles`; it gets the next count as its key.
    pub fn append(&mut self, cycles: u64, content: ReportContent)
        requires
            old(self).wf(),
        ensures
            final(self).wf(),
            final(self).spec_count() == spec_wrapping_next(old(self).spec_count()),
            final(self).spec_notices() == spec_insert_keyed(
                old(self).spec_notices(),
                final(self).spec_count(),
                Report { cycles, content },
            ),
            final(self).spec_warns() == old(self).spec_warns(),
    {
        let count = self.count.wrapping_add(1);
        self.count = count;
        let report = Report { cycles, content };
        let mut j: usize = 0;
        while j < self.reports.len() && self.reports[j].0 > count
            invariant
                0 <= j <= self.reports.len(),
                spec_newest_first(self.reports@),
                self.reports@ == old(self).reports@,
                forall|k: int| 0 <= k < j ==> #[trigger] self.reports@[k].0 > count,
            decreases self.reports.len() - j,
        {
            j += 1;
        }
        proof {
            lemma_insert_keyed_at(self.reports@, count, report, j as int);
        }
        if j < self.reports.len() && self.reports[j].0 == count {
            let mut entries = Vec::new();
            std::mem::swap(&mut entries, &mut self.reports);
            entries.set(j, (count, report));
            proof {
                lemma_replace_keeps_order(old(self).reports@, j as int, count, report);
            }
            self.reports = entries;
        } else {
            let mut entries = Vec::new();
            std::mem::swap(&mut entries, &mut self.reports);
            entries.insert(j, (count, report));
            proof {
                lemma_insert_keeps_order(old(self).reports@, j as int, count, report);
            }
            self.reports = entries;
        }
    }

    /// All reports: notices and warnings merged by cycle, newest notice first.
    pub fn list(&self) -> (r: Vec<&Report>)
        ensures
            r@.map_values(|x: &Report| *x) == spec_merge(
                self.spec_notices().map_values(|e: (u64, Report)| e.1),
                self.spec_warns(),
            ),
    {
        let ghost a = self.reports@.map_values(|e: (u64, Report)| e.1);
        let ghost b = self.persistent_warns@;
        let mut out: Vec<&Report> = Vec::new();
        let mut i: usize = 0;
        let mut j: usize = 0;
        proof {
            assert(a.skip(0) =~= a);
            assert(b.skip(0) =~= b);
            assert(out@.map_values(|x: &Report| *x) =~= Seq::<Report>::empty());
        }
        while i < self.reports.len() || j < self.persistent_warns.len()
            invariant
                0 <= i <= self.reports.len(),
                0 <= j <= self.persistent_warns.len(),
                a == self.reports@.map_values(|e: (u64, Report)| e.1),
                b == self.persistent_warns@,
                out@.map_values(|x: &Report| *x) + spec_merge(a.skip(i as int), b.skip(j as int))
                    == spec_merge(a, b),
            decreases self.reports.len() + self.persistent_warns.len() - i - j,
        {
            let ghost before = out@;
            let take_report = if i < self.reports.len() && j < self.persistent_warns.len() {
                self.reports[i].1.cycles > self.persistent_warns[j].cycles
            } else {
                i < self.reports.len()
            };
            proof {
                if i < self.reports.len() {
                    assert(a.skip(i as int).drop_first() =~= a.skip(i + 1));
                    assert(a.skip(i as int)[0] == self.reports@[i as int].1);
                }
                if j < self.persistent_warns.len() {
                    assert(b.skip(j as int).drop_first() =~= b.skip(j + 1));
                    assert(b.skip(j as int)[0] == self.persistent_warns@[j as int]);
                }
                if i == self.reports.len() {
                    assert(a.skip(i as int).len() == 0);
                }
                if j == self.persistent_warns.len() {
                    assert(b.skip(j as int).len() == 0);
                }
            }
            if take_report {
                out.push(&self.reports[i].1);
                i += 1;
            } else {
                out.push(&self.persistent_warns[j]);
                j += 1;
            }
            proof {
                assert(out@.map_values(|x: &Report| *x) =~= before.map_values(|x: &Report| *x).push(
                    *out@[out@.len() - 1],
                ));
            }
        }
        proof {
            assert(a.skip(i as int).len() == 0);
            assert(b.skip(j as int).len() == 0);
        }
        out
    }

    /// Makes a warning at `cycles`: it takes the place of the first warning
    /// that says the same, or comes last.
    pub fn append_persitent_warn(&mut self, cycles: u64, content: ReportContent)
        requires
            old(self).wf(),
        ensures
            final(self).wf(),
            final(self).spec_count() == old(self).spec_count(),
            final(self).spec_notices() == old(self).spec_notices(),
            ({
                let r = Report { cycles, content };
                match spec_first_same(old(self).spec_warns(), content) {
                    Some(i) => final(self).spec_warns() == old(self).spec_warns().update(i, r),
                    None => final(self).spec_warns() == old(self).spec_warns().push(r),
                }
            }),
    {
        let mut i: usize = 0;
        while i < self.persistent_warns.len()
            invariant
                0 <= i <= self.persistent_warns.len(),
                self.persistent_warns@ == old(self).persistent_warns@,
                self.count == old(self).count,
                self.reports@ == old(self).reports@,
                spec_newest_first(self.reports@),
                forall|j: int| 0 <= j < i ==> !spec_same_content(#[trigger] self.persistent_warns@[j].content, content),
            decreases self.persistent_warns.len() - i,
        {
            if self.persistent_warns[i].content.same_as(&content) {
                proof {
                    let k = choose|k: int|
                        0 <= k < self.persistent_warns@.len() && spec_same_content(
                            self.persistent_warns@[k].content,
                            content,
                        ) && forall|j: int|
                            0 <= j < k ==> !spec_same_content(self.persistent_warns@[j].content, content);
                    assert(spec_same_content(self.persistent_warns@[i as int].content, content));
                    if k < i {
                        assert(!spec_same_content(self.persistent_warns@[k].content, content));
                    }
                    if i < k {
                        assert(!spec_same_content(self.persistent_warns@[i as int].content, content));
                    }
                }
                self.persistent_warns.set(i, Report { cycles, content });
                return;
            }
            i += 1;
        }
        self.persistent_warns.push(Report { cycles, content });
    }

    /// Removes every warning of the kind of `target`.
    pub fn remove_persitent_warn(&mut self, target: &ReportContent)
        requires
            old(self).wf(),
        ensures
            final(self).wf(),
            final(self).spec_count() == old(self).spec_count(),
            final(self).spec_notices() == old(self).spec_notices(),
            final(self).spec_warns() == old(self).spec_warns().filter(
                |r: Report| spec_content_kind(r.content) != spec_content_kind(*target),
            ),
    {
        let kind = target.kind_index();
        let ghost pred = |r: Report| spec_content_kind(r.content) != spec_content_kind(*target);
        let mut rest = Vec::new();
        std::mem::swap(&mut rest, &mut self.persistent_warns);
        let ghost orig = rest@;
        let mut kept: Vec<Report> = Vec::new();
        let ghost mut done: int = 0;
        proof {
            assert(orig.take(0) =~= Seq::<Report>::empty());
            reveal(Seq::filter);
        }
        while rest.len() > 0
            invariant
                0 <= done <= orig.len(),
                rest@ == orig.skip(done),
                kept@ == orig.take(done).filter(pred),
                kind as int == spec_content_kind(*target),
                pred == (|r: Report| spec_content_kind(r.content) != spec_content_kind(*target)),
            decreases rest.len(),
        {
            let r = rest.remove(0);
            proof {
                assert(orig.take(done + 1) =~= orig.take(done).push(r));
                orig.take(done).lemma_filter_push(r, pred);
                done = done + 1;
                assert(rest@ =~= orig.skip(done));
            }
            if r.content.kind_index() != kind {
                kept.push(r);
            }
        }
        proof {
            assert(orig.take(done) =~= orig);
        }
        self.persistent_warns = kept;
    }

    /// Removes the notices whose span has passed at `cycles`.
    pub fn remove_outdated(&mut self, cycles: u64)
        requires
            old(self).wf(),
            forall|i: int|
                0 <= i < old(self).spec_notices().len() ==> #[trigger] old(self).spec_notices()[i].1.cycles
                    <= u64::MAX - COMMON_NOTICE_REPORT_SPAN,
        ensures
            final(self).wf(),
            final(self).spec_count() == old(self).spec_count(),
            final(self).spec_warns() == old(self).spec_warns(),
            final(self).spec_notices() == old(self).spec_notices().filter(
                |e: (u64, Report)| spec_not_outdated(e.1, cycles),
            ),
    {
        let ghost pred = |e: (u64, Report)| spec_not_outdated(e.1, cycles);
        let mut rest = Vec::new();
        std::mem::swap(&mut rest, &mut self.reports);
        let ghost orig = rest@;
        let mut kept: Vec<(u64, Report)> = Vec::new();
        let ghost mut done: int = 0;
        proof {
            assert forall|i: int| 0 <= i < orig.len() implies #[trigger] orig[i].1.cycles <= u64::MAX - COMMON_NOTICE_REPORT_SPAN by {
                assert(orig[i] == old(self).spec_notices()[i]);
            }
            assert(orig.take(0) =~= Seq::<(u64, Report)>::empty());
            reveal(Seq::filter);
        }
        while rest.len() > 0
            invariant
                0 <= done <= orig.len(),
                orig == old(self).reports@,
                spec_newest_first(orig),
                rest@ == orig.skip(done),
                kept@ == orig.take(done).filter(pred),
                spec_newest_first(kept@),
                forall|k: int| 0 <= k < kept@.len() ==> (forall|m: int| done <= m < orig.len() ==> #[trigger] kept@[k].0 > #[trigger] orig[m].0),
                forall|i: int| 0 <= i < orig.len() ==> #[trigger] orig[i].1.cycles <= u64::MAX - COMMON_NOTICE_REPORT_SPAN,
                pred == (|e: (u64, Report)| spec_not_outdated(e.1, cycles)),
            decreases rest.len(),
        {
            let e = rest.remove(0);
            proof {
                assert(orig[done] == e);
                assert(orig.take(done + 1) =~= orig.take(done).push(e));
                orig.take(done).lemma_filter_push(e, pred);
                done = done + 1;
                assert(rest@ =~= orig.skip(done));
            }
            let keep = match e.1.content.span() {
                Some(span) => e.1.cycles + span > cycles,
                None => true,
            };
            if keep {
                let ghost before = kept@;
                kept.push(e);
                proof {
                    assert forall|k: int| 0 <= k < kept@.len() implies (forall|m: int| done <= m < orig.len() ==> #[trigger] kept@[k].0 > #[trigger] orig[m].0) by {
                        if k < before.len() {
                        } else {
                            assert(kept@[k] == orig[done - 1]);
                        }
                    }
                }
            }
        }
        proof {
            assert(orig.take(done) =~= orig);
        }
        self.reports = kept;
    }
}

proof fn lemma_insert_keyed_at(s: Seq<(u64, Report)>, k: u64, r: Report, j: int)
    requires
        spec_newest_first(s),
        0 <= j <= s.len(),
        forall|i: int| 0 <= i < j ==> #[trigger] s[i].0 > k,
        j < s.len() ==> s[j].0 <= k,
    ensures
        j < s.len() && s[j].0 == k ==> spec_insert_keyed(s, k, r) == s.update(j, (k, r)),
        !(j < s.len() && s[j].0 == k) ==> spec_insert_keyed(s, k, r) == s.insert(j, (k, r)),
    decreases j,
{
    if j == 0 {
        if s.len() == 0 {
            assert(s.insert(0, (k, r)) =~= seq![(k, r)]);
        } else if s[0].0 == k {
            assert(s.update(0, (k, r)) =~= seq![(k, r)] + s.drop_first());
        } else {
            assert(s.insert(0, (k, r)) =~= seq![(k, r)] + s);
        }
    } else {
        let t = s.drop_first();
        assert forall|i: int, m: int| 0 <= i < m < t.len() implies #[trigger] t[i].0 > #[trigger] t[m].0 by {
            assert(t[i] == s[i + 1] && t[m] == s[m + 1]);
        }
        assert forall|i: int| 0 <= i < j - 1 implies #[trigger] t[i].0 > k by {
            assert(t[i] == s[i + 1]);
        }
        lemma_insert_keyed_at(t, k, r, j - 1);
        if j < s.len() && s[j].0 == k {
            assert(t[j - 1] == s[j]);
            assert(s.update(j, (k, r)) =~= seq![s[0]] + t.update(j - 1, (k, r)));
        } else {
            if j < s.len() {
                assert(t[j - 1] == s[j]);
            }
            assert(s.insert(j, (k, r)) =~= seq![s[0]] + t.insert(j - 1, (k, r)));
        }
    }
}

proof fn lemma_replace_keeps_order(s: Seq<(u64, Report)>, j: int, k: u64, r: Report)
    requires
        spec_newest_first(s),
        0 <= j < s.len(),
        s[j].0 == k,
    ensures
        spec_newest_first(s.update(j, (k, r))),
{
    let t = s.update(j, (k, r));
    assert forall|a: int, b: int| 0 <= a < b < t.len() implies #[trigger] t[a].0 > #[trigger] t[b].0 by {
        assert(t[a].0 == s[a].0 && t[b].0 == s[b].0);
    }
}

proof fn lemma_insert_keeps_order(s: Seq<(u64, Report)>, j: int, k: u64, r: Report)
    requires
        spec_newest_first(s),
        0 <= j <= s.len(),
        forall|i: int| 0 <= i < j ==> #[trigger] s[i].0 > k,
        j < s.len() ==> s[j].0 < k,
    ensures
        spec_newest_first(s.insert(j, (k, r))),
{
    let t = s.insert(j, (k, r));
    assert forall|a: int, b: int| 0 <= a < b < t.len() implies #[trigger] t[a].0 > #[trigger] t[b].0 by {
        if a < j && b < j {
            assert(t[a] == s[a] && t[b] == s[b]);
        } else if a < j && b == j {
            assert(t[a] == s[a]);
        } else if a < j {
            assert(t[a] == s[a] && t[b] == s[b - 1]);
        } else if a == j {
            assert(t[b] == s[b - 1]);
            assert(s[j].0 >= s[b - 1].0);
        } else {
            assert(t[a] == s[a - 1] && t[b] == s[b - 1]);
        }
    }
}

/// The notices that appending `rs` in turn to a new `Reports` makes: the
/// last appended first, the one appended i-th (counting from one) under key i.
pub open spec fn spec_appended(rs: Seq<Report>) -> Seq<(u64, Report)> {
    Seq::new(rs.len(), |i: int| ((rs.len() - i) as u64, rs[rs.len() - 1 - i]))
}

/// Reports appended one after another to a new `Reports` (whose notices are
/// `spec_appended` of none) are kept as `spec_appended` says: each once, the
/// most recently appended first. With no warnings, `list` gives them in that
/// order.
pub proof fn law_appends_newest_first(
    reports: Reports,
    rs: Seq<Report>,
    cycles: u64,
    content: ReportContent,
    after: Reports,
)
    requires
        rs.len() < u64::MAX,
        reports.spec_count() == rs.len(),
        reports.spec_notices() == spec_appended(rs),
        after.spec_count() == spec_wrapping_next(reports.spec_count()),
        after.spec_notices() == spec_insert_keyed(
            reports.spec_notices(),
            after.spec_count(),
            Report { cycles, content },
        ),
        after.spec_warns() == reports.spec_warns(),
    ensures
        spec_appended(Seq::<Report>::empty()) == Seq::<(u64, Report)>::empty(),
        after.spec_count() == rs.len() + 1,
        after.spec_notices() == spec_appended(rs.push(Report { cycles, content })),
        after.spec_warns().len() == 0 ==> spec_merge(
            after.spec_notices().map_values(|e: (u64, Report)| e.1),
            after.spec_warns(),
        ) == rs.push(Report { cycles, content }).reverse(),
{
    let r = Report { cycles, content };
    let s = reports.spec_notices();
    let k = after.spec_count();
    let t = rs.push(r);
    assert(spec_appended(Seq::<Report>::empty()) =~= Seq::<(u64, Report)>::empty());
    assert(k == rs.len() + 1);
    if s.len() == 0 {
        assert(after.spec_notices() =~= seq![(k, r)]);
    } else {
        assert(s[0].0 == rs.len());
        assert(after.spec_notices() =~= seq![(k, r)] + s);
    }
    assert(after.spec_notices() =~= spec_appended(t)) by {
        assert forall|i: int| 0 <= i < t.len() implies #[trigger] after.spec_notices()[i] == spec_appended(t)[i] by {
            if i > 0 {
                assert(after.spec_notices()[i] == s[i - 1]);
                assert(t[t.len() - 1 - i] == rs[rs.len() - 1 - (i - 1)]);
            }
        }
    }
    let a = after.spec_notices().map_values(|e: (u64, Report)| e.1);
    if after.spec_warns().len() == 0 {
        assert(spec_merge(a, after.spec_warns()) == a);
        assert(a =~= t.reverse());
    }
}

/// The count of a new `Reports` after appending `rs` in turn, as `append`
/// moves it on.
pub open spec fn spec_count_after(rs: Seq<Report>) -> u64
    decreases rs.len(),
{
    if rs.len() == 0 {
        0
    } else {
        spec_wrapping_next(spec_count_after(rs.drop_last()))
    }
}

/// The notices of a new `Reports` after appending `rs` in turn, as `append`
/// puts each one in.
pub open spec fn spec_notices_after(rs: Seq<Report>) -> Seq<(u64, Report)>
    decreases rs.len(),
{
    if rs.len() == 0 {
        Seq::empty()
    } else {
        spec_insert_keyed(spec_notices_after(rs.drop_last()), spec_count_after(rs), rs.last())
    }
}

/// One more append carries a run of appends one step on: a `Reports` whose
/// count and notices are those after `rs` has, after `append` of `x`, those
/// after `rs` followed by `x`.
pub proof fn law_append_extends_run(rs: Seq<Report>, x: Report)
    ensures
        spec_count_after(rs.push(x)) == spec_wrapping_next(spec_count_after(rs)),
        spec_notices_after(rs.push(x)) == spec_insert_keyed(
            spec_notices_after(rs),
            spec_count_after(rs.push(x)),
            x,
        ),
{
    assert(rs.push(x).drop_last() =~= rs);
}

/// After any run of appends to a new `Reports` (fewer than `u64::MAX`), the
/// notices are every appended report once, the most recently appended first;
/// with no warnings, `list` gives exactly the appended reports in reverse order.
pub proof fn law_appends_list_newest_first(rs: Seq<Report>)
    requires
        rs.len() < u64::MAX,
    ensures
        spec_count_after(rs) == rs.len(),
        spec_notices_after(rs) == spec_appended(rs),
        spec_merge(spec_notices_after(rs).map_values(|e: (u64, Report)| e.1), Seq::<Report>::empty())
            == rs.reverse(),
    decreases rs.len(),
{
    if rs.len() == 0 {
        assert(spec_appended(rs) =~= Seq::<(u64, Report)>::empty());
        assert(rs.reverse() =~= Seq::<Report>::empty());
    } else {
        let init = rs.drop_last();
        let r = rs.last();
        law_appends_list_newest_first(init);
        let s = spec_notices_after(init);
        let k = spec_count_after(rs);
        assert(k == rs.len());
        if s.len() == 0 {
            assert(spec_notices_after(rs) =~= seq![(k, r)]);
        } else {
            assert(s[0].0 == init.len());
            assert(spec_notices_after(rs) =~= seq![(k, r)] + s);
        }
        assert(spec_notices_after(rs) =~= spec_appended(rs)) by {
            assert forall|i: int| 0 <= i < rs.len() implies #[trigger] spec_notices_after(rs)[i] == spec_appended(rs)[i] by {
                if i > 0 {
                    assert(spec_notices_after(rs)[i] == s[i - 1]);
                    assert(rs[rs.len() - 1 - i] == init[init.len() - 1 - (i - 1)]);
                }
            }
        }
        let a = spec_notices_after(rs).map_values(|e: (u64, Report)| e.1);
        assert(spec_merge(a, Seq::<Report>::empty()) == a);
        assert(a =~= rs.reverse());
    }
}

/// A report just appended is listed first when no notice has a larger key and
/// no warning is newer; a notice stays listed until its span passes.
pub proof fn law_append_then_newest(reports: Reports, cycles: u64, content: ReportContent, after: Reports)
    requires
        after.spec_count() == spec_wrapping_next(reports.spec_count()),
        after.spec_notices() == spec_insert_keyed(
            reports.spec_notices(),
            after.spec_count(),
            Report { cycles, content },
        ),
        after.spec_warns() == reports.spec_warns(),
        forall|i: int| 0 <= i < reports.spec_notices().len() ==> #[trigger] reports.spec_notices()[i].0 < after.spec_count(),
        forall|i: int| 0 <= i < reports.spec_warns().len() ==> #[trigger] reports.spec_warns()[i].cycles < cycles,
    ensures
        spec_merge(after.spec_notices().map_values(|e: (u64, Report)| e.1), after.spec_warns())[0]
            == (Report { cycles, content }),
{
    let s = reports.spec_notices();
    let k = after.spec_count();
    let r = Report { cycles, content };
    if s.len() == 0 {
        assert(after.spec_notices() =~= seq![(k, r)]);
    } else {
        assert(s[0].0 < k);
        assert(after.spec_notices() =~= seq![(k, r)] + s);
    }
    let a = after.spec_notices().map_values(|e: (u64, Report)| e.1);
    let b = after.spec_warns();
    assert(a[0] == r);
    if b.len() > 0 {
        assert(b[0].cycles < cycles);
    }
}

/// Which warnings the measures of the planet call for; the caller compares
/// the measures with the thresholds of the game.
#[derive(Clone, Copy, Debug)]
pub struct WarningReadings {
    /// The mean air temperature is above the high threshold.
    pub high_temp: bool,
    /// The mean air temperature is below the low threshold.
    pub low_temp: bool,
    /// The partial pressure of oxygen is below its threshold.
    pub low_oxygen: bool,
    /// The partial pressure of carbon dioxide is below its threshold.
    pub low_carbon_dioxide: bool,
}

/// The warnings after setting the warning `content` at `cycles` when `on`,
/// and clearing every warning of its kind otherwise.
pub open spec fn spec_set_warn(warns: Seq<Report>, cycles: u64, content: ReportContent, on: bool) -> Seq<Report> {
    if on {
        match spec_first_same(warns, content) {
            Some(i) => warns.update(i, Report { cycles, content }),
            None => warns.push(Report { cycles, content }),
        }
    } else {
        warns.filter(|r: Report| spec_content_kind(r.content) != spec_content_kind(content))
    }
}

/// The warnings after the four checks of the planet's measures, in order:
/// high and low temperature, low oxygen, low carbon dioxide.
pub open spec fn spec_monitored_warns(warns: Seq<Report>, cycles: u64, w: WarningReadings) -> Seq<Report> {
    let a = spec_set_warn(warns, cycles, ReportContent::WarnHighTemp, w.high_temp);
    let b = spec_set_warn(a, cycles, ReportContent::WarnLowTemp, w.low_temp);
    let c = spec_set_warn(b, cycles, ReportContent::WarnLowOxygen, w.low_oxygen);
    spec_set_warn(c, cycles, ReportContent::WarnLowCarbonDioxide, w.low_carbon_dioxide)
}

impl Reports {
    fn set_warn(&mut self, cycles: u64, content: ReportContent, on: bool)
        requires
            old(self).wf(),
        ensures
            final(self).wf(),
            final(self).spec_count() == old(self).spec_count(),
            final(self).spec_notices() == old(self).spec_notices(),
            final(self).spec_warns() == spec_set_warn(old(self).spec_warns(), cycles, content, on),
    {
        if on {
            self.append_persitent_warn(cycles, content);
        } else {
            self.remove_persitent_warn(&content);
        }
    }

    /// One cycle after every `interval_cycles` cycles, drops the notices whose
    /// span has passed and sets or clears each warning as the readings say;
    /// tells whether it did. On other cycles nothing changes.
    pub fn monitor(&mut self, cycles: u64, interval_cycles: u64, readings: &WarningReadings) -> (r: bool)
        requires
            old(self).wf(),
            interval_cycles > 0,
            forall|i: int|
                0 <= i < old(self).spec_notices().len() ==> #[trigger] old(self).spec_notices()[i].1.cycles
                    <= u64::MAX - COMMON_NOTICE_REPORT_SPAN,
        ensures
            final(self).wf(),
            r == (cycles % interval_cycles == 1),
            final(self).spec_count() == old(self).spec_count(),
            !r ==> final(self).spec_notices() == old(self).spec_notices() && final(self).spec_warns()
                == old(self).spec_warns(),
            r ==> final(self).spec_notices() == old(self).spec_notices().filter(
                |e: (u64, Report)| spec_not_outdated(e.1, cycles),
            ) && final(self).spec_warns() == spec_monitored_warns(old(self).spec_warns(), cycles, *readings),
    {
        if cycles % interval_cycles != 1 {
            return false;
        }
        self.remove_outdated(cycles);
        self.set_warn(cycles, ReportContent::WarnHighTemp, readings.high_temp);
        self.set_warn(cycles, ReportContent::WarnLowTemp, readings.low_temp);
        self.set_warn(cycles, ReportContent::WarnLowOxygen, readings.low_oxygen);
        self.set_warn(cycles, ReportContent::WarnLowCarbonDioxide, readings.low_carbon_dioxide);
        true
    }
}

/// How a message is shown: as a notice or as a warning.
#[derive(Clone, Copy, PartialEq, Eq, Structural, Debug)]
pub enum MsgStyle {
    Notice,
    Warn,
}

impl MsgStyle {
    /// The icon shown before a message: an information sign for a notice, a
    /// warning sign for a warning.
    pub fn icon(&self) -> (r: &'static str)
        ensures
            r@ == (match *self {
                MsgStyle::Notice => seq!['\u{2139}'],
                MsgStyle::Warn => seq!['\u{26a0}'],
            }),
    {
        proof {
            reveal_strlit("\u{2139}");
            reveal_strlit("\u{26a0}");
        }
        match self {
            MsgStyle::Notice => "\u{2139}",
            MsgStyle::Warn => "\u{26a0}",
        }
    }
}

impl ReportContent {
    /// Warnings are shown as warnings, events as notices.
    pub fn style(&self) -> (r: MsgStyle)
        ensures
            r == (match *self {
                ReportContent::WarnHighTemp | ReportContent::WarnLowTemp | ReportContent::WarnLowOxygen
                | ReportContent::WarnLowCarbonDioxide => MsgStyle::Warn,
                _ => MsgStyle::Notice,
            }),
    {
        match self {
            ReportContent::WarnHighTemp | ReportContent::WarnLowTemp | ReportContent::WarnLowOxygen
            | ReportContent::WarnLowCarbonDioxide => MsgStyle::Warn,
            _ => MsgStyle::Notice,
        }
    }
}

/// Two contents are of the same variant.
pub open spec fn spec_same_variant(a: ReportContent, b: ReportContent) -> bool {
    &&& (a is WarnHighTemp) == (b is WarnHighTemp)
    &&& (a is WarnLowTemp) == (b is WarnLowTemp)
    &&& (a is WarnLowOxygen) == (b is WarnLowOxygen)
    &&& (a is WarnLowCarbonDioxide) == (b is WarnLowCarbonDioxide)
    &&& (a is EventCivilized) == (b is EventCivilized)
    &&& (a is EventCivAdvance) == (b is EventCivAdvance)
    &&& (a is EventCivExtinct) == (b is EventCivExtinct)
}

/// Two contents have the same kind exactly when they are of the same
/// variant: distinct variants never share a kind.
pub proof fn law_kind_is_variant(a: ReportContent, b: ReportContent)
    ensures
        (spec_content_kind(a) == spec_content_kind(b)) == spec_same_variant(a, b),
{
}

/// Removing the warnings of the kind of `target` keeps every warning of
/// another variant, in order, and removes every warning of its variant.
pub proof fn law_remove_warn_keeps_other_variants(warns: Seq<Report>, target: ReportContent)
    ensures
        ({
            let kept = warns.filter(|r: Report| spec_content_kind(r.content) != spec_content_kind(target));
            &&& kept == warns.filter(|r: Report| !spec_same_variant(r.content, target))
            &&& forall|i: int| 0 <= i < warns.len() && !spec_same_variant(warns[i].content, target) ==> kept.contains(
                #[trigger] warns[i],
            )
            &&& forall|i: int| 0 <= i < kept.len() ==> !spec_same_variant(#[trigger] kept[i].content, target)
        }),
{
    let pk = |r: Report| spec_content_kind(r.content) != spec_content_kind(target);
    let pv = |r: Report| !spec_same_variant(r.content, target);
    assert forall|r: Report| #[trigger] pk(r) == pv(r) by {
        law_kind_is_variant(r.content, target);
    }
    assert(pk =~= pv);
    assert forall|i: int| 0 <= i < warns.len() && pv(warns[i]) implies warns.filter(pv).contains(#[trigger] warns[i]) by {
        warns.filter_lemma(pv);
    }
    assert forall|i: int| 0 <= i < warns.filter(pv).len() implies pv(#[trigger] warns.filter(pv)[i]) by {
        warns.filter_lemma(pv);
    }
}

proof fn lemma_first_same_props(warns: Seq<Report>, c: ReportContent)
    ensures
        match spec_first_same(warns, c) {
            Some(i) => 0 <= i < warns.len() && spec_same_content(warns[i].content, c),
            None => true,
        },
{
    if exists|i: int| 0 <= i < warns.len() && spec_same_content(warns[i].content, c) {
        let w = choose|i: int| 0 <= i < warns.len() && spec_same_content(warns[i].content, c);
        assert(exists|i: int|
            0 <= i < warns.len() && spec_same_content(warns[i].content, c) && forall|j: int|
                0 <= j < i ==> !spec_same_content(warns[j].content, c)) by {
            lemma_least_same(warns, c, w);
        }
    }
}

proof fn lemma_least_same(warns: Seq<Report>, c: ReportContent, w: int)
    requires
        0 <= w < warns.len(),
        spec_same_content(warns[w].content, c),
    ensures
        exists|i: int|
            0 <= i < warns.len() && spec_same_content(warns[i].content, c) && forall|j: int|
                0 <= j < i ==> !spec_same_content(warns[j].content, c),
    decreases w,
{
    if exists|j: int| 0 <= j < w && spec_same_content(warns[j].content, c) {
        let j = choose|j: int| 0 <= j < w && spec_same_content(warns[j].content, c);
        lemma_least_same(warns, c, j);
    }
}

/// Setting a warning on makes a warning of its content at `cycles`; setting
/// it off leaves no warning of its variant.
proof fn lemma_set_warn_own(warns: Seq<Report>, cycles: u64, c: ReportContent, on: bool)
    ensures
        on ==> spec_set_warn(warns, cycles, c, on).contains(Report { cycles, content: c }),
        !on ==> forall|i: int|
            0 <= i < spec_set_warn(warns, cycles, c, on).len() ==> !spec_same_variant(
                #[trigger] spec_set_warn(warns, cycles, c, on)[i].content,
                c,
            ),
{
    let r = spec_set_warn(warns, cycles, c, on);
    if on {
        lemma_first_same_props(warns, c);
        match spec_first_same(warns, c) {
            Some(i) => assert(r[i] == Report { cycles, content: c }),
            None => assert(r[warns.len() as int] == Report { cycles, content: c }),
        }
    } else {
        law_remove_warn_keeps_other_variants(warns, c);
    }
}

/// Setting a warning of another variant than `v` keeps every warning of
/// variant `v`, and adds none.
proof fn lemma_set_warn_other(warns: Seq<Report>, cycles: u64, c: ReportContent, on: bool, x: Report, v: ReportContent)
    requires
        !spec_same_variant(c, v),
    ensures
        spec_same_variant(x.content, v) && warns.contains(x) ==> spec_set_warn(warns, cycles, c, on).contains(x),
        (forall|i: int| 0 <= i < warns.len() ==> !spec_same_variant(#[trigger] warns[i].content, v)) ==> forall|i: int|
            0 <= i < spec_set_warn(warns, cycles, c, on).len() ==> !spec_same_variant(
                #[trigger] spec_set_warn(warns, cycles, c, on)[i].content,
                v,
            ),
{
    let r = spec_set_warn(warns, cycles, c, on);
    if on {
        lemma_first_same_props(warns, c);
        match spec_first_same(warns, c) {
            Some(i) => {
                if spec_same_variant(x.content, v) && warns.contains(x) {
                    let k = choose|k: int| 0 <= k < warns.len() && warns[k] == x;
                    if k == i {
                        assert(spec_same_content(x.content, c));
                    }
                    assert(r[k] == x);
                }
            },
            None => {
                if spec_same_variant(x.content, v) && warns.contains(x) {
                    let k = choose|k: int| 0 <= k < warns.len() && warns[k] == x;
                    assert(r[k] == x);
                }
            },
        }
    } else {
        law_remove_warn_keeps_other_variants(warns, c);
        if spec_same_variant(x.content, v) && warns.contains(x) {
            let k = choose|k: int| 0 <= k < warns.len() && warns[k] == x;
            assert(!spec_same_variant(warns[k].content, c));
        }
        let kept = warns.filter(|r: Report| spec_content_kind(r.content) != spec_content_kind(c));
        if forall|i: int| 0 <= i < warns.len() ==> !spec_same_variant(#[trigger] warns[i].content, v) {
            assert forall|i: int| 0 <= i < kept.len() implies !spec_same_variant(#[trigger] kept[i].content, v) by {
                assert(kept.contains(kept[i]));
                warns.lemma_filter_contains_rev(|r: Report| spec_content_kind(r.content) != spec_content_kind(c), kept[i]);
                let k = choose|k: int| 0 <= k < warns.len() && warns[k] == kept[i];
                assert(!spec_same_variant(warns[k].content, v));
            }
        }
    }
}

/// Monitoring leaves, for each of the four warnings, a warning made at
/// `cycles` when its reading is on, and no warning of its variant when its
/// reading is off; what the other readings say does not matter.
pub proof fn law_monitor_sets_each_warning(warns: Seq<Report>, cycles: u64, w: WarningReadings)
    ensures
        ({
            let r = spec_monitored_warns(warns, cycles, w);
            &&& w.high_temp == r.contains(Report { cycles, content: ReportContent::WarnHighTemp })
            &&& w.low_temp == r.contains(Report { cycles, content: ReportContent::WarnLowTemp })
            &&& w.low_oxygen == r.contains(Report { cycles, content: ReportContent::WarnLowOxygen })
            &&& w.low_carbon_dioxide == r.contains(Report { cycles, content: ReportContent::WarnLowCarbonDioxide })
            &&& !w.high_temp ==> forall|i: int| 0 <= i < r.len() ==> !(#[trigger] r[i].content is WarnHighTemp)
            &&& !w.low_temp ==> forall|i: int| 0 <= i < r.len() ==> !(#[trigger] r[i].content is WarnLowTemp)
            &&& !w.low_oxygen ==> forall|i: int| 0 <= i < r.len() ==> !(#[trigger] r[i].content is WarnLowOxygen)
            &&& !w.low_carbon_dioxide ==> forall|i: int|
                0 <= i < r.len() ==> !(#[trigger] r[i].content is WarnLowCarbonDioxide)
        }),
{
    let h = ReportContent::WarnHighTemp;
    let l = ReportContent::WarnLowTemp;
    let o = ReportContent::WarnLowOxygen;
    let d = ReportContent::WarnLowCarbonDioxide;
    let a = spec_set_warn(warns, cycles, h, w.high_temp);
    let b = spec_set_warn(a, cycles, l, w.low_temp);
    let c = spec_set_warn(b, cycles, o, w.low_oxygen);
    let r = spec_set_warn(c, cycles, d, w.low_carbon_dioxide);
    let rh = Report { cycles, content: h };
    let rl = Report { cycles, content: l };
    let ro = Report { cycles, content: o };
    let rd = Report { cycles, content: d };
    lemma_set_warn_own(warns, cycles, h, w.high_temp);
    lemma_set_warn_other(a, cycles, l, w.low_temp, rh, h);
    lemma_set_warn_other(b, cycles, o, w.low_oxygen, rh, h);
    lemma_set_warn_other(c, cycles, d, w.low_carbon_dioxide, rh, h);
    lemma_set_warn_own(a, cycles, l, w.low_temp);
    lemma_set_warn_other(b, cycles, o, w.low_oxygen, rl, l);
    lemma_set_warn_other(c, cycles, d, w.low_carbon_dioxide, rl, l);
    lemma_set_warn_own(b, cycles, o, w.low_oxygen);
    lemma_set_warn_other(c, cycles, d, w.low_carbon_dioxide, ro, o);
    lemma_set_warn_own(c, cycles, d, w.low_carbon_dioxide);
    if !w.high_temp {
        assert forall|i: int| 0 <= i < r.len() implies !(#[trigger] r[i].content is WarnHighTemp) by {
            assert(!spec_same_variant(r[i].content, h));
        }
        if r.contains(rh) {
            let k = choose|k: int| 0 <= k < r.len() && r[k] == rh;
            assert(r[k].content is WarnHighTemp);
        }
    }
    if !w.low_temp {
        assert forall|i: int| 0 <= i < r.len() implies !(#[trigger] r[i].content is WarnLowTemp) by {
            assert(!spec_same_variant(r[i].content, l));
        }
        if r.contains(rl) {
            let k = choose|k: int| 0 <= k < r.len() && r[k] == rl;
            assert(r[k].content is WarnLowTemp);
        }
    }
    if !w.low_oxygen {
        assert forall|i: int| 0 <= i < r.len() implies !(#[trigger] r[i].content is WarnLowOxygen) by {
            assert(!spec_same_variant(r[i].content, o));
        }
        if r.contains(ro) {
            let k = choose|k: int| 0 <= k < r.len() && r[k] == ro;
            assert(r[k].content is WarnLowOxygen);
        }
    }
    if !w.low_carbon_dioxide {
        assert forall|i: int| 0 <= i < r.len() implies !(#[trigger] r[i].content is WarnLowCarbonDioxide) by {
            assert(!spec_same_variant(r[i].content, d));
        }
        if r.contains(rd) {
            let k = choose|k: int| 0 <= k < r.len() && r[k] == rd;
            assert(r[k].content is WarnLowCarbonDioxide);
        }
    }
}

/// Dropping the outdated notices at `cycles` keeps a notice of a settlement
/// being civilized or advancing exactly while fewer than 1000 cycles have
/// passed since it was made, and keeps every other notice.
pub proof fn law_outdated_notices(notices: Seq<(u64, Report)>, cycles: u64)
    ensures
        forall|k: int|
            0 <= k < notices.len() ==> (notices.filter(|e: (u64, Report)| spec_not_outdated(e.1, cycles)).contains(
                #[trigger] notices[k],
            ) == (!(notices[k].1.content is EventCivilized || notices[k].1.content is EventCivAdvance)
                || notices[k].1.cycles + 1000 > cycles)),
{
    let p = |e: (u64, Report)| spec_not_outdated(e.1, cycles);
    let kept = notices.filter(p);
    assert forall|k: int| 0 <= k < notices.len() implies kept.contains(#[trigger] notices[k]) == (!(
    notices[k].1.content is EventCivilized || notices[k].1.content is EventCivAdvance) || notices[k].1.cycles + 1000
        > cycles) by {
        notices.filter_lemma(p);
        if kept.contains(notices[k]) {
            notices.lemma_filter_contains_rev(p, notices[k]);
            let m = choose|m: int| 0 <= m < kept.len() && kept[m] == notices[k];
            assert(p(kept[m]));
        }
    }
}

} // verus!
