//! Order, placement and active tab of the auxiliary panels in the two sidebar hosts.
use vstd::prelude::*;

verus! {

/// Durable auxiliary panel tabs that can be docked into either sidebar host.
#[derive(Debug, Clone, Copy, PartialEq, Eq, Hash, Structural)]
pub enum AuxiliaryPanelKind {
    LocalAgent,
    RunReview,
    Notes,
    Commands,
    Git,
    Files,
}

/// Identifies one of the two auxiliary sidebar hosts.
#[derive(Debug, Clone, Copy, PartialEq, Eq, Hash, Structural)]
pub enum AuxiliaryPanelHost {
    RunSidebar,
    SidePanel,
}

/// Every panel kind, in declaration order.
pub open spec fn all_kinds() -> Seq<AuxiliaryPanelKind> {
    seq![
        AuxiliaryPanelKind::LocalAgent,
        AuxiliaryPanelKind::RunReview,
        AuxiliaryPanelKind::Notes,
        AuxiliaryPanelKind::Commands,
        AuxiliaryPanelKind::Git,
        AuxiliaryPanelKind::Files,
    ]
}

/// Host a panel lives in when a layout does not place it.
pub open spec fn spec_default_host(kind: AuxiliaryPanelKind) -> AuxiliaryPanelHost {
    match kind {
        AuxiliaryPanelKind::LocalAgent | AuxiliaryPanelKind::RunReview
        | AuxiliaryPanelKind::Notes => AuxiliaryPanelHost::RunSidebar,
        _ => AuxiliaryPanelHost::SidePanel,
    }
}

/// Every panel kind is listed in `all_kinds`.
pub proof fn lemma_all_kinds_complete(kind: AuxiliaryPanelKind)
    ensures
        all_kinds().contains(kind),
{
    match kind {
        AuxiliaryPanelKind::LocalAgent => assert(all_kinds()[0] == kind),
        AuxiliaryPanelKind::RunReview => assert(all_kinds()[1] == kind),
        AuxiliaryPanelKind::Notes => assert(all_kinds()[2] == kind),
        AuxiliaryPanelKind::Commands => assert(all_kinds()[3] == kind),
        AuxiliaryPanelKind::Git => assert(all_kinds()[4] == kind),
        AuxiliaryPanelKind::Files => assert(all_kinds()[5] == kind),
    }
}

impl AuxiliaryPanelKind {
    /// Every panel kind, in declaration order.
    pub fn all() -> (kinds: [AuxiliaryPanelKind; 6])
        ensures
            kinds@ == all_kinds(),
    {
        let kinds = [
            AuxiliaryPanelKind::LocalAgent,
            AuxiliaryPanelKind::RunReview,
            AuxiliaryPanelKind::Notes,
            AuxiliaryPanelKind::Commands,
            AuxiliaryPanelKind::Git,
            AuxiliaryPanelKind::Files,
        ];
        proof {
            assert(kinds@ =~= all_kinds());
        }
        kinds
    }

    /// Returns the visible label used in tab chrome.
    pub fn label(self) -> (label: &'static str)
        ensures
            label@ == match self {
                AuxiliaryPanelKind::LocalAgent => "Local Agent"@,
                AuxiliaryPanelKind::RunReview => "Run Review"@,
                AuxiliaryPanelKind::Notes => "Notes"@,
                AuxiliaryPanelKind::Commands => "Commands"@,
                AuxiliaryPanelKind::Git => "Git"@,
                AuxiliaryPanelKind::Files => "Files"@,
            },
    {
        match self {
            AuxiliaryPanelKind::LocalAgent => "Local Agent",
            AuxiliaryPanelKind::RunReview => "Run Review",
            AuxiliaryPanelKind::Notes => "Notes",
            AuxiliaryPanelKind::Commands => "Commands",
            AuxiliaryPanelKind::Git => "Git",
            AuxiliaryPanelKind::Files => "Files",
        }
    }

    /// Host the panel lives in when a layout does not place it.
    pub fn default_host(self) -> (host: AuxiliaryPanelHost)
        ensures
            host == spec_default_host(self),
    {
        match self {
            AuxiliaryPanelKind::LocalAgent => AuxiliaryPanelHost::RunSidebar,
            AuxiliaryPanelKind::RunReview => AuxiliaryPanelHost::RunSidebar,
            AuxiliaryPanelKind::Notes => AuxiliaryPanelHost::RunSidebar,
            AuxiliaryPanelKind::Commands => AuxiliaryPanelHost::SidePanel,
            AuxiliaryPanelKind::Git => AuxiliaryPanelHost::SidePanel,
            AuxiliaryPanelKind::Files => AuxiliaryPanelHost::SidePanel,
        }
    }
}

/// Durable order, placement, and active tab selection for auxiliary panels.
#[derive(Debug, Clone, PartialEq, Eq)]
pub struct AuxiliaryPanelLayout {
    run_sidebar: Vec<AuxiliaryPanelKind>,
    side_panel: Vec<AuxiliaryPanelKind>,
    active_run_sidebar: Option<AuxiliaryPanelKind>,
    active_side_panel: Option<AuxiliaryPanelKind>,
}

/// Abstract contents of an [`AuxiliaryPanelLayout`].
pub struct PanelLayoutView {
    pub run_sidebar: Seq<AuxiliaryPanelKind>,
    pub side_panel: Seq<AuxiliaryPanelKind>,
    pub active_run_sidebar: Option<AuxiliaryPanelKind>,
    pub active_side_panel: Option<AuxiliaryPanelKind>,
}

impl View for AuxiliaryPanelLayout {
    type V = PanelLayoutView;

    closed spec fn view(&self) -> PanelLayoutView {
        PanelLayoutView {
            run_sidebar: self.run_sidebar@,
            side_panel: self.side_panel@,
            active_run_sidebar: self.active_run_sidebar,
            active_side_panel: self.active_side_panel,
        }
    }
}

/// No element occurs twice.
pub open spec fn no_duplicates(s: Seq<AuxiliaryPanelKind>) -> bool {
    forall|i: int, j: int| 0 <= i < j < s.len() ==> s[i] != s[j]
}

/// `active` is a tab of `tabs`, and is absent exactly when `tabs` is empty.
pub open spec fn active_fits(active: Option<AuxiliaryPanelKind>, tabs: Seq<AuxiliaryPanelKind>) -> bool {
    match active {
        Some(p) => tabs.contains(p),
        None => tabs.len() == 0,
    }
}

impl PanelLayoutView {
    /// Tabs of `host`, in order.
    pub open spec fn tabs(self, host: AuxiliaryPanelHost) -> Seq<AuxiliaryPanelKind> {
        match host {
            AuxiliaryPanelHost::RunSidebar => self.run_sidebar,
            AuxiliaryPanelHost::SidePanel => self.side_panel,
        }
    }

    /// Active tab of `host`.
    pub open spec fn active(self, host: AuxiliaryPanelHost) -> Option<AuxiliaryPanelKind> {
        match host {
            AuxiliaryPanelHost::RunSidebar => self.active_run_sidebar,
            AuxiliaryPanelHost::SidePanel => self.active_side_panel,
        }
    }

    /// Host that lists `panel`, looking at the run sidebar first.
    pub open spec fn host_of(self, panel: AuxiliaryPanelKind) -> Option<AuxiliaryPanelHost> {
        if self.run_sidebar.contains(panel) {
            Some(AuxiliaryPanelHost::RunSidebar)
        } else if self.side_panel.contains(panel) {
            Some(AuxiliaryPanelHost::SidePanel)
        } else {
            None
        }
    }

    /// Every panel is placed exactly once across the two hosts, and each
    /// host's active tab is one of its tabs (none only when it has none).
    pub open spec fn wf(self) -> bool {
        &&& no_duplicates(self.run_sidebar + self.side_panel)
        &&& forall|k: AuxiliaryPanelKind| (self.run_sidebar + self.side_panel).contains(k)
        &&& active_fits(self.active_run_sidebar, self.run_sidebar)
        &&& active_fits(self.active_side_panel, self.side_panel)
    }

    /// This layout with the tabs of `host` replaced.
    pub open spec fn with_tabs(self, host: AuxiliaryPanelHost, tabs: Seq<AuxiliaryPanelKind>) -> PanelLayoutView {
        match host {
            AuxiliaryPanelHost::RunSidebar => PanelLayoutView { run_sidebar: tabs, ..self },
            AuxiliaryPanelHost::SidePanel => PanelLayoutView { side_panel: tabs, ..self },
        }
    }

    /// This layout with the active tab of `host` replaced.
    pub open spec fn with_active(
        self,
        host: AuxiliaryPanelHost,
        active: Option<AuxiliaryPanelKind>,
    ) -> PanelLayoutView {
        match host {
            AuxiliaryPanelHost::RunSidebar => PanelLayoutView { active_run_sidebar: active, ..self },
            AuxiliaryPanelHost::SidePanel => PanelLayoutView { active_side_panel: active, ..self },
        }
    }
}

/// Position of the first `x` in `s`, or -1.
pub open spec fn index_of(s: Seq<AuxiliaryPanelKind>, x: AuxiliaryPanelKind) -> int {
    if s.contains(x) {
        choose|i: int| 0 <= i < s.len() && s[i] == x && forall|j: int| 0 <= j < i ==> s[j] != x
    } else {
        -1
    }
}

/// `s` without its first `x`.
pub open spec fn without(s: Seq<AuxiliaryPanelKind>, x: AuxiliaryPanelKind) -> Seq<AuxiliaryPanelKind> {
    if s.contains(x) {
        s.remove(index_of(s, x))
    } else {
        s
    }
}

/// First element of `s`, if any.
pub open spec fn first_of(s: Seq<AuxiliaryPanelKind>) -> Option<AuxiliaryPanelKind> {
    if s.len() > 0 {
        Some(s[0])
    } else {
        None
    }
}

/// Elements of `s` in order, keeping only first occurrences and skipping
/// anything in `seen`.
pub open spec fn unique_after(s: Seq<AuxiliaryPanelKind>, seen: Seq<AuxiliaryPanelKind>) -> Seq<AuxiliaryPanelKind>
    decreases s.len(),
{
    if s.len() == 0 {
        Seq::empty()
    } else {
        let prev = unique_after(s.drop_last(), seen);
        if seen.contains(s.last()) || prev.contains(s.last()) {
            prev
        } else {
            prev.push(s.last())
        }
    }
}

/// `seq![k]` when `k` is not in `seen` and defaults to `host`, else nothing.
pub open spec fn missing_one(k: AuxiliaryPanelKind, seen: Seq<AuxiliaryPanelKind>, host: AuxiliaryPanelHost) -> Seq<AuxiliaryPanelKind> {
    if !seen.contains(k) && spec_default_host(k) == host {
        seq![k]
    } else {
        Seq::empty()
    }
}

/// Kinds among the first `n` of `all_kinds` that are not in `seen` and
/// default to `host`, in order.
pub open spec fn missing_prefix(seen: Seq<AuxiliaryPanelKind>, host: AuxiliaryPanelHost, n: int) -> Seq<AuxiliaryPanelKind>
    decreases n,
{
    if n <= 0 {
        Seq::empty()
    } else {
        missing_prefix(seen, host, n - 1) + missing_one(all_kinds()[n - 1], seen, host)
    }
}

/// Kinds of `all_kinds` not in `seen` whose default host is `host`, in order.
pub open spec fn missing_for(seen: Seq<AuxiliaryPanelKind>, host: AuxiliaryPanelHost) -> Seq<AuxiliaryPanelKind> {
    missing_prefix(seen, host, 6)
}

/// `active` when it is one of `tabs`, else the first tab.
pub open spec fn normalized_active(active: Option<AuxiliaryPanelKind>, tabs: Seq<AuxiliaryPanelKind>) -> Option<AuxiliaryPanelKind> {
    match active {
        Some(p) if tabs.contains(p) => Some(p),
        _ => first_of(tabs),
    }
}

/// The layout `normalized` produces from `v`.
pub open spec fn normalized_view(v: PanelLayoutView) -> PanelLayoutView {
    let run_u = unique_after(v.run_sidebar, Seq::empty());
    let side_u = unique_after(v.side_panel, run_u);
    let seen = run_u + side_u;
    let run = run_u + missing_for(seen, AuxiliaryPanelHost::RunSidebar);
    let side = side_u + missing_for(seen, AuxiliaryPanelHost::SidePanel);
    PanelLayoutView {
        run_sidebar: run,
        side_panel: side,
        active_run_sidebar: normalized_active(v.active_run_sidebar, run),
        active_side_panel: normalized_active(v.active_side_panel, side),
    }
}

proof fn lemma_index_of(s: Seq<AuxiliaryPanelKind>, x: AuxiliaryPanelKind)
    ensures
        s.contains(x) ==> 0 <= index_of(s, x) < s.len() && s[index_of(s, x)] == x && forall|j: int|
            0 <= j < index_of(s, x) ==> s[j] != x,
        !s.contains(x) ==> index_of(s, x) == -1,
{
    if s.contains(x) {
        let w = choose|w: int| 0 <= w < s.len() && s[w] == x;
        lemma_first_occurrence(s, x, w);
    }
}

proof fn lemma_first_occurrence(s: Seq<AuxiliaryPanelKind>, x: AuxiliaryPanelKind, w: int)
    requires
        0 <= w < s.len(),
        s[w] == x,
    ensures
        exists|i: int| 0 <= i < s.len() && s[i] == x && forall|j: int| 0 <= j < i ==> s[j] != x,
    decreases w,
{
    if exists|m: int| 0 <= m < w && s[m] == x {
        let m = choose|m: int| 0 <= m < w && s[m] == x;
        lemma_first_occurrence(s, x, m);
    } else {
        assert(forall|j: int| 0 <= j < w ==> s[j] != x);
    }
}

proof fn lemma_unique_after(s: Seq<AuxiliaryPanelKind>, seen: Seq<AuxiliaryPanelKind>)
    ensures
        no_duplicates(unique_after(s, seen)),
        forall|k: AuxiliaryPanelKind|
            #[trigger] unique_after(s, seen).contains(k) <==> (s.contains(k) && !seen.contains(k)),
    decreases s.len(),
{
    if s.len() > 0 {
        lemma_unique_after(s.drop_last(), seen);
        let prev = unique_after(s.drop_last(), seen);
        assert forall|k: AuxiliaryPanelKind| s.contains(k) <==> (s.drop_last().contains(k) || s.last() == k) by {
            if s.contains(k) {
                let i = choose|i: int| 0 <= i < s.len() && s[i] == k;
                if i < s.len() - 1 {
                    assert(s.drop_last()[i] == k);
                }
            }
            if s.drop_last().contains(k) {
                let i = choose|i: int| 0 <= i < s.drop_last().len() && s.drop_last()[i] == k;
                assert(s[i] == k);
            }
            if s.last() == k {
                assert(s[s.len() - 1] == k);
            }
        }
        if !(seen.contains(s.last()) || prev.contains(s.last())) {
            let r = prev.push(s.last());
            assert forall|k: AuxiliaryPanelKind| r.contains(k) <==> (prev.contains(k) || k == s.last()) by {
                if r.contains(k) {
                    let i = choose|i: int| 0 <= i < r.len() && r[i] == k;
                    if i < prev.len() {
                        assert(prev[i] == k);
                    }
                }
                if prev.contains(k) {
                    let i = choose|i: int| 0 <= i < prev.len() && prev[i] == k;
                    assert(r[i] == k);
                }
                if k == s.last() {
                    assert(r[prev.len() as int] == k);
                }
            }
            assert forall|i: int, j: int| 0 <= i < j < r.len() implies r[i] != r[j] by {
                if j == prev.len() {
                    assert(prev.contains(r[i]));
                }
            }
        }
    } else {
        assert(s =~= Seq::<AuxiliaryPanelKind>::empty());
    }
}

proof fn lemma_concat_contains(a: Seq<AuxiliaryPanelKind>, b: Seq<AuxiliaryPanelKind>)
    ensures
        forall|k: AuxiliaryPanelKind| #[trigger] (a + b).contains(k) <==> (a.contains(k) || b.contains(k)),
{
    assert forall|k: AuxiliaryPanelKind| (a + b).contains(k) <==> (a.contains(k) || b.contains(k)) by {
        if (a + b).contains(k) {
            let i = choose|i: int| 0 <= i < (a + b).len() && (a + b)[i] == k;
            if i < a.len() {
                assert(a[i] == k);
            } else {
                assert(b[i - a.len()] == k);
            }
        }
        if a.contains(k) {
            let i = choose|i: int| 0 <= i < a.len() && a[i] == k;
            assert((a + b)[i] == k);
        }
        if b.contains(k) {
            let i = choose|i: int| 0 <= i < b.len() && b[i] == k;
            assert((a + b)[a.len() + i] == k);
        }
    }
}

proof fn lemma_concat_no_duplicates(a: Seq<AuxiliaryPanelKind>, b: Seq<AuxiliaryPanelKind>)
    requires
        no_duplicates(a),
        no_duplicates(b),
        forall|k: AuxiliaryPanelKind| a.contains(k) ==> !b.contains(k),
    ensures
        no_duplicates(a + b),
{
    assert forall|i: int, j: int| 0 <= i < j < (a + b).len() implies (a + b)[i] != (a + b)[j] by {
        if i < a.len() && j >= a.len() {
            assert(a.contains(a[i]));
            assert(b[j - a.len()] == (a + b)[j]);
            if (a + b)[i] == (a + b)[j] {
                assert(b.contains(a[i]));
            }
        } else if i >= a.len() {
            assert((a + b)[i] == b[i - a.len()]);
            assert((a + b)[j] == b[j - a.len()]);
        }
    }
}

/// `k` is one of the first `n` kinds of `all_kinds`.
pub open spec fn among_first(k: AuxiliaryPanelKind, n: int) -> bool {
    exists|j: int| 0 <= j < n && #[trigger] all_kinds()[j] == k
}

proof fn lemma_missing_prefix(seen: Seq<AuxiliaryPanelKind>, host: AuxiliaryPanelHost, n: int)
    requires
        0 <= n <= 6,
    ensures
        no_duplicates(missing_prefix(seen, host, n)),
        forall|k: AuxiliaryPanelKind|
            missing_prefix(seen, host, n).contains(k) <==> among_first(k, n) && !seen.contains(k)
                && spec_default_host(k) == host,
    decreases n,
{
    if n > 0 {
        lemma_missing_prefix(seen, host, n - 1);
        let prev = missing_prefix(seen, host, n - 1);
        let one = missing_one(all_kinds()[n - 1], seen, host);
        lemma_concat_contains(prev, one);
        assert forall|k: AuxiliaryPanelKind| one.contains(k) <==> (all_kinds()[n - 1] == k
            && !seen.contains(k) && spec_default_host(k) == host) by {
            if one.contains(k) {
                let i = choose|i: int| 0 <= i < one.len() && one[i] == k;
            }
            if all_kinds()[n - 1] == k && !seen.contains(k) && spec_default_host(k) == host {
                assert(one[0] == k);
            }
        }
        assert forall|k: AuxiliaryPanelKind| #[trigger] among_first(k, n)
            <==> (among_first(k, n - 1) || all_kinds()[n - 1] == k) by {
            if among_first(k, n) {
                let j = choose|j: int| 0 <= j < n && #[trigger] all_kinds()[j] == k;
                if j < n - 1 {
                    assert(0 <= j < n - 1 && all_kinds()[j] == k);
                }
            }
            if among_first(k, n - 1) {
                let j = choose|j: int| 0 <= j < n - 1 && #[trigger] all_kinds()[j] == k;
                assert(0 <= j < n && all_kinds()[j] == k);
            }
            if all_kinds()[n - 1] == k {
                assert(0 <= n - 1 < n && all_kinds()[n - 1] == k);
            }
        }
        assert forall|k: AuxiliaryPanelKind| prev.contains(k) implies !one.contains(k) by {
            if one.contains(k) {
                let j = choose|j: int| 0 <= j < n - 1 && #[trigger] all_kinds()[j] == k;
                assert(all_kinds()[j] != all_kinds()[n - 1]);
            }
        }
        assert(no_duplicates(one));
        lemma_concat_no_duplicates(prev, one);
    } else {
        assert(missing_prefix(seen, host, n) =~= Seq::<AuxiliaryPanelKind>::empty());
    }
}

proof fn lemma_missing_for(seen: Seq<AuxiliaryPanelKind>, host: AuxiliaryPanelHost)
    ensures
        no_duplicates(missing_for(seen, host)),
        forall|k: AuxiliaryPanelKind|
            #[trigger] missing_for(seen, host).contains(k) <==> (!seen.contains(k) && spec_default_host(k) == host),
{
    lemma_missing_prefix(seen, host, 6);
    assert forall|k: AuxiliaryPanelKind| #[trigger] among_first(k, 6) by {
        lemma_all_kinds_complete(k);
        let j = choose|j: int| 0 <= j < all_kinds().len() && all_kinds()[j] == k;
        assert(0 <= j < 6 && all_kinds()[j] == k);
    }
}

/// Keeping first occurrences outside `seen` keeps everything when nothing
/// repeats and nothing is in `seen`.
proof fn lemma_unique_after_keeps(s: Seq<AuxiliaryPanelKind>, seen: Seq<AuxiliaryPanelKind>)
    requires
        no_duplicates(s),
        forall|k: AuxiliaryPanelKind| s.contains(k) ==> !seen.contains(k),
    ensures
        unique_after(s, seen) == s,
    decreases s.len(),
{
    if s.len() > 0 {
        let d = s.drop_last();
        assert forall|k: AuxiliaryPanelKind| d.contains(k) implies !seen.contains(k) by {
            let i = choose|i: int| 0 <= i < d.len() && d[i] == k;
            assert(s[i] == k);
        }
        lemma_unique_after_keeps(d, seen);
        assert(s.contains(s.last()));
        if d.contains(s.last()) {
            let i = choose|i: int| 0 <= i < d.len() && d[i] == s.last();
            assert(s[i] == s[s.len() - 1]);
        }
        assert(d.push(s.last()) =~= s);
    }
}

/// Normalizing a well-formed layout leaves it as it is.
pub proof fn lemma_normalized_fixes_wf(v: PanelLayoutView)
    requires
        v.wf(),
    ensures
        normalized_view(v) == v,
{
    let run = v.run_sidebar;
    let side = v.side_panel;
    let all = run + side;
    assert forall|i: int, j: int| 0 <= i < j < run.len() implies run[i] != run[j] by {
        assert(all[i] == run[i] && all[j] == run[j]);
    }
    assert forall|i: int, j: int| 0 <= i < j < side.len() implies side[i] != side[j] by {
        assert(all[run.len() + i] == side[i] && all[run.len() + j] == side[j]);
    }
    assert forall|k: AuxiliaryPanelKind| run.contains(k) implies !Seq::<AuxiliaryPanelKind>::empty().contains(k) by {}
    lemma_unique_after_keeps(run, Seq::empty());
    assert forall|k: AuxiliaryPanelKind| side.contains(k) implies !run.contains(k) by {
        let j = choose|j: int| 0 <= j < side.len() && side[j] == k;
        if run.contains(k) {
            let i = choose|i: int| 0 <= i < run.len() && run[i] == k;
            assert(all[i] == all[run.len() + j]);
        }
    }
    lemma_unique_after_keeps(side, run);
    lemma_missing_for(all, AuxiliaryPanelHost::RunSidebar);
    lemma_missing_for(all, AuxiliaryPanelHost::SidePanel);
    let mr = missing_for(all, AuxiliaryPanelHost::RunSidebar);
    let ms = missing_for(all, AuxiliaryPanelHost::SidePanel);
    if mr.len() > 0 {
        assert(mr.contains(mr[0]));
        assert(all.contains(mr[0]));
    }
    if ms.len() > 0 {
        assert(ms.contains(ms[0]));
        assert(all.contains(ms[0]));
    }
    assert(run + mr =~= run);
    assert(side + ms =~= side);
}

/// `normalized` always produces a well-formed layout.
pub proof fn lemma_normalized_wf(v: PanelLayoutView)
    ensures
        normalized_view(v).wf(),
{
    let run_u = unique_after(v.run_sidebar, Seq::empty());
    let side_u = unique_after(v.side_panel, run_u);
    let seen = run_u + side_u;
    let mr = missing_for(seen, AuxiliaryPanelHost::RunSidebar);
    let ms = missing_for(seen, AuxiliaryPanelHost::SidePanel);
    let run = run_u + mr;
    let side = side_u + ms;
    lemma_unique_after(v.run_sidebar, Seq::empty());
    lemma_unique_after(v.side_panel, run_u);
    lemma_missing_for(seen, AuxiliaryPanelHost::RunSidebar);
    lemma_missing_for(seen, AuxiliaryPanelHost::SidePanel);
    lemma_concat_contains(run_u, side_u);
    lemma_concat_contains(run_u, mr);
    lemma_concat_contains(side_u, ms);
    lemma_concat_contains(run, side);
    assert forall|k: AuxiliaryPanelKind| run_u.contains(k) implies !mr.contains(k) by {
        assert(seen.contains(k));
    }
    assert forall|k: AuxiliaryPanelKind| side_u.contains(k) implies !ms.contains(k) by {
        assert(seen.contains(k));
    }
    lemma_concat_no_duplicates(run_u, mr);
    lemma_concat_no_duplicates(side_u, ms);
    assert forall|k: AuxiliaryPanelKind| run.contains(k) implies !side.contains(k) by {
        if run_u.contains(k) {
            assert(seen.contains(k));
        } else {
            assert(mr.contains(k));
            assert(!seen.contains(k));
        }
    }
    lemma_concat_no_duplicates(run, side);
    assert forall|k: AuxiliaryPanelKind| (run + side).contains(k) by {
        if !seen.contains(k) {
            if spec_default_host(k) == AuxiliaryPanelHost::RunSidebar {
                assert(mr.contains(k));
            } else {
                assert(ms.contains(k));
            }
        }
    }
    let nv = normalized_view(v);
    if nv.active_run_sidebar is Some && run.len() > 0 {
        assert(run.contains(run[0]));
    }
    if nv.active_side_panel is Some && side.len() > 0 {
        assert(side.contains(side[0]));
    }
}

fn contains_kind(s: &Vec<AuxiliaryPanelKind>, x: AuxiliaryPanelKind) -> (b: bool)
    ensures
        b == s@.contains(x),
{
    let mut i: usize = 0;
    while i < s.len()
        invariant
            i <= s.len(),
            forall|j: int| 0 <= j < i ==> s@[j] != x,
        decreases s.len() - i,
    {
        if s[i] == x {
            proof {
                assert(s@[i as int] == x);
            }
            return true;
        }
        i = i + 1;
    }
    false
}

fn position_of(s: &Vec<AuxiliaryPanelKind>, x: AuxiliaryPanelKind) -> (r: Option<usize>)
    ensures
        match r {
            Some(i) => i as int == index_of(s@, x) && s@.contains(x),
            None => !s@.contains(x),
        },
{
    let mut i: usize = 0;
    while i < s.len()
        invariant
            i <= s.len(),
            forall|j: int| 0 <= j < i ==> s@[j] != x,
        decreases s.len() - i,
    {
        if s[i] == x {
            proof {
                assert(s@[i as int] == x);
                lemma_index_of(s@, x);
                let k = index_of(s@, x);
                if k < i {
                    assert(s@[k] != x);
                }
                if k > i {
                    assert(s@[i as int] != x);
                }
            }
            return Some(i);
        }
        i = i + 1;
    }
    None
}

/// Keeps the first occurrence of each panel of `panels` that is not in
/// `seen`, adding the kept panels to `seen`.
pub fn collect_unique_panels(panels: Vec<AuxiliaryPanelKind>, seen: &mut Vec<AuxiliaryPanelKind>) -> (normalized: Vec<AuxiliaryPanelKind>)
    ensures
        normalized@ == unique_after(panels@, old(seen)@),
        final(seen)@ == old(seen)@ + normalized@,
{
    let ghost seen0 = seen@;
    let mut normalized: Vec<AuxiliaryPanelKind> = Vec::new();
    let mut i: usize = 0;
    while i < panels.len()
        invariant
            i <= panels.len(),
            normalized@ == unique_after(panels@.take(i as int), seen0),
            seen@ == seen0 + normalized@,
        decreases panels.len() - i,
    {
        let panel = panels[i];
        proof {
            assert(panels@.take(i + 1).drop_last() =~= panels@.take(i as int));
            assert(panels@.take(i + 1).last() == panel);
            lemma_concat_contains(seen0, normalized@);
        }
        if !contains_kind(seen, panel) {
            seen.push(panel);
            normalized.push(panel);
            proof {
                assert(seen@ =~= seen0 + normalized@);
            }
        }
        i = i + 1;
    }
    proof {
        assert(panels@.take(i as int) =~= panels@);
    }
    normalized
}

/// `active_panel` when it is one of `tabs`, else the first tab.
pub fn normalize_active_panel(active_panel: Option<AuxiliaryPanelKind>, tabs: &Vec<AuxiliaryPanelKind>) -> (r: Option<AuxiliaryPanelKind>)
    ensures
        r == normalized_active(active_panel, tabs@),
{
    if let Some(panel) = active_panel {
        if contains_kind(tabs, panel) {
            return Some(panel);
        }
    }
    if tabs.len() > 0 {
        Some(tabs[0])
    } else {
        None
    }
}

/// Default tabs of the run sidebar.
pub fn default_run_sidebar_panels() -> (panels: Vec<AuxiliaryPanelKind>)
    ensures
        panels@ == seq![
            AuxiliaryPanelKind::LocalAgent,
            AuxiliaryPanelKind::RunReview,
            AuxiliaryPanelKind::Notes,
        ],
{
    let panels = vec![
        AuxiliaryPanelKind::LocalAgent,
        AuxiliaryPanelKind::RunReview,
        AuxiliaryPanelKind::Notes,
    ];
    proof {
        assert(panels@ =~= seq![
            AuxiliaryPanelKind::LocalAgent,
            AuxiliaryPanelKind::RunReview,
            AuxiliaryPanelKind::Notes,
        ]);
    }
    panels
}

/// Default tabs of the side panel.
pub fn default_side_panel_panels() -> (panels: Vec<AuxiliaryPanelKind>)
    ensures
        panels@ == seq![
            AuxiliaryPanelKind::Commands,
            AuxiliaryPanelKind::Git,
            AuxiliaryPanelKind::Files,
        ],
{
    let panels = vec![
        AuxiliaryPanelKind::Commands,
        AuxiliaryPanelKind::Git,
        AuxiliaryPanelKind::Files,
    ];
    proof {
        assert(panels@ =~= seq![
            AuxiliaryPanelKind::Commands,
            AuxiliaryPanelKind::Git,
            AuxiliaryPanelKind::Files,
        ]);
    }
    panels
}

/// Default active tab of the run sidebar.
pub fn default_run_sidebar_active_panel() -> (panel: Option<AuxiliaryPanelKind>)
    ensures
        panel == Some(AuxiliaryPanelKind::LocalAgent),
{
    Some(AuxiliaryPanelKind::LocalAgent)
}

/// Default active tab of the side panel.
pub fn default_side_panel_active_panel() -> (panel: Option<AuxiliaryPanelKind>)
    ensures
        panel == Some(AuxiliaryPanelKind::Commands),
{
    Some(AuxiliaryPanelKind::Commands)
}

impl Default for AuxiliaryPanelLayout {
    fn default() -> (layout: Self)
        ensures
            layout@.run_sidebar == seq![
                AuxiliaryPanelKind::LocalAgent,
                AuxiliaryPanelKind::RunReview,
                AuxiliaryPanelKind::Notes,
            ],
            layout@.side_panel == seq![
                AuxiliaryPanelKind::Commands,
                AuxiliaryPanelKind::Git,
                AuxiliaryPanelKind::Files,
            ],
            layout@.active_run_sidebar == Some(AuxiliaryPanelKind::LocalAgent),
            layout@.active_side_panel == Some(AuxiliaryPanelKind::Commands),
            layout@.wf(),
    {
        let layout = AuxiliaryPanelLayout {
            run_sidebar: default_run_sidebar_panels(),
            side_panel: default_side_panel_panels(),
            active_run_sidebar: default_run_sidebar_active_panel(),
            active_side_panel: default_side_panel_active_panel(),
        };
        proof {
            let all = layout.run_sidebar@ + layout.side_panel@;
            assert(all =~= all_kinds());
            assert forall|k: AuxiliaryPanelKind| all.contains(k) by {
                lemma_all_kinds_complete(k);
            }
            assert(layout.run_sidebar@[0] == AuxiliaryPanelKind::LocalAgent);
            assert(layout.side_panel@[0] == AuxiliaryPanelKind::Commands);
        }
        layout
    }
}

impl AuxiliaryPanelLayout {
    /// Rebuilds a layout so that every panel appears exactly once: duplicates
    /// are dropped (the run sidebar wins), missing panels are appended to
    /// their default host in declaration order, and each active tab falls back
    /// to the host's first tab when it is not one of the host's tabs.
    pub fn normalized(self) -> (layout: Self)
        ensures
            layout@ == normalized_view(self@),
            layout@.wf(),
    {
        let mut seen: Vec<AuxiliaryPanelKind> = Vec::new();
        let mut run_sidebar = collect_unique_panels(self.run_sidebar, &mut seen);
        let mut side_panel = collect_unique_panels(self.side_panel, &mut seen);
        let ghost run_u = run_sidebar@;
        let ghost side_u = side_panel@;
        proof {
            assert(seen@ =~= run_u + side_u);
        }
        let all = AuxiliaryPanelKind::all();
        let mut i: usize = 0;
        proof {
            assert(run_sidebar@ =~= run_u + missing_prefix(seen@, AuxiliaryPanelHost::RunSidebar, 0));
            assert(side_panel@ =~= side_u + missing_prefix(seen@, AuxiliaryPanelHost::SidePanel, 0));
        }
        while i < 6
            invariant
                i <= 6,
                all@ == all_kinds(),
                seen@ == run_u + side_u,
                run_sidebar@ == run_u + missing_prefix(seen@, AuxiliaryPanelHost::RunSidebar, i as int),
                side_panel@ == side_u + missing_prefix(seen@, AuxiliaryPanelHost::SidePanel, i as int),
            decreases 6 - i,
        {
            let panel = all[i];
            if !contains_kind(&seen, panel) {
                match panel.default_host() {
                    AuxiliaryPanelHost::RunSidebar => {
                        run_sidebar.push(panel);
                    },
                    AuxiliaryPanelHost::SidePanel => {
                        side_panel.push(panel);
                    },
                }
            }
            proof {
                assert(run_sidebar@ =~= run_u + missing_prefix(seen@, AuxiliaryPanelHost::RunSidebar, i + 1));
                assert(side_panel@ =~= side_u + missing_prefix(seen@, AuxiliaryPanelHost::SidePanel, i + 1));
            }
            i = i + 1;
        }
        let active_run_sidebar = normalize_active_panel(self.active_run_sidebar, &run_sidebar);
        let active_side_panel = normalize_active_panel(self.active_side_panel, &side_panel);
        let layout = AuxiliaryPanelLayout {
            run_sidebar,
            side_panel,
            active_run_sidebar,
            active_side_panel,
        };
        proof {
            lemma_normalized_wf(self@);
        }
        layout
    }

    /// A copy with the same tabs and active tabs.
    pub fn duplicate(&self) -> (copy: Self)
        ensures
            copy@ == self@,
    {
        AuxiliaryPanelLayout {
            run_sidebar: copy_kinds(&self.run_sidebar),
            side_panel: copy_kinds(&self.side_panel),
            active_run_sidebar: self.active_run_sidebar,
            active_side_panel: self.active_side_panel,
        }
    }

    /// Returns the ordered tabs of one host.
    pub fn tabs(&self, host: AuxiliaryPanelHost) -> (tabs: &[AuxiliaryPanelKind])
        ensures
            tabs@ == self@.tabs(host),
    {
        match host {
            AuxiliaryPanelHost::RunSidebar => self.run_sidebar.as_slice(),
            AuxiliaryPanelHost::SidePanel => self.side_panel.as_slice(),
        }
    }

    /// Returns the active tab of one host.
    pub fn active_tab(&self, host: AuxiliaryPanelHost) -> (panel: Option<AuxiliaryPanelKind>)
        ensures
            panel == self@.active(host),
    {
        match host {
            AuxiliaryPanelHost::RunSidebar => self.active_run_sidebar,
            AuxiliaryPanelHost::SidePanel => self.active_side_panel,
        }
    }

    /// Returns the host listing `panel`, looking at the run sidebar first.
    pub fn host_for_panel(&self, panel: AuxiliaryPanelKind) -> (host: Option<AuxiliaryPanelHost>)
        ensures
            host == self@.host_of(panel),
    {
        if contains_kind(&self.run_sidebar, panel) {
            return Some(AuxiliaryPanelHost::RunSidebar);
        }
        if contains_kind(&self.side_panel, panel) {
            return Some(AuxiliaryPanelHost::SidePanel);
        }
        None
    }

    /// Makes `panel` the active tab of `host`. Returns false when `host` does
    /// not list it or it is already active.
    pub fn set_active_tab(&mut self, host: AuxiliaryPanelHost, panel: AuxiliaryPanelKind) -> (changed: bool)
        ensures
            changed == (old(self)@.tabs(host).contains(panel) && old(self)@.active(host) != Some(
                panel,
            )),
            final(self)@ == if changed {
                old(self)@.with_active(host, Some(panel))
            } else {
                old(self)@
            },
            old(self)@.wf() ==> final(self)@.wf(),
    {
        let listed = match host {
            AuxiliaryPanelHost::RunSidebar => contains_kind(&self.run_sidebar, panel),
            AuxiliaryPanelHost::SidePanel => contains_kind(&self.side_panel, panel),
        };
        if !listed {
            return false;
        }
        match host {
            AuxiliaryPanelHost::RunSidebar => {
                if self.active_run_sidebar == Some(panel) {
                    return false;
                }
                self.active_run_sidebar = Some(panel);
            },
            AuxiliaryPanelHost::SidePanel => {
                if self.active_side_panel == Some(panel) {
                    return false;
                }
                self.active_side_panel = Some(panel);
            },
        }
        true
    }

    fn tabs_mut(&mut self, host: AuxiliaryPanelHost) -> (tabs: &mut Vec<AuxiliaryPanelKind>)
        ensures
            *tabs == match host {
                AuxiliaryPanelHost::RunSidebar => old(self).run_sidebar,
                AuxiliaryPanelHost::SidePanel => old(self).side_panel,
            },
            *final(self) == match host {
                AuxiliaryPanelHost::RunSidebar => AuxiliaryPanelLayout {
                    run_sidebar: *final(tabs),
                    ..*old(self)
                },
                AuxiliaryPanelHost::SidePanel => AuxiliaryPanelLayout {
                    side_panel: *final(tabs),
                    ..*old(self)
                },
            },
    {
        match host {
            AuxiliaryPanelHost::RunSidebar => &mut self.run_sidebar,
            AuxiliaryPanelHost::SidePanel => &mut self.side_panel,
        }
    }

    fn remove_panel(&mut self, panel: AuxiliaryPanelKind, host: AuxiliaryPanelHost) -> (removed: bool)
        ensures
            removed == old(self)@.tabs(host).contains(panel),
            final(self)@ == old(self)@.with_tabs(host, without(old(self)@.tabs(host), panel)),
    {
        let tabs = self.tabs_mut(host);
        let idx = match position_of(tabs, panel) {
            Some(idx) => idx,
            None => return false,
        };
        proof {
            lemma_index_of(tabs@, panel);
        }
        tabs.remove(idx);
        true
    }

    fn set_active_for_host(&mut self, host: AuxiliaryPanelHost, panel: Option<AuxiliaryPanelKind>)
        ensures
            final(self)@ == old(self)@.with_active(host, panel),
    {
        match host {
            AuxiliaryPanelHost::RunSidebar => self.active_run_sidebar = panel,
            AuxiliaryPanelHost::SidePanel => self.active_side_panel = panel,
        }
    }

    fn set_active_for_host_after_removal(&mut self, host: AuxiliaryPanelHost)
        ensures
            final(self)@ == old(self)@.with_active(host, first_of(old(self)@.tabs(host))),
    {
        let next_active = {
            let tabs = self.tabs(host);
            if tabs.len() > 0 {
                Some(tabs[0])
            } else {
                None
            }
        };
        self.set_active_for_host(host, next_active);
    }

    /// Moves `source` in front of `target`, into `target`'s host. When the
    /// host changes, the old host activates its first remaining tab and the
    /// new host activates `source`. Returns false when the two are the same
    /// or either is not placed.
    pub fn move_panel_before(&mut self, source: AuxiliaryPanelKind, target: AuxiliaryPanelKind) -> (moved: bool)
        ensures
            moved == (source != target && old(self)@.host_of(source) is Some
                && old(self)@.host_of(target) is Some),
            moved ==> final(self)@ == panel_moved_before(old(self)@, source, target),
            !moved ==> final(self)@ == old(self)@,
            old(self)@.wf() ==> final(self)@.wf(),
    {
        if source == target {
            return false;
        }
        let source_host = match self.host_for_panel(source) {
            Some(h) => h,
            None => return false,
        };
        let target_host = match self.host_for_panel(target) {
            Some(h) => h,
            None => return false,
        };
        let ghost v0 = self@;
        self.remove_panel(source, source_host);
        proof {
            lemma_target_survives(v0, source, target, source_host, target_host);
        }
        if !self.insert_panel_before(target_host, source, target) {
            return false;
        }
        if source_host != target_host {
            self.set_active_for_host_after_removal(source_host);
            self.set_active_for_host(target_host, Some(source));
        }
        proof {
            lemma_move_before_wf(v0, source, target, source_host, target_host);
        }
        true
    }

    fn insert_panel_before(&mut self, host: AuxiliaryPanelHost, source: AuxiliaryPanelKind, target: AuxiliaryPanelKind) -> (inserted: bool)
        ensures
            inserted == old(self)@.tabs(host).contains(target),
            final(self)@ == if inserted {
                old(self)@.with_tabs(
                    host,
                    old(self)@.tabs(host).insert(index_of(old(self)@.tabs(host), target), source),
                )
            } else {
                old(self)@
            },
    {
        let tabs = self.tabs_mut(host);
        let idx = match position_of(tabs, target) {
            Some(i) => i,
            None => return false,
        };
        proof {
            lemma_index_of(tabs@, target);
        }
        tabs.insert(idx, source);
        true
    }

    /// Moves `panel` to the end of `destination_host`. When the host changes,
    /// the old host activates its first remaining tab and the destination
    /// activates `panel`. Returns false when the panel is not placed or is
    /// already last in the destination.
    pub fn move_panel_to_host_end(&mut self, panel: AuxiliaryPanelKind, destination_host: AuxiliaryPanelHost) -> (moved: bool)
        ensures
            moved == (old(self)@.host_of(panel) is Some && !(old(self)@.host_of(panel)
                == Some(destination_host) && old(self)@.tabs(destination_host).len() > 0
                && old(self)@.tabs(destination_host).last() == panel)),
            moved ==> final(self)@ == panel_moved_to_end(old(self)@, panel, destination_host),
            !moved ==> final(self)@ == old(self)@,
            old(self)@.wf() ==> final(self)@.wf(),
    {
        let source_host = match self.host_for_panel(panel) {
            Some(h) => h,
            None => return false,
        };
        let already_last = source_host == destination_host && {
            let tabs = self.tabs(destination_host);
            tabs.len() > 0 && tabs[tabs.len() - 1] == panel
        };
        if already_last {
            return false;
        }
        let ghost v0 = self@;
        self.remove_panel(panel, source_host);
        self.tabs_mut(destination_host).push(panel);
        if source_host != destination_host {
            self.set_active_for_host_after_removal(source_host);
            self.set_active_for_host(destination_host, Some(panel));
        }
        proof {
            lemma_move_to_end_wf(v0, panel, source_host, destination_host);
        }
        true
    }
}

proof fn lemma_without(s: Seq<AuxiliaryPanelKind>, x: AuxiliaryPanelKind)
    requires
        no_duplicates(s),
    ensures
        no_duplicates(without(s, x)),
        forall|k: AuxiliaryPanelKind| without(s, x).contains(k) <==> (s.contains(k) && k != x),
        s.contains(x) ==> without(s, x).len() == s.len() - 1,
{
    lemma_index_of(s, x);
    if s.contains(x) {
        let i = index_of(s, x);
        let r = s.remove(i);
        assert forall|k: AuxiliaryPanelKind| r.contains(k) <==> (s.contains(k) && k != x) by {
            if r.contains(k) {
                let j = choose|j: int| 0 <= j < r.len() && r[j] == k;
                if j < i {
                    assert(s[j] == k);
                    assert(s.contains(k));
                } else {
                    assert(s[j + 1] == k);
                    assert(s.contains(k));
                }
            }
            if s.contains(k) && k != x {
                let j = choose|j: int| 0 <= j < s.len() && s[j] == k;
                if j < i {
                    assert(r[j] == k);
                } else {
                    assert(j != i);
                    assert(r[j - 1] == k);
                }
            }
        }
        assert forall|a: int, b: int| 0 <= a < b < r.len() implies r[a] != r[b] by {
            let sa = if a < i { a } else { a + 1 };
            let sb = if b < i { b } else { b + 1 };
            assert(r[a] == s[sa]);
            assert(r[b] == s[sb]);
        }
    }
}

proof fn lemma_insert_seq(s: Seq<AuxiliaryPanelKind>, i: int, x: AuxiliaryPanelKind)
    requires
        0 <= i <= s.len(),
        no_duplicates(s),
        !s.contains(x),
    ensures
        no_duplicates(s.insert(i, x)),
        forall|k: AuxiliaryPanelKind| s.insert(i, x).contains(k) <==> (s.contains(k) || k == x),
{
    let r = s.insert(i, x);
    assert forall|k: AuxiliaryPanelKind| r.contains(k) <==> (s.contains(k) || k == x) by {
        if r.contains(k) {
            let j = choose|j: int| 0 <= j < r.len() && r[j] == k;
            if j < i {
                assert(s[j] == k);
            } else if j > i {
                assert(s[j - 1] == k);
            }
        }
        if s.contains(k) {
            let j = choose|j: int| 0 <= j < s.len() && s[j] == k;
            if j < i {
                assert(r[j] == k);
            } else {
                assert(r[j + 1] == k);
            }
        }
        if k == x {
            assert(r[i] == k);
        }
    }
    assert forall|a: int, b: int| 0 <= a < b < r.len() implies r[a] != r[b] by {
        if a == i {
            assert(s.contains(r[b]));
        } else if b == i {
            assert(s.contains(r[a]));
        } else {
            let sa = if a < i { a } else { a - 1 };
            let sb = if b < i { b } else { b - 1 };
            assert(r[a] == s[sa]);
            assert(r[b] == s[sb]);
        }
    }
}

proof fn lemma_wf_parts(v: PanelLayoutView)
    requires
        v.wf(),
    ensures
        no_duplicates(v.run_sidebar),
        no_duplicates(v.side_panel),
        forall|k: AuxiliaryPanelKind| v.run_sidebar.contains(k) ==> !v.side_panel.contains(k),
        forall|k: AuxiliaryPanelKind| v.run_sidebar.contains(k) || v.side_panel.contains(k),
{
    let a = v.run_sidebar;
    let b = v.side_panel;
    lemma_concat_contains(a, b);
    assert forall|i: int, j: int| 0 <= i < j < a.len() implies a[i] != a[j] by {
        assert((a + b)[i] == a[i]);
        assert((a + b)[j] == a[j]);
    }
    assert forall|i: int, j: int| 0 <= i < j < b.len() implies b[i] != b[j] by {
        assert((a + b)[a.len() + i] == b[i]);
        assert((a + b)[a.len() + j] == b[j]);
    }
    assert forall|k: AuxiliaryPanelKind| a.contains(k) || b.contains(k) by {
        assert((a + b).contains(k));
    }
    assert forall|k: AuxiliaryPanelKind| a.contains(k) implies !b.contains(k) by {
        if b.contains(k) {
            let i = choose|i: int| 0 <= i < a.len() && a[i] == k;
            let j = choose|j: int| 0 <= j < b.len() && b[j] == k;
            assert((a + b)[i] == (a + b)[a.len() + j]);
        }
    }
}

proof fn lemma_wf_from_parts(v: PanelLayoutView)
    requires
        no_duplicates(v.run_sidebar),
        no_duplicates(v.side_panel),
        forall|k: AuxiliaryPanelKind| v.run_sidebar.contains(k) ==> !v.side_panel.contains(k),
        forall|k: AuxiliaryPanelKind| v.run_sidebar.contains(k) || v.side_panel.contains(k),
        active_fits(v.active_run_sidebar, v.run_sidebar),
        active_fits(v.active_side_panel, v.side_panel),
    ensures
        v.wf(),
{
    lemma_concat_contains(v.run_sidebar, v.side_panel);
    lemma_concat_no_duplicates(v.run_sidebar, v.side_panel);
    assert forall|k: AuxiliaryPanelKind| (v.run_sidebar + v.side_panel).contains(k) by {
        assert(v.run_sidebar.contains(k) || v.side_panel.contains(k));
    }
}

proof fn lemma_first_of_fits(s: Seq<AuxiliaryPanelKind>)
    ensures
        active_fits(first_of(s), s),
{
    if s.len() > 0 {
        assert(s.contains(s[0]));
    }
}

/// Placement of every panel after `x` alone moves to host `hx`.
/// Layout after moving `source` before `target`: taken out of its host and
/// put before `target`; when the host changes, the old host activates its
/// first remaining tab and the target's host activates `source`.
/// A copy of `kinds`.
fn copy_kinds(kinds: &Vec<AuxiliaryPanelKind>) -> (copy: Vec<AuxiliaryPanelKind>)
    ensures
        copy@ == kinds@,
{
    let mut copy: Vec<AuxiliaryPanelKind> = Vec::new();
    let mut i: usize = 0;
    while i < kinds.len()
        invariant
            i <= kinds@.len(),
            copy@ == kinds@.take(i as int),
        decreases kinds.len() - i,
    {
        copy.push(kinds[i]);
        proof {
            assert(copy@ =~= kinds@.take(i + 1));
        }
        i = i + 1;
    }
    proof {
        assert(copy@ =~= kinds@);
    }
    copy
}

pub open spec fn panel_moved_before(v: PanelLayoutView, source: AuxiliaryPanelKind, target: AuxiliaryPanelKind) -> PanelLayoutView {
    let sh = v.host_of(source)->0;
    let th = v.host_of(target)->0;
    let removed = v.with_tabs(sh, without(v.tabs(sh), source));
    let tt = removed.tabs(th);
    let inserted = removed.with_tabs(th, tt.insert(index_of(tt, target), source));
    if sh != th {
        inserted.with_active(sh, first_of(inserted.tabs(sh))).with_active(th, Some(source))
    } else {
        inserted
    }
}

/// Layout after moving `panel` to the end of `host`; when the host changes,
/// the old host activates its first remaining tab and `host` activates
/// `panel`.
pub open spec fn panel_moved_to_end(v: PanelLayoutView, panel: AuxiliaryPanelKind, host: AuxiliaryPanelHost) -> PanelLayoutView {
    let sh = v.host_of(panel)->0;
    let removed = v.with_tabs(sh, without(v.tabs(sh), panel));
    let pushed = removed.with_tabs(host, removed.tabs(host).push(panel));
    if sh != host {
        pushed.with_active(sh, first_of(pushed.tabs(sh))).with_active(host, Some(panel))
    } else {
        pushed
    }
}

pub open spec fn placed_as(v: PanelLayoutView, r: PanelLayoutView, x: AuxiliaryPanelKind, hx: AuxiliaryPanelHost) -> bool {
    forall|h: AuxiliaryPanelHost, k: AuxiliaryPanelKind|
        #![trigger r.tabs(h).contains(k)]
        r.tabs(h).contains(k) <==> if k == x {
            h == hx
        } else {
            v.tabs(h).contains(k)
        }
}

proof fn lemma_placed_parts(v: PanelLayoutView, r: PanelLayoutView, x: AuxiliaryPanelKind, hx: AuxiliaryPanelHost)
    requires
        v.wf(),
        placed_as(v, r, x, hx),
    ensures
        forall|k: AuxiliaryPanelKind| r.run_sidebar.contains(k) ==> !r.side_panel.contains(k),
        forall|k: AuxiliaryPanelKind| r.run_sidebar.contains(k) || r.side_panel.contains(k),
{
    lemma_wf_parts(v);
    assert forall|k: AuxiliaryPanelKind| r.run_sidebar.contains(k) implies !r.side_panel.contains(k) by {
        assert(r.tabs(AuxiliaryPanelHost::RunSidebar).contains(k));
        assert(r.tabs(AuxiliaryPanelHost::SidePanel).contains(k) == r.side_panel.contains(k));
    }
    assert forall|k: AuxiliaryPanelKind| r.run_sidebar.contains(k) || r.side_panel.contains(k) by {
        assert(r.tabs(AuxiliaryPanelHost::RunSidebar).contains(k) == r.run_sidebar.contains(k));
        assert(r.tabs(AuxiliaryPanelHost::SidePanel).contains(k) == r.side_panel.contains(k));
    }
}

proof fn lemma_target_survives(
    v: PanelLayoutView,
    source: AuxiliaryPanelKind,
    target: AuxiliaryPanelKind,
    sh: AuxiliaryPanelHost,
    th: AuxiliaryPanelHost,
)
    requires
        source != target,
        v.host_of(source) == Some(sh),
        v.host_of(target) == Some(th),
    ensures
        v.with_tabs(sh, without(v.tabs(sh), source)).tabs(th).contains(target),
{
    let s = v.tabs(sh);
    lemma_index_of(s, source);
    let r = without(s, source);
    if sh == th {
        let j = choose|j: int| 0 <= j < s.len() && s[j] == target;
        let i = index_of(s, source);
        if j < i {
            assert(r[j] == target);
        } else {
            assert(r[j - 1] == target);
        }
    }
}

proof fn lemma_removed_contains(v: PanelLayoutView, x: AuxiliaryPanelKind, sh: AuxiliaryPanelHost)
    requires
        v.wf(),
        v.host_of(x) == Some(sh),
    ensures
        ({
            let removed = v.with_tabs(sh, without(v.tabs(sh), x));
            &&& forall|h: AuxiliaryPanelHost, k: AuxiliaryPanelKind|
                #![trigger removed.tabs(h).contains(k)]
                removed.tabs(h).contains(k) <==> (v.tabs(h).contains(k) && k != x)
            &&& forall|h: AuxiliaryPanelHost| no_duplicates(#[trigger] removed.tabs(h))
        }),
{
    lemma_wf_parts(v);
    lemma_without(v.tabs(sh), x);
    let removed = v.with_tabs(sh, without(v.tabs(sh), x));
    assert forall|h: AuxiliaryPanelHost, k: AuxiliaryPanelKind|
        #![trigger removed.tabs(h).contains(k)]
        removed.tabs(h).contains(k) <==> (v.tabs(h).contains(k) && k != x) by {
        if h != sh && k == x && v.tabs(h).contains(k) {
            assert(v.run_sidebar.contains(x) && v.side_panel.contains(x));
        }
    }
}

proof fn lemma_move_before_wf(
    v: PanelLayoutView,
    source: AuxiliaryPanelKind,
    target: AuxiliaryPanelKind,
    sh: AuxiliaryPanelHost,
    th: AuxiliaryPanelHost,
)
    requires
        source != target,
        v.host_of(source) == Some(sh),
        v.host_of(target) == Some(th),
    ensures
        v.wf() ==> ({
            let removed = v.with_tabs(sh, without(v.tabs(sh), source));
            let tt = removed.tabs(th);
            let inserted = removed.with_tabs(th, tt.insert(index_of(tt, target), source));
            let result = if sh != th {
                inserted.with_active(sh, first_of(inserted.tabs(sh))).with_active(th, Some(source))
            } else {
                inserted
            };
            result.wf()
        }),
{
    if v.wf() {
        lemma_wf_parts(v);
        lemma_target_survives(v, source, target, sh, th);
        lemma_removed_contains(v, source, sh);
        let removed = v.with_tabs(sh, without(v.tabs(sh), source));
        let tt = removed.tabs(th);
        lemma_index_of(tt, target);
        assert(no_duplicates(tt));
        assert(!tt.contains(source));
        lemma_insert_seq(tt, index_of(tt, target), source);
        let inserted = removed.with_tabs(th, tt.insert(index_of(tt, target), source));
        let result = if sh != th {
            inserted.with_active(sh, first_of(inserted.tabs(sh))).with_active(th, Some(source))
        } else {
            inserted
        };
        assert(forall|h: AuxiliaryPanelHost| result.tabs(h) == inserted.tabs(h));
        assert forall|h: AuxiliaryPanelHost, k: AuxiliaryPanelKind|
            #![trigger result.tabs(h).contains(k)]
            result.tabs(h).contains(k) <==> if k == source {
                h == th
            } else {
                v.tabs(h).contains(k)
            } by {
            assert(removed.tabs(h).contains(k) <==> (v.tabs(h).contains(k) && k != source));
        }
        lemma_placed_parts(v, result, source, th);
        assert(no_duplicates(result.run_sidebar) && no_duplicates(result.side_panel)) by {
            assert(no_duplicates(removed.tabs(AuxiliaryPanelHost::RunSidebar)));
            assert(no_duplicates(removed.tabs(AuxiliaryPanelHost::SidePanel)));
        }
        lemma_first_of_fits(inserted.tabs(sh));
        assert(result.tabs(th).contains(source));
        if sh == th {
            let a = v.active(sh);
            if a is Some {
                let p = a->0;
                assert(v.tabs(sh).contains(p));
                assert(result.tabs(sh).contains(p));
            } else {
                assert(v.tabs(sh).contains(source));
            }
            let o = if sh == AuxiliaryPanelHost::RunSidebar {
                AuxiliaryPanelHost::SidePanel
            } else {
                AuxiliaryPanelHost::RunSidebar
            };
            assert(result.tabs(o) == v.tabs(o));
        }
        assert(active_fits(result.active_run_sidebar, result.run_sidebar));
        assert(active_fits(result.active_side_panel, result.side_panel));
        lemma_wf_from_parts(result);
    }
}

proof fn lemma_move_to_end_wf(
    v: PanelLayoutView,
    panel: AuxiliaryPanelKind,
    sh: AuxiliaryPanelHost,
    dh: AuxiliaryPanelHost,
)
    requires
        v.host_of(panel) == Some(sh),
    ensures
        v.wf() ==> ({
            let removed = v.with_tabs(sh, without(v.tabs(sh), panel));
            let pushed = removed.with_tabs(dh, removed.tabs(dh).push(panel));
            let result = if sh != dh {
                pushed.with_active(sh, first_of(pushed.tabs(sh))).with_active(dh, Some(panel))
            } else {
                pushed
            };
            result.wf()
        }),
{
    if v.wf() {
        lemma_wf_parts(v);
        lemma_removed_contains(v, panel, sh);
        let removed = v.with_tabs(sh, without(v.tabs(sh), panel));
        let dt = removed.tabs(dh);
        assert(no_duplicates(dt));
        assert(!dt.contains(panel));
        lemma_insert_seq(dt, dt.len() as int, panel);
        assert(dt.insert(dt.len() as int, panel) =~= dt.push(panel));
        let pushed = removed.with_tabs(dh, dt.push(panel));
        let result = if sh != dh {
            pushed.with_active(sh, first_of(pushed.tabs(sh))).with_active(dh, Some(panel))
        } else {
            pushed
        };
        assert(forall|h: AuxiliaryPanelHost| result.tabs(h) == pushed.tabs(h));
        assert forall|h: AuxiliaryPanelHost, k: AuxiliaryPanelKind|
            #![trigger result.tabs(h).contains(k)]
            result.tabs(h).contains(k) <==> if k == panel {
                h == dh
            } else {
                v.tabs(h).contains(k)
            } by {
            assert(removed.tabs(h).contains(k) <==> (v.tabs(h).contains(k) && k != panel));
        }
        lemma_placed_parts(v, result, panel, dh);
        assert(no_duplicates(result.run_sidebar) && no_duplicates(result.side_panel)) by {
            assert(no_duplicates(removed.tabs(AuxiliaryPanelHost::RunSidebar)));
            assert(no_duplicates(removed.tabs(AuxiliaryPanelHost::SidePanel)));
        }
        lemma_first_of_fits(pushed.tabs(sh));
        assert(result.tabs(dh).contains(panel));
        if sh == dh {
            let a = v.active(sh);
            if a is Some {
                let p = a->0;
                assert(v.tabs(sh).contains(p));
                assert(result.tabs(sh).contains(p));
            } else {
                assert(v.tabs(sh).contains(panel));
            }
            let o = if sh == AuxiliaryPanelHost::RunSidebar {
                AuxiliaryPanelHost::SidePanel
            } else {
                AuxiliaryPanelHost::RunSidebar
            };
            assert(result.tabs(o) == v.tabs(o));
        }
        assert(active_fits(result.active_run_sidebar, result.run_sidebar));
        assert(active_fits(result.active_side_panel, result.side_panel));
        lemma_wf_from_parts(result);
    }
}

} // verus!
