//! The auto-index daemon: what it is set to, what it says of itself, and how it goes through the
//! projects to bring their indexes up to date.

use vstd::prelude::*;

use crate::json::{views, JsonObject, JsonValue, JsonView};
use crate::text::{optional_text, texts};
use crate::types::{AutoIndexStatus, StatusView};
use crate::util::{text_array, text_array_view};

verus! {

// ---------------------------------------------------------------------------
// Settings and status
// ---------------------------------------------------------------------------

/// What the daemon is set to.
#[derive(Debug, Clone)]
pub struct AutoIndexConfig {
    pub enabled: bool,
    pub poll_interval_seconds: u64,
    pub debounce_seconds: u64,
    pub cooldown_seconds: u64,
    pub mode: String,
}

/// What the settings hold.
#[verifier::ext_equal]
pub struct ConfigView {
    pub enabled: bool,
    pub poll_interval_seconds: u64,
    pub debounce_seconds: u64,
    pub cooldown_seconds: u64,
    pub mode: Seq<char>,
}

impl View for AutoIndexConfig {
    type V = ConfigView;

    open spec fn view(&self) -> ConfigView {
        ConfigView {
            enabled: self.enabled,
            poll_interval_seconds: self.poll_interval_seconds,
            debounce_seconds: self.debounce_seconds,
            cooldown_seconds: self.cooldown_seconds,
            mode: self.mode@,
        }
    }
}

impl Default for AutoIndexConfig {
    fn default() -> (config: AutoIndexConfig)
        ensures
            config@ == (ConfigView {
                enabled: true,
                poll_interval_seconds: 2,
                debounce_seconds: 3,
                cooldown_seconds: 10,
                mode: "fast"@,
            }),
    {
        AutoIndexConfig {
            enabled: true,
            poll_interval_seconds: 2,
            debounce_seconds: 3,
            cooldown_seconds: 10,
            mode: "fast".to_owned(),
        }
    }
}

/// The daemon: its settings, whether it runs, how many projects wait to be indexed, and what
/// went wrong last.
#[derive(Debug)]
pub struct AutoIndexDaemon {
    pub config: AutoIndexConfig,
    pub running: bool,
    pub queued: usize,
    pub last_error: Option<String>,
}

/// What the daemon is.
#[verifier::ext_equal]
pub struct DaemonView {
    pub config: ConfigView,
    pub running: bool,
    pub queued: usize,
    pub last_error: Option<Seq<char>>,
}

impl View for AutoIndexDaemon {
    type V = DaemonView;

    open spec fn view(&self) -> DaemonView {
        DaemonView {
            config: self.config@,
            running: self.running,
            queued: self.queued,
            last_error: optional_text(self.last_error),
        }
    }
}

impl AutoIndexDaemon {
    /// A daemon that does not run yet.
    pub fn new(config: AutoIndexConfig) -> (daemon: AutoIndexDaemon)
        ensures
            daemon@ == (DaemonView {
                config: config@,
                running: false,
                queued: 0,
                last_error: None,
            }),
    {
        AutoIndexDaemon { config, running: false, queued: 0, last_error: None }
    }

    /// The daemon runs from now on.
    pub fn start(&mut self)
        ensures
            final(self)@ == (DaemonView { running: true, ..old(self)@ }),
    {
        self.running = true;
    }

    /// The status with a number of projects and an error. No project is named as being
    /// indexed.
    pub fn status_snapshot(&self, tracked_projects: usize, last_error: Option<String>) -> (status:
        AutoIndexStatus)
        ensures
            status@ == (StatusView {
                enabled: self.config.enabled,
                running: self.running,
                tracked_projects: tracked_projects as int,
                queued_projects: self.queued as int,
                indexing_projects: Seq::empty(),
                last_error: optional_text(last_error),
            }),
    {
        let none: Vec<String> = Vec::new();
        assert(texts(none@) =~= Seq::empty());
        AutoIndexStatus {
            enabled: self.config.enabled,
            running: self.running,
            tracked_projects,
            queued_projects: self.queued,
            indexing_projects: none,
            last_error,
        }
    }

    /// The status without a look at the projects.
    pub fn status(&self) -> (status: AutoIndexStatus)
        ensures
            status@ == (StatusView {
                enabled: self.config.enabled,
                running: self.running,
                tracked_projects: 0,
                queued_projects: self.queued as int,
                indexing_projects: Seq::empty(),
                last_error: None,
            }),
    {
        self.status_snapshot(0, None)
    }

    /// The status with the projects that a listing names, where there is one, and with what
    /// went wrong last.
    pub fn status_live(&self, listing: Option<&JsonValue>) -> (status: AutoIndexStatus)
        ensures
            status@ == (StatusView {
                enabled: self.config.enabled,
                running: self.running,
                tracked_projects: match listing {
                    Some(v) => listed_projects(v@).len() as int,
                    None => 0,
                },
                queued_projects: self.queued as int,
                indexing_projects: Seq::empty(),
                last_error: self@.last_error,
            }),
    {
        let error = match &self.last_error {
            Some(e) => Some(e.clone()),
            None => None,
        };
        self.status_snapshot(tracked_projects(listing), error)
    }
}

/// The projects in a listing.
pub open spec fn listed_projects(listing: JsonView) -> Seq<JsonView> {
    match listing.items_at("projects"@) {
        Some(projects) => projects,
        None => Seq::empty(),
    }
}

/// How many projects a listing names, none where there is no listing.
pub fn tracked_projects(listing: Option<&JsonValue>) -> (count: usize)
    ensures
        count == match listing {
            Some(v) => listed_projects(v@).len(),
            None => 0,
        },
{
    if let Some(value) = listing {
        if let Some(found) = value.get("projects") {
            if let Some(projects) = found.as_array() {
                assert(views(projects@).len() == projects@.len());
                return projects.len();
            }
        }
    }
    0
}

/// The answer to a health check.
pub fn healthz() -> (answer: JsonValue)
    ensures
        answer@ == JsonView::Object(map!["status"@ => JsonView::Text("ok"@)]),
{
    JsonObject::new().put("status", JsonValue::text("ok")).value()
}

/// What can be wanted of a plan.
pub fn profiles() -> (answer: JsonValue)
    ensures
        answer@ == JsonView::Object(
            map![
                "profiles"@ => text_array_view(
                    seq!["bug_investigation"@, "find_definition"@, "trace_impact"@],
                ),
            ],
        ),
{
    let mut names: Vec<String> = Vec::new();
    names.push("bug_investigation".to_owned());
    names.push("find_definition".to_owned());
    names.push("trace_impact".to_owned());
    assert(texts(names@) =~= seq!["bug_investigation"@, "find_definition"@, "trace_impact"@]);
    JsonObject::new().put("profiles", text_array(&names)).value()
}

// ---------------------------------------------------------------------------
// Refreshing
// ---------------------------------------------------------------------------

/// A project that is looked at: its name and, where it is known, its root.
#[derive(Debug)]
pub struct RefreshTarget {
    pub name: String,
    pub root: Option<String>,
}

/// What a project that is looked at is.
#[verifier::ext_equal]
pub struct TargetView {
    pub name: Seq<char>,
    pub root: Option<Seq<char>>,
}

impl View for RefreshTarget {
    type V = TargetView;

    open spec fn view(&self) -> TargetView {
        TargetView { name: self.name@, root: optional_text(self.root) }
    }
}

/// What the projects in a sequence are.
pub open spec fn target_views(targets: Seq<RefreshTarget>) -> Seq<TargetView> {
    targets.map_values(|t: RefreshTarget| t@)
}

/// The projects of a listing that are looked at: those with a name, in their order.
pub open spec fn targets_in(projects: Seq<JsonView>) -> Seq<TargetView>
    decreases projects.len(),
{
    if projects.len() == 0 {
        Seq::empty()
    } else {
        let earlier = targets_in(projects.drop_last());
        let project = projects.last();
        match project.text_at("project"@) {
            Some(name) => earlier.push(
                TargetView { name, root: project.text_at("root_path"@) },
            ),
            None => earlier,
        }
    }
}

/// The projects of a listing that are looked at: those with a name, in their order.
pub fn refresh_targets(listing: &JsonValue) -> (targets: Vec<RefreshTarget>)
    ensures
        target_views(targets@) == targets_in(listed_projects(listing@)),
{
    let mut targets: Vec<RefreshTarget> = Vec::new();
    assert(target_views(targets@) =~= Seq::empty());
    if let Some(found) = listing.get("projects") {
        if let Some(projects) = found.as_array() {
            let ghost held = views(projects@);
            let mut i: usize = 0;
            assert(held.take(0) =~= Seq::empty());
            while i < projects.len()
                invariant
                    i <= projects@.len(),
                    held == views(projects@),
                    target_views(targets@) == targets_in(held.take(i as int)),
                decreases projects.len() - i,
            {
                let project = &projects[i];
                let ghost done = targets@;
                assert(held.take(i + 1).drop_last() =~= held.take(i as int));
                assert(held.take(i + 1).last() == project@);
                if let Some(named) = project.get("project") {
                    if let Some(name) = named.as_str() {
                        let root = match project.get("root_path") {
                            Some(v) => match v.as_str() {
                                Some(path) => Some(path.to_owned()),
                                None => None,
                            },
                            None => None,
                        };
                        let target = RefreshTarget { name: name.to_owned(), root };
                        targets.push(target);
                        assert(target_views(targets@) =~= target_views(done).push(target@));
                    }
                }
                i = i + 1;
            }
            assert(held.take(i as int) =~= held);
        }
    }
    targets
}

/// Whether a change report counts changes.
pub open spec fn has_changes(report: JsonView) -> bool {
    match report.uint_at("changed_count"@) {
        Some(count) => count > 0,
        None => false,
    }
}

/// Whether a change report counts changes.
pub fn needs_refresh(report: &JsonValue) -> (answer: bool)
    ensures
        answer == has_changes(report@),
{
    match report.get("changed_count") {
        Some(v) => match v.as_u64() {
            Some(count) => count > 0,
            None => false,
        },
        None => false,
    }
}

/// What is done next in going through the projects.
#[derive(Debug, PartialEq, Eq)]
pub enum RefreshAction {
    /// Compare the index of that project with its files.
    Compare(String),
    /// Wait that many seconds.
    Wait(u64),
    /// See whether that path is there.
    Look(String),
    /// Index that path, in that mode.
    Reindex(String, String),
    /// Nothing is left to do.
    Finish,
    /// Stop with that error.
    Fail(String),
}

/// What an action is.
pub enum ActionView {
    Compare(Seq<char>),
    Wait(u64),
    Look(Seq<char>),
    Reindex(Seq<char>, Seq<char>),
    Finish,
    Fail(Seq<char>),
}

impl View for RefreshAction {
    type V = ActionView;

    open spec fn view(&self) -> ActionView {
        match self {
            RefreshAction::Compare(name) => ActionView::Compare(name@),
            RefreshAction::Wait(seconds) => ActionView::Wait(*seconds),
            RefreshAction::Look(root) => ActionView::Look(root@),
            RefreshAction::Reindex(root, mode) => ActionView::Reindex(root@, mode@),
            RefreshAction::Finish => ActionView::Finish,
            RefreshAction::Fail(e) => ActionView::Fail(e@),
        }
    }
}

/// What came of an action.
pub enum RefreshEvent {
    /// The report of a comparison, or why there is none.
    Compared(Result<JsonValue, String>),
    /// The wait is over.
    Waited,
    /// Whether the path is there.
    Looked(bool),
    /// The path was indexed, or why it was not.
    Reindexed(Result<(), String>),
}

/// What an event is.
pub enum EventView {
    Compared(Result<JsonView, Seq<char>>),
    Waited,
    Looked(bool),
    Reindexed(Result<(), Seq<char>>),
}

impl View for RefreshEvent {
    type V = EventView;

    open spec fn view(&self) -> EventView {
        match self {
            RefreshEvent::Compared(Ok(report)) => EventView::Compared(Ok(report@)),
            RefreshEvent::Compared(Err(e)) => EventView::Compared(Err(e@)),
            RefreshEvent::Waited => EventView::Waited,
            RefreshEvent::Looked(there) => EventView::Looked(*there),
            RefreshEvent::Reindexed(Ok(_)) => EventView::Reindexed(Ok(())),
            RefreshEvent::Reindexed(Err(e)) => EventView::Reindexed(Err(e@)),
        }
    }
}

/// How far the daemon has gone through the projects: the ones to look at, and which is next.
#[derive(Debug)]
pub struct Refresh {
    pub targets: Vec<RefreshTarget>,
    pub next: usize,
}

impl Refresh {
    /// Whether the place is one of a project or the end.
    pub open spec fn wf(&self) -> bool {
        self.next <= self.targets@.len()
    }
}

/// Where a pass through the projects stands.
#[verifier::ext_equal]
pub struct RefreshView {
    pub targets: Seq<TargetView>,
    pub next: int,
}

impl View for Refresh {
    type V = RefreshView;

    open spec fn view(&self) -> RefreshView {
        RefreshView { targets: target_views(self.targets@), next: self.next as int }
    }
}

impl RefreshView {
    /// What is done at this place: the project there is compared, or nothing is left.
    pub open spec fn here(self) -> ActionView {
        if self.next < self.targets.len() {
            ActionView::Compare(self.targets[self.next].name)
        } else {
            ActionView::Finish
        }
    }

    /// The place after the project here.
    pub open spec fn onward(self) -> RefreshView {
        RefreshView {
            next: if self.next < self.targets.len() {
                self.next + 1
            } else {
                self.next
            },
            ..self
        }
    }

    /// The root of the project here.
    pub open spec fn root_here(self) -> Option<Seq<char>> {
        if self.next < self.targets.len() {
            self.targets[self.next].root
        } else {
            None
        }
    }
}

/// What follows an event: where the pass stands then, how many projects wait then, and what is
/// done next. A project with changes waits from the comparison until it is done with; one whose
/// root is not known or not there is not indexed. An error ends the pass.
pub open spec fn after_event(
    place: RefreshView,
    queued: usize,
    event: EventView,
    config: ConfigView,
) -> (RefreshView, usize, ActionView) {
    let done = (place.onward(), wrapping_less(queued), place.onward().here());
    match event {
        EventView::Compared(Ok(report)) => if has_changes(report) {
            (place, wrapping_more(queued), ActionView::Wait(config.debounce_seconds))
        } else {
            (place.onward(), queued, place.onward().here())
        },
        EventView::Compared(Err(e)) => (place, queued, ActionView::Fail(e)),
        EventView::Waited => match place.root_here() {
            Some(root) => (place, queued, ActionView::Look(root)),
            None => done,
        },
        EventView::Looked(there) => match place.root_here() {
            Some(root) => if there {
                (place, queued, ActionView::Reindex(root, config.mode))
            } else {
                done
            },
            None => done,
        },
        EventView::Reindexed(Ok(_)) => done,
        EventView::Reindexed(Err(e)) => (place, queued, ActionView::Fail(e)),
    }
}

/// One more, around the end of the range.
pub open spec fn wrapping_more(n: usize) -> usize {
    if n == usize::MAX {
        0
    } else {
        (n + 1) as usize
    }
}

/// One less, around the end of the range.
pub open spec fn wrapping_less(n: usize) -> usize {
    if n == 0 {
        usize::MAX
    } else {
        (n - 1) as usize
    }
}

impl Refresh {
    fn action(&self) -> (action: RefreshAction)
        requires
            self.wf(),
        ensures
            action@ == self@.here(),
    {
        assert(self@.targets.len() == self.targets@.len());
        if self.next < self.targets.len() {
            assert(self@.targets[self.next as int] == self.targets@[self.next as int]@);
            RefreshAction::Compare(self.targets[self.next].name.clone())
        } else {
            RefreshAction::Finish
        }
    }

    fn root(&self) -> (root: Option<String>)
        requires
            self.wf(),
        ensures
            optional_text(root) == self@.root_here(),
    {
        assert(self@.targets.len() == self.targets@.len());
        if self.next < self.targets.len() {
            assert(self@.targets[self.next as int] == self.targets@[self.next as int]@);
            match &self.targets[self.next].root {
                Some(root) => Some(root.clone()),
                None => None,
            }
        } else {
            None
        }
    }

    fn advance(&mut self)
        requires
            old(self).wf(),
        ensures
            final(self).wf(),
            final(self)@ == old(self)@.onward(),
    {
        assert(self@.targets.len() == self.targets@.len());
        if self.next < self.targets.len() {
            self.next = self.next + 1;
        }
    }
}

impl AutoIndexDaemon {
    /// Begins to go through the projects of a listing: the pass, and what is done first.
    pub fn begin_refresh(&self, listing: &JsonValue) -> (begun: (Refresh, RefreshAction))
        ensures
            begun.0.wf(),
            begun.0@ == (RefreshView {
                targets: targets_in(listed_projects(listing@)),
                next: 0,
            }),
            begun.1@ == begun.0@.here(),
    {
        let refresh = Refresh { targets: refresh_targets(listing), next: 0 };
        let first = refresh.action();
        (refresh, first)
    }

    fn leave(&mut self, refresh: &mut Refresh) -> (action: RefreshAction)
        requires
            old(refresh).wf(),
        ensures
            final(refresh).wf(),
            final(refresh)@ == old(refresh)@.onward(),
            final(self)@ == (DaemonView { queued: wrapping_less(old(self).queued), ..old(self)@ }),
            action@ == old(refresh)@.onward().here(),
    {
        self.queued = if self.queued == 0 {
            usize::MAX
        } else {
            self.queued - 1
        };
        refresh.advance();
        refresh.action()
    }

    /// Goes on through the projects after an event: what is done next.
    pub fn refresh_once(&mut self, refresh: &mut Refresh, event: RefreshEvent) -> (action:
        RefreshAction)
        requires
            old(refresh).wf(),
        ensures
            final(refresh).wf(),
            final(self)@ == (DaemonView { queued: final(self).queued, ..old(self)@ }),
            (final(refresh)@, final(self).queued, action@) == after_event(
                old(refresh)@,
                old(self).queued,
                event@,
                old(self)@.config,
            ),
    {
        match event {
            RefreshEvent::Compared(Ok(report)) => if needs_refresh(&report) {
                self.queued = if self.queued == usize::MAX {
                    0
                } else {
                    self.queued + 1
                };
                RefreshAction::Wait(self.config.debounce_seconds)
            } else {
                refresh.advance();
                refresh.action()
            },
            RefreshEvent::Compared(Err(e)) => RefreshAction::Fail(e),
            RefreshEvent::Waited => match refresh.root() {
                Some(root) => RefreshAction::Look(root),
                None => self.leave(refresh),
            },
            RefreshEvent::Looked(there) => match refresh.root() {
                Some(root) => if there {
                    RefreshAction::Reindex(root, self.config.mode.clone())
                } else {
                    self.leave(refresh)
                },
                None => self.leave(refresh),
            },
            RefreshEvent::Reindexed(Ok(_)) => self.leave(refresh),
            RefreshEvent::Reindexed(Err(e)) => RefreshAction::Fail(e),
        }
    }

    /// Keeps what went wrong in a pass through the projects, or that nothing did.
    pub fn note_refresh(&mut self, outcome: Result<(), String>)
        ensures
            final(self)@ == (DaemonView {
                last_error: match outcome {
                    Ok(_) => None,
                    Err(e) => Some(e@),
                },
                ..old(self)@
            }),
    {
        self.last_error = match outcome {
            Ok(_) => None,
            Err(e) => Some(e),
        };
    }
}

// ---------------------------------------------------------------------------
// What holds of a pass
// ---------------------------------------------------------------------------

/// Whether a project waits while an action is done.
pub open spec fn waits_during(action: ActionView) -> bool {
    action is Wait || action is Look || action is Reindex
}

/// Whether an event is one that an action can come to.
pub open spec fn answers(event: EventView, action: ActionView) -> bool {
    match action {
        ActionView::Compare(_) => event is Compared,
        ActionView::Wait(_) => event is Waited,
        ActionView::Look(_) => event is Looked,
        ActionView::Reindex(_, _) => event is Reindexed,
        _ => false,
    }
}

/// How many projects wait, but for the one that an action is about.
pub open spec fn waiting_besides(queued: usize, action: ActionView) -> usize {
    if waits_during(action) {
        wrapping_less(queued)
    } else {
        queued
    }
}

/// Going through the projects leaves as many waiting as before, besides the one at hand; the
/// one exception is an error while indexing, after which the project stays counted.
pub proof fn the_queue_is_restored(
    place: RefreshView,
    queued: usize,
    action: ActionView,
    event: EventView,
    config: ConfigView,
)
    requires
        answers(event, action),
    ensures
        ({
            let (_, later, next) = after_event(place, queued, event, config);
            if event is Reindexed && next is Fail {
                later == queued
            } else {
                waiting_besides(later, next) == waiting_besides(queued, action)
            }
        }),
{
}

/// A pass looks at each project once, in order: an event leaves the pass at its project or
/// moves it on to the one after.
pub proof fn a_pass_goes_on(
    place: RefreshView,
    queued: usize,
    event: EventView,
    config: ConfigView,
)
    requires
        0 <= place.next < place.targets.len(),
    ensures
        ({
            let (later, _, next) = after_event(place, queued, event, config);
            &&& later.targets == place.targets
            &&& later.next == place.next || later.next == place.next + 1
            &&& next is Compare ==> later.next == place.next + 1
            &&& next is Finish ==> later.next == place.targets.len()
        }),
{
}

/// A pass at one moment: where it stands, how many projects wait, and what is done.
pub struct PassView {
    pub place: RefreshView,
    pub queued: usize,
    pub action: ActionView,
}

impl PassView {
    /// A pass at its start.
    pub open spec fn start(targets: Seq<TargetView>, queued: usize) -> PassView {
        let place = RefreshView { targets, next: 0 };
        PassView { place, queued, action: place.here() }
    }

    /// The pass after an event.
    pub open spec fn after(self, event: EventView, config: ConfigView) -> PassView {
        let (place, queued, action) = after_event(self.place, self.queued, event, config);
        PassView { place, queued, action }
    }
}

/// The pass after a number of events.
pub open spec fn pass_after(pass: PassView, events: Seq<EventView>, config: ConfigView) -> PassView
    decreases events.len(),
{
    if events.len() == 0 {
        pass
    } else {
        pass_after(pass.after(events[0], config), events.skip(1), config)
    }
}

/// The roots that are asked to be indexed in the course of a number of events, in their order.
pub open spec fn roots_reindexed(
    pass: PassView,
    events: Seq<EventView>,
    config: ConfigView,
) -> Seq<Seq<char>>
    decreases events.len(),
{
    if events.len() == 0 {
        Seq::empty()
    } else {
        let next = pass.after(events[0], config);
        let later = roots_reindexed(next, events.skip(1), config);
        match next.action {
            ActionView::Reindex(root, _) => seq![root] + later,
            _ => later,
        }
    }
}

/// What is found of the projects: the report of each comparison, and whether each root is
/// there.
pub struct Findings {
    pub reports: Seq<JsonView>,
    pub there: Seq<bool>,
}

/// Whether an event comes of what is done, and says of the project here what is found of it.
pub open spec fn tells(event: EventView, pass: PassView, findings: Findings) -> bool {
    answers(event, pass.action) && match event {
        EventView::Compared(Ok(report)) => report == findings.reports[pass.place.next],
        EventView::Looked(there) => there == findings.there[pass.place.next],
        _ => true,
    }
}

/// Whether events come, one after the other, of what a pass does.
pub open spec fn is_course(
    pass: PassView,
    events: Seq<EventView>,
    config: ConfigView,
    findings: Findings,
) -> bool
    decreases events.len(),
{
    events.len() > 0 ==> tells(events[0], pass, findings) && is_course(
        pass.after(events[0], config),
        events.skip(1),
        config,
        findings,
    )
}

/// The roots that have to be indexed, from a place on: those of the projects with changes whose
/// root is known and there, in their order.
pub open spec fn roots_due(targets: Seq<TargetView>, findings: Findings, from: int) -> Seq<
    Seq<char>,
>
    decreases targets.len() - from,
{
    if from < 0 || from >= targets.len() {
        Seq::empty()
    } else {
        let later = roots_due(targets, findings, from + 1);
        match targets[from].root {
            Some(root) => if has_changes(findings.reports[from]) && findings.there[from] {
                seq![root] + later
            } else {
                later
            },
            None => later,
        }
    }
}

/// Whether what is done is what the place and the findings ask for.
spec fn is_apt(pass: PassView, findings: Findings) -> bool {
    let place = pass.place;
    0 <= place.next <= place.targets.len() && match pass.action {
        ActionView::Compare(_) => place.next < place.targets.len(),
        ActionView::Wait(_) => place.next < place.targets.len() && has_changes(
            findings.reports[place.next],
        ),
        ActionView::Look(root) => place.root_here() == Some(root) && has_changes(
            findings.reports[place.next],
        ),
        ActionView::Reindex(root, _) => place.root_here() == Some(root),
        ActionView::Finish => place.next == place.targets.len(),
        ActionView::Fail(_) => true,
    }
}

/// The roots that are still to be indexed while something is done.
spec fn roots_left(pass: PassView, findings: Findings) -> Seq<Seq<char>> {
    roots_due(
        pass.place.targets,
        findings,
        if pass.action is Reindex {
            pass.place.next + 1
        } else {
            pass.place.next
        },
    )
}

/// How many events are left at most.
spec fn events_left(pass: PassView) -> int {
    let projects = 4 * (pass.place.targets.len() - pass.place.next);
    match pass.action {
        ActionView::Compare(_) => projects,
        ActionView::Wait(_) => projects - 1,
        ActionView::Look(_) => projects - 2,
        ActionView::Reindex(_, _) => projects - 3,
        _ => 0,
    }
}

/// Whether a pass stopped because a project could not be indexed.
pub open spec fn failed_to_index(events: Seq<EventView>) -> bool {
    events.len() > 0 && events.last() matches EventView::Reindexed(Err(_))
}

proof fn lemma_course(
    pass: PassView,
    events: Seq<EventView>,
    config: ConfigView,
    findings: Findings,
)
    requires
        is_apt(pass, findings),
        is_course(pass, events, config, findings),
    ensures
        roots_reindexed(pass, events, config).is_prefix_of(roots_left(pass, findings)),
        pass_after(pass, events, config).action is Finish ==> roots_reindexed(
            pass,
            events,
            config,
        ) == roots_left(pass, findings),
        !failed_to_index(events) ==> waiting_besides(
            pass_after(pass, events, config).queued,
            pass_after(pass, events, config).action,
        ) == waiting_besides(pass.queued, pass.action),
        events.len() <= events_left(pass),
    decreases events.len(),
{
    if events.len() > 0 {
        let next = pass.after(events[0], config);
        let rest = events.skip(1);
        assert(is_apt(next, findings));
        if rest.len() > 0 {
            assert(rest.last() == events.last());
        }
        lemma_course(next, rest, config, findings);
        let left = roots_left(pass, findings);
        let later = roots_left(next, findings);
        let indexed = roots_reindexed(next, rest, config);
        match next.action {
            ActionView::Reindex(root, _) => {
                assert(left == seq![root] + later);
                assert((seq![root] + indexed).is_prefix_of(seq![root] + later));
            },
            ActionView::Fail(_) => {
                assert(rest.len() == 0);
            },
            _ => {
                assert(left == later);
            },
        }
    }
}

/// A pass through the projects asks for roots that have to be indexed, in their order and each
/// no more often than it is due; when it is finished, it has indexed them all and nothing else,
/// and as many projects wait as before. It stops after four events for each project at most,
/// and leaves a project waiting only where that could not be indexed.
pub proof fn a_pass_indexes_what_changed(
    targets: Seq<TargetView>,
    queued: usize,
    events: Seq<EventView>,
    config: ConfigView,
    findings: Findings,
)
    requires
        is_course(PassView::start(targets, queued), events, config, findings),
    ensures
        ({
            let start = PassView::start(targets, queued);
            let end = pass_after(start, events, config);
            let indexed = roots_reindexed(start, events, config);
            let due = roots_due(targets, findings, 0);
            &&& indexed.is_prefix_of(due)
            &&& end.action is Finish ==> indexed == due && end.queued == queued
            &&& !waits_during(end.action) && !failed_to_index(events) ==> end.queued == queued
            &&& events.len() <= 4 * targets.len()
        }),
{
    lemma_course(PassView::start(targets, queued), events, config, findings);
    if events.len() > 0 {
        lemma_last_step(PassView::start(targets, queued), events, config, findings);
    }
}

/// After an event that says that a project could not be indexed the pass has failed.
proof fn lemma_last_step(
    pass: PassView,
    events: Seq<EventView>,
    config: ConfigView,
    findings: Findings,
)
    requires
        events.len() > 0,
        is_course(pass, events, config, findings),
    ensures
        failed_to_index(events) ==> pass_after(pass, events, config).action is Fail,
    decreases events.len(),
{
    let rest = events.skip(1);
    if rest.len() > 0 {
        assert(rest.last() == events.last());
        lemma_last_step(pass.after(events[0], config), rest, config, findings);
    } else {
        assert(pass_after(pass.after(events[0], config), rest, config) == pass.after(
            events[0],
            config,
        ));
    }
}

} // verus!
