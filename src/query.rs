use vstd::prelude::*;

verus! {

/// What the driver must do next against the folder registry service.
///
/// Each step either acquires one service-allocated resource, releases one, or
/// decodes text held by one; the enumeration decides the order.
#[derive(Clone, Copy, Debug, PartialEq, Eq, Structural)]
pub enum Step {
    /// Connect this thread to the service.
    OpenSession,
    /// Fetch the block of entry identifiers.
    ListIds,
    /// Fetch the entry at `entry_index` and its definition record.
    GetMetadata,
    /// Decode the display name held by the definition record.
    DecodeName,
    /// Free the string fields of the definition record.
    ReleaseMetadata,
    /// Resolve the current entry's path with the query options.
    GetPath,
    /// Decode the resolved path string.
    DecodePath,
    /// Free the resolved path string.
    ReleasePath,
    /// Free the block of entry identifiers.
    ReleaseIds,
    /// Disconnect this thread from the service.
    CloseSession,
    /// Nothing is left to do.
    Done,
}

/// What came of the step that the driver performed.
#[derive(Debug)]
pub enum Event {
    /// The step succeeded and has nothing to report.
    Succeeded,
    /// The identifiers were fetched; this many of them.
    Listed(u32),
    /// The text was decoded.
    Decoded(String),
    /// The step failed, with the service's message.
    Failed(String),
}

pub enum EventView {
    Succeeded,
    Listed(u32),
    Decoded(Seq<char>),
    Failed(Seq<char>),
}

impl View for Event {
    type V = EventView;

    open spec fn view(&self) -> EventView {
        match self {
            Event::Succeeded => EventView::Succeeded,
            Event::Listed(n) => EventView::Listed(*n),
            Event::Decoded(s) => EventView::Decoded(s@),
            Event::Failed(s) => EventView::Failed(s@),
        }
    }
}

/// A known folder's name and either its path or why the path is unavailable.
#[derive(Debug)]
pub struct NamedPath {
    pub name: String,
    pub try_path: Result<String, String>,
}

pub struct NamedPathView {
    pub name: Seq<char>,
    pub try_path: Result<Seq<char>, Seq<char>>,
}

impl View for NamedPath {
    type V = NamedPathView;

    open spec fn view(&self) -> NamedPathView {
        NamedPathView {
            name: self.name@,
            try_path: match &self.try_path {
                Ok(p) => Ok(p@),
                Err(m) => Err(m@),
            },
        }
    }
}

pub open spec fn records_view(v: Seq<NamedPath>) -> Seq<NamedPathView> {
    v.map_values(|r: NamedPath| r@)
}

/// A failure that ends the whole run.
#[derive(Debug)]
pub enum Failure {
    /// The service could not be reached from this thread.
    SessionOpen(String),
    /// The identifiers, an entry, its definition or a decoded text was unavailable.
    Enumeration(String),
}

pub enum FailureView {
    SessionOpen(Seq<char>),
    Enumeration(Seq<char>),
}

impl View for Failure {
    type V = FailureView;

    open spec fn view(&self) -> FailureView {
        match self {
            Failure::SessionOpen(m) => FailureView::SessionOpen(m@),
            Failure::Enumeration(m) => FailureView::Enumeration(m@),
        }
    }
}

/// The decisions of one walk over the registry: which step comes next, what is
/// kept of each entry, and which failure ends the run.
pub struct Enumeration {
    step: Step,
    count: u32,
    index: u32,
    name: String,
    path: String,
    records: Vec<NamedPath>,
    failure: Option<Failure>,
}

pub struct EnumerationView {
    pub step: Step,
    pub count: nat,
    pub index: nat,
    pub name: Seq<char>,
    pub path: Seq<char>,
    pub records: Seq<NamedPathView>,
    pub failure: Option<FailureView>,
}

impl View for Enumeration {
    type V = EnumerationView;

    closed spec fn view(&self) -> EnumerationView {
        EnumerationView {
            step: self.step,
            count: self.count as nat,
            index: self.index as nat,
            name: self.name@,
            path: self.path@,
            records: records_view(self.records@),
            failure: match &self.failure {
                Some(f) => Some(f@),
                None => None,
            },
        }
    }
}

/// The events that a step can report.
pub open spec fn accepts(step: Step, e: EventView) -> bool {
    match step {
        Step::OpenSession | Step::GetMetadata | Step::GetPath => e is Succeeded || e is Failed,
        Step::ListIds => e is Listed || e is Failed,
        Step::DecodeName | Step::DecodePath => e is Decoded || e is Failed,
        Step::ReleaseMetadata | Step::ReleasePath | Step::ReleaseIds | Step::CloseSession =>
            e is Succeeded,
        Step::Done => false,
    }
}

/// The steps that work on one entry.
pub open spec fn on_entry(step: Step) -> bool {
    step == Step::GetMetadata || step == Step::DecodeName || step == Step::ReleaseMetadata
        || step == Step::GetPath || step == Step::DecodePath || step == Step::ReleasePath
}

pub open spec fn start() -> EnumerationView {
    EnumerationView {
        step: Step::OpenSession,
        count: 0,
        index: 0,
        name: Seq::empty(),
        path: Seq::empty(),
        records: Seq::empty(),
        failure: None,
    }
}

/// After an entry's record is settled: on to the next entry, or release the ids.
pub open spec fn after_entry(s: EnumerationView) -> EnumerationView {
    if s.index + 1 < s.count {
        EnumerationView { step: Step::GetMetadata, index: s.index + 1, ..s }
    } else {
        EnumerationView { step: Step::ReleaseIds, ..s }
    }
}

/// One transition of the walk. A failure before a path is resolved is fatal: it is
/// kept, and every resource still held is released before the walk ends. A failure
/// to resolve a path is kept in that entry's record and the walk goes on.
pub open spec fn next(s: EnumerationView, e: EventView) -> EnumerationView {
    match s.step {
        Step::OpenSession => match e {
            EventView::Failed(m) => EnumerationView {
                step: Step::Done,
                failure: Some(FailureView::SessionOpen(m)),
                ..s
            },
            _ => EnumerationView { step: Step::ListIds, ..s },
        },
        Step::ListIds => match e {
            EventView::Listed(n) => if n == 0 {
                EnumerationView { step: Step::ReleaseIds, count: 0, ..s }
            } else {
                EnumerationView { step: Step::GetMetadata, count: n as nat, index: 0, ..s }
            },
            EventView::Failed(m) => EnumerationView {
                step: Step::CloseSession,
                failure: Some(FailureView::Enumeration(m)),
                ..s
            },
            _ => s,
        },
        Step::GetMetadata => match e {
            EventView::Failed(m) => EnumerationView {
                step: Step::ReleaseIds,
                failure: Some(FailureView::Enumeration(m)),
                ..s
            },
            _ => EnumerationView { step: Step::DecodeName, ..s },
        },
        Step::DecodeName => match e {
            EventView::Decoded(t) => EnumerationView { step: Step::ReleaseMetadata, name: t, ..s },
            EventView::Failed(m) => EnumerationView {
                step: Step::ReleaseMetadata,
                failure: Some(FailureView::Enumeration(m)),
                ..s
            },
            _ => s,
        },
        Step::ReleaseMetadata => if s.failure is Some {
            EnumerationView { step: Step::ReleaseIds, ..s }
        } else {
            EnumerationView { step: Step::GetPath, ..s }
        },
        Step::GetPath => match e {
            EventView::Failed(m) => after_entry(
                EnumerationView {
                    records: s.records.push(NamedPathView { name: s.name, try_path: Err(m) }),
                    ..s
                },
            ),
            _ => EnumerationView { step: Step::DecodePath, ..s },
        },
        Step::DecodePath => match e {
            EventView::Decoded(p) => EnumerationView { step: Step::ReleasePath, path: p, ..s },
            EventView::Failed(m) => EnumerationView {
                step: Step::ReleasePath,
                failure: Some(FailureView::Enumeration(m)),
                ..s
            },
            _ => s,
        },
        Step::ReleasePath => if s.failure is Some {
            EnumerationView { step: Step::ReleaseIds, ..s }
        } else {
            after_entry(
                EnumerationView {
                    records: s.records.push(NamedPathView { name: s.name, try_path: Ok(s.path) }),
                    ..s
                },
            )
        },
        Step::ReleaseIds => EnumerationView { step: Step::CloseSession, ..s },
        Step::CloseSession => EnumerationView { step: Step::Done, ..s },
        Step::Done => s,
    }
}

impl Enumeration {
    /// The walk's invariant: an entry step always names an identifier in the block.
    pub open spec fn wf(&self) -> bool {
        on_entry(self@.step) ==> self@.index < self@.count
    }

    /// A walk that has done nothing yet: its first step opens the session.
    pub fn new() -> (r: Self)
        ensures
            r@ == start(),
            r.wf(),
    {
        let r = Enumeration {
            step: Step::OpenSession,
            count: 0,
            index: 0,
            name: String::new(),
            path: String::new(),
            records: Vec::new(),
            failure: None,
        };
        assert(records_view(r.records@) =~= Seq::<NamedPathView>::empty());
        r
    }

    /// The step that the driver must perform now.
    pub fn step(&self) -> (r: Step)
        ensures
            r == self@.step,
    {
        self.step
    }

    /// The position, in the block of identifiers, of the entry being worked on.
    pub fn entry_index(&self) -> (r: u32)
        ensures
            r == self@.index,
            self.wf() && on_entry(self@.step) ==> r < self@.count,
    {
        self.index
    }

    fn settle_entry(&mut self, record: NamedPath)
        ensures
            final(self)@ == after_entry(
                EnumerationView { records: old(self)@.records.push(record@), ..old(self)@ },
            ),
            final(self).wf(),
    {
        let ghost before = records_view(self.records@);
        self.records.push(record);
        assert(records_view(self.records@) =~= before.push(record@));
        if self.count > 0 && self.index < self.count - 1 {
            self.step = Step::GetMetadata;
            self.index = self.index + 1;
        } else {
            self.step = Step::ReleaseIds;
        }
    }

    /// Takes in what came of the current step and moves to the next one.
    pub fn advance(&mut self, event: Event)
        requires
            accepts(old(self)@.step, event@),
        ensures
            final(self)@ == next(old(self)@, event@),
            old(self).wf() ==> final(self).wf(),
    {
        match self.step {
            Step::OpenSession => match event {
                Event::Failed(m) => {
                    self.step = Step::Done;
                    self.failure = Some(Failure::SessionOpen(m));
                },
                _ => {
                    self.step = Step::ListIds;
                },
            },
            Step::ListIds => match event {
                Event::Listed(n) => {
                    if n == 0 {
                        self.step = Step::ReleaseIds;
                        self.count = 0;
                    } else {
                        self.step = Step::GetMetadata;
                        self.count = n;
                        self.index = 0;
                    }
                },
                Event::Failed(m) => {
                    self.step = Step::CloseSession;
                    self.failure = Some(Failure::Enumeration(m));
                },
                _ => {},
            },
            Step::GetMetadata => match event {
                Event::Failed(m) => {
                    self.step = Step::ReleaseIds;
                    self.failure = Some(Failure::Enumeration(m));
                },
                _ => {
                    self.step = Step::DecodeName;
                },
            },
            Step::DecodeName => match event {
                Event::Decoded(t) => {
                    self.step = Step::ReleaseMetadata;
                    self.name = t;
                },
                Event::Failed(m) => {
                    self.step = Step::ReleaseMetadata;
                    self.failure = Some(Failure::Enumeration(m));
                },
                _ => {},
            },
            Step::ReleaseMetadata => {
                if self.failure.is_some() {
                    self.step = Step::ReleaseIds;
                } else {
                    self.step = Step::GetPath;
                }
            },
            Step::GetPath => match event {
                Event::Failed(m) => {
                    let record = NamedPath { name: self.name.clone(), try_path: Err(m) };
                    self.settle_entry(record);
                },
                _ => {
                    self.step = Step::DecodePath;
                },
            },
            Step::DecodePath => match event {
                Event::Decoded(p) => {
                    self.step = Step::ReleasePath;
                    self.path = p;
                },
                Event::Failed(m) => {
                    self.step = Step::ReleasePath;
                    self.failure = Some(Failure::Enumeration(m));
                },
                _ => {},
            },
            Step::ReleasePath => {
                if self.failure.is_some() {
                    self.step = Step::ReleaseIds;
                } else {
                    let record = NamedPath { name: self.name.clone(), try_path: Ok(self.path.clone()) };
                    self.settle_entry(record);
                }
            },
            Step::ReleaseIds => {
                self.step = Step::CloseSession;
            },
            Step::CloseSession => {
                self.step = Step::Done;
            },
            Step::Done => {},
        }
    }

    /// Whether `event` is one that the current step can report.
    pub fn accepts_event(&self, event: &Event) -> (r: bool)
        ensures
            r == accepts(self@.step, event@),
    {
        match self.step {
            Step::OpenSession | Step::GetMetadata | Step::GetPath => matches!(event, Event::Succeeded | Event::Failed(_)),
            Step::ListIds => matches!(event, Event::Listed(_) | Event::Failed(_)),
            Step::DecodeName | Step::DecodePath => matches!(event, Event::Decoded(_) | Event::Failed(_)),
            Step::ReleaseMetadata | Step::ReleasePath | Step::ReleaseIds | Step::CloseSession => matches!(event, Event::Succeeded),
            Step::Done => false,
        }
    }

    /// Whether the walk is over.
    pub fn is_done(&self) -> (r: bool)
        ensures
            r == (self@.step == Step::Done),
    {
        self.step == Step::Done
    }

    /// The process exit code for a finished walk.
    pub fn exit_code(&self) -> (r: i32)
        ensures
            r == exit_code_of(self@.failure),
    {
        match &self.failure {
            None => 0,
            Some(Failure::SessionOpen(_)) => 2,
            Some(Failure::Enumeration(_)) => 1,
        }
    }

    /// The records of a finished walk, or the failure that ended it.
    pub fn finish(self) -> (r: Result<Vec<NamedPath>, Failure>)
        ensures
            match r {
                Ok(v) => self@.failure is None && records_view(v@) == self@.records,
                Err(f) => self@.failure == Some(f@),
            },
    {
        match self.failure {
            None => Ok(self.records),
            Some(f) => Err(f),
        }
    }
}

/// The walk's invariant, on its view.
pub open spec fn wf_view(s: EnumerationView) -> bool {
    &&& on_entry(s.step) ==> s.index < s.count
    &&& s.count <= u32::MAX
}

/// How many steps at most remain: eight for each entry not yet finished, plus
/// the steps of the current entry and of the teardown.
pub open spec fn remaining(s: EnumerationView) -> int {
    let listing = (u32::MAX as int + 1) * 8 + 3;
    match s.step {
        Step::OpenSession => listing + 1,
        Step::ListIds => listing,
        Step::GetMetadata => (s.count - s.index) * 8 + 8,
        Step::DecodeName => (s.count - s.index) * 8 + 7,
        Step::ReleaseMetadata => (s.count - s.index) * 8 + 6,
        Step::GetPath => (s.count - s.index) * 8 + 5,
        Step::DecodePath => (s.count - s.index) * 8 + 4,
        Step::ReleasePath => (s.count - s.index) * 8 + 3,
        Step::ReleaseIds => 2,
        Step::CloseSession => 1,
        Step::Done => 0,
    }
}

/// Every event that a step can report brings the walk strictly closer to its
/// end, so a walk over any registry ends after a bounded number of steps.
pub proof fn lemma_walk_progresses(s: EnumerationView, e: EventView)
    requires
        wf_view(s),
        accepts(s.step, e),
    ensures
        wf_view(next(s, e)),
        0 <= remaining(next(s, e)) < remaining(s),
{
}

/// Every walk that the driver runs keeps the invariant.
pub proof fn lemma_run_well_formed(events: Seq<EventView>)
    requires
        valid_run(events),
    ensures
        wf_view(run(events)),
        remaining(run(events)) + events.len() <= remaining(start()),
    decreases events.len(),
{
    if events.len() > 0 {
        lemma_run_well_formed(events.drop_last());
        lemma_walk_progresses(run(events.drop_last()), events.last());
    }
}

/// A fatal failure, once kept, only lets the walk release what it holds.
pub open spec fn failure_settled(s: EnumerationView) -> bool {
    s.failure is Some ==> (s.step == Step::ReleaseMetadata || s.step == Step::ReleasePath || s.step
        == Step::ReleaseIds || s.step == Step::CloseSession || s.step == Step::Done)
}

proof fn lemma_settled_step(s: EnumerationView, e: EventView)
    requires
        failure_settled(s),
    ensures
        failure_settled(next(s, e)),
        s.failure is Some ==> next(s, e).failure == s.failure,
{
}

proof fn lemma_run_settled(events: Seq<EventView>)
    ensures
        failure_settled(run(events)),
    decreases events.len(),
{
    if events.len() > 0 {
        lemma_run_settled(events.drop_last());
        lemma_settled_step(run(events.drop_last()), events.last());
    }
}

proof fn lemma_failure_kept(prefix: Seq<EventView>, rest: Seq<EventView>)
    requires
        run(prefix).failure is Some,
    ensures
        run(prefix + rest).failure == run(prefix).failure,
    decreases rest.len(),
{
    if rest.len() == 0 {
        assert(prefix + rest =~= prefix);
    } else {
        lemma_failure_kept(prefix, rest.drop_last());
        assert((prefix + rest).drop_last() =~= prefix + rest.drop_last());
        lemma_run_settled(prefix + rest.drop_last());
        lemma_settled_step(run(prefix + rest.drop_last()), rest.last());
    }
}

/// A name that cannot be decoded is fatal: whatever comes after, the walk ends
/// with that failure and no table.
pub proof fn lemma_name_failure_is_fatal(
    prefix: Seq<EventView>,
    message: Seq<char>,
    rest: Seq<EventView>,
)
    requires
        run(prefix).step == Step::DecodeName,
    ensures
        run(prefix.push(EventView::Failed(message)) + rest).failure == Some(
            FailureView::Enumeration(message),
        ),
        exit_code_of(run(prefix.push(EventView::Failed(message)) + rest).failure) == 1,
{
    let failed = prefix.push(EventView::Failed(message));
    assert(failed.drop_last() =~= prefix);
    lemma_failure_kept(failed, rest);
}

/// A path that cannot be resolved is not fatal: the entry is recorded with the
/// message, and the walk goes on as if nothing had failed.
pub proof fn lemma_path_failure_is_recorded(prefix: Seq<EventView>, message: Seq<char>)
    requires
        run(prefix).step == Step::GetPath,
    ensures
        ({
            let s = run(prefix);
            let t = run(prefix.push(EventView::Failed(message)));
            &&& t.failure is None
            &&& t.records == s.records.push(NamedPathView { name: s.name, try_path: Err(message) })
            &&& t.step == Step::GetMetadata || t.step == Step::ReleaseIds
        }),
{
    lemma_run_settled(prefix);
    assert(prefix.push(EventView::Failed(message)).drop_last() =~= prefix);
}

/// 0 for a walk that succeeded, 2 where the session could not be opened, and 1
/// where the walk failed later.
pub open spec fn exit_code_of(failure: Option<FailureView>) -> i32 {
    match failure {
        None => 0,
        Some(FailureView::SessionOpen(_)) => 2,
        Some(FailureView::Enumeration(_)) => 1,
    }
}

/// The kinds of resource that the service hands out and the walk must release.
#[derive(Clone, Copy, Debug, PartialEq, Eq, Structural)]
pub enum Resource {
    Session,
    IdSet,
    Metadata,
    PathString,
}

/// The resource that a step acquires when it reports this event.
pub open spec fn acquired_by(step: Step, e: EventView) -> Option<Resource> {
    match step {
        Step::OpenSession => if e is Succeeded { Some(Resource::Session) } else { None },
        Step::ListIds => if e is Listed { Some(Resource::IdSet) } else { None },
        Step::GetMetadata => if e is Succeeded { Some(Resource::Metadata) } else { None },
        Step::GetPath => if e is Succeeded { Some(Resource::PathString) } else { None },
        _ => None,
    }
}

/// The resource that performing a step releases.
pub open spec fn released_by(step: Step) -> Option<Resource> {
    match step {
        Step::CloseSession => Some(Resource::Session),
        Step::ReleaseIds => Some(Resource::IdSet),
        Step::ReleaseMetadata => Some(Resource::Metadata),
        Step::ReleasePath => Some(Resource::PathString),
        _ => None,
    }
}

/// Whether a resource of this kind is held while the walk waits on `step`.
pub open spec fn holds(step: Step, r: Resource) -> bool {
    match r {
        Resource::Session => step != Step::OpenSession && step != Step::Done,
        Resource::IdSet => on_entry(step) || step == Step::ReleaseIds,
        Resource::Metadata => step == Step::DecodeName || step == Step::ReleaseMetadata,
        Resource::PathString => step == Step::DecodePath || step == Step::ReleasePath,
    }
}

/// The walk after a sequence of reported events.
pub open spec fn run(events: Seq<EventView>) -> EnumerationView
    decreases events.len(),
{
    if events.len() == 0 {
        start()
    } else {
        next(run(events.drop_last()), events.last())
    }
}

/// Each event is one that the step it answers can report.
pub open spec fn valid_run(events: Seq<EventView>) -> bool
    decreases events.len(),
{
    events.len() == 0 || (valid_run(events.drop_last()) && accepts(
        run(events.drop_last()).step,
        events.last(),
    ))
}

/// How many resources of kind `r` the service handed out during the events.
pub open spec fn acquisitions(events: Seq<EventView>, r: Resource) -> nat
    decreases events.len(),
{
    if events.len() == 0 {
        0
    } else {
        acquisitions(events.drop_last(), r) + if acquired_by(
            run(events.drop_last()).step,
            events.last(),
        ) == Some(r) {
            1nat
        } else {
            0nat
        }
    }
}

/// How many release steps of kind `r` the driver performed during the events.
pub open spec fn releases(events: Seq<EventView>, r: Resource) -> nat
    decreases events.len(),
{
    if events.len() == 0 {
        0
    } else {
        releases(events.drop_last(), r) + if released_by(run(events.drop_last()).step) == Some(
            r,
        ) {
            1nat
        } else {
            0nat
        }
    }
}

proof fn lemma_step_balance(s: EnumerationView, e: EventView, r: Resource)
    requires
        accepts(s.step, e),
    ensures
        (if holds(next(s, e).step, r) { 1int } else { 0int }) == (if holds(s.step, r) {
            1int
        } else {
            0int
        }) + (if acquired_by(s.step, e) == Some(r) { 1int } else { 0int }) - (if released_by(
            s.step,
        ) == Some(r) {
            1int
        } else {
            0int
        }),
{
}

/// Whatever the service reports at each step, failures included, every resource
/// that the walk acquires is released exactly once: at any point the releases of
/// a kind never outrun its acquisitions and differ from them only by what is
/// still held, and once the walk is done they are equal.
pub proof fn lemma_every_acquisition_released(events: Seq<EventView>, r: Resource)
    requires
        valid_run(events),
    ensures
        acquisitions(events, r) == releases(events, r) + if holds(run(events).step, r) {
            1nat
        } else {
            0nat
        },
        releases(events, r) <= acquisitions(events, r),
        run(events).step == Step::Done ==> acquisitions(events, r) == releases(events, r),
    decreases events.len(),
{
    if events.len() > 0 {
        lemma_every_acquisition_released(events.drop_last(), r);
        lemma_step_balance(run(events.drop_last()), events.last(), r);
    }
}

} // verus!
