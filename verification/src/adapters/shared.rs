//! What the adapters have in common: known sessions, incremental scans, resume commands.

use vstd::prelude::*;

use crate::model::{session_view, Session, SessionView};
use crate::paths::{FsPath, FsPathView};
use crate::string_map::StringMap;
use crate::text::{same_text, texts};

verus! {

/// A set of texts.
pub struct StringSet {
    items: Vec<String>,
}

impl View for StringSet {
    type V = Set<Seq<char>>;

    closed spec fn view(&self) -> Set<Seq<char>> {
        texts(self.items@).to_set()
    }
}

impl StringSet {
    pub fn new() -> (set: Self)
        ensures
            set@ == Set::<Seq<char>>::empty(),
    {
        let set = StringSet { items: Vec::new() };
        assert(set@ =~= Set::<Seq<char>>::empty());
        set
    }

    pub fn contains(&self, item: &str) -> (found: bool)
        ensures
            found == self@.contains(item@),
    {
        let mut i: usize = 0;
        while i < self.items.len()
            invariant
                i <= self.items@.len(),
                forall|j: int| 0 <= j < i ==> (#[trigger] self.items@[j])@ != item@,
            decreases self.items@.len() - i,
        {
            if same_text(self.items[i].as_str(), item) {
                assert(texts(self.items@)[i as int] == item@);
                return true;
            }
            i += 1;
        }
        assert forall|j: int| 0 <= j < texts(self.items@).len() implies texts(self.items@)[j]
            != item@ by {
            assert(self.items@[j]@ != item@);
        }
        false
    }

    pub fn insert(&mut self, item: String)
        ensures
            final(self)@ == old(self)@.insert(item@),
    {
        let ghost before = texts(self.items@);
        if !self.contains(item.as_str()) {
            self.items.push(item);
            assert(texts(self.items@) =~= before.push(item@));
            assert(before.push(item@).to_set() =~= before.to_set().insert(item@)) by {
                let after = before.push(item@);
                assert(after[before.len() as int] == item@);
                assert forall|x: Seq<char>| before.contains(x) implies after.contains(x) by {
                    let k = choose|k: int| 0 <= k < before.len() && before[k] == x;
                    assert(after[k] == x);
                }
            }
        }
        assert(self@ =~= old(self)@.insert(item@));
    }

    pub fn remove(&mut self, item: &str)
        ensures
            final(self)@ == old(self)@.remove(item@),
    {
        let mut kept: Vec<String> = Vec::new();
        let ghost all = texts(self.items@);
        let mut i: usize = 0;
        while i < self.items.len()
            invariant
                i <= self.items@.len(),
                all == texts(self.items@),
                forall|x: Seq<char>|
                    texts(kept@).contains(x) <==> (x != item@ && all.take(i as int).contains(x)),
            decreases self.items@.len() - i,
        {
            let ghost before = texts(kept@);
            let ghost x = all[i as int];
            assert(all.take(i + 1) =~= all.take(i as int).push(x));
            assert forall|y: Seq<char>| #[trigger]
                all.take(i as int).push(x).contains(y) <==> (y == x || all.take(i as int).contains(
                    y,
                )) by {
                lemma_push_contains(all.take(i as int), x, y);
            }
            if !same_text(self.items[i].as_str(), item) {
                kept.push(self.items[i].clone());
                assert(texts(kept@) =~= before.push(x));
                assert forall|y: Seq<char>| #[trigger]
                    before.push(x).contains(y) <==> (y == x || before.contains(y)) by {
                    lemma_push_contains(before, x, y);
                }
            }
            i += 1;
        }
        assert(all.take(i as int) =~= all);
        self.items = kept;
        assert(self@ =~= old(self)@.remove(item@));
    }
}

proof fn lemma_push_contains(items: Seq<Seq<char>>, new: Seq<char>, x: Seq<char>)
    ensures
        items.push(new).contains(x) <==> (x == new || items.contains(x)),
{
    let after = items.push(new);
    assert(after[items.len() as int] == new);
    if items.contains(x) {
        let k = choose|k: int| 0 <= k < items.len() && items[k] == x;
        assert(after[k] == x);
    }
}

/// A session that was seen before, with the modification time it then had.
#[derive(Debug)]
pub struct KnownSession {
    pub agent: String,
    pub id: String,
    pub mtime: u64,
}

#[verifier::ext_equal]
pub struct KnownView {
    pub agent: Seq<char>,
    pub id: Seq<char>,
    pub mtime: u64,
}

impl View for KnownSession {
    type V = KnownView;

    open spec fn view(&self) -> KnownView {
        KnownView { agent: self.agent@, id: self.id@, mtime: self.mtime }
    }
}

/// The sessions seen before, each once for its agent.
pub struct KnownSessions {
    entries: Vec<KnownSession>,
}

impl View for KnownSessions {
    type V = Seq<KnownView>;

    closed spec fn view(&self) -> Seq<KnownView> {
        self.entries@.map_values(|entry: KnownSession| entry@)
    }
}

/// The place of a session among `known[from..]`.
pub open spec fn known_from(
    known: Seq<KnownView>,
    agent: Seq<char>,
    id: Seq<char>,
    from: int,
) -> Option<int>
    decreases known.len() - from,
{
    if from < 0 || from >= known.len() {
        None
    } else if known[from].agent == agent && known[from].id == id {
        Some(from)
    } else {
        known_from(known, agent, id, from + 1)
    }
}

/// The modification time that a session had when it was last seen.
pub open spec fn known_mtime(known: Seq<KnownView>, agent: Seq<char>, id: Seq<char>) -> Option<
    u64,
> {
    match known_from(known, agent, id, 0) {
        Some(i) => Some(known[i].mtime),
        None => None,
    }
}

/// Whether a session is new, or newer than when it was last seen.
pub open spec fn needs_update(
    known: Seq<KnownView>,
    agent: Seq<char>,
    id: Seq<char>,
    mtime: u64,
) -> bool {
    match known_mtime(known, agent, id) {
        Some(seen) => mtime > seen,
        None => true,
    }
}

/// The known sessions after one more was seen: in the place of what was known of it, or
/// at the end where it is new.
pub open spec fn remembered(
    known: Seq<KnownView>,
    agent: Seq<char>,
    id: Seq<char>,
    mtime: u64,
) -> Seq<KnownView> {
    let seen = KnownView { agent, id, mtime };
    match known_from(known, agent, id, 0) {
        Some(i) => known.update(i, seen),
        None => known.push(seen),
    }
}

proof fn lemma_known_from(known: Seq<KnownView>, agent: Seq<char>, id: Seq<char>, from: int)
    requires
        0 <= from,
    ensures
        match known_from(known, agent, id, from) {
            Some(i) => {
                &&& from <= i < known.len()
                &&& known[i].agent == agent && known[i].id == id
                &&& forall|j: int|
                    from <= j < i ==> (#[trigger] known[j]).agent != agent || known[j].id != id
            },
            None => forall|j: int|
                from <= j < known.len() ==> (#[trigger] known[j]).agent != agent || known[j].id
                    != id,
        },
    decreases known.len() - from,
{
    if from < known.len() && !(known[from].agent == agent && known[from].id == id) {
        lemma_known_from(known, agent, id, from + 1);
    }
}

/// A session that was remembered is new again only with a later modification time, and
/// remembering it changes nothing for any other session.
pub proof fn law_remembered_session(
    known: Seq<KnownView>,
    agent: Seq<char>,
    id: Seq<char>,
    mtime: u64,
    other_agent: Seq<char>,
    other_id: Seq<char>,
    other_mtime: u64,
)
    ensures
        ({
            let after = remembered(known, agent, id, mtime);
            if other_agent == agent && other_id == id {
                needs_update(after, agent, id, other_mtime) <==> other_mtime > mtime
            } else {
                needs_update(after, other_agent, other_id, other_mtime) == needs_update(
                    known,
                    other_agent,
                    other_id,
                    other_mtime,
                )
            }
        }),
{
    let after = remembered(known, agent, id, mtime);
    lemma_known_from(known, agent, id, 0);
    lemma_known_from(after, agent, id, 0);
    lemma_known_from(known, other_agent, other_id, 0);
    lemma_known_from(after, other_agent, other_id, 0);
    match known_from(known, agent, id, 0) {
        Some(i) => {
            assert(after[i] == KnownView { agent, id, mtime });
        },
        None => {
            assert(after.last() == KnownView { agent, id, mtime });
        },
    }
    if !(other_agent == agent && other_id == id) {
        if let Some(i) = known_from(known, other_agent, other_id, 0) {
            assert(after[i] == known[i]);
        }
        if let Some(i) = known_from(after, other_agent, other_id, 0) {
            assert(after[i] == known[i]);
        }
    }
}

impl KnownSessions {
    pub fn new() -> (known: Self)
        ensures
            known@ == Seq::<KnownView>::empty(),
    {
        let known = KnownSessions { entries: Vec::new() };
        assert(known@ =~= Seq::<KnownView>::empty());
        known
    }

    /// Remembers the modification time of a session.
    pub fn insert(&mut self, agent: String, id: String, mtime: u64)
        ensures
            final(self)@ == remembered(old(self)@, agent@, id@, mtime),
    {
        let ghost before = self@;
        match self.position(agent.as_str(), id.as_str()) {
            Some(i) => {
                let entry = KnownSession { agent, id, mtime };
                self.entries.set(i, entry);
                assert(self@ =~= before.update(i as int, entry@));
            },
            None => {
                let entry = KnownSession { agent, id, mtime };
                self.entries.push(entry);
                assert(self@ =~= before.push(entry@));
            },
        }
    }

    fn position(&self, agent: &str, id: &str) -> (place: Option<usize>)
        ensures
            match place {
                Some(i) => known_from(self@, agent@, id@, 0) == Some(i as int) && i < self@.len(),
                None => known_from(self@, agent@, id@, 0) is None,
            },
    {
        let mut i: usize = 0;
        while i < self.entries.len()
            invariant
                i <= self.entries@.len(),
                known_from(self@, agent@, id@, 0) == known_from(self@, agent@, id@, i as int),
            decreases self.entries@.len() - i,
        {
            assert(self@[i as int] == self.entries@[i as int]@);
            if same_text(self.entries[i].agent.as_str(), agent) && same_text(
                self.entries[i].id.as_str(),
                id,
            ) {
                return Some(i);
            }
            i += 1;
        }
        None
    }
}

/// Whether a session is new, or newer than when it was last seen.
pub fn session_needs_update(known: &KnownSessions, agent: &str, id: &str, mtime: u64) -> (
    needed: bool)
    ensures
        needed == needs_update(known@, agent@, id@, mtime),
{
    match known.position(agent, id) {
        Some(i) => {
            assert(known@[i as int] == known.entries@[i as int]@);
            mtime > known.entries[i].mtime
        },
        None => true,
    }
}

/// The ids of the agent's known sessions that are not among the current ones.
pub open spec fn deleted_ids(
    known: Seq<KnownView>,
    agent: Seq<char>,
    current: Set<Seq<char>>,
) -> Seq<Seq<char>>
    decreases known.len(),
{
    if known.len() == 0 {
        seq![]
    } else {
        let before = deleted_ids(known.drop_last(), agent, current);
        if known.last().agent == agent && !current.contains(known.last().id) {
            before.push(known.last().id)
        } else {
            before
        }
    }
}

/// The ids of the agent's known sessions that are not among the current ones.
pub fn deleted_ids_for_agent(known: &KnownSessions, agent: &str, current: &StringSet) -> (
    deleted: Vec<String>)
    ensures
        texts(deleted@) == deleted_ids(known@, agent@, current@),
{
    let mut deleted: Vec<String> = Vec::new();
    let mut i: usize = 0;
    assert(texts(deleted@) =~= Seq::<Seq<char>>::empty());
    while i < known.entries.len()
        invariant
            i <= known.entries@.len(),
            texts(deleted@) == deleted_ids(known@.take(i as int), agent@, current@),
        decreases known.entries@.len() - i,
    {
        let ghost before = deleted@;
        assert(known@.take(i + 1).drop_last() =~= known@.take(i as int));
        assert(known@[i as int] == known.entries@[i as int]@);
        if same_text(known.entries[i].agent.as_str(), agent) && !current.contains(
            known.entries[i].id.as_str(),
        ) {
            deleted.push(known.entries[i].id.clone());
            assert(texts(deleted@) =~= texts(before).push(known@[i as int].id));
        }
        i += 1;
    }
    assert(known@.take(i as int) =~= known@);
    deleted
}

/// A deleted id is that of a known session of the agent which is not current, and
/// every such id is deleted.
pub proof fn law_deleted_ids(
    known: Seq<KnownView>,
    agent: Seq<char>,
    current: Set<Seq<char>>,
    id: Seq<char>,
)
    ensures
        deleted_ids(known, agent, current).contains(id) <==> (!current.contains(id) && exists|
            i: int,
        |
            0 <= i < known.len() && (#[trigger] known[i]).agent == agent && known[i].id == id),
    decreases known.len(),
{
    if known.len() > 0 {
        let rest = known.drop_last();
        law_deleted_ids(rest, agent, current, id);
        lemma_push_contains(deleted_ids(rest, agent, current), known.last().id, id);
        if exists|i: int|
            0 <= i < rest.len() && (#[trigger] rest[i]).agent == agent && rest[i].id == id {
            let i = choose|i: int|
                0 <= i < rest.len() && (#[trigger] rest[i]).agent == agent && rest[i].id == id;
            assert(known[i].agent == agent && known[i].id == id);
        }
        if exists|i: int|
            0 <= i < known.len() && (#[trigger] known[i]).agent == agent && known[i].id == id {
            let i = choose|i: int|
                0 <= i < known.len() && (#[trigger] known[i]).agent == agent && known[i].id == id;
            if i < known.len() - 1 {
                assert(rest[i].agent == agent && rest[i].id == id);
            }
        }
    }
}

/// What a scan found out: sessions that are new or changed, and ids of sessions
/// that are gone.
pub struct IncrementalScan {
    pub agent: &'static str,
    pub new_or_modified: Vec<Session>,
    pub deleted_ids: Vec<String>,
}

pub open spec fn session_views(sessions: Seq<Session>) -> Seq<SessionView> {
    sessions.map_values(|session: Session| session@)
}

/// Whoever is handed each new or changed session as soon as a scan finds it.
pub trait SessionCallback {
    /// The sessions that were handed out so far, in order.
    spec fn handed(&self) -> Seq<SessionView>;

    /// Takes a session that was found.
    fn on_session(&mut self, session: Session)
        ensures
            final(self).handed() == old(self).handed().push(session@),
    ;
}

/// Keeps the sessions that it is handed.
pub struct SessionLog {
    pub sessions: Vec<Session>,
}

impl SessionLog {
    pub fn new() -> (log: Self)
        ensures
            log.handed() == Seq::<SessionView>::empty(),
    {
        let log = SessionLog { sessions: Vec::new() };
        assert(session_views(log.sessions@) =~= Seq::<SessionView>::empty());
        log
    }
}

impl SessionCallback for SessionLog {
    open spec fn handed(&self) -> Seq<SessionView> {
        session_views(self.sessions@)
    }

    fn on_session(&mut self, session: Session) {
        let ghost before = self.sessions@;
        self.sessions.push(session);
        assert(session_views(self.sessions@) =~= session_views(before).push(session@));
    }
}

/// Passes over the sessions that it is handed.
pub struct IgnoreSessions {
    passed: Ghost<Seq<SessionView>>,
}

impl IgnoreSessions {
    pub fn new() -> (ignore: Self)
        ensures
            ignore.handed() == Seq::<SessionView>::empty(),
    {
        IgnoreSessions { passed: Ghost(Seq::empty()) }
    }
}

impl SessionCallback for IgnoreSessions {
    closed spec fn handed(&self) -> Seq<SessionView> {
        self.passed@
    }

    fn on_session(&mut self, session: Session) {
        self.passed = Ghost(self.passed@.push(session@));
    }
}

/// A scan that could not be made: nothing is new, nothing is gone.
pub fn failed_incremental_scan(agent: &'static str) -> (scan: IncrementalScan)
    ensures
        scan.agent@ == agent@,
        scan.new_or_modified@.len() == 0,
        scan.deleted_ids@.len() == 0,
{
    IncrementalScan { agent, new_or_modified: Vec::new(), deleted_ids: Vec::new() }
}

/// What reading a changed session file gave: a session, nothing that is a session
/// any more, or a failure that leaves what is known as it is.
pub enum IncrementalParse {
    Session(Session),
    Delete,
    Retain,
}

#[verifier::ext_equal]
pub enum ParseView {
    Session(SessionView),
    Delete,
    Retain,
}

impl View for IncrementalParse {
    type V = ParseView;

    open spec fn view(&self) -> ParseView {
        match self {
            IncrementalParse::Session(session) => ParseView::Session(session@),
            IncrementalParse::Delete => ParseView::Delete,
            IncrementalParse::Retain => ParseView::Retain,
        }
    }
}

/// What a transcript in lines gives: a session; nothing, where it was read but
/// holds none; a failure, where it could not be read.
pub open spec fn jsonl_outcome(readable: bool, session: Option<SessionView>) -> ParseView {
    match session {
        Some(s) => ParseView::Session(s),
        None => if readable {
            ParseView::Delete
        } else {
            ParseView::Retain
        },
    }
}

/// What a transcript in lines gives.
pub fn incremental_parse_jsonl(readable: bool, session: Option<Session>) -> (outcome:
    IncrementalParse)
    ensures
        outcome@ == jsonl_outcome(readable, crate::model::session_view(session)),
{
    match session {
        Some(session) => IncrementalParse::Session(session),
        None => if readable {
            IncrementalParse::Delete
        } else {
            IncrementalParse::Retain
        },
    }
}

/// A file that holds a session, with its modification time.
pub struct ScannedFile {
    pub path: FsPath,
    pub mtime: u64,
}

#[verifier::ext_equal]
pub struct ScannedView {
    pub path: FsPathView,
    pub mtime: u64,
}

impl View for ScannedFile {
    type V = ScannedView;

    open spec fn view(&self) -> ScannedView {
        ScannedView { path: self.path@, mtime: self.mtime }
    }
}

/// The state of a scan in progress.
#[verifier::ext_equal]
pub struct ScanView {
    pub current: Set<Seq<char>>,
    pub sessions: Seq<SessionView>,
    pub complete: bool,
}

/// A session with the modification time of its file.
pub open spec fn stamped(session: SessionView, mtime: u64) -> SessionView {
    SessionView { mtime, ..session }
}

/// What the next file does to a scan: an unchanged one is current; a changed one is
/// reported, or is no longer current, or stays as it is, as reading it tells.
pub open spec fn scan_step(
    known: Seq<KnownView>,
    agent: Seq<char>,
    state: ScanView,
    id: Seq<char>,
    mtime: u64,
    outcome: ParseView,
) -> ScanView {
    let current = state.current.insert(id);
    if !needs_update(known, agent, id, mtime) {
        ScanView { current, ..state }
    } else {
        match outcome {
            ParseView::Session(session) => ScanView {
                current,
                sessions: state.sessions.push(stamped(session, mtime)),
                ..state
            },
            ParseView::Delete => ScanView { current: state.current.remove(id), ..state },
            ParseView::Retain => ScanView { current, ..state },
        }
    }
}

/// The session that the next file reports, if any, as a list.
pub open spec fn step_reports(
    known: Seq<KnownView>,
    agent: Seq<char>,
    id: Seq<char>,
    mtime: u64,
    outcome: ParseView,
) -> Seq<SessionView> {
    match outcome {
        ParseView::Session(session) => if needs_update(known, agent, id, mtime) {
            seq![stamped(session, mtime)]
        } else {
            seq![]
        },
        _ => seq![],
    }
}

/// A scanned file, and what reading it gave if it had changed.
#[verifier::ext_equal]
pub struct ScanInput {
    pub id: Seq<char>,
    pub mtime: u64,
    pub outcome: ParseView,
}

/// The state of a scan after these files.
pub open spec fn scan_all(
    known: Seq<KnownView>,
    agent: Seq<char>,
    complete: bool,
    files: Seq<ScanInput>,
) -> ScanView
    decreases files.len(),
{
    if files.len() == 0 {
        ScanView { current: Set::empty(), sessions: seq![], complete }
    } else {
        let file = files.last();
        scan_step(
            known,
            agent,
            scan_all(known, agent, complete, files.drop_last()),
            file.id,
            file.mtime,
            file.outcome,
        )
    }
}

/// What a finished scan reports: only a complete one tells what is gone.
pub open spec fn scan_report(
    known: Seq<KnownView>,
    agent: Seq<char>,
    state: ScanView,
    scan: IncrementalScan,
) -> bool {
    &&& scan.agent@ == agent
    &&& session_views(scan.new_or_modified@) == state.sessions
    &&& texts(scan.deleted_ids@) == if state.complete {
        deleted_ids(known, agent, state.current)
    } else {
        seq![]
    }
}

/// A scan in progress.
pub struct ScanState {
    pub current: StringSet,
    pub sessions: Vec<Session>,
    pub complete: bool,
}

impl View for ScanState {
    type V = ScanView;

    open spec fn view(&self) -> ScanView {
        ScanView {
            current: self.current@,
            sessions: session_views(self.sessions@),
            complete: self.complete,
        }
    }
}

impl ScanState {
    /// A scan of files of which `complete` says whether they are all there are.
    pub fn begin(complete: bool) -> (state: Self)
        ensures
            state@ == (ScanView { current: Set::empty(), sessions: seq![], complete }),
    {
        let state = ScanState { current: StringSet::new(), sessions: Vec::new(), complete };
        assert(session_views(state.sessions@) =~= Seq::<SessionView>::empty());
        state
    }

    /// Reports a session with the modification time of its file, and hands it out.
    pub fn report<C: SessionCallback>(&mut self, session: Session, mtime: u64, on_session: &mut C)
        ensures
            final(self)@ == (ScanView {
                sessions: old(self)@.sessions.push(stamped(session@, mtime)),
                ..old(self)@
            }),
            final(on_session).handed() == old(on_session).handed().push(stamped(session@, mtime)),
    {
        let mut session = session;
        session.mtime = mtime;
        on_session.on_session(session.clone());
        let ghost before = self.sessions@;
        self.sessions.push(session);
        assert(session_views(self.sessions@) =~= session_views(before).push(session@));
    }

    /// Takes the next file into account, and hands out the session that it reports.
    /// `outcome` counts only if the file changed.
    pub fn step<C: SessionCallback>(
        &mut self,
        known: &KnownSessions,
        agent: &str,
        id: String,
        mtime: u64,
        outcome: IncrementalParse,
        on_session: &mut C,
    )
        ensures
            final(self)@ == scan_step(known@, agent@, old(self)@, id@, mtime, outcome@),
            final(on_session).handed() == old(on_session).handed() + step_reports(
                known@,
                agent@,
                id@,
                mtime,
                outcome@,
            ),
    {
        if !session_needs_update(known, agent, id.as_str(), mtime) {
            self.current.insert(id);
            return ;
        }
        match outcome {
            IncrementalParse::Session(session) => {
                self.current.insert(id);
                self.report(session, mtime, on_session);
            },
            IncrementalParse::Delete => {
                self.current.remove(id.as_str());
            },
            IncrementalParse::Retain => {
                self.current.insert(id);
            },
        }
    }

    /// What the scan reports.
    pub fn finish(self, known: &KnownSessions, agent: &'static str) -> (scan: IncrementalScan)
        ensures
            scan_report(known@, agent@, self@, scan),
    {
        let deleted_ids = if self.complete {
            deleted_ids_for_agent(known, agent, &self.current)
        } else {
            Vec::new()
        };
        assert(!self.complete ==> texts(deleted_ids@) =~= Seq::<Seq<char>>::empty());
        IncrementalScan { agent, new_or_modified: self.sessions, deleted_ids }
    }
}

/// A scanned file, and what reading it gave if it had changed.
pub struct ScanEntry {
    pub id: String,
    pub mtime: u64,
    pub outcome: IncrementalParse,
}

impl View for ScanEntry {
    type V = ScanInput;

    open spec fn view(&self) -> ScanInput {
        ScanInput { id: self.id@, mtime: self.mtime, outcome: self.outcome@ }
    }
}

pub open spec fn scan_inputs(entries: Seq<ScanEntry>) -> Seq<ScanInput> {
    entries.map_values(|entry: ScanEntry| entry@)
}

/// Scans files for sessions that are new, changed or gone, and hands out each new or
/// changed one as it is found. `None` is a scan that could not list its files; the flag
/// says whether the list is complete.
pub fn incremental_scan<C: SessionCallback>(
    agent: &'static str,
    known: &KnownSessions,
    scanned: Option<(Vec<ScanEntry>, bool)>,
    on_session: &mut C,
) -> (scan: IncrementalScan)
    ensures
        final(on_session).handed() == old(on_session).handed() + session_views(
            scan.new_or_modified@,
        ),
        match scanned {
            Some((files, complete)) => scan_report(
                known@,
                agent@,
                scan_all(known@, agent@, complete, scan_inputs(files@)),
                scan,
            ),
            None => scan.agent@ == agent@ && scan.new_or_modified@.len() == 0
                && scan.deleted_ids@.len() == 0,
        },
{
    let ghost start = on_session.handed();
    let (files, complete) = match scanned {
        Some(found) => found,
        None => {
            let scan = failed_incremental_scan(agent);
            assert(start + session_views(scan.new_or_modified@) =~= start);
            return scan;
        },
    };
    let ghost inputs = scan_inputs(files@);
    let mut files = files;
    let mut state = ScanState::begin(complete);
    let mut rest: Vec<ScanEntry> = Vec::new();
    let ghost all = files@;
    while files.len() > 0
        invariant
            files@ == all.take(files@.len() as int),
            files@.len() + rest@.len() == all.len(),
            forall|i: int| 0 <= i < rest@.len() ==> rest@[i] == all[all.len() - 1 - i],
        decreases files@.len(),
    {
        if let Some(entry) = files.pop() {
            rest.push(entry);
        }
    }
    let ghost mut done: int = 0;
    assert(inputs.take(0) =~= Seq::<ScanInput>::empty());
    assert(start + state@.sessions =~= start);
    while rest.len() > 0
        invariant
            0 <= done,
            done + rest@.len() == all.len(),
            inputs == scan_inputs(all),
            forall|i: int| 0 <= i < rest@.len() ==> rest@[i] == all[all.len() - 1 - i],
            state@ == scan_all(known@, agent@, complete, inputs.take(done)),
            on_session.handed() == start + state@.sessions,
        decreases rest@.len(),
    {
        if let Some(entry) = rest.pop() {
            assert(entry@ == inputs[done]);
            assert(inputs.take(done + 1).drop_last() =~= inputs.take(done));
            let ghost before = state@.sessions;
            state.step(known, agent, entry.id, entry.mtime, entry.outcome, on_session);
            assert(on_session.handed() =~= start + state@.sessions);
            proof {
                done = done + 1;
            }
        }
    }
    assert(inputs.take(done) =~= inputs);
    state.finish(known, agent)
}

/// What a scan reports is determined by its state: whoever is handed the sessions makes
/// no difference.
pub proof fn law_report_is_determined(
    known: Seq<KnownView>,
    agent: Seq<char>,
    state: ScanView,
    left: IncrementalScan,
    right: IncrementalScan,
)
    requires
        scan_report(known, agent, state, left),
        scan_report(known, agent, state, right),
    ensures
        left.agent@ == right.agent@,
        session_views(left.new_or_modified@) == session_views(right.new_or_modified@),
        texts(left.deleted_ids@) == texts(right.deleted_ids@),
{
}

/// A scan that is not complete deletes nothing, whatever its files hold.
pub proof fn law_incomplete_scan_deletes_nothing(
    known: Seq<KnownView>,
    agent: Seq<char>,
    files: Seq<ScanInput>,
    scan: IncrementalScan,
)
    requires
        scan_report(known, agent, scan_all(known, agent, false, files), scan),
    ensures
        scan.deleted_ids@.len() == 0,
{
    lemma_scan_keeps_complete(known, agent, false, files);
    assert(texts(scan.deleted_ids@).len() == 0);
}

proof fn lemma_scan_keeps_complete(
    known: Seq<KnownView>,
    agent: Seq<char>,
    complete: bool,
    files: Seq<ScanInput>,
)
    ensures
        scan_all(known, agent, complete, files).complete == complete,
    decreases files.len(),
{
    if files.len() > 0 {
        lemma_scan_keeps_complete(known, agent, complete, files.drop_last());
    }
}

proof fn lemma_current_was_scanned(
    known: Seq<KnownView>,
    agent: Seq<char>,
    complete: bool,
    files: Seq<ScanInput>,
    id: Seq<char>,
)
    requires
        scan_all(known, agent, complete, files).current.contains(id),
    ensures
        exists|i: int| 0 <= i < files.len() && (#[trigger] files[i]).id == id,
    decreases files.len(),
{
    if files.len() > 0 {
        if files.last().id == id {
            assert(files[files.len() - 1].id == id);
        } else {
            lemma_current_was_scanned(known, agent, complete, files.drop_last(), id);
            let i = choose|i: int|
                0 <= i < files.drop_last().len() && (#[trigger] files.drop_last()[i]).id == id;
            assert(files[i].id == id);
        }
    }
}

/// A complete scan reports every known session of the agent as deleted that none of
/// its files stands for.
pub proof fn law_complete_scan_deletes_the_missing(
    known: Seq<KnownView>,
    agent: Seq<char>,
    files: Seq<ScanInput>,
    scan: IncrementalScan,
    k: int,
)
    requires
        scan_report(known, agent, scan_all(known, agent, true, files), scan),
        0 <= k < known.len(),
        known[k].agent == agent,
        forall|i: int| 0 <= i < files.len() ==> (#[trigger] files[i]).id != known[k].id,
    ensures
        texts(scan.deleted_ids@).contains(known[k].id),
{
    let id = known[k].id;
    let state = scan_all(known, agent, true, files);
    lemma_scan_keeps_complete(known, agent, true, files);
    if state.current.contains(id) {
        lemma_current_was_scanned(known, agent, true, files, id);
    }
    law_deleted_ids(known, agent, state.current, id);
}

/// Where ids are distinct, a scanned file is current unless it changed and was found
/// to hold no session any more.
pub proof fn law_scanned_files_are_current(
    known: Seq<KnownView>,
    agent: Seq<char>,
    complete: bool,
    files: Seq<ScanInput>,
    i: int,
)
    requires
        forall|j: int, k: int|
            0 <= j < k < files.len() ==> #[trigger] files[j].id != #[trigger] files[k].id,
        0 <= i < files.len(),
    ensures
        scan_all(known, agent, complete, files).current.contains(files[i].id) <==> !(needs_update(
            known,
            agent,
            files[i].id,
            files[i].mtime,
        ) && files[i].outcome == ParseView::Delete),
    decreases files.len(),
{
    let rest = files.drop_last();
    if i < files.len() - 1 {
        assert(rest[i] == files[i]);
        assert forall|j: int, k: int| 0 <= j < k < rest.len() implies #[trigger] rest[j].id
            != #[trigger] rest[k].id by {
            assert(rest[j] == files[j] && rest[k] == files[k]);
        }
        law_scanned_files_are_current(known, agent, complete, rest, i);
        assert(files.last().id != files[i].id);
    }
}

/// Where ids are distinct, no session is deleted whose file was scanned, unless the
/// file changed and was found to hold no session any more.
pub proof fn law_scanned_session_is_not_deleted(
    known: Seq<KnownView>,
    agent: Seq<char>,
    complete: bool,
    files: Seq<ScanInput>,
    i: int,
    scan: IncrementalScan,
)
    requires
        forall|j: int, k: int|
            0 <= j < k < files.len() ==> #[trigger] files[j].id != #[trigger] files[k].id,
        0 <= i < files.len(),
        scan_report(known, agent, scan_all(known, agent, complete, files), scan),
        !needs_update(known, agent, files[i].id, files[i].mtime) || files[i].outcome
            != ParseView::Delete,
    ensures
        !texts(scan.deleted_ids@).contains(files[i].id),
{
    let state = scan_all(known, agent, complete, files);
    law_scanned_files_are_current(known, agent, complete, files, i);
    law_deleted_ids(known, agent, state.current, files[i].id);
}

/// A scan keeps the order of its files and reports only changed ones: with every
/// file unchanged, nothing is new.
pub proof fn law_unchanged_files_report_nothing(
    known: Seq<KnownView>,
    agent: Seq<char>,
    complete: bool,
    files: Seq<ScanInput>,
)
    requires
        forall|i: int|
            0 <= i < files.len() ==> !needs_update(
                known,
                agent,
                (#[trigger] files[i]).id,
                files[i].mtime,
            ),
    ensures
        scan_all(known, agent, complete, files).sessions == Seq::<SessionView>::empty(),
        forall|i: int|
            0 <= i < files.len() ==> scan_all(known, agent, complete, files).current.contains(
                (#[trigger] files[i]).id,
            ),
    decreases files.len(),
{
    if files.len() > 0 {
        let rest = files.drop_last();
        assert forall|i: int| 0 <= i < rest.len() implies !needs_update(
            known,
            agent,
            (#[trigger] rest[i]).id,
            rest[i].mtime,
        ) by {
            assert(rest[i] == files[i]);
        }
        law_unchanged_files_report_nothing(known, agent, complete, rest);
        assert(!needs_update(known, agent, files.last().id, files.last().mtime));
        assert forall|i: int| 0 <= i < files.len() implies scan_all(
            known,
            agent,
            complete,
            files,
        ).current.contains((#[trigger] files[i]).id) by {
            if i < files.len() - 1 {
                assert(rest[i] == files[i]);
            }
        }
    }
}

/// A database that could not be read.
#[derive(Debug, Clone, Copy, PartialEq, Eq, Structural)]
pub struct StoreError;

/// The views of what a database gave.
pub open spec fn store_result(result: Result<Option<Session>, StoreError>) -> Result<
    Option<SessionView>,
    StoreError,
> {
    match result {
        Ok(session) => Ok(session_view(session)),
        Err(error) => Err(error),
    }
}

/// The files of sessions by id, and whether they are all there are.
pub struct SessionFiles {
    pub files: StringMap<ScannedFile>,
    pub complete: bool,
}

#[verifier::ext_equal]
pub struct SessionFilesView {
    pub files: Seq<(Seq<char>, ScannedView)>,
    pub complete: bool,
}

impl View for SessionFiles {
    type V = SessionFilesView;

    open spec fn view(&self) -> SessionFilesView {
        SessionFilesView { files: self.files@, complete: self.complete }
    }
}

pub open spec fn session_files_view(found: Option<SessionFiles>) -> Option<SessionFilesView> {
    match found {
        Some(f) => Some(f@),
        None => None,
    }
}

/// What a directory holds, where it is there: entries, some of which may have
/// failed, or nothing that could be listed.
pub enum Listing<T> {
    Missing,
    Unreadable,
    Entries(Vec<Option<T>>),
}

/// The entries of a directory that is there.
pub open spec fn listed<T>(listing: Listing<T>) -> Seq<Option<T>> {
    match listing {
        Listing::Entries(entries) => entries@,
        _ => seq![],
    }
}

/// An entry failed if the last one did, or one before it.
pub proof fn lemma_contains_none<T>(entries: Seq<Option<T>>)
    requires
        entries.len() > 0,
    ensures
        entries.contains(None) <==> (entries.last() is None || entries.drop_last().contains(None)),
{
    let rest = entries.drop_last();
    if entries.contains(None) {
        let i = choose|i: int| 0 <= i < entries.len() && entries[i] is None;
        if i < rest.len() {
            assert(rest[i] is None);
        }
    }
    if rest.contains(None) {
        let i = choose|i: int| 0 <= i < rest.len() && rest[i] is None;
        assert(entries[i] is None);
    }
    if entries.last() is None {
        assert(entries[entries.len() - 1] is None);
    }
}

/// How many files a store consists of, and how many bytes they hold.
#[derive(Debug, Clone, Copy)]
pub struct FileStats {
    pub files: usize,
    pub bytes: u64,
}

/// The name of a file. What of it is not text is shown by replacement characters, and
/// the name is then not exact.
#[derive(Debug)]
pub struct FileName {
    pub text: String,
    pub exact: bool,
}

#[verifier::ext_equal]
pub struct FileNameView {
    pub text: Seq<char>,
    pub exact: bool,
}

impl View for FileName {
    type V = FileNameView;

    open spec fn view(&self) -> FileNameView {
        FileNameView { text: self.text@, exact: self.exact }
    }
}

/// A file or directory that was met, by its name, which is empty where there is none,
/// and what it takes up as a store.
#[derive(Debug)]
pub struct NamedStats {
    pub name: FileName,
    pub stats: FileStats,
}

/// How many files all stores consist of.
pub open spec fn total_files(stats: Seq<FileStats>) -> nat
    decreases stats.len(),
{
    if stats.len() == 0 {
        0
    } else {
        total_files(stats.drop_last()) + stats.last().files as nat
    }
}

/// How many bytes all stores hold.
pub open spec fn total_bytes(stats: Seq<FileStats>) -> nat
    decreases stats.len(),
{
    if stats.len() == 0 {
        0
    } else {
        total_bytes(stats.drop_last()) + stats.last().bytes as nat
    }
}

proof fn lemma_totals_grow(stats: Seq<FileStats>, i: int)
    requires
        0 <= i <= stats.len(),
    ensures
        total_files(stats.take(i)) <= total_files(stats),
        total_bytes(stats.take(i)) <= total_bytes(stats),
    decreases stats.len() - i,
{
    if i < stats.len() {
        lemma_totals_grow(stats, i + 1);
        assert(stats.take(i + 1).drop_last() =~= stats.take(i));
    } else {
        assert(stats.take(i) =~= stats);
    }
}

/// Adds up what stores take up.
pub fn sum_stats(stats: &Vec<FileStats>) -> (sum: FileStats)
    requires
        total_files(stats@) <= usize::MAX,
        total_bytes(stats@) <= u64::MAX,
    ensures
        sum.files == total_files(stats@),
        sum.bytes == total_bytes(stats@),
{
    let mut sum = FileStats { files: 0, bytes: 0 };
    let mut i: usize = 0;
    while i < stats.len()
        invariant
            i <= stats@.len(),
            total_files(stats@) <= usize::MAX,
            total_bytes(stats@) <= u64::MAX,
            sum.files == total_files(stats@.take(i as int)),
            sum.bytes == total_bytes(stats@.take(i as int)),
        decreases stats@.len() - i,
    {
        assert(stats@.take(i + 1).drop_last() =~= stats@.take(i as int));
        proof {
            lemma_totals_grow(stats@, i + 1);
        }
        sum = FileStats { files: sum.files + stats[i].files, bytes: sum.bytes + stats[i].bytes };
        i += 1;
    }
    assert(stats@.take(i as int) =~= stats@);
    sum
}

pub open spec fn str_texts(parts: Seq<&str>) -> Seq<Seq<char>> {
    parts.map_values(|part: &str| part@)
}

/// The command that resumes a session: the program, its flags for skipping
/// permissions if wanted, its arguments for resuming, and the session's id.
pub open spec fn resume_words(
    program: Seq<char>,
    yolo_flags: Seq<Seq<char>>,
    yolo: bool,
    resume_args: Seq<Seq<char>>,
    id: Seq<char>,
) -> Seq<Seq<char>> {
    seq![program] + (if yolo {
        yolo_flags
    } else {
        seq![]
    }) + resume_args + seq![id]
}

fn push_all(words: &mut Vec<String>, more: &[&str])
    ensures
        texts(final(words)@) == texts(old(words)@) + str_texts(more@),
{
    let mut i: usize = 0;
    let ghost before = texts(words@);
    assert(str_texts(more@).take(0) =~= Seq::<Seq<char>>::empty());
    assert(before + str_texts(more@).take(0) =~= before);
    while i < more.len()
        invariant
            i <= more@.len(),
            texts(words@) == before + str_texts(more@).take(i as int),
        decreases more@.len() - i,
    {
        let ghost old_words = words@;
        words.push(more[i].to_owned());
        assert(texts(words@) =~= texts(old_words).push(more@[i as int]@));
        assert(str_texts(more@).take(i + 1) =~= str_texts(more@).take(i as int).push(
            more@[i as int]@,
        ));
        assert((before + str_texts(more@).take(i as int)).push(more@[i as int]@) =~= before
            + str_texts(more@).take(i + 1));
        i += 1;
    }
    assert(str_texts(more@).take(i as int) =~= str_texts(more@));
}

/// The command that resumes a session.
pub fn build_resume_command(
    program: &str,
    yolo_flags: &[&str],
    yolo: bool,
    resume_args: &[&str],
    id: &str,
) -> (command: Vec<String>)
    ensures
        texts(command@) == resume_words(
            program@,
            str_texts(yolo_flags@),
            yolo,
            str_texts(resume_args@),
            id@,
        ),
{
    let mut command: Vec<String> = Vec::new();
    command.push(program.to_owned());
    assert(texts(command@) =~= seq![program@]);
    if yolo {
        push_all(&mut command, yolo_flags);
    } else {
        assert(texts(command@) =~= texts(command@) + Seq::<Seq<char>>::empty());
    }
    push_all(&mut command, resume_args);
    let ghost before = command@;
    command.push(id.to_owned());
    assert(texts(command@) =~= texts(before) + seq![id@]);
    command
}

/// A session that is not known needs to be read, and a known one only when it is newer
/// than it was, whichever of several memories of it comes first.
pub proof fn law_needs_update(
    known: Seq<KnownView>,
    agent: Seq<char>,
    id: Seq<char>,
    mtime: u64,
    k: int,
)
    requires
        0 <= k <= known.len(),
        k < known.len() ==> known[k].agent == agent && known[k].id == id,
        forall|i: int|
            0 <= i < k ==> (#[trigger] known[i]).agent != agent || known[i].id != id,
    ensures
        needs_update(known, agent, id, mtime) <==> (k < known.len() ==> mtime > known[k].mtime),
{
    lemma_known_from(known, agent, id, 0);
}

/// Deleted ids stand in the order in which the sessions became known.
pub proof fn law_deleted_ids_keep_their_order(
    left: Seq<KnownView>,
    right: Seq<KnownView>,
    agent: Seq<char>,
    current: Set<Seq<char>>,
)
    ensures
        deleted_ids(left + right, agent, current) == deleted_ids(left, agent, current)
            + deleted_ids(right, agent, current),
        left.len() == 1 ==> deleted_ids(left, agent, current).len() <= 1,
    decreases right.len(),
{
    reveal_with_fuel(deleted_ids, 2);
    let all = left + right;
    if right.len() == 0 {
        assert(all =~= left);
    } else {
        law_deleted_ids_keep_their_order(left, right.drop_last(), agent, current);
        assert(all.drop_last() =~= left + right.drop_last());
        assert(all.last() == right.last());
    }
    assert(deleted_ids(all, agent, current) =~= deleted_ids(left, agent, current) + deleted_ids(
        right,
        agent,
        current,
    ));
}

/// A scan reports what its files report, in their order.
pub proof fn law_files_report_in_order(
    known: Seq<KnownView>,
    agent: Seq<char>,
    complete: bool,
    files: Seq<ScanInput>,
    last: ScanInput,
)
    ensures
        scan_all(known, agent, complete, files.push(last)).sessions == scan_all(
            known,
            agent,
            complete,
            files,
        ).sessions + step_reports(known, agent, last.id, last.mtime, last.outcome),
        scan_all(known, agent, complete, seq![]).sessions.len() == 0,
{
    assert(files.push(last).drop_last() =~= files);
    let before = scan_all(known, agent, complete, files).sessions;
    assert(scan_all(known, agent, complete, files.push(last)).sessions =~= before + step_reports(
        known,
        agent,
        last.id,
        last.mtime,
        last.outcome,
    ));
}

/// A file reports its session exactly if it changed and holds one: as it was read, with
/// the modification time of the file.
pub proof fn law_changed_file_reports_its_session(
    known: Seq<KnownView>,
    agent: Seq<char>,
    id: Seq<char>,
    mtime: u64,
    session: SessionView,
)
    ensures
        step_reports(known, agent, id, mtime, ParseView::Delete).len() == 0,
        step_reports(known, agent, id, mtime, ParseView::Retain).len() == 0,
        !needs_update(known, agent, id, mtime) ==> step_reports(
            known,
            agent,
            id,
            mtime,
            ParseView::Session(session),
        ).len() == 0,
        needs_update(known, agent, id, mtime) ==> {
            let reports = step_reports(known, agent, id, mtime, ParseView::Session(session));
            &&& reports.len() == 1
            &&& reports[0].mtime == mtime
            &&& reports[0].id == session.id && reports[0].agent == session.agent
            &&& reports[0].title == session.title && reports[0].directory == session.directory
            &&& reports[0].timestamp == session.timestamp
            &&& reports[0].content == session.content
            &&& reports[0].message_count == session.message_count
        },
{
}

/// A session that a transcript holds is reported; one that was read and holds none tells
/// that it is gone, and one that could not be read tells nothing.
pub proof fn law_transcript_outcome(readable: bool, session: Option<SessionView>)
    ensures
        session matches Some(s) ==> jsonl_outcome(readable, session) == ParseView::Session(s),
        session is None ==> (jsonl_outcome(readable, session) is Delete <==> readable),
        session is None ==> (jsonl_outcome(readable, session) is Retain <==> !readable),
{
}

/// What stores take up together is what they take up one by one.
pub proof fn law_totals_add_up(left: Seq<FileStats>, right: Seq<FileStats>)
    ensures
        total_files(left + right) == total_files(left) + total_files(right),
        total_bytes(left + right) == total_bytes(left) + total_bytes(right),
        left.len() == 1 ==> total_files(left) == left[0].files && total_bytes(left)
            == left[0].bytes,
    decreases right.len(),
{
    reveal_with_fuel(total_files, 2);
    reveal_with_fuel(total_bytes, 2);
    let all = left + right;
    if right.len() == 0 {
        assert(all =~= left);
    } else {
        law_totals_add_up(left, right.drop_last());
        assert(all.drop_last() =~= left + right.drop_last());
        assert(all.last() == right.last());
    }
}

/// A command that resumes a session begins with the program and ends with the id; the
/// arguments for resuming stand before the id, and the flags for skipping permissions
/// behind the program, exactly if they are wanted.
pub proof fn law_resume_command(
    program: Seq<char>,
    yolo_flags: Seq<Seq<char>>,
    yolo: bool,
    resume_args: Seq<Seq<char>>,
    id: Seq<char>,
)
    ensures
        ({
            let words = resume_words(program, yolo_flags, yolo, resume_args, id);
            let flags = if yolo {
                yolo_flags.len() as int
            } else {
                0
            };
            &&& words.len() == 1 + flags + resume_args.len() + 1
            &&& words[0] == program
            &&& words.last() == id
            &&& forall|i: int| 0 <= i < flags ==> #[trigger] words[1 + i] == yolo_flags[i]
            &&& words.subrange(1 + flags, words.len() - 1) == resume_args
        }),
{
    let words = resume_words(program, yolo_flags, yolo, resume_args, id);
    let flags = if yolo {
        yolo_flags.len() as int
    } else {
        0
    };
    assert(words.subrange(1 + flags, words.len() - 1) =~= resume_args);
}

} // verus!
