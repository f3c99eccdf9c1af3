use vstd::prelude::*;

use crate::errors::TerminalError;
use crate::events::TerminalOutput;
use crate::events::TerminalSession;
use crate::pty::builder_cwd;
use crate::pty::builder_env;
use crate::pty::builder_program;
use crate::pty::clone_reader;
use crate::pty::command_cwd;
use crate::pty::command_env;
use crate::pty::decode_lossy;
use crate::pty::lossy_text;
use crate::pty::new_command;
use crate::pty::open_pty;
use crate::pty::read_chunk;
use crate::pty::resize_master;
use crate::pty::spawn_command;
use crate::pty::take_writer;
use crate::pty::write_all_bytes;
use crate::pty::ChildEnd;
use crate::pty::MasterEnd;
use crate::pty::ReadOutcome;
use crate::pty::ReaderEnd;
use crate::pty::WriterEnd;
use crate::registry::distinct_seq;
use crate::registry::Registry;
use crate::shell_env::build_env_pairs;
use crate::shell_env::contains_string;
use crate::shell_env::lemma_pairs_view_props;
use crate::shell_env::pairs_view;
use crate::shell_env::strings_view;
use crate::shell_env::select_shell;
use crate::shell_env::SessionConfig;

verus! {

/// Relies on uuid::Uuid::new_v4 and its hyphenated rendering: a fresh random
/// 128-bit identifier rendered as 36 characters. Nothing about its value can
/// be promised; the registry checks freshness itself.
#[verifier::external_body]
fn fresh_identifier() -> (r: String)
    ensures
        r@.len() == 36,
{
    uuid::Uuid::new_v4().to_string()
}

/// Everything a successful creation hands back: the session identifier for
/// the caller, and the handles the two background tasks own from the first
/// instant.
pub struct CreatedSession {
    /// The session, carrying the fresh identifier.
    pub session: TerminalSession,
    /// The byte source the output pump reads from.
    pub reader: ReaderEnd,
    /// The process handle the exit reaper waits on.
    pub child: ChildEnd,
}

/// The session manager: two registries of live handles keyed by session
/// identifier, plus the record of every identifier ever issued.
pub struct TerminalState {
    sessions: Registry<MasterEnd>,
    writers: Registry<WriterEnd>,
    issued: Vec<String>,
}

/// The environment map after applying the pairs in order; a later pair for
/// the same key overwrites an earlier one.
pub open spec fn apply_env_spec(
    m: Map<Seq<char>, Seq<char>>,
    pairs: Seq<(Seq<char>, Seq<char>)>,
) -> Map<Seq<char>, Seq<char>>
    decreases pairs.len(),
{
    if pairs.len() == 0 {
        m
    } else {
        apply_env_spec(m, pairs.drop_last()).insert(pairs.last().0, pairs.last().1)
    }
}

/// Apply the built environment to a command, pair by pair.
fn apply_env(cmd: &mut portable_pty::CommandBuilder, pairs: &Vec<(String, String)>)
    ensures
        builder_env(*final(cmd)) == apply_env_spec(builder_env(*old(cmd)), pairs_view(pairs@)),
        builder_program(*final(cmd)) == builder_program(*old(cmd)),
        builder_cwd(*final(cmd)) == builder_cwd(*old(cmd)),
{
    let n: usize = pairs.len();
    let mut i: usize = 0;
    proof {
        lemma_pairs_view_props(pairs@);
        assert(pairs_view(pairs@).take(0) =~= Seq::<(Seq<char>, Seq<char>)>::empty());
    }
    while i < n
        invariant
            i <= n,
            n == pairs@.len(),
            builder_env(*cmd) == apply_env_spec(builder_env(*old(cmd)), pairs_view(pairs@).take(i as int)),
            builder_program(*cmd) == builder_program(*old(cmd)),
            builder_cwd(*cmd) == builder_cwd(*old(cmd)),
        decreases n - i,
    {
        proof {
            lemma_pairs_view_props(pairs@);
            assert(pairs_view(pairs@).take(i + 1).drop_last() =~= pairs_view(pairs@).take(i as int));
            assert(pairs_view(pairs@).take(i + 1).last() == (pairs@[i as int].0@, pairs@[i as int].1@));
        }
        command_env(cmd, pairs[i].0.as_str(), pairs[i].1.as_str());
        i = i + 1;
    }
    proof {
        assert(pairs_view(pairs@).take(n as int) =~= pairs_view(pairs@));
    }
}

impl TerminalState {
    /// The map from identifier to registered master handle.
    pub closed spec fn sessions_model(self) -> Map<Seq<char>, MasterEnd> {
        self.sessions.model()
    }

    /// The map from identifier to registered writer handle.
    pub closed spec fn writers_model(self) -> Map<Seq<char>, WriterEnd> {
        self.writers.model()
    }

    /// The identifiers of the sessions currently registered.
    pub open spec fn live_ids(self) -> Set<Seq<char>> {
        self.sessions_model().dom()
    }

    /// Every identifier ever issued, in issue order.
    pub closed spec fn issued_ids(self) -> Seq<Seq<char>> {
        strings_view(self.issued@)
    }

    /// The identifiers of the registered sessions, in registration order.
    pub closed spec fn session_id_seq(self) -> Seq<Seq<char>> {
        self.sessions.ids()
    }

    /// Well-formedness: both registries are well formed, they register
    /// exactly the same identifiers, no identifier was ever issued twice,
    /// and every live identifier was issued.
    pub closed spec fn wf(self) -> bool {
        &&& self.sessions.wf()
        &&& self.writers.wf()
        &&& self.sessions.model().dom() == self.writers.model().dom()
        &&& distinct_seq(self.issued_ids())
        &&& forall|k: Seq<char>| #[trigger] self.live_ids().contains(k)
            ==> self.issued_ids().contains(k)
    }

    /// An empty manager: no sessions, nothing issued.
    pub fn new() -> (r: TerminalState)
        ensures
            r.wf(),
            r.live_ids() == Set::<Seq<char>>::empty(),
            r.issued_ids() == Seq::<Seq<char>>::empty(),
            r.writers_model() == Map::<Seq<char>, WriterEnd>::empty(),
            r.sessions_model() == Map::<Seq<char>, MasterEnd>::empty(),
    {
        let r = TerminalState {
            sessions: Registry::<MasterEnd>::new(),
            writers: Registry::<WriterEnd>::new(),
            issued: Vec::new(),
        };
        proof {
            assert(r.live_ids() =~= Set::<Seq<char>>::empty());
        }
        r
    }

    /// Create a session: pick a fresh identifier, build the shell command
    /// and its environment, allocate a PTY and spawn the shell on it,
    /// extract the reader and writer, and register both handles. On any
    /// failure nothing is registered and nothing is issued.
    pub fn create_terminal_session(&mut self, cfg: &SessionConfig) -> (r: Result<
        CreatedSession,
        TerminalError,
    >)
        requires
            old(self).wf(),
        ensures
            final(self).wf(),
            r matches Err(e) ==> e == TerminalError::SpawnError && *final(self) == *old(self),
            r matches Ok(c) ==> {
                &&& c.session.id@.len() == 36
                &&& !old(self).issued_ids().contains(c.session.id@)
                &&& !old(self).live_ids().contains(c.session.id@)
                &&& final(self).issued_ids() == old(self).issued_ids().push(c.session.id@)
                &&& final(self).live_ids() == old(self).live_ids().insert(c.session.id@)
                &&& final(self).sessions_model().remove(c.session.id@) == old(
                    self,
                ).sessions_model()
                &&& final(self).writers_model().remove(c.session.id@) == old(self).writers_model()
            },
    {
        let id = fresh_identifier();
        if contains_string(&self.issued, &id) {
            return Err(TerminalError::SpawnError);
        }
        let shell = select_shell(&cfg.shell_override);
        let pairs = build_env_pairs(cfg);
        let mut cmd = new_command(shell.as_str());
        apply_env(&mut cmd, &pairs);
        if let Some(home) = &cfg.home {
            command_cwd(&mut cmd, home.as_str());
        }
        let pair = match open_pty(24, 80) {
            Ok(p) => p,
            Err(_) => {
                return Err(TerminalError::SpawnError);
            },
        };
        let master = pair.0;
        let slave = pair.1;
        let child = match spawn_command(&slave, cmd) {
            Ok(c) => c,
            Err(_) => {
                return Err(TerminalError::SpawnError);
            },
        };
        let reader = match clone_reader(&master) {
            Ok(rd) => rd,
            Err(_) => {
                return Err(TerminalError::SpawnError);
            },
        };
        let writer = match take_writer(&master) {
            Ok(w) => w,
            Err(_) => {
                return Err(TerminalError::SpawnError);
            },
        };
        proof {
            self.sessions.lemma_dom();
            self.writers.lemma_dom();
            assert(!self.live_ids().contains(id@));
            assert(!self.writers.model().dom().contains(id@));
        }
        let ghost before = *self;
        self.sessions.insert(id.clone(), master);
        self.writers.insert(id.clone(), writer);
        let ghost issued0 = self.issued@;
        self.issued.push(id.clone());
        proof {
            assert(self.issued@.drop_last() =~= issued0);
            assert(self.issued_ids() == strings_view(issued0).push(id@));
            assert forall|a: int, b: int|
                0 <= a < b < self.issued_ids().len() implies self.issued_ids()[a]
                != self.issued_ids()[b] by {
                if b == self.issued_ids().len() - 1 {
                    assert(strings_view(issued0).contains(strings_view(issued0)[a]));
                }
            }
            assert(self.live_ids() =~= before.live_ids().insert(id@));
            assert(self.sessions.model().dom() =~= self.writers.model().dom());
            assert(self.sessions_model().remove(id@) =~= before.sessions_model());
            assert(self.writers_model().remove(id@) =~= before.writers_model());
            assert forall|k: Seq<char>| #[trigger] self.live_ids().contains(k) implies self.issued_ids().contains(k) by {
                if k == id@ {
                    assert(self.issued_ids()[self.issued_ids().len() - 1] == id@);
                } else {
                    assert(before.live_ids().contains(k));
                    let j = choose|j: int|
                        0 <= j < before.issued_ids().len() && before.issued_ids()[j] == k;
                    assert(self.issued_ids()[j] == k);
                }
            }
        }
        Ok(CreatedSession { session: TerminalSession { id }, reader, child })
    }

    /// Write the given text to the session's PTY: all of it, unbuffered. An
    /// unknown identifier is reported and nothing changes; an underlying
    /// failure is reported and the session stays registered.
    pub fn write_to_terminal(&mut self, session_id: &String, data: &String) -> (r: Result<
        (),
        TerminalError,
    >)
        requires
            old(self).wf(),
        ensures
            final(self).wf(),
            (r == Err::<(), TerminalError>(TerminalError::SessionNotFound)) <==> !old(
                self,
            ).live_ids().contains(session_id@),
            !old(self).live_ids().contains(session_id@) ==> *final(self) == *old(self),
            old(self).live_ids().contains(session_id@) ==> (r is Ok || r == Err::<
                (),
                TerminalError,
            >(TerminalError::WriteError)),
            final(self).live_ids() == old(self).live_ids(),
            final(self).issued_ids() == old(self).issued_ids(),
            final(self).sessions_model() == old(self).sessions_model(),
            final(self).writers_model().dom() == old(self).writers_model().dom(),
            forall|k: Seq<char>|
                k != session_id@ && old(self).writers_model().dom().contains(k)
                    ==> final(self).writers_model()[k] == old(self).writers_model()[k],
    {
        let ghost before = *self;
        match self.writers.take_by_id(session_id) {
            None => {
                proof {
                    assert(before.live_ids() =~= before.writers_model().dom());
                }
                Err(TerminalError::SessionNotFound)
            },
            Some(mut w) => {
                let res = write_all_bytes(&mut w, data.as_str().as_bytes());
                proof {
                    self.writers.lemma_dom();
                }
                self.writers.insert(session_id.clone(), w);
                proof {
                    assert(before.live_ids() =~= before.writers_model().dom());
                    assert(self.writers_model().dom() =~= before.writers_model().dom());
                    assert(self.sessions.model().dom() =~= self.writers.model().dom());
                }
                match res {
                    Ok(_) => Ok(()),
                    Err(_) => Err(TerminalError::WriteError),
                }
            },
        }
    }

    /// Resize the session's PTY. An unknown identifier is reported; an
    /// underlying failure is reported and nothing else is affected. No
    /// registry state changes either way.
    pub fn resize_terminal(&self, session_id: &String, cols: u16, rows: u16) -> (r: Result<
        (),
        TerminalError,
    >)
        requires
            self.wf(),
        ensures
            (r == Err::<(), TerminalError>(TerminalError::SessionNotFound)) <==> !self.live_ids().contains(session_id@),
            self.live_ids().contains(session_id@) ==> (r is Ok || r == Err::<(), TerminalError>(
                TerminalError::ResizeError,
            )),
    {
        match self.sessions.get_by_id(session_id) {
            None => Err(TerminalError::SessionNotFound),
            Some(master) => {
                match resize_master(master, cols, rows) {
                    Ok(_) => Ok(()),
                    Err(_) => Err(TerminalError::ResizeError),
                }
            },
        }
    }

    /// Close a session: drop both registered handles, if any. Never fails;
    /// closing an identifier that is absent, already closed or already
    /// reaped changes nothing.
    pub fn close_terminal_session(&mut self, session_id: &String)
        requires
            old(self).wf(),
        ensures
            final(self).wf(),
            final(self).sessions_model() == old(self).sessions_model().remove(session_id@),
            final(self).writers_model() == old(self).writers_model().remove(session_id@),
            final(self).live_ids() == old(self).live_ids().remove(session_id@),
            final(self).issued_ids() == old(self).issued_ids(),
            !old(self).live_ids().contains(session_id@) ==> *final(self) == *old(self),
    {
        let ghost before = *self;
        self.sessions.remove_id(session_id);
        self.writers.remove_id(session_id);
        proof {
            assert(before.live_ids() =~= before.writers_model().dom());
            assert(self.live_ids() =~= before.live_ids().remove(session_id@));
            assert(self.sessions.model().dom() =~= self.writers.model().dom());
            assert forall|k: Seq<char>| #[trigger] self.live_ids().contains(k) implies self.issued_ids().contains(k) by {
                assert(before.live_ids().contains(k));
            }
        }
    }

    /// A snapshot of the identifiers of the currently registered sessions,
    /// in registration order: exactly the live identifiers.
    pub fn list_terminal_sessions(&self) -> (r: Vec<String>)
        requires
            self.wf(),
        ensures
            r@.len() == self.session_id_seq().len(),
            forall|i: int| 0 <= i < r@.len() ==> r@[i]@ == self.session_id_seq()[i],
            forall|i: int, j: int| 0 <= i < j < r@.len() ==> r@[i]@ != r@[j]@,
            forall|k: Seq<char>| #[trigger] self.live_ids().contains(k) <==> exists|i: int|
                0 <= i < r@.len() && r@[i]@ == k,
    {
        let r = self.sessions.keys();
        proof {
            self.sessions.lemma_dom();
            assert forall|i: int, j: int| 0 <= i < j < r@.len() implies r@[i]@ != r@[j]@ by {
                assert(self.sessions.ids()[i] != self.sessions.ids()[j]);
            }
            assert forall|k: Seq<char>| #[trigger] self.live_ids().contains(k) implies exists|i: int|
                0 <= i < r@.len() && r@[i]@ == k by {
                let j = choose|j: int|
                    0 <= j < self.sessions.ids().len() && self.sessions.ids()[j] == k;
                assert(r@[j]@ == k);
            }
            assert forall|k: Seq<char>|
                (exists|i: int| 0 <= i < r@.len() && r@[i]@ == k) implies #[trigger] self.live_ids().contains(k) by {
                let j = choose|j: int| 0 <= j < r@.len() && r@[j]@ == k;
                assert(self.sessions.ids()[j] == k);
                assert(self.sessions.ids().contains(k));
            }
        }
        r
    }

    /// Registry cleanup after the session's process terminated: remove the
    /// session (idempotent with an earlier explicit close) and hand back the
    /// exit notification for the caller to publish.
    pub fn reap_session(&mut self, session_id: &String) -> (ev: TerminalSession)
        requires
            old(self).wf(),
        ensures
            final(self).wf(),
            ev.id@ == session_id@,
            final(self).sessions_model() == old(self).sessions_model().remove(session_id@),
            final(self).writers_model() == old(self).writers_model().remove(session_id@),
            final(self).live_ids() == old(self).live_ids().remove(session_id@),
            final(self).issued_ids() == old(self).issued_ids(),
            !old(self).live_ids().contains(session_id@) ==> *final(self) == *old(self),
    {
        self.close_terminal_session(session_id);
        TerminalSession { id: session_id.clone() }
    }
}

impl Default for TerminalState {
    /// An empty manager, as `new` builds it.
    fn default() -> (r: TerminalState)
        ensures
            r.wf(),
            r.live_ids() == Set::<Seq<char>>::empty(),
            r.issued_ids() == Seq::<Seq<char>>::empty(),
    {
        TerminalState::new()
    }
}

/// What one step of the output pump decided.
pub enum PumpStep {
    /// Publish this output event and keep reading.
    Emit(TerminalOutput),
    /// End of stream or a failed read: the pump stops.
    Stop,
}

/// One transition of the output pump: read data becomes an output event for
/// this session, with the bytes decoded lossily as text; end of stream or a
/// failed read stops the pump.
pub fn pump_step(session_id: &String, outcome: ReadOutcome) -> (r: PumpStep)
    ensures
        outcome matches ReadOutcome::Data(d) ==> r matches PumpStep::Emit(out)
            && out.session_id@ == session_id@ && out.data@ == lossy_text(d@),
        !(outcome is Data) ==> r is Stop,
{
    match outcome {
        ReadOutcome::Data(bytes) => {
            let text = decode_lossy(&bytes);
            PumpStep::Emit(TerminalOutput { session_id: session_id.clone(), data: text })
        },
        ReadOutcome::Eof => PumpStep::Stop,
        ReadOutcome::Failed => PumpStep::Stop,
    }
}

/// One blocking read from the session's PTY followed by one pump
/// transition: whatever came back, an emitted event is for this session and
/// carries the lossy decoding of the bytes that were read.
pub fn pump_once(session_id: &String, reader: &mut ReaderEnd) -> (r: PumpStep)
    ensures
        r matches PumpStep::Emit(out) ==> out.session_id@ == session_id@ && (exists|b: Seq<u8>|
            1 <= b.len() <= 8192 && out.data@ == #[trigger] lossy_text(b)),
{
    let outcome = read_chunk(reader);
    let ghost o = outcome;
    let r = pump_step(session_id, outcome);
    proof {
        match o {
            ReadOutcome::Data(d) => {
                assert(1 <= d@.len() <= 8192);
            },
            _ => {},
        }
    }
    r
}

/// Identifiers issued one after another are distinct: the first is not
/// among those already issued, the second is not among those issued once
/// the first is recorded, so the two differ. With the manager's invariant
/// that the issued sequence never repeats, every creation returns an
/// identifier different from every earlier one.
pub proof fn lemma_created_identifiers_distinct(
    issued: Seq<Seq<char>>,
    first: Seq<char>,
    second: Seq<char>,
)
    requires
        !issued.contains(first),
        !issued.push(first).contains(second),
    ensures
        first != second,
{
    assert(issued.push(first)[issued.len() as int] == first);
}

/// A created session stays visible: creation registers its identifier, and
/// operations on any other identifier, registering or removing, leave it
/// registered. Only removing the identifier itself, by close or by the
/// reaper, makes it absent.
pub proof fn lemma_session_visibility(live: Set<Seq<char>>, id: Seq<char>, other: Seq<char>)
    requires
        other != id,
    ensures
        live.insert(id).contains(id),
        live.insert(id).remove(other).contains(id),
        live.insert(id).insert(other).contains(id),
        !live.insert(id).remove(id).contains(id),
{
}

/// Closing is idempotent: removing a session's entries twice leaves exactly
/// what one removal left, whether or not the identifier was registered.
pub proof fn lemma_close_idempotent<V>(registry: Map<Seq<char>, V>, id: Seq<char>)
    ensures
        registry.remove(id).remove(id) == registry.remove(id),
{
    assert(registry.remove(id).remove(id) =~= registry.remove(id));
}

} // verus!
