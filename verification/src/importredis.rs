//! The import itself: the address of the store, the commands that write one
//! record, the one redirect that a command may follow, and the order in
//! which a batch of records is written.
//!
//! Nothing here touches the network. An import is a state machine: it hands
//! out one action at a time, and whoever performed the action reports back
//! how it went.

use crate::record::{contains_name, to_map, Entry, Record};
use crate::text::{chars_of, decimal, push_char, push_decimal, tokens, tokens_of};
use redis::Cmd;
use vstd::pervasive::unreached;
use vstd::prelude::*;
use vstd::string::*;
use vstd::utf8::encode_utf8;

verus! {

/// The address of a store: the scheme, the host, then the port if one is
/// given, and the database after it. Without a port the database is left
/// out.
pub open spec fn address(host: Seq<char>, port: Option<u16>, db: Option<Seq<char>>) -> Seq<char> {
    "redis://"@ + host + match port {
        Some(p) => seq![':'] + decimal(p as nat) + match db {
            Some(d) => seq!['/'] + d,
            None => Seq::empty(),
        },
        None => Seq::empty(),
    }
}

/// What `db` reads as, if it is there.
pub open spec fn text_of(db: Option<String>) -> Option<Seq<char>> {
    match db {
        Some(d) => Some(d@),
        None => None,
    }
}

/// Writes the address of a store.
pub fn format_address(ipaddr: String, port: Option<u16>, db: Option<String>) -> (ret: String)
    ensures
        ret@ == address(ipaddr@, port, text_of(db)),
{
    let mut ret = String::from_str("redis://");
    ret.append(ipaddr.as_str());
    if let Some(p) = port {
        push_char(&mut ret, ':');
        push_decimal(&mut ret, p);
        if let Some(d) = db {
            push_char(&mut ret, '/');
            ret.append(d.as_str());
        }
    }
    ret
}

/// The kinds of failure that the import tells apart.
#[derive(Debug, Clone, Copy, PartialEq, Eq, Structural)]
pub enum FaultKind {
    /// The store answered with an error code that its client does not know.
    Extension,
    /// Anything else.
    Other,
}

/// A failure that was reported from outside: its kind, and its text as the
/// store's client prints it.
#[derive(Debug, PartialEq, Eq)]
pub struct Fault {
    pub kind: FaultKind,
    pub message: String,
}

/// What a `Fault` holds.
pub struct FaultView {
    pub kind: FaultKind,
    pub message: Seq<char>,
}

impl View for Fault {
    type V = FaultView;

    open spec fn view(&self) -> FaultView {
        FaultView { kind: self.kind, message: self.message@ }
    }
}

/// The record at place `row_count` of the batch has no field that names it.
#[derive(Debug, PartialEq, Eq)]
pub struct IdKeyMissingError {
    pub id_key: String,
    pub row_count: usize,
}

impl IdKeyMissingError {
    pub fn create(id_key: String, row_count: usize) -> (error: IdKeyMissingError)
        ensures
            error.id_key == id_key,
            error.row_count == row_count,
    {
        IdKeyMissingError { id_key, row_count }
    }

    /// What went wrong, in words.
    pub fn description(&self) -> (text: &'static str)
        ensures
            text@ == "Could not find id key in row!"@,
    {
        "Could not find id key in row!"
    }
}

/// Why an import was given up.
#[derive(Debug, PartialEq, Eq)]
pub enum ImportError {
    /// No connection could be opened, at the start or to the node that a
    /// redirect named.
    Connect(Fault),
    /// A record lacks the identifier field.
    IdentifierMissing(IdKeyMissingError),
    /// The store refused a command.
    Store(Fault),
}

/// What an `ImportError` holds.
pub enum ErrorView {
    Connect(FaultView),
    IdentifierMissing { id_key: Seq<char>, position: nat },
    Store(FaultView),
}

impl View for ImportError {
    type V = ErrorView;

    open spec fn view(&self) -> ErrorView {
        match *self {
            ImportError::Connect(fault) => ErrorView::Connect(fault@),
            ImportError::IdentifierMissing(error) => ErrorView::IdentifierMissing {
                id_key: error.id_key@,
                position: error.row_count as nat,
            },
            ImportError::Store(fault) => ErrorView::Store(fault@),
        }
    }
}

/// The failure is the store's word that the key lives on another node: an
/// unknown error code whose text has at least three words, the first of
/// them `MOVED:`.
pub open spec fn is_redirect(fault: FaultView) -> bool {
    &&& fault.kind == FaultKind::Extension
    &&& tokens(fault.message).len() >= 3
    &&& tokens(fault.message)[0] == "MOVED:"@
}

/// The node that a redirect names: the third word of its text.
pub open spec fn redirect_target(fault: FaultView) -> Seq<char> {
    tokens(fault.message)[2]
}

/// Reads the node to go to out of a redirect. Any other failure is handed
/// back as it came.
pub fn try_get_redirect_address(err: Fault) -> (ret: Result<String, Fault>)
    ensures
        match ret {
            Ok(addr) => is_redirect(err@) && addr@ == redirect_target(err@),
            Err(e) => !is_redirect(err@) && e == err,
        },
{
    if let FaultKind::Extension = err.kind {
        let chars = chars_of(err.message.as_str());
        let words = tokens_of(&chars);
        if words.len() >= 3 {
            if words[0] == String::from_str("MOVED:") {
                return Ok(words[2].clone());
            }
        }
    }
    Err(err)
}

/// Where the execution of one command stands.
#[derive(Debug, Clone, Copy, PartialEq, Eq, Structural)]
pub enum Execution {
    /// The command was sent; its reply is awaited.
    Issued,
    /// The store named another node; the connection to it is awaited.
    Redirected,
    /// The command was sent again, to the other node; its reply is awaited.
    Reissued,
    /// The command has run.
    Success,
    /// The command was given up.
    Failed,
}

/// How the last action went.
#[derive(Debug, PartialEq, Eq)]
pub enum Reply {
    /// It was done.
    Done,
    /// It failed.
    Failed(Fault),
}

impl View for Reply {
    type V = Option<FaultView>;

    /// The failure, if there was one.
    open spec fn view(&self) -> Option<FaultView> {
        match *self {
            Reply::Done => None,
            Reply::Failed(fault) => Some(fault@),
        }
    }
}

/// What is to be done next for one command.
#[derive(Debug, PartialEq, Eq)]
pub enum Directive {
    /// Nothing: the command has run. The connection it ran on stays in use.
    Return,
    /// Open a connection to this address. It takes the place of the one in
    /// use, which is not used again.
    Connect(String),
    /// Send the same command again, over the new connection.
    Reissue,
    /// Give up with this error.
    Fail(ImportError),
}

/// What a `Directive` holds.
pub enum DirectiveView {
    Return,
    Connect(Seq<char>),
    Reissue,
    Fail(ErrorView),
}

impl View for Directive {
    type V = DirectiveView;

    open spec fn view(&self) -> DirectiveView {
        match *self {
            Directive::Return => DirectiveView::Return,
            Directive::Connect(address) => DirectiveView::Connect(address@),
            Directive::Reissue => DirectiveView::Reissue,
            Directive::Fail(error) => DirectiveView::Fail(error@),
        }
    }
}

/// A reply is awaited: the execution has not ended.
pub open spec fn awaits_reply(state: Execution) -> bool {
    state is Issued || state is Redirected || state is Reissued
}

/// One step in the execution of a command: from where it stands and how the
/// last action went, to where it stands then and what is to be done.
///
/// A command that was sent and has run is done. One that failed with a
/// redirect is sent once more, over a new connection to the node that the
/// redirect names, at that node's address without port or database of its
/// own. Any other failure ends the execution, and so does any failure after
/// the redirect: a second redirect is not followed. Of an execution that
/// has ended nothing is said.
pub open spec fn execute_step(state: Execution, failure: Option<FaultView>) -> (
    Execution,
    DirectiveView,
)
    recommends
        awaits_reply(state),
{
    match (state, failure) {
        (Execution::Issued, None) => (Execution::Success, DirectiveView::Return),
        (Execution::Issued, Some(fault)) => if is_redirect(fault) {
            (
                Execution::Redirected,
                DirectiveView::Connect(address(redirect_target(fault), None, None)),
            )
        } else {
            (Execution::Failed, DirectiveView::Fail(ErrorView::Store(fault)))
        },
        (Execution::Redirected, None) => (Execution::Reissued, DirectiveView::Reissue),
        (Execution::Redirected, Some(fault)) => (
            Execution::Failed,
            DirectiveView::Fail(ErrorView::Connect(fault)),
        ),
        (Execution::Reissued, None) => (Execution::Success, DirectiveView::Return),
        (Execution::Reissued, Some(fault)) => (
            Execution::Failed,
            DirectiveView::Fail(ErrorView::Store(fault)),
        ),
        (Execution::Success, _) | (Execution::Failed, _) => arbitrary(),
    }
}

/// Decides how the execution of a command goes on after a reply, following
/// at most one redirect.
pub fn catch_redirect(state: Execution, reply: Reply) -> (next: (Execution, Directive))
    requires
        awaits_reply(state),
    ensures
        (next.0, next.1@) == execute_step(state, reply@),
{
    match reply {
        Reply::Done => match state {
            Execution::Redirected => (Execution::Reissued, Directive::Reissue),
            _ => (Execution::Success, Directive::Return),
        },
        Reply::Failed(fault) => match state {
            Execution::Issued => match try_get_redirect_address(fault) {
                Ok(addr) => (
                    Execution::Redirected,
                    Directive::Connect(format_address(addr, None, None)),
                ),
                Err(fault) => (Execution::Failed, Directive::Fail(ImportError::Store(fault))),
            },
            Execution::Redirected => (
                Execution::Failed,
                Directive::Fail(ImportError::Connect(fault)),
            ),
            _ => (Execution::Failed, Directive::Fail(ImportError::Store(fault))),
        },
    }
}

/// `redis::Cmd`: a command for the store, under construction or ready to be
/// sent.
#[verifier::external_type_specification]
#[verifier::external_body]
pub struct ExCmd(Cmd);

/// The arguments that a command holds, in their order, each as the bytes
/// that go to the store. The first is the name of the command.
pub uninterp spec fn cmd_args(cmd: Cmd) -> Seq<Seq<u8>>;

/// `redis::cmd`: a new command that holds its name and nothing else.
#[verifier::external_body]
fn new_cmd(name: &str) -> (cmd: Cmd)
    ensures
        cmd_args(cmd) == seq![name.spec_bytes()],
{
    redis::cmd(name)
}

/// `redis::Cmd::arg`, for a string: the command holds one argument more, the
/// bytes of the string, after those it had.
#[verifier::external_body]
fn push_arg(cmd: &mut Cmd, arg: &str)
    ensures
        cmd_args(*final(cmd)) == cmd_args(*old(cmd)).push(arg.spec_bytes()),
{
    cmd.arg(arg);
}

/// The command that registers `id` as a member of the collection `name`.
pub open spec fn membership_args(name: Seq<char>, id: Seq<char>) -> Seq<Seq<u8>> {
    seq![encode_utf8("SADD"@), encode_utf8(name), encode_utf8(id)]
}

/// The arguments that write the given fields: for each, in their order, its
/// name and then its value.
pub open spec fn field_args(es: Seq<Entry>) -> Seq<Seq<u8>>
    decreases es.len(),
{
    if es.len() == 0 {
        Seq::empty()
    } else {
        field_args(es.drop_last()).push(encode_utf8(es.last().0)).push(encode_utf8(es.last().1))
    }
}

/// The command that writes the given fields under the key `name`.
pub open spec fn hash_args(name: Seq<char>, es: Seq<Entry>) -> Seq<Seq<u8>> {
    seq![encode_utf8("HSET"@), encode_utf8(name)] + field_args(es)
}

/// The key under which the fields of the record `id` of the collection
/// `name` are kept.
pub open spec fn record_key(name: Seq<char>, id: Seq<char>) -> Seq<char> {
    name + seq![':'] + id
}

/// Builds the command that adds `id` to the set `name`.
pub fn import_id(name: &str, id: &str) -> (cmd: Cmd)
    ensures
        cmd_args(cmd) == membership_args(name@, id@),
{
    let mut cmd = new_cmd("SADD");
    push_arg(&mut cmd, name);
    push_arg(&mut cmd, id);
    cmd
}

/// Adds the fields of `args` to a command, each name followed by its value.
pub fn append_hash_args(cmd: &mut Cmd, args: &Record)
    ensures
        cmd_args(*final(cmd)) == cmd_args(*old(cmd)) + field_args(args.entries()),
{
    let n = args.len();
    let mut i: usize = 0;
    while i < n
        invariant
            i <= n == args.entries().len(),
            cmd_args(*cmd) == cmd_args(*old(cmd)) + field_args(args.entries().take(i as int)),
        decreases n - i,
    {
        let field = args.entry(i);
        push_arg(cmd, field.0.as_str());
        push_arg(cmd, field.1.as_str());
        assert(args.entries().take(i + 1).drop_last() == args.entries().take(i as int));
        i += 1;
    }
    assert(args.entries().take(n as int) == args.entries());
}

/// Builds the command that writes the fields of `hash` into the hash `name`.
pub fn import_hash(name: &str, hash: &Record) -> (cmd: Cmd)
    ensures
        cmd_args(cmd) == hash_args(name@, hash.entries()),
{
    let mut cmd = new_cmd("HSET");
    push_arg(&mut cmd, name);
    append_hash_args(&mut cmd, hash);
    cmd
}

/// Where an import stands while it waits for a reply, or how it ended.
#[derive(Debug, Clone, Copy, PartialEq, Eq, Structural)]
pub enum Phase {
    /// The first connection is being opened.
    Connecting,
    /// The record's identifier is being registered as a member of the
    /// collection.
    Membership(Execution),
    /// The record's fields are being written.
    Fields(Execution),
    /// Every record was written.
    Finished,
    /// The import was given up.
    Aborted,
}

/// What is to be imported: the collection, the name of the identifier
/// field, and the records with their fields in order.
pub struct Plan {
    pub name: Seq<char>,
    pub id_key: Seq<char>,
    pub data: Seq<Seq<Entry>>,
}

/// How far an import has come: the place of the record it works on, which
/// is the number of records written in full, and its phase.
pub struct State {
    pub position: nat,
    pub phase: Phase,
}

/// What whoever drives the import is to do next.
pub enum Action {
    /// Open a connection to this address. It takes the place of the one in
    /// use, if there is one, which is not used again.
    Connect(String),
    /// Send this command over the connection in use.
    Execute(Cmd),
    /// Nothing more: the import succeeded, with this many records written.
    Finish(usize),
    /// Nothing more: the import failed with this error. What was written
    /// stays written.
    Abort(ImportError),
}

/// What an `Action` holds.
pub enum ActionView {
    Connect(Seq<char>),
    Execute(Seq<Seq<u8>>),
    Finish(nat),
    Abort(ErrorView),
}

impl View for Action {
    type V = ActionView;

    open spec fn view(&self) -> ActionView {
        match *self {
            Action::Connect(address) => ActionView::Connect(address@),
            Action::Execute(cmd) => ActionView::Execute(cmd_args(cmd)),
            Action::Finish(count) => ActionView::Finish(count as nat),
            Action::Abort(error) => ActionView::Abort(error@),
        }
    }
}

/// One step of an import: the next action and, where a progress
/// notification is due with it, the number of records written so far.
pub struct Step {
    pub action: Action,
    pub progress: Option<usize>,
}

/// What a `Step` holds.
pub struct StepView {
    pub action: ActionView,
    pub progress: Option<nat>,
}

impl View for Step {
    type V = StepView;

    open spec fn view(&self) -> StepView {
        StepView {
            action: self.action@,
            progress: match self.progress {
                Some(count) => Some(count as nat),
                None => None,
            },
        }
    }
}

/// The identifier of the record at place `p`: the value of its identifier
/// field.
pub open spec fn id_of(plan: Plan, p: int) -> Seq<char> {
    to_map(plan.data[p])[plan.id_key]
}

/// The command that registers the record at place `p`.
pub open spec fn membership_command(plan: Plan, p: int) -> Seq<Seq<u8>> {
    membership_args(plan.name, id_of(plan, p))
}

/// The command that writes the fields of the record at place `p`.
pub open spec fn fields_command(plan: Plan, p: int) -> Seq<Seq<u8>> {
    hash_args(record_key(plan.name, id_of(plan, p)), plan.data[p])
}

/// The import is under way: it waits for a reply.
pub open spec fn is_running(phase: Phase) -> bool {
    !(phase is Finished) && !(phase is Aborted)
}

/// The import turns to the record at place `p`. After the last record it
/// is finished. A record without the identifier field ends it, with an
/// error that names the field and the place. Else the record's membership
/// is registered first.
pub open spec fn enter(plan: Plan, p: nat) -> (State, ActionView) {
    if p >= plan.data.len() {
        (State { position: p, phase: Phase::Finished }, ActionView::Finish(p))
    } else if !contains_name(plan.data[p as int], plan.id_key) {
        (
            State { position: p, phase: Phase::Aborted },
            ActionView::Abort(ErrorView::IdentifierMissing { id_key: plan.id_key, position: p }),
        )
    } else {
        (
            State { position: p, phase: Phase::Membership(Execution::Issued) },
            ActionView::Execute(membership_command(plan, p as int)),
        )
    }
}

/// The notification that is due once `count` records are written: one at
/// every hundredth record, none in between.
pub open spec fn due(count: nat) -> Option<nat> {
    if count % 100 == 0 {
        Some(count)
    } else {
        None
    }
}

/// One step of an import: from where it stands and how the last action
/// went, to where it stands then and what is to be done.
///
/// Once the first connection is open the import turns to the first record.
/// Each record takes two commands, each of which may follow one redirect:
/// first its membership, then its fields. When the fields are written the
/// record is done, a notification may be due, and the import turns to the
/// next record. The first failure other than a redirect ends the import.
/// Of an import that has ended nothing is said.
pub open spec fn next(plan: Plan, state: State, failure: Option<FaultView>) -> (State, StepView)
    recommends
        is_running(state.phase),
{
    let p = state.position;
    match state.phase {
        Phase::Connecting => match failure {
            Some(fault) => (
                State { position: p, phase: Phase::Aborted },
                StepView { action: ActionView::Abort(ErrorView::Connect(fault)), progress: None },
            ),
            None => (enter(plan, 0).0, StepView { action: enter(plan, 0).1, progress: None }),
        },
        Phase::Membership(execution) => match execute_step(execution, failure).1 {
            DirectiveView::Return => (
                State { position: p, phase: Phase::Fields(Execution::Issued) },
                StepView {
                    action: ActionView::Execute(fields_command(plan, p as int)),
                    progress: None,
                },
            ),
            DirectiveView::Connect(address) => (
                State { position: p, phase: Phase::Membership(execute_step(execution, failure).0) },
                StepView { action: ActionView::Connect(address), progress: None },
            ),
            DirectiveView::Reissue => (
                State { position: p, phase: Phase::Membership(execute_step(execution, failure).0) },
                StepView {
                    action: ActionView::Execute(membership_command(plan, p as int)),
                    progress: None,
                },
            ),
            DirectiveView::Fail(error) => (
                State { position: p, phase: Phase::Aborted },
                StepView { action: ActionView::Abort(error), progress: None },
            ),
        },
        Phase::Fields(execution) => match execute_step(execution, failure).1 {
            DirectiveView::Return => (
                enter(plan, p + 1).0,
                StepView { action: enter(plan, p + 1).1, progress: due(p + 1) },
            ),
            DirectiveView::Connect(address) => (
                State { position: p, phase: Phase::Fields(execute_step(execution, failure).0) },
                StepView { action: ActionView::Connect(address), progress: None },
            ),
            DirectiveView::Reissue => (
                State { position: p, phase: Phase::Fields(execute_step(execution, failure).0) },
                StepView {
                    action: ActionView::Execute(fields_command(plan, p as int)),
                    progress: None,
                },
            ),
            DirectiveView::Fail(error) => (
                State { position: p, phase: Phase::Aborted },
                StepView { action: ActionView::Abort(error), progress: None },
            ),
        },
        Phase::Finished | Phase::Aborted => arbitrary(),
    }
}

/// The state fits the plan: the import works on a record that is there and
/// has its identifier, or it has not begun, or it has ended.
pub open spec fn valid(plan: Plan, state: State) -> bool {
    match state.phase {
        Phase::Connecting => state.position == 0,
        Phase::Membership(execution) | Phase::Fields(execution) => {
            &&& state.position < plan.data.len()
            &&& contains_name(plan.data[state.position as int], plan.id_key)
            &&& awaits_reply(execution)
        },
        Phase::Finished => state.position == plan.data.len(),
        Phase::Aborted => state.position <= plan.data.len(),
    }
}

/// The fields of each record, in the order of the records.
pub open spec fn entries_of(data: Seq<Record>) -> Seq<Seq<Entry>> {
    Seq::new(data.len(), |i: int| data[i].entries())
}

#[derive(Clone, Copy)]
struct Cursor {
    position: usize,
    phase: Phase,
}

/// An import under way or ended: what is to be imported, and how far it
/// has come.
pub struct Import {
    name: String,
    id_key: String,
    data: Vec<Record>,
    at: Cursor,
}

impl Import {
    /// What is to be imported.
    pub closed spec fn plan(&self) -> Plan {
        Plan { name: self.name@, id_key: self.id_key@, data: entries_of(self.data@) }
    }

    /// How far the import has come.
    pub closed spec fn state(&self) -> State {
        State { position: self.at.position as nat, phase: self.at.phase }
    }

    #[verifier::type_invariant]
    closed spec fn well_formed(&self) -> bool {
        valid(self.plan(), self.state())
    }

    /// Tells whether the import waits for a reply. It does until it hands
    /// out `Finish` or `Abort`.
    pub fn running(&self) -> (b: bool)
        ensures
            b == is_running(self.state().phase),
            valid(self.plan(), self.state()),
    {
        proof {
            use_type_invariant(self);
        }
        match self.at.phase {
            Phase::Finished => false,
            Phase::Aborted => false,
            _ => true,
        }
    }

    /// The place of the record that the import works on: the number of
    /// records written in full.
    pub fn position(&self) -> (p: usize)
        ensures
            p == self.state().position,
    {
        self.at.position
    }

    /// The phase of the import.
    pub fn phase(&self) -> (phase: Phase)
        ensures
            phase == self.state().phase,
    {
        self.at.phase
    }

    /// The identifier of the record that the import works on.
    fn id(&self) -> (id: &String)
        requires
            self.state().phase is Membership || self.state().phase is Fields,
        ensures
            id@ == id_of(self.plan(), self.state().position as int),
    {
        proof {
            use_type_invariant(self);
        }
        let record = &self.data[self.at.position];
        record.get(&self.id_key).unwrap()
    }

    /// The command that registers the record that the import works on.
    fn membership(&self) -> (cmd: Cmd)
        requires
            self.state().phase is Membership || self.state().phase is Fields,
        ensures
            cmd_args(cmd) == membership_command(self.plan(), self.state().position as int),
    {
        import_id(self.name.as_str(), self.id().as_str())
    }

    /// The command that writes the fields of the record that the import
    /// works on.
    fn fields(&self) -> (cmd: Cmd)
        requires
            self.state().phase is Membership || self.state().phase is Fields,
        ensures
            cmd_args(cmd) == fields_command(self.plan(), self.state().position as int),
    {
        proof {
            use_type_invariant(self);
        }
        let mut key = self.name.clone();
        push_char(&mut key, ':');
        key.append(self.id().as_str());
        assert(key@ == record_key(
            self.plan().name,
            id_of(self.plan(), self.state().position as int),
        ));
        import_hash(key.as_str(), &self.data[self.at.position])
    }

    /// Turns to the record at place `p`.
    fn enter(&mut self, p: usize) -> (action: Action)
        requires
            p <= old(self).plan().data.len(),
        ensures
            final(self).plan() == old(self).plan(),
            (final(self).state(), action@) == enter(old(self).plan(), p as nat),
    {
        if p >= self.data.len() {
            self.at = Cursor { position: p, phase: Phase::Finished };
            return Action::Finish(p);
        }
        match self.data[p].get(&self.id_key) {
            Some(_) => {
                self.at = Cursor { position: p, phase: Phase::Membership(Execution::Issued) };
                Action::Execute(self.membership())
            },
            None => {
                self.at = Cursor { position: p, phase: Phase::Aborted };
                Action::Abort(
                    ImportError::IdentifierMissing(
                        IdKeyMissingError::create(self.id_key.clone(), p),
                    ),
                )
            },
        }
    }

    /// Takes the reply to the last action and gives the next step.
    pub fn advance(&mut self, reply: Reply) -> (step: Step)
        requires
            is_running(old(self).state().phase),
        ensures
            final(self).plan() == old(self).plan(),
            (final(self).state(), step@) == next(old(self).plan(), old(self).state(), reply@),
            valid(final(self).plan(), final(self).state()),
    {
        proof {
            use_type_invariant(&*self);
        }
        let p = self.at.position;
        let step = match self.at.phase {
            Phase::Connecting => match reply {
                Reply::Failed(fault) => {
                    self.at = Cursor { position: p, phase: Phase::Aborted };
                    Step { action: Action::Abort(ImportError::Connect(fault)), progress: None }
                },
                Reply::Done => Step { action: self.enter(0), progress: None },
            },
            Phase::Membership(execution) => {
                let (execution, directive) = catch_redirect(execution, reply);
                match directive {
                    Directive::Return => {
                        self.at = Cursor { position: p, phase: Phase::Fields(Execution::Issued) };
                        Step { action: Action::Execute(self.fields()), progress: None }
                    },
                    Directive::Connect(address) => {
                        self.at = Cursor { position: p, phase: Phase::Membership(execution) };
                        Step { action: Action::Connect(address), progress: None }
                    },
                    Directive::Reissue => {
                        self.at = Cursor { position: p, phase: Phase::Membership(execution) };
                        Step { action: Action::Execute(self.membership()), progress: None }
                    },
                    Directive::Fail(error) => {
                        self.at = Cursor { position: p, phase: Phase::Aborted };
                        Step { action: Action::Abort(error), progress: None }
                    },
                }
            },
            Phase::Fields(execution) => {
                let (execution, directive) = catch_redirect(execution, reply);
                match directive {
                    Directive::Return => {
                        assert(p < self.data.len());
                        let count: usize = p + 1;
                        let progress = if count % 100 == 0 {
                            Some(count)
                        } else {
                            None
                        };
                        Step { action: self.enter(count), progress }
                    },
                    Directive::Connect(address) => {
                        self.at = Cursor { position: p, phase: Phase::Fields(execution) };
                        Step { action: Action::Connect(address), progress: None }
                    },
                    Directive::Reissue => {
                        self.at = Cursor { position: p, phase: Phase::Fields(execution) };
                        Step { action: Action::Execute(self.fields()), progress: None }
                    },
                    Directive::Fail(error) => {
                        self.at = Cursor { position: p, phase: Phase::Aborted };
                        Step { action: Action::Abort(error), progress: None }
                    },
                }
            },
            Phase::Finished | Phase::Aborted => unreached(),
        };
        proof {
            use_type_invariant(&*self);
        }
        step
    }
}

/// Begins an import of `data` into the collection `name` of the store at
/// the given address, each record named by its field `id_key`. The first
/// action is to open the connection.
pub fn import(
    addr: String,
    port: Option<u16>,
    db: Option<String>,
    name: String,
    id_key: String,
    data: Vec<Record>,
) -> (start: (Import, Action))
    ensures
        start.0.plan() == (Plan { name: name@, id_key: id_key@, data: entries_of(data@) }),
        start.0.state() == (State { position: 0, phase: Phase::Connecting }),
        start.1@ == ActionView::Connect(address(addr@, port, text_of(db))),
{
    let action = Action::Connect(format_address(addr, port, db));
    let at = Cursor { position: 0, phase: Phase::Connecting };
    (Import { name, id_key, data, at }, action)
}

} // verus!
