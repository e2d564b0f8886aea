//! Receiving environment variables from the host.

use vstd::prelude::*;
use vstd::string::*;

use crate::files::string_views;
use crate::messages::option_view;
use crate::table::{distinct_keys, pairs_map, StringMap};

verus! {

/// How long a connection, or the next bytes on it, are waited for.
pub const ENV_SYNC_TIMEOUT_SECS: u64 = 10;

/// The most bytes that are read at a time.
pub const ENV_READ_SIZE: usize = 1024;

/// The most bytes that the environment may take.
pub const ARG_MAX: usize = 131072;

/// The byte that tells the host that everything was received.
pub const ENV_ACK: u8 = 6;

/// What a JSON text holds when it is an object whose values are all strings, or
/// else the text of the error that says why it is not one.
pub uninterp spec fn json_string_map(text: Seq<u8>) -> Result<
    Map<Seq<char>, Seq<char>>,
    Seq<char>,
>;

/// Parses a JSON object of strings through `serde_json::from_slice`; an error is
/// handed on as the text that it displays. Claimed is that whether parsing
/// succeeds, the entries it finds, and the text of the error are functions of the
/// parsed text, and that no key is found twice; in which order the entries come is
/// left open.
#[verifier::external_body]
fn parse_json_map(text: &[u8]) -> (result: Result<Vec<(String, String)>, String>)
    ensures
        match result {
            Ok(pairs) => distinct_keys(pairs@) && json_string_map(text@) == Ok::<
                Map<Seq<char>, Seq<char>>,
                Seq<char>,
            >(pairs_map(pairs@)),
            Err(reason) => json_string_map(text@) == Err::<Map<Seq<char>, Seq<char>>, Seq<char>>(
                reason@,
            ),
        },
{
    match serde_json::from_slice::<std::collections::HashMap<String, String>>(text) {
        Ok(m) => Ok(m.into_iter().collect()),
        Err(e) => Err(e.to_string()),
    }
}

/// Why no environment was received.
#[derive(Clone, Copy, Debug, PartialEq, Eq, Structural)]
pub enum EnvFailure {
    /// No more connections can be accepted.
    NoConnection,
    /// Nobody connected in time.
    AcceptTimeout,
    /// The environment takes more than [`ARG_MAX`] bytes.
    TooLarge,
    /// The connected host fell silent.
    ReadTimeout,
}

/// Why no environment was received.
#[derive(Debug)]
pub enum EnvError {
    Failure { failure: EnvFailure },
    /// What was received is not a JSON object of strings, for this reason.
    Malformed { reason: String },
    /// Connections cannot be waited for, for this reason.
    Listen { reason: String },
}

/// The value of an [`EnvError`].
#[verifier::ext_equal]
pub enum EnvErrorView {
    Failure { failure: EnvFailure },
    Malformed { reason: Seq<char> },
    Listen { reason: Seq<char> },
}

impl View for EnvError {
    type V = EnvErrorView;

    open spec fn view(&self) -> EnvErrorView {
        match self {
            EnvError::Failure { failure } => EnvErrorView::Failure { failure: *failure },
            EnvError::Malformed { reason } => EnvErrorView::Malformed { reason: reason@ },
            EnvError::Listen { reason } => EnvErrorView::Listen { reason: reason@ },
        }
    }
}

impl EnvErrorView {
    /// The text of the error.
    pub open spec fn text(self) -> Seq<char> {
        match self {
            EnvErrorView::Failure { failure } => match failure {
                EnvFailure::NoConnection => "Failed to accept environment sync vsock connection"@,
                EnvFailure::AcceptTimeout => "Timed out while waiting for environment sync"@,
                EnvFailure::TooLarge => "Maximum environment size exceeded"@,
                EnvFailure::ReadTimeout => "Timed out while reading environment"@,
            },
            EnvErrorView::Malformed { .. } => "Failed to parse the synced environment"@,
            EnvErrorView::Listen { reason } => reason,
        }
    }

    /// What is behind the error: why parsing failed, which the text does not give.
    pub open spec fn cause(self) -> Option<Seq<char>> {
        match self {
            EnvErrorView::Malformed { reason } => Some(reason),
            _ => None,
        }
    }
}

impl EnvError {
    /// The text of the error.
    pub fn message(&self) -> (result: String)
        ensures
            result@ == self@.text(),
    {
        match self {
            EnvError::Failure { failure } => match failure {
                EnvFailure::NoConnection => {
                    "Failed to accept environment sync vsock connection".to_owned()
                },
                EnvFailure::AcceptTimeout => {
                    "Timed out while waiting for environment sync".to_owned()
                },
                EnvFailure::TooLarge => "Maximum environment size exceeded".to_owned(),
                EnvFailure::ReadTimeout => "Timed out while reading environment".to_owned(),
            },
            EnvError::Malformed { .. } => "Failed to parse the synced environment".to_owned(),
            EnvError::Listen { reason } => reason.clone(),
        }
    }

    /// What is behind the error, where [`EnvError::message`] does not give it
    /// already.
    pub fn cause(&self) -> (result: Option<String>)
        ensures
            option_view(result) == self@.cause(),
    {
        match self {
            EnvError::Malformed { reason } => Some(reason.clone()),
            _ => None,
        }
    }
}

/// The variables of `synced` that are among `keys`.
pub open spec fn selected(
    synced: Map<Seq<char>, Seq<char>>,
    keys: Seq<Seq<char>>,
) -> Map<Seq<char>, Seq<char>> {
    Map::new(|k: Seq<char>| synced.contains_key(k) && keys.contains(k), |k: Seq<char>| synced[k])
}

/// Takes the listed variables out of those that were received.
pub fn select_environment(keys: &Vec<String>, synced: StringMap<String>) -> (result: StringMap<
    String,
>)
    ensures
        result@ == selected(synced@, string_views(keys@)),
{
    let ghost received = synced@;
    let ghost names = string_views(keys@);
    let mut synced = synced;
    let mut env: StringMap<String> = StringMap::new();
    let mut i: usize = 0;
    assert(env@ =~= selected(received, names.take(0)));
    assert(synced@ =~= received);
    while i < keys.len()
        invariant
            i <= keys@.len(),
            names == string_views(keys@),
            env@ == selected(received, names.take(i as int)),
            synced@ == Map::new(
                |k: Seq<char>| received.contains_key(k) && !names.take(i as int).contains(k),
                |k: Seq<char>| received[k],
            ),
        decreases keys@.len() - i,
    {
        let key = &keys[i];
        let ghost before = names.take(i as int);
        let ghost after = names.take(i + 1);
        proof {
            assert(after =~= before.push(key@));
            assert forall|k: Seq<char>| #[trigger]
                after.contains(k) == (before.contains(k) || k == key@) by {
                if before.contains(k) {
                    let j = choose|j: int| 0 <= j < before.len() && before[j] == k;
                    assert(after[j] == k);
                }
                assert(after[i as int] == key@);
                if after.contains(k) {
                    let j = choose|j: int| 0 <= j < after.len() && after[j] == k;
                    if j < i {
                        assert(before[j] == k);
                    }
                }
            }
        }
        match synced.remove(key) {
            Some(value) => {
                env.insert(key.clone(), value);
            },
            None => {},
        }
        i = i + 1;
        proof {
            assert(env@ =~= selected(received, after));
            assert(synced@ =~= Map::new(
                |k: Seq<char>| received.contains_key(k) && !after.contains(k),
                |k: Seq<char>| received[k],
            ));
        }
    }
    assert(names.take(names.len() as int) =~= names);
    env
}

/// The environment that the received bytes amount to.
pub open spec fn env_result(keys: Seq<Seq<char>>, buffer: Seq<u8>) -> Result<
    Map<Seq<char>, Seq<char>>,
    EnvErrorView,
> {
    match json_string_map(buffer) {
        Ok(synced) => Ok(selected(synced, keys)),
        Err(reason) => Err(EnvErrorView::Malformed { reason }),
    }
}

/// The value of the outcome of an environment sync.
pub open spec fn result_view(result: Result<StringMap<String>, EnvError>) -> Result<
    Map<Seq<char>, Seq<char>>,
    EnvErrorView,
> {
    match result {
        Ok(env) => Ok(env@),
        Err(e) => Err(e@),
    }
}

/// Makes the environment out of the received bytes, as [`env_result`] says.
pub fn parse_environment(keys: &Vec<String>, buffer: &[u8]) -> (result: Result<
    StringMap<String>,
    EnvError,
>)
    ensures
        result_view(result) == env_result(string_views(keys@), buffer@),
{
    match parse_json_map(buffer) {
        Ok(pairs) => Ok(select_environment(keys, StringMap::from_pairs(pairs))),
        Err(reason) => Err(EnvError::Malformed { reason }),
    }
}

/// An operation of the environment sync.
#[derive(Debug)]
pub enum EnvAction {
    /// Begin to listen for connections.
    Listen,
    /// Wait for a connection, at most [`ENV_SYNC_TIMEOUT_SECS`].
    Accept,
    /// Read at most `len` bytes, within [`ENV_SYNC_TIMEOUT_SECS`].
    Read { len: usize },
    /// Send one byte to the host.
    SendByte { byte: u8 },
}

/// The outcome of an operation of the environment sync.
#[derive(Debug)]
pub enum EnvReply {
    /// It succeeded.
    Done,
    /// These bytes were read; none when the host has sent everything.
    Data { bytes: Vec<u8> },
    /// There is nothing more to be accepted.
    Closed,
    /// It took too long.
    TimedOut,
    /// It failed, for this reason.
    Failed { reason: String },
}

/// The value of an [`EnvReply`].
#[verifier::ext_equal]
pub enum EnvReplyView {
    Done,
    Data { bytes: Seq<u8> },
    Closed,
    TimedOut,
    Failed { reason: Seq<char> },
}

impl View for EnvReply {
    type V = EnvReplyView;

    open spec fn view(&self) -> EnvReplyView {
        match self {
            EnvReply::Done => EnvReplyView::Done,
            EnvReply::Data { bytes } => EnvReplyView::Data { bytes: bytes@ },
            EnvReply::Closed => EnvReplyView::Closed,
            EnvReply::TimedOut => EnvReplyView::TimedOut,
            EnvReply::Failed { reason } => EnvReplyView::Failed { reason: reason@ },
        }
    }
}

/// How the environment sync goes on: with an operation, or not at all.
#[derive(Debug)]
pub enum EnvProgress {
    Next { action: EnvAction },
    Finished { result: Result<StringMap<String>, EnvError> },
}

/// The value of an [`EnvProgress`].
#[verifier::ext_equal]
pub enum EnvProgressView {
    Next { action: EnvAction },
    Finished { result: Result<Map<Seq<char>, Seq<char>>, EnvErrorView> },
}

impl View for EnvProgress {
    type V = EnvProgressView;

    open spec fn view(&self) -> EnvProgressView {
        match self {
            EnvProgress::Next { action } => EnvProgressView::Next { action: *action },
            EnvProgress::Finished { result } => EnvProgressView::Finished {
                result: result_view(*result),
            },
        }
    }
}

/// Which operation of the environment sync is under way.
#[derive(Clone, Copy, Debug, PartialEq, Eq, Structural)]
pub enum EnvStage {
    Listening,
    Accepting,
    Reading,
    Acking,
    Finished,
}

/// The value of an [`EnvironmentSync`].
#[verifier::ext_equal]
pub struct EnvView {
    /// The variables that the manifest lists.
    pub keys: Seq<Seq<char>>,
    /// What was received on the present connection.
    pub buffer: Seq<u8>,
    pub stage: EnvStage,
}

impl EnvView {
    /// A sync of which nothing has been done, and how it goes on: not at all when
    /// no variable is listed.
    pub open spec fn initial(keys: Option<Seq<Seq<char>>>) -> (Self, EnvProgressView) {
        let idle = EnvView {
            keys: match keys {
                Some(list) => list,
                None => Seq::empty(),
            },
            buffer: Seq::empty(),
            stage: EnvStage::Finished,
        };
        if idle.keys.len() > 0 {
            idle.go(EnvStage::Listening, EnvAction::Listen)
        } else {
            idle.end(Ok(Map::empty()))
        }
    }

    /// Goes on with `action` in `stage`.
    pub open spec fn go(self, stage: EnvStage, action: EnvAction) -> (Self, EnvProgressView) {
        (EnvView { stage, ..self }, EnvProgressView::Next { action })
    }

    /// Ends with `result`.
    pub open spec fn end(self, result: Result<Map<Seq<char>, Seq<char>>, EnvErrorView>) -> (
        Self,
        EnvProgressView,
    ) {
        (EnvView { stage: EnvStage::Finished, ..self }, EnvProgressView::Finished { result })
    }

    /// Ends with a failure.
    pub open spec fn fail(self, failure: EnvFailure) -> (Self, EnvProgressView) {
        self.end(Err(EnvErrorView::Failure { failure }))
    }

    /// Goes on with reading.
    pub open spec fn read(self) -> (Self, EnvProgressView) {
        self.go(EnvStage::Reading, EnvAction::Read { len: ENV_READ_SIZE })
    }

    /// Whether `reply` can be the outcome of the operation under way.
    pub open spec fn expects(self, reply: EnvReplyView) -> bool {
        match self.stage {
            EnvStage::Listening => reply is Done || reply is Failed,
            EnvStage::Accepting => reply is Done || reply is Closed || reply is TimedOut,
            EnvStage::Reading => match reply {
                EnvReplyView::Data { bytes } => bytes.len() <= ENV_READ_SIZE,
                EnvReplyView::TimedOut => true,
                EnvReplyView::Failed { reason } => true,
                _ => false,
            },
            EnvStage::Acking => reply is Done || reply is Failed,
            EnvStage::Finished => false,
        }
    }

    /// The sync after `reply`, and how it goes on.
    pub open spec fn step(self, reply: EnvReplyView) -> (Self, EnvProgressView) {
        match self.stage {
            EnvStage::Listening => match reply {
                EnvReplyView::Failed { reason } => self.end(Err(EnvErrorView::Listen { reason })),
                _ => self.go(EnvStage::Accepting, EnvAction::Accept),
            },
            EnvStage::Accepting => match reply {
                EnvReplyView::Closed => self.fail(EnvFailure::NoConnection),
                EnvReplyView::TimedOut => self.fail(EnvFailure::AcceptTimeout),
                _ => (EnvView { buffer: Seq::empty(), ..self }).read(),
            },
            EnvStage::Reading => match reply {
                EnvReplyView::Data { bytes } => if bytes.len() == 0 {
                    self.go(EnvStage::Acking, EnvAction::SendByte { byte: ENV_ACK })
                } else if self.buffer.len() + bytes.len() > ARG_MAX {
                    self.fail(EnvFailure::TooLarge)
                } else {
                    (EnvView { buffer: self.buffer + bytes, ..self }).read()
                },
                EnvReplyView::TimedOut => self.fail(EnvFailure::ReadTimeout),
                _ => self.go(EnvStage::Accepting, EnvAction::Accept),
            },
            EnvStage::Acking => self.end(env_result(self.keys, self.buffer)),
            EnvStage::Finished => self.end(Ok(Map::empty())),
        }
    }

    /// What holds of every sync at every stage.
    pub open spec fn wf(self) -> bool {
        self.buffer.len() <= ARG_MAX
    }
}

/// The environment sync of the enclave.
pub struct EnvironmentSync {
    keys: Vec<String>,
    buffer: Vec<u8>,
    stage: EnvStage,
}

impl View for EnvironmentSync {
    type V = EnvView;

    closed spec fn view(&self) -> EnvView {
        EnvView { keys: string_views(self.keys@), buffer: self.buffer@, stage: self.stage }
    }
}

impl EnvironmentSync {
    /// Begins the sync of the variables that the manifest lists.
    pub fn start(keys: Option<Vec<String>>) -> (result: (Self, EnvProgress))
        ensures
            (result.0@, result.1@) == EnvView::initial(
                match keys {
                    Some(list) => Some(string_views(list@)),
                    None => None,
                },
            ),
            result.0@.wf(),
    {
        let keys = match keys {
            Some(list) => list,
            None => Vec::new(),
        };
        assert(string_views(Seq::empty()) =~= Seq::empty());
        let listed = keys.len() > 0;
        let mut sync = EnvironmentSync { keys, buffer: Vec::new(), stage: EnvStage::Finished };
        let progress = if listed {
            sync.go(EnvStage::Listening, EnvAction::Listen)
        } else {
            sync.end(Ok(StringMap::new()))
        };
        (sync, progress)
    }

    fn go(&mut self, stage: EnvStage, action: EnvAction) -> (result: EnvProgress)
        ensures
            (final(self)@, result@) == old(self)@.go(stage, action),
    {
        self.stage = stage;
        EnvProgress::Next { action }
    }

    fn end(&mut self, result: Result<StringMap<String>, EnvError>) -> (progress: EnvProgress)
        ensures
            (final(self)@, progress@) == old(self)@.end(result_view(result)),
    {
        self.stage = EnvStage::Finished;
        EnvProgress::Finished { result }
    }

    fn fail(&mut self, failure: EnvFailure) -> (progress: EnvProgress)
        ensures
            (final(self)@, progress@) == old(self)@.fail(failure),
    {
        self.end(Err(EnvError::Failure { failure }))
    }

    fn read(&mut self) -> (progress: EnvProgress)
        ensures
            (final(self)@, progress@) == old(self)@.read(),
    {
        self.go(EnvStage::Reading, EnvAction::Read { len: ENV_READ_SIZE })
    }

    /// Takes the outcome of the operation under way, and says how the sync goes
    /// on.
    pub fn step(&mut self, reply: EnvReply) -> (result: EnvProgress)
        requires
            old(self)@.wf(),
            old(self)@.expects(reply@),
        ensures
            (final(self)@, result@) == old(self)@.step(reply@),
            final(self)@.wf(),
    {
        match self.stage {
            EnvStage::Listening => match reply {
                EnvReply::Failed { reason } => self.end(Err(EnvError::Listen { reason })),
                _ => self.go(EnvStage::Accepting, EnvAction::Accept),
            },
            EnvStage::Accepting => match reply {
                EnvReply::Closed => self.fail(EnvFailure::NoConnection),
                EnvReply::TimedOut => self.fail(EnvFailure::AcceptTimeout),
                _ => {
                    self.buffer = Vec::new();
                    self.read()
                },
            },
            EnvStage::Reading => match reply {
                EnvReply::Data { bytes } => if bytes.len() == 0 {
                    self.go(EnvStage::Acking, EnvAction::SendByte { byte: ENV_ACK })
                } else if bytes.len() > ARG_MAX - self.buffer.len() {
                    self.fail(EnvFailure::TooLarge)
                } else {
                    let mut bytes = bytes;
                    self.buffer.append(&mut bytes);
                    self.read()
                },
                EnvReply::TimedOut => self.fail(EnvFailure::ReadTimeout),
                _ => self.go(EnvStage::Accepting, EnvAction::Accept),
            },
            EnvStage::Acking => {
                let result = parse_environment(&self.keys, self.buffer.as_slice());
                self.end(result)
            },
            EnvStage::Finished => self.end(Ok(StringMap::new())),
        }
    }
}

/// An environment sync on its way: its value, and what the present connection
/// has delivered.
#[verifier::ext_equal]
pub struct EnvRun {
    pub sync: EnvView,
    pub progress: EnvProgressView,
    pub delivered: Seq<u8>,
}

impl EnvRun {
    /// The run before any reply.
    pub open spec fn initial(keys: Option<Seq<Seq<char>>>) -> Self {
        let (sync, progress) = EnvView::initial(keys);
        EnvRun { sync, progress, delivered: Seq::empty() }
    }

    /// The run after one more reply. Accepting a connection starts a new
    /// delivery.
    pub open spec fn advance(self, reply: EnvReplyView) -> Self {
        let (sync, progress) = self.sync.step(reply);
        EnvRun {
            sync,
            progress,
            delivered: if self.progress == (EnvProgressView::Next { action: EnvAction::Accept }) {
                Seq::empty()
            } else if reply is Data {
                self.delivered + reply->Data_bytes
            } else {
                self.delivered
            },
        }
    }

    /// The run after a list of replies.
    pub open spec fn after(self, replies: Seq<EnvReplyView>) -> Self
        decreases replies.len(),
    {
        if replies.len() == 0 {
            self
        } else {
            self.after(replies.drop_last()).advance(replies.last())
        }
    }

    /// Whether every reply of the list can come when it comes.
    pub open spec fn admits(self, replies: Seq<EnvReplyView>) -> bool
        decreases replies.len(),
    {
        replies.len() == 0 || (self.admits(replies.drop_last()) && self.after(
            replies.drop_last(),
        ).sync.expects(replies.last()))
    }
}

/// While a connection is read, the buffer holds all that it has delivered and
/// nothing of the connections before it, and never more than is allowed.
pub proof fn law_buffer_is_present_connection(
    keys: Option<Seq<Seq<char>>>,
    replies: Seq<EnvReplyView>,
)
    requires
        EnvRun::initial(keys).admits(replies),
    ensures
        ({
            let run = EnvRun::initial(keys).after(replies);
            &&& run.sync.buffer.len() <= ARG_MAX
            &&& (run.sync.stage == EnvStage::Reading || run.sync.stage == EnvStage::Acking)
                ==> run.sync.buffer == run.delivered
        }),
    decreases replies.len(),
{
    if replies.len() > 0 {
        law_buffer_is_present_connection(keys, replies.drop_last());
        let before = EnvRun::initial(keys).after(replies.drop_last());
        if before.sync.stage == EnvStage::Reading && replies.last() is Data {
            let bytes = replies.last()->Data_bytes;
            if bytes.len() == 0 {
                assert(before.delivered + bytes =~= before.delivered);
            }
        }
    }
}

/// A sync that succeeds has acknowledged the connection to its host, and its
/// result is made of the listed variables of what that connection delivered.
pub proof fn law_environment_is_what_was_delivered(
    keys: Seq<Seq<char>>,
    replies: Seq<EnvReplyView>,
    env: Map<Seq<char>, Seq<char>>,
)
    requires
        keys.len() > 0,
        EnvRun::initial(Some(keys)).admits(replies),
        EnvRun::initial(Some(keys)).after(replies).progress == (EnvProgressView::Finished {
            result: Ok(env),
        }),
    ensures
        replies.len() > 0,
        EnvRun::initial(Some(keys)).after(replies.drop_last()).progress == (EnvProgressView::Next {
            action: EnvAction::SendByte { byte: ENV_ACK },
        }),
        env_result(keys, EnvRun::initial(Some(keys)).after(replies).delivered) == Ok::<
            Map<Seq<char>, Seq<char>>,
            EnvErrorView,
        >(env),
{
    let start = EnvRun::initial(Some(keys));
    assert(replies.len() > 0);
    let before = start.after(replies.drop_last());
    law_buffer_is_present_connection(Some(keys), replies.drop_last());
    lemma_run_shape(keys, replies.drop_last());
    assert(before.sync.stage == EnvStage::Acking);
}

/// The keys never change, and while the host is answered the answer is under way.
proof fn lemma_run_shape(keys: Seq<Seq<char>>, replies: Seq<EnvReplyView>)
    requires
        keys.len() > 0,
        EnvRun::initial(Some(keys)).admits(replies),
    ensures
        ({
            let run = EnvRun::initial(Some(keys)).after(replies);
            &&& run.sync.keys == keys
            &&& run.sync.stage == EnvStage::Acking ==> run.progress == (EnvProgressView::Next {
                action: EnvAction::SendByte { byte: ENV_ACK },
            })
        }),
    decreases replies.len(),
{
    if replies.len() > 0 {
        lemma_run_shape(keys, replies.drop_last());
    }
}

/// Selecting keeps exactly the received variables that are listed, with the
/// values that were received.
pub proof fn law_selected_variables(
    synced: Map<Seq<char>, Seq<char>>,
    keys: Seq<Seq<char>>,
    k: Seq<char>,
)
    ensures
        selected(synced, keys).contains_key(k) <==> synced.contains_key(k) && keys.contains(k),
        selected(synced, keys).contains_key(k) ==> selected(synced, keys)[k] == synced[k],
{
}

/// The environment holds every listed variable that was received, with the value
/// that was received, and nothing else; what is no JSON object of strings is
/// refused with the reason why.
pub proof fn law_environment_is_listed_part(
    keys: Seq<Seq<char>>,
    buffer: Seq<u8>,
    synced: Map<Seq<char>, Seq<char>>,
    reason: Seq<char>,
)
    ensures
        json_string_map(buffer) == Ok::<Map<Seq<char>, Seq<char>>, Seq<char>>(synced) ==> {
            &&& env_result(keys, buffer) matches Ok(env)
            &&& forall|k: Seq<char>| #[trigger]
                env.contains_key(k) <==> keys.contains(k) && synced.contains_key(k)
            &&& forall|k: Seq<char>| #[trigger] env.contains_key(k) ==> env[k] == synced[k]
        },
        json_string_map(buffer) == Err::<Map<Seq<char>, Seq<char>>, Seq<char>>(reason)
            ==> env_result(keys, buffer) == Err::<Map<Seq<char>, Seq<char>>, EnvErrorView>(
            EnvErrorView::Malformed { reason },
        ),
{
}

/// Whether a reply can be the outcome of an operation.
pub open spec fn env_reply_fits(action: EnvAction, reply: EnvReplyView) -> bool {
    match action {
        EnvAction::Listen | EnvAction::SendByte { .. } => reply is Done || reply is Failed,
        EnvAction::Accept => reply is Done || reply is Closed || reply is TimedOut,
        EnvAction::Read { len } => reply is TimedOut || reply is Failed || (reply is Data
            && reply->Data_bytes.len() <= len),
    }
}

/// How the sync answers each outcome, by the operation that had it and what the
/// present connection has delivered. A failed read abandons the connection for the
/// next one, silence and too many bytes end the sync, the end of the data is
/// acknowledged to the host, and only then is the result made, of what was
/// delivered.
#[verifier::rlimit(40)]
pub proof fn law_sync_goes_on(
    keys: Option<Seq<Seq<char>>>,
    replies: Seq<EnvReplyView>,
    reply: EnvReplyView,
)
    requires
        EnvRun::initial(keys).admits(replies),
        EnvRun::initial(keys).after(replies).progress is Next,
    ensures
        ({
            let run = EnvRun::initial(keys).after(replies);
            let action = run.progress->action;
            let next = run.advance(reply).progress;
            &&& run.sync.expects(reply) <==> env_reply_fits(action, reply)
            &&& action matches EnvAction::Read { len } ==> len == 1024
            &&& env_reply_fits(action, reply) ==> match (action, reply) {
                (EnvAction::Listen, EnvReplyView::Failed { reason }) => next == (
                EnvProgressView::Finished { result: Err(EnvErrorView::Listen { reason }) }),
                (EnvAction::Listen, _) => next == (EnvProgressView::Next {
                    action: EnvAction::Accept,
                }),
                (EnvAction::Accept, EnvReplyView::Closed) => is_failure(
                    next,
                    EnvFailure::NoConnection,
                ),
                (EnvAction::Accept, EnvReplyView::TimedOut) => is_failure(
                    next,
                    EnvFailure::AcceptTimeout,
                ),
                (EnvAction::Accept, _) => next == (EnvProgressView::Next {
                    action: EnvAction::Read { len: 1024 },
                }),
                (EnvAction::Read { .. }, EnvReplyView::Data { bytes }) => if bytes.len() == 0 {
                    next == (EnvProgressView::Next { action: EnvAction::SendByte { byte: 6 } })
                } else if run.delivered.len() + bytes.len() > 131072 {
                    is_failure(next, EnvFailure::TooLarge)
                } else {
                    next == (EnvProgressView::Next { action: EnvAction::Read { len: 1024 } })
                },
                (EnvAction::Read { .. }, EnvReplyView::TimedOut) => is_failure(
                    next,
                    EnvFailure::ReadTimeout,
                ),
                (EnvAction::Read { .. }, _) => next == (EnvProgressView::Next {
                    action: EnvAction::Accept,
                }),
                (EnvAction::SendByte { .. }, _) => {
                    &&& next is Finished
                    &&& keys is Some
                    &&& is_environment_of(keys->0, run.delivered, next->result)
                },
            }
        }),
{
    lemma_run_stages(keys, replies);
    law_buffer_is_present_connection(keys, replies);
    let run = EnvRun::initial(keys).after(replies);
    if run.sync.stage == EnvStage::Acking {
        let synced = json_string_map(run.delivered)->Ok_0;
        let reason = json_string_map(run.delivered)->Err_0;
        law_environment_is_listed_part(keys->0, run.delivered, synced, reason);
    }
}

/// Whether a sync has ended with this failure.
pub open spec fn is_failure(progress: EnvProgressView, failure: EnvFailure) -> bool {
    progress == (EnvProgressView::Finished { result: Err(EnvErrorView::Failure { failure }) })
}

/// Whether a result is what the delivered bytes amount to: the listed part of a
/// JSON object of strings, or the reason why they are none.
pub open spec fn is_environment_of(
    keys: Seq<Seq<char>>,
    delivered: Seq<u8>,
    result: Result<Map<Seq<char>, Seq<char>>, EnvErrorView>,
) -> bool {
    match json_string_map(delivered) {
        Ok(synced) => {
            &&& result matches Ok(env)
            &&& forall|k: Seq<char>| #[trigger]
                env.contains_key(k) <==> keys.contains(k) && synced.contains_key(k)
            &&& forall|k: Seq<char>| #[trigger] env.contains_key(k) ==> env[k] == synced[k]
        },
        Err(reason) => result == Err::<Map<Seq<char>, Seq<char>>, EnvErrorView>(
            EnvErrorView::Malformed { reason },
        ),
    }
}

/// The operation under way tells the stage, and the keys never change.
proof fn lemma_run_stages(keys: Option<Seq<Seq<char>>>, replies: Seq<EnvReplyView>)
    requires
        EnvRun::initial(keys).admits(replies),
    ensures
        ({
            let run = EnvRun::initial(keys).after(replies);
            &&& run.progress is Next <==> run.sync.stage != EnvStage::Finished
            &&& run.progress is Next ==> keys == Some(run.sync.keys) && run.sync.keys.len() > 0
            &&& match run.sync.stage {
                EnvStage::Listening => run.progress->action == EnvAction::Listen,
                EnvStage::Accepting => run.progress->action == EnvAction::Accept,
                EnvStage::Reading => run.progress->action == (EnvAction::Read {
                    len: ENV_READ_SIZE,
                }),
                EnvStage::Acking => run.progress->action == (EnvAction::SendByte { byte: ENV_ACK }),
                EnvStage::Finished => true,
            }
        }),
    decreases replies.len(),
{
    if replies.len() > 0 {
        lemma_run_stages(keys, replies.drop_last());
    }
}

/// A sync begins by listening, unless no variable is listed: then it is over at
/// once, with no variables.
pub proof fn law_sync_begins(keys: Seq<Seq<char>>)
    ensures
        keys.len() > 0 ==> EnvRun::initial(Some(keys)).progress == (EnvProgressView::Next {
            action: EnvAction::Listen,
        }),
        keys.len() == 0 ==> EnvRun::initial(Some(keys)).progress == (EnvProgressView::Finished {
            result: Ok(Map::empty()),
        }),
        EnvRun::initial(None).progress == (EnvProgressView::Finished { result: Ok(Map::empty()) }),
{
}

/// What each error says, and what is behind it.
pub proof fn law_environment_errors_are_told(reason: Seq<char>)
    ensures
        (EnvErrorView::Failure { failure: EnvFailure::NoConnection }).text()
            == "Failed to accept environment sync vsock connection"@,
        (EnvErrorView::Failure { failure: EnvFailure::AcceptTimeout }).text()
            == "Timed out while waiting for environment sync"@,
        (EnvErrorView::Failure { failure: EnvFailure::TooLarge }).text()
            == "Maximum environment size exceeded"@,
        (EnvErrorView::Failure { failure: EnvFailure::ReadTimeout }).text()
            == "Timed out while reading environment"@,
        (EnvErrorView::Malformed { reason }).text() == "Failed to parse the synced environment"@,
        (EnvErrorView::Malformed { reason }).cause() == Some(reason),
        (EnvErrorView::Listen { reason }).text() == reason,
        (EnvErrorView::Listen { reason }).cause() is None,
        forall|failure: EnvFailure| #[trigger]
            (EnvErrorView::Failure { failure }).cause() is None,
{
}

/// Replies, errors and results are told apart by what they hold.
pub proof fn law_environment_values(
    reply: EnvReply,
    error: EnvError,
    result: Result<StringMap<String>, EnvError>,
)
    ensures
        match reply {
            EnvReply::Done => reply@ is Done,
            EnvReply::Data { bytes } => reply@ == (EnvReplyView::Data { bytes: bytes@ }),
            EnvReply::Closed => reply@ is Closed,
            EnvReply::TimedOut => reply@ is TimedOut,
            EnvReply::Failed { reason } => reply@ == (EnvReplyView::Failed { reason: reason@ }),
        },
        match error {
            EnvError::Failure { failure } => error@ == (EnvErrorView::Failure { failure }),
            EnvError::Malformed { reason } => error@ == (EnvErrorView::Malformed {
                reason: reason@,
            }),
            EnvError::Listen { reason } => error@ == (EnvErrorView::Listen { reason: reason@ }),
        },
        match result {
            Ok(env) => result_view(result) == Ok::<Map<Seq<char>, Seq<char>>, EnvErrorView>(env@),
            Err(e) => result_view(result) == Err::<Map<Seq<char>, Seq<char>>, EnvErrorView>(e@),
        },
        (EnvProgress::Finished { result })@ == (EnvProgressView::Finished {
            result: result_view(result),
        }),
        forall|action: EnvAction| #[trigger]
            (EnvProgress::Next { action })@ == (EnvProgressView::Next { action }),
{
}

} // verus!
