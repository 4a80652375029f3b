//! The staging of a job's artifacts.
use crate::coders::wire::copy_range;
use crate::jobservice::urns::PROCESS_ENVIRONMENT;
use crate::shared::{new_tokens, token_contains, token_insert, tokens_in};
use crate::text::{join2, join3};
use crate::utils::path::{join, joined, text_option};
use beam_model_rs::v1::ArtifactStagingToRolePayload;
use dashmap::DashSet;
use prost::Message;
use vstd::prelude::*;
use vstd::string::*;

verus! {

/// What a client says of an artifact.
#[derive(Debug, Clone, PartialEq, Eq)]
pub struct ArtifactInformation {
    pub type_urn: String,
    pub type_payload: Vec<u8>,
    pub role_urn: String,
    pub role_payload: Vec<u8>,
}

#[verifier::ext_equal]
pub struct ArtifactV {
    pub type_urn: Seq<char>,
    pub type_payload: Seq<u8>,
    pub role_urn: Seq<char>,
    pub role_payload: Seq<u8>,
}

impl ArtifactInformation {
    pub open spec fn model(self) -> ArtifactV {
        ArtifactV {
            type_urn: self.type_urn@,
            type_payload: self.type_payload@,
            role_urn: self.role_urn@,
            role_payload: self.role_payload@,
        }
    }

    /// The same information once more.
    pub fn duplicate(&self) -> (r: ArtifactInformation)
        ensures
            r.model() == self.model(),
    {
        ArtifactInformation {
            type_urn: self.type_urn.clone(),
            type_payload: copy_range(&self.type_payload, 0, self.type_payload.len()),
            role_urn: self.role_urn.clone(),
            role_payload: copy_range(&self.role_payload, 0, self.role_payload.len()),
        }
    }
}

/// The models of some artifacts.
pub open spec fn artifacts_model(artifacts: Seq<ArtifactInformation>) -> Seq<ArtifactV> {
    Seq::new(artifacts.len(), |i: int| artifacts[i].model())
}

/// The staged name in the bytes of a protobuf `ArtifactStagingToRolePayload`
/// message, if they are one.
pub uninterp spec fn role_payload_name(payload: Seq<u8>) -> Option<Seq<char>>;

/// `prost::Message::decode` for the `ArtifactStagingToRolePayload` message: its
/// staged name; nothing where the bytes are no such message. The name is claimed
/// to depend on the bytes alone.
#[verifier::external_body]
pub(crate) fn decode_role_payload(payload: &[u8]) -> (r: Option<String>)
    ensures
        match r {
            Some(name) => role_payload_name(payload@) == Some(name@),
            None => role_payload_name(payload@) is None,
        },
{
    Some(ArtifactStagingToRolePayload::decode(payload).ok()?.staged_name)
}

/// The file name of an artifact: the one it was given, unless that is empty.
pub open spec fn given_name(given: Option<Seq<char>>, default: Seq<char>) -> Seq<char> {
    match given {
        Some(name) => if name.len() > 0 {
            name
        } else {
            default
        },
        None => default,
    }
}

/// The file name of an artifact, from the one it was given.
pub fn given_or_default(given: Option<String>, default: &str) -> (r: String)
    ensures
        r@ == given_name(text_option(given), default@),
{
    match given {
        Some(name) => if name.as_str().unicode_len() > 0 {
            name
        } else {
            default.to_string()
        },
        None => default.to_string(),
    }
}

/// The file name of an artifact: the one in its role payload, where there is one.
pub open spec fn file_name(artifact: ArtifactV, default: Seq<char>) -> Seq<char> {
    if artifact.role_payload.len() == 0 {
        default
    } else {
        given_name(role_payload_name(artifact.role_payload), default)
    }
}

/// The file name of an artifact.
pub fn staged_name(artifact: &ArtifactInformation, default: &str) -> (r: String)
    ensures
        r@ == file_name(artifact.model(), default@),
{
    if artifact.role_payload.len() == 0 {
        default.to_string()
    } else {
        given_or_default(decode_role_payload(artifact.role_payload.as_slice()), default)
    }
}

/// The tokens of the staging sessions that were promised.
pub struct StagingTokens {
    tokens: DashSet<String>,
}

impl StagingTokens {
    /// The tokens.
    pub closed spec fn promised(self) -> Set<Seq<char>> {
        tokens_in(self.tokens)
    }

    pub fn new() -> (r: StagingTokens)
        ensures
            r.promised() == Set::<Seq<char>>::empty(),
    {
        StagingTokens { tokens: new_tokens() }
    }

    /// Promises a session.
    pub fn insert(&mut self, token: String)
        ensures
            final(self).promised() == old(self).promised().insert(token@),
    {
        token_insert(&mut self.tokens, token);
    }

    /// Whether the session was promised.
    pub fn contains(&self, token: &str) -> (r: bool)
        ensures
            r == self.promised().contains(token@),
    {
        token_contains(&self.tokens, token)
    }
}

/// The body of what a client sends.
#[derive(Debug, PartialEq, Eq)]
pub enum ArtifactReply {
    Resolved(Vec<ArtifactInformation>),
    Data(Vec<u8>),
    Other,
}

/// What a client sends.
#[derive(Debug, PartialEq, Eq)]
pub struct ArtifactResponse {
    pub staging_token: String,
    pub is_last: bool,
    pub body: ArtifactReply,
    /// The long `Debug` form of the message as it came.
    pub shown: String,
}

/// What the session is told: what came from the client, that the stream from it
/// broke or ended, or what became of the last action.
#[derive(Debug, PartialEq, Eq)]
pub enum StagingEvent {
    Received(ArtifactResponse),
    Broken(String),
    Ended,
    Done,
    Failed(String),
}

/// What is sent to the client.
#[derive(Debug, PartialEq, Eq)]
pub enum ArtifactRequest {
    Resolve { artifacts: Vec<ArtifactInformation>, preferred_urns: Vec<String> },
    Get(ArtifactInformation),
}

/// What is to be done next.
#[derive(Debug, PartialEq, Eq)]
pub enum StagingAction {
    /// Forget the file that is being written.
    Reset,
    /// Send the request to the client.
    Send(ArtifactRequest),
    /// Begin the file.
    BeginFile(String),
    /// Write the bytes to the file.
    Write(Vec<u8>),
    /// Wait for the client.
    Receive,
    /// End the session: it failed.
    Stop(String),
    /// End the session: all artifacts are staged.
    Complete,
}

/// How far a session has come: what it waits for.
#[derive(Debug, Clone, Copy, PartialEq, Eq, Structural)]
pub enum StagingStage {
    Token,
    Reset,
    ResolveSent,
    Resolution,
    FileBegun,
    GetSent,
    Chunk,
    Written,
    Over,
}

#[verifier::ext_equal]
pub enum ReplyV {
    Resolved(Seq<ArtifactV>),
    Data(Seq<u8>),
    Other,
}

#[verifier::ext_equal]
pub enum EventV {
    /// The token, whether it is the last, the body, and how the message is shown.
    Received(Seq<char>, bool, ReplyV, Seq<char>),
    Broken(Seq<char>),
    Ended,
    Done,
    Failed(Seq<char>),
}

#[verifier::ext_equal]
pub enum RequestV {
    Resolve(Seq<ArtifactV>, Seq<Seq<char>>),
    Get(ArtifactV),
}

#[verifier::ext_equal]
pub enum ActionV {
    Reset,
    Send(RequestV),
    BeginFile(Seq<char>),
    Write(Seq<u8>),
    Receive,
    Stop(Seq<char>),
    Complete,
}

/// A session as mathematics sees it.
#[verifier::ext_equal]
pub struct SessionV {
    pub stage: StagingStage,
    pub artifacts: Seq<ArtifactV>,
    pub at: int,
    pub is_last: bool,
    pub default: Seq<char>,
}

impl ArtifactReply {
    pub open spec fn model(self) -> ReplyV {
        match self {
            ArtifactReply::Resolved(artifacts) => ReplyV::Resolved(artifacts_model(artifacts@)),
            ArtifactReply::Data(data) => ReplyV::Data(data@),
            ArtifactReply::Other => ReplyV::Other,
        }
    }
}

impl StagingEvent {
    pub open spec fn model(self) -> EventV {
        match self {
            StagingEvent::Received(r) => EventV::Received(
                r.staging_token@,
                r.is_last,
                r.body.model(),
                r.shown@,
            ),
            StagingEvent::Broken(e) => EventV::Broken(e@),
            StagingEvent::Ended => EventV::Ended,
            StagingEvent::Done => EventV::Done,
            StagingEvent::Failed(e) => EventV::Failed(e@),
        }
    }
}

impl ArtifactRequest {
    pub open spec fn model(self) -> RequestV {
        match self {
            ArtifactRequest::Resolve { artifacts, preferred_urns } => RequestV::Resolve(
                artifacts_model(artifacts@),
                crate::named::texts(preferred_urns@),
            ),
            ArtifactRequest::Get(artifact) => RequestV::Get(artifact.model()),
        }
    }
}

impl StagingAction {
    pub open spec fn model(self) -> ActionV {
        match self {
            StagingAction::Reset => ActionV::Reset,
            StagingAction::Send(request) => ActionV::Send(request.model()),
            StagingAction::BeginFile(name) => ActionV::BeginFile(name@),
            StagingAction::Write(data) => ActionV::Write(data@),
            StagingAction::Receive => ActionV::Receive,
            StagingAction::Stop(why) => ActionV::Stop(why@),
            StagingAction::Complete => ActionV::Complete,
        }
    }
}

/// Whether a session at that stage waits for such an event.
pub open spec fn waits_for(stage: StagingStage, event: EventV) -> bool {
    match stage {
        StagingStage::Token | StagingStage::Resolution | StagingStage::Chunk => {
            event is Received || event is Broken || event is Ended
        },
        StagingStage::Reset
        | StagingStage::ResolveSent
        | StagingStage::FileBegun
        | StagingStage::GetSent
        | StagingStage::Written => event is Done || event is Failed,
        StagingStage::Over => false,
    }
}

/// The session has ended, and the action says how.
pub open spec fn over(s: SessionV, action: ActionV) -> (SessionV, ActionV) {
    (SessionV { stage: StagingStage::Over, ..s }, action)
}

/// The session goes on to a stage, and does something there.
pub open spec fn on_to(s: SessionV, stage: StagingStage, action: ActionV) -> (
    SessionV,
    ActionV,
) {
    (SessionV { stage, ..s }, action)
}

/// The session turns to the artifact at a place; behind the last it is complete.
pub open spec fn turn_to(s: SessionV, at: int) -> (SessionV, ActionV) {
    if 0 <= at < s.artifacts.len() {
        (
            SessionV { stage: StagingStage::FileBegun, at, ..s },
            ActionV::BeginFile(file_name(s.artifacts[at], s.default)),
        )
    } else {
        over(SessionV { at, ..s }, ActionV::Complete)
    }
}

/// The file name of the artifact that a session is at.
pub open spec fn current_name(s: SessionV) -> Seq<char> {
    file_name(s.artifacts[s.at], s.default)
}

/// What a session does next. It starts with a token that must have been promised,
/// asks the client which artifacts there are, and fetches one after the other,
/// each into its file.
pub open spec fn staging_step(s: SessionV, event: EventV, promised: Set<Seq<char>>) -> (
    SessionV,
    ActionV,
) {
    match (s.stage, event) {
        (StagingStage::Token, EventV::Received(token, _, _, _)) => if promised.contains(token) {
            on_to(s, StagingStage::Reset, ActionV::Reset)
        } else {
            over(s, ActionV::Stop("Invalid staging token: "@ + token))
        },
        (StagingStage::Token, EventV::Broken(e)) => over(
            s,
            ActionV::Stop("Error receiving staging token: "@ + e),
        ),
        (StagingStage::Token, _) => over(
            s,
            ActionV::Stop("Client disconnected before sending staging token"@),
        ),
        (StagingStage::Reset, EventV::Failed(e)) => over(
            s,
            ActionV::Stop("failed to reset artifact store before staging: "@ + e),
        ),
        (StagingStage::Reset, _) => on_to(
            s,
            StagingStage::ResolveSent,
            ActionV::Send(RequestV::Resolve(Seq::empty(), seq![PROCESS_ENVIRONMENT@])),
        ),
        (StagingStage::ResolveSent, EventV::Failed(_)) => over(
            s,
            ActionV::Stop("Failed to send resolve request"@),
        ),
        (StagingStage::ResolveSent, _) => on_to(s, StagingStage::Resolution, ActionV::Receive),
        (StagingStage::Resolution, EventV::Received(_, _, ReplyV::Resolved(artifacts), _)) => turn_to(
            SessionV { artifacts, ..s },
            0,
        ),
        (StagingStage::Resolution, EventV::Received(_, _, _, shown)) => over(
            s,
            ActionV::Stop("Received unexpected response from client: "@ + shown),
        ),
        (StagingStage::Resolution, EventV::Broken(e)) => over(
            s,
            ActionV::Stop("Error receiving resolve response: "@ + e),
        ),
        (StagingStage::Resolution, _) => over(s, ActionV::Stop("Client disconnected"@)),
        (StagingStage::FileBegun, EventV::Failed(e)) => over(
            s,
            ActionV::Stop("failed to begin file for "@ + current_name(s) + ": "@ + e),
        ),
        (StagingStage::FileBegun, _) => on_to(
            s,
            StagingStage::GetSent,
            ActionV::Send(RequestV::Get(s.artifacts[s.at])),
        ),
        (StagingStage::GetSent, EventV::Failed(_)) => over(
            s,
            ActionV::Stop("Failed to send get artifact request"@),
        ),
        (StagingStage::GetSent, _) => on_to(s, StagingStage::Chunk, ActionV::Receive),
        (StagingStage::Chunk, EventV::Received(_, is_last, ReplyV::Data(data), _)) => on_to(
            SessionV { is_last, ..s },
            StagingStage::Written,
            ActionV::Write(data),
        ),
        (StagingStage::Chunk, EventV::Received(_, _, _, _)) => turn_to(s, s.at + 1),
        (StagingStage::Chunk, EventV::Broken(e)) => over(
            s,
            ActionV::Stop("Error receiving artifact: "@ + e),
        ),
        (StagingStage::Chunk, _) => over(s, ActionV::Stop("Client stream ended unexpectedly"@)),
        (StagingStage::Written, EventV::Failed(e)) => over(
            s,
            ActionV::Stop("artifact write failed for "@ + current_name(s) + ": "@ + e),
        ),
        (StagingStage::Written, _) => if s.is_last {
            turn_to(s, s.at + 1)
        } else {
            on_to(s, StagingStage::Chunk, ActionV::Receive)
        },
        (StagingStage::Over, _) => over(s, ActionV::Complete),
    }
}

/// A session in which a client hands over its artifacts.
#[derive(Debug)]
pub struct StagingSession {
    pub stage: StagingStage,
    pub artifacts: Vec<ArtifactInformation>,
    pub at: usize,
    pub is_last: bool,
    pub default_file_name: String,
}

impl StagingSession {
    pub open spec fn model(self) -> SessionV {
        SessionV {
            stage: self.stage,
            artifacts: artifacts_model(self.artifacts@),
            at: self.at as int,
            is_last: self.is_last,
            default: self.default_file_name@,
        }
    }

    /// While an artifact is being fetched, it is one of those that the client
    /// named.
    pub open spec fn wf(self) -> bool {
        (self.stage == StagingStage::FileBegun || self.stage == StagingStage::GetSent || self.stage
            == StagingStage::Chunk || self.stage == StagingStage::Written) ==> self.at
            < self.artifacts@.len()
    }

    /// A session that waits for its token. An artifact without a name goes to the
    /// default file.
    pub fn new(default_file_name: &str) -> (r: StagingSession)
        ensures
            r.wf(),
            r.model() == (SessionV {
                stage: StagingStage::Token,
                artifacts: Seq::empty(),
                at: 0,
                is_last: false,
                default: default_file_name@,
            }),
    {
        let r = StagingSession {
            stage: StagingStage::Token,
            artifacts: Vec::new(),
            at: 0,
            is_last: false,
            default_file_name: default_file_name.to_string(),
        };
        assert(r.model().artifacts =~= Seq::<ArtifactV>::empty());
        r
    }

    /// The session has ended.
    fn stop(&mut self, why: String) -> (r: StagingAction)
        ensures
            final(self).wf(),
            (final(self).model(), r.model()) == over(old(self).model(), ActionV::Stop(why@)),
    {
        self.stage = StagingStage::Over;
        StagingAction::Stop(why)
    }

    /// The session turns to the artifact at a place.
    fn turn(&mut self, at: usize) -> (r: StagingAction)
        ensures
            final(self).wf(),
            (final(self).model(), r.model()) == turn_to(old(self).model(), at as int),
    {
        self.at = at;
        if at < self.artifacts.len() {
            self.stage = StagingStage::FileBegun;
            assert(self.model().artifacts[at as int] == self.artifacts@[at as int].model());
            StagingAction::BeginFile(
                staged_name(&self.artifacts[at], self.default_file_name.as_str()),
            )
        } else {
            self.stage = StagingStage::Over;
            StagingAction::Complete
        }
    }

    /// The session turns to the artifact behind the one it is at.
    fn turn_on(&mut self) -> (r: StagingAction)
        requires
            old(self).at < old(self).artifacts@.len(),
        ensures
            final(self).wf(),
            (final(self).model(), r.model()) == turn_to(old(self).model(), old(self).at + 1),
    {
        let n: usize = self.artifacts.len();
        let at: usize = self.at + 1;
        self.turn(at)
    }

    /// What is said of the artifact that the session is at.
    fn complaint(&self, what: &str, e: &String) -> (r: String)
        requires
            self.at < self.artifacts@.len(),
        ensures
            r@ == what@ + current_name(self.model()) + ": "@ + e@,
    {
        assert(self.model().artifacts[self.at as int] == self.artifacts@[self.at as int].model());
        let name = staged_name(&self.artifacts[self.at], self.default_file_name.as_str());
        let start = join3(what, name.as_str(), ": ");
        join2(start.as_str(), e.as_str())
    }

    /// What the session does next.
    pub fn next(&mut self, event: StagingEvent, tokens: &StagingTokens) -> (r: StagingAction)
        requires
            old(self).wf(),
            waits_for(old(self).stage, event.model()),
        ensures
            final(self).wf(),
            (final(self).model(), r.model()) == staging_step(
                old(self).model(),
                event.model(),
                tokens.promised(),
            ),
    {
        match self.stage {
            StagingStage::Token => match event {
                StagingEvent::Received(response) => {
                    if tokens.contains(response.staging_token.as_str()) {
                        self.stage = StagingStage::Reset;
                        StagingAction::Reset
                    } else {
                        self.stop(
                            join2("Invalid staging token: ", response.staging_token.as_str()),
                        )
                    }
                },
                StagingEvent::Broken(e) => self.stop(
                    join2("Error receiving staging token: ", e.as_str()),
                ),
                _ => self.stop("Client disconnected before sending staging token".to_string()),
            },
            StagingStage::Reset => match event {
                StagingEvent::Failed(e) => self.stop(
                    join2("failed to reset artifact store before staging: ", e.as_str()),
                ),
                _ => {
                    self.stage = StagingStage::ResolveSent;
                    let mut preferred_urns: Vec<String> = Vec::new();
                    preferred_urns.push(PROCESS_ENVIRONMENT.to_string());
                    let artifacts: Vec<ArtifactInformation> = Vec::new();
                    proof {
                        assert(artifacts_model(artifacts@) =~= Seq::<ArtifactV>::empty());
                        assert(crate::named::texts(preferred_urns@) =~= seq![
                            PROCESS_ENVIRONMENT@,
                        ]);
                    }
                    StagingAction::Send(ArtifactRequest::Resolve { artifacts, preferred_urns })
                },
            },
            StagingStage::ResolveSent => match event {
                StagingEvent::Failed(_) => self.stop("Failed to send resolve request".to_string()),
                _ => {
                    self.stage = StagingStage::Resolution;
                    StagingAction::Receive
                },
            },
            StagingStage::Resolution => match event {
                StagingEvent::Received(response) => match response.body {
                    ArtifactReply::Resolved(artifacts) => {
                        self.artifacts = artifacts;
                        self.turn(0)
                    },
                    _ => self.stop(
                        join2(
                            "Received unexpected response from client: ",
                            response.shown.as_str(),
                        ),
                    ),
                },
                StagingEvent::Broken(e) => self.stop(
                    join2("Error receiving resolve response: ", e.as_str()),
                ),
                _ => self.stop("Client disconnected".to_string()),
            },
            StagingStage::FileBegun => match event {
                StagingEvent::Failed(e) => {
                    let why = self.complaint("failed to begin file for ", &e);
                    self.stop(why)
                },
                _ => {
                    self.stage = StagingStage::GetSent;
                    assert(self.model().artifacts[self.at as int]
                        == self.artifacts@[self.at as int].model());
                    StagingAction::Send(ArtifactRequest::Get(self.artifacts[self.at].duplicate()))
                },
            },
            StagingStage::GetSent => match event {
                StagingEvent::Failed(_) => self.stop(
                    "Failed to send get artifact request".to_string(),
                ),
                _ => {
                    self.stage = StagingStage::Chunk;
                    StagingAction::Receive
                },
            },
            StagingStage::Chunk => match event {
                StagingEvent::Received(response) => match response.body {
                    ArtifactReply::Data(data) => {
                        self.is_last = response.is_last;
                        self.stage = StagingStage::Written;
                        StagingAction::Write(data)
                    },
                    _ => self.turn_on(),
                },
                StagingEvent::Broken(e) => self.stop(
                    join2("Error receiving artifact: ", e.as_str()),
                ),
                _ => self.stop("Client stream ended unexpectedly".to_string()),
            },
            StagingStage::Written => match event {
                StagingEvent::Failed(e) => {
                    let why = self.complaint("artifact write failed for ", &e);
                    self.stop(why)
                },
                _ => {
                    if self.is_last {
                        self.turn_on()
                    } else {
                        self.stage = StagingStage::Chunk;
                        StagingAction::Receive
                    }
                },
            },
            StagingStage::Over => StagingAction::Complete,
        }
    }
}

/// The state of a session after some events, and what it did on the way.
pub open spec fn session_run(s: SessionV, events: Seq<EventV>, promised: Set<Seq<char>>) -> (
    SessionV,
    Seq<ActionV>,
)
    decreases events.len(),
{
    if events.len() == 0 {
        (s, Seq::empty())
    } else {
        let before = session_run(s, events.drop_last(), promised);
        let step = staging_step(before.0, events.last(), promised);
        (step.0, before.1.push(step.1))
    }
}

/// The chunks of an artifact as they come, each written: the last one says so.
pub open spec fn chunk_events(chunks: Seq<Seq<u8>>, n: int) -> Seq<EventV>
    decreases n,
{
    if n <= 0 || n > chunks.len() {
        Seq::empty()
    } else {
        chunk_events(chunks, n - 1).push(
            EventV::Received(
                Seq::empty(),
                n == chunks.len(),
                ReplyV::Data(chunks[n - 1]),
                Seq::empty(),
            ),
        ).push(EventV::Done)
    }
}

/// What was written by some actions, in order.
pub open spec fn written(actions: Seq<ActionV>) -> Seq<Seq<u8>>
    decreases actions.len(),
{
    if actions.len() == 0 {
        Seq::empty()
    } else {
        match actions.last() {
            ActionV::Write(data) => written(actions.drop_last()).push(data),
            _ => written(actions.drop_last()),
        }
    }
}

proof fn chunks_so_far(s: SessionV, chunks: Seq<Seq<u8>>, n: int, promised: Set<Seq<char>>)
    requires
        s.stage == StagingStage::Chunk,
        0 <= n <= chunks.len(),
        n < chunks.len() || n == 0,
    ensures
        ({
            let run = session_run(s, chunk_events(chunks, n), promised);
            &&& run.0.stage == StagingStage::Chunk
            &&& run.0.at == s.at
            &&& run.0.artifacts == s.artifacts
            &&& run.0.default == s.default
            &&& written(run.1) == chunks.take(n)
        }),
    decreases n,
{
    if n > 0 {
        chunks_so_far(s, chunks, n - 1, promised);
        one_more_chunk(s, chunks, n, promised);
        let run = session_run(s, chunk_events(chunks, n - 1), promised);
        assert(written(run.1) == chunks.take(n - 1));
        assert(chunks.take(n) =~= chunks.take(n - 1).push(chunks[n - 1]));
    } else {
        assert(chunks.take(0) =~= Seq::<Seq<u8>>::empty());
    }
}

/// A chunk is written when it comes.
proof fn one_more_chunk(s: SessionV, chunks: Seq<Seq<u8>>, n: int, promised: Set<Seq<char>>)
    requires
        0 < n <= chunks.len(),
        session_run(s, chunk_events(chunks, n - 1), promised).0.stage == StagingStage::Chunk,
    ensures
        ({
            let before = session_run(s, chunk_events(chunks, n - 1), promised);
            let after = session_run(s, chunk_events(chunks, n), promised);
            let is_last = n == chunks.len();
            let waiting = SessionV { is_last, stage: StagingStage::Written, ..before.0 };
            &&& (after.0, after.1.last()) == staging_step(waiting, EventV::Done, promised)
            &&& written(after.1) == written(before.1).push(chunks[n - 1])
        }),
{
    let earlier = chunk_events(chunks, n - 1);
    let is_last = n == chunks.len();
    let received = EventV::Received(
        Seq::empty(),
        is_last,
        ReplyV::Data(chunks[n - 1]),
        Seq::empty(),
    );
    let middle = earlier.push(received);
    let events = middle.push(EventV::Done);
    assert(chunk_events(chunks, n) == events);
    assert(events.drop_last() =~= middle);
    assert(middle.drop_last() =~= earlier);
    let before = session_run(s, earlier, promised);
    let half = session_run(s, middle, promised);
    let after = session_run(s, events, promised);
    assert(half.1 == before.1.push(ActionV::Write(chunks[n - 1])));
    assert(half.1.drop_last() =~= before.1);
    assert(after.1.drop_last() =~= half.1);
    assert(written(half.1) == written(before.1).push(chunks[n - 1]));
    let waiting = SessionV { is_last, stage: StagingStage::Written, ..before.0 };
    assert(half.0 == waiting);
    assert(after.1.last() == staging_step(waiting, EventV::Done, promised).1);
    assert(!(after.1.last() is Write));
}

/// The chunks of an artifact are written as they came, in order, and then the
/// session turns to the next artifact.
pub proof fn chunks_are_written(s: SessionV, chunks: Seq<Seq<u8>>, promised: Set<Seq<char>>)
    requires
        s.stage == StagingStage::Chunk,
        0 <= s.at < s.artifacts.len(),
        chunks.len() > 0,
    ensures
        ({
            let run = session_run(s, chunk_events(chunks, chunks.len() as int), promised);
            &&& written(run.1) == chunks
            &&& run.0.at == s.at + 1
            &&& run.0.artifacts == s.artifacts
            &&& if s.at + 1 < s.artifacts.len() {
                &&& run.0.stage == StagingStage::FileBegun
                &&& run.1.last() == ActionV::BeginFile(file_name(s.artifacts[s.at + 1], s.default))
            } else {
                &&& run.0.stage == StagingStage::Over
                &&& run.1.last() == ActionV::Complete
            }
        }),
{
    let n = chunks.len() as int;
    chunks_so_far(s, chunks, n - 1, promised);
    one_more_chunk(s, chunks, n, promised);
    assert(chunks =~= chunks.take(n - 1).push(chunks[n - 1]));
}

/// Without a token that was promised, nothing is sent, begun or written.
pub proof fn no_staging_without_token(
    s: SessionV,
    event: EventV,
    promised: Set<Seq<char>>,
)
    requires
        s.stage == StagingStage::Token,
        !(event matches EventV::Received(token, _, _, _) && promised.contains(token)),
    ensures
        staging_step(s, event, promised).0.stage == StagingStage::Over,
        staging_step(s, event, promised).1 is Stop,
{
}

/// Where the artifacts of an instance go, and which file is being written.
#[derive(Debug)]
pub struct ArtifactStore {
    pub path: String,
    pub default_file_name: String,
    pub current_relative_path: Option<String>,
}

impl ArtifactStore {
    /// A store below a directory. The default file is the one that is being
    /// written.
    pub fn from(path: &str, file_name: &str) -> (r: ArtifactStore)
        ensures
            r.path@ == path@,
            r.default_file_name@ == file_name@,
            text_option(r.current_relative_path) == Some(file_name@),
    {
        ArtifactStore {
            path: path.to_string(),
            default_file_name: file_name.to_string(),
            current_relative_path: Some(file_name.to_string()),
        }
    }

    /// No file is being written.
    pub fn reset(&mut self)
        ensures
            final(self).current_relative_path is None,
            final(self).path == old(self).path,
            final(self).default_file_name == old(self).default_file_name,
    {
        self.current_relative_path = None;
    }

    /// The full path of a file that is to be begun.
    pub fn full_path(&self, relative_path: &str) -> (r: String)
        ensures
            r@ == joined(self.path@, relative_path@),
    {
        join(self.path.as_str(), relative_path)
    }

    /// The file was begun and is being written.
    pub fn begin_file(&mut self, relative_path: &str)
        ensures
            text_option(final(self).current_relative_path) == Some(relative_path@),
            final(self).path == old(self).path,
            final(self).default_file_name == old(self).default_file_name,
    {
        self.current_relative_path = Some(relative_path.to_string());
    }

    /// The full path of the file that a chunk goes to; an error where no file is
    /// being written.
    pub fn stage_artifact(&self) -> (r: Result<String, String>)
        ensures
            match r {
                Ok(path) => self.current_relative_path matches Some(name) && path@ == joined(
                    self.path@,
                    name@,
                ),
                Err(e) => self.current_relative_path is None && e@ == "file not initialized"@,
            },
    {
        match &self.current_relative_path {
            Some(name) => Ok(join(self.path.as_str(), name.as_str())),
            None => Err("file not initialized".to_string()),
        }
    }

    /// The path of the default file.
    pub fn staged_path(&self) -> (r: String)
        ensures
            r@ == self.path@ + "/"@ + self.default_file_name@,
    {
        join3(self.path.as_str(), "/", self.default_file_name.as_str())
    }

    pub fn root_path(&self) -> (r: &str)
        ensures
            r@ == self.path@,
    {
        self.path.as_str()
    }

    pub fn default_file_name(&self) -> (r: &str)
        ensures
            r@ == self.default_file_name@,
    {
        self.default_file_name.as_str()
    }
}

} // verus!
