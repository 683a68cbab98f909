//! The chat protocol: what happens to one request, step by step.
//!
//! A request is served in two steps, with the call to the completion
//! service, if one is needed, between them. [`ChatOrchestrator::begin`]
//! admits the client, checks the message, answers the model-info command
//! and looks in the cache; it ends with a reply or with the call to make.
//! The caller makes the call and hands the outcome to
//! [`ChatOrchestrator::complete`], which stores a completion and replies.
//! Nothing is retried, and nothing but a completion is stored. A caller that
//! can wait for the service while it holds the orchestrator runs both steps
//! at once with [`chat_api`].
//!
//! The orchestrator is for one owner at a time. Requests served in parallel
//! take turns at each step, not across the call: two requests that miss the
//! cache on the same message may both call the service, and the answer of
//! the one that completes last is the one that stays.

use crate::cache::{
    after_get, after_set, distinct_keys, holds, law_get_after_set, lookup, AppCache, EntryView,
};
use crate::config::{AppConfig, ConfigView};
use crate::rate_limit::{admits, after_allow, after_sweep, RateLimiter};
use crate::text::same_text;
use crate::upstream::{
    call_for, outcome_reading, read_outcome, reading_of, upstream_call, UpstreamCall,
    UpstreamCallView, UpstreamFault, UpstreamOutcome,
};
use vstd::prelude::*;
use vstd::string::StringExecFns;
use vstd::utf8::encode_utf8;

verus! {

/// The number of clients on record beyond which [`ChatOrchestrator::tidy`]
/// sweeps.
pub const SWEEP_THRESHOLD: usize = 1024;

/// The key of a client whose address is not known.
pub const UNKNOWN_CLIENT: &'static str = "unknown";

/// The key under which a client is rate-limited: its address, or
/// [`UNKNOWN_CLIENT`] where there is none. An empty address is a key like any
/// other.
pub fn client_key(remote_address: Option<&str>) -> (key: String)
    ensures
        key@ == client_key_of(remote_address),
{
    match remote_address {
        Some(address) => address.to_owned(),
        None => UNKNOWN_CLIENT.to_owned(),
    }
}

/// What a client sends.
#[derive(Debug, PartialEq, Eq)]
pub struct ChatRequest {
    pub message: String,
}

/// A completion, fresh or from the cache.
#[derive(Debug, PartialEq, Eq)]
pub struct ChatResponse {
    pub response: String,
}

/// The answer to the model-info command.
#[derive(Debug, PartialEq, Eq)]
pub struct ModelInfoResponse {
    pub model: String,
}

/// Why a request got no completion.
#[derive(Clone, Copy, PartialEq, Eq, Structural, Debug)]
pub enum ChatError {
    /// The client has used up its quota; it may try again later.
    RateLimited,
    /// The message is too long; the client has to shorten it.
    ValidationFailed,
    /// The completion service gave no completion.
    UpstreamFailure(UpstreamFault),
}

/// The reply to a request.
#[derive(Debug, PartialEq, Eq)]
pub enum ChatReply {
    Response(ChatResponse),
    ModelInfo(ModelInfoResponse),
    Error(ChatError),
}

/// A [`ChatReply`], as the contracts see it.
pub enum ReplyView {
    Response(Seq<char>),
    ModelInfo(Seq<char>),
    Error(ChatError),
}

impl View for ChatReply {
    type V = ReplyView;

    open spec fn view(&self) -> ReplyView {
        match self {
            ChatReply::Response(body) => ReplyView::Response(body.response@),
            ChatReply::ModelInfo(body) => ReplyView::ModelInfo(body.model@),
            ChatReply::Error(error) => ReplyView::Error(*error),
        }
    }
}

/// A call that the first step asks for, with the message it is for. Only
/// the first step makes one and the second step uses it up, so nothing is
/// ever stored but the answer to a call that the protocol asked for. One
/// that is dropped, because the request was given up, leaves no trace.
#[derive(Debug, PartialEq, Eq)]
pub struct PendingCall {
    message: String,
    call: UpstreamCall,
}

/// A [`PendingCall`], as the contracts see it.
pub struct PendingView {
    pub message: Seq<char>,
    pub call: UpstreamCallView,
}

impl View for PendingCall {
    type V = PendingView;

    closed spec fn view(&self) -> PendingView {
        PendingView { message: self.message@, call: self.call@ }
    }
}

impl PendingCall {
    /// The call to make.
    pub fn call(&self) -> (call: &UpstreamCall)
        ensures
            call@ == self@.call,
    {
        &self.call
    }

    /// The message that the call is for.
    pub fn message(&self) -> (message: &str)
        ensures
            message@ == self@.message,
    {
        self.message.as_str()
    }
}

/// How the first step ends: with the reply, or with the call to make.
#[derive(Debug, PartialEq, Eq)]
pub enum ChatStep {
    Done(ChatReply),
    CallUpstream(PendingCall),
}

/// A [`ChatStep`], as the contracts see it.
pub enum StepView {
    Done(ReplyView),
    CallUpstream(PendingView),
}

impl View for ChatStep {
    type V = StepView;

    open spec fn view(&self) -> StepView {
        match self {
            ChatStep::Done(reply) => StepView::Done(reply@),
            ChatStep::CallUpstream(pending) => StepView::CallUpstream(pending@),
        }
    }
}

/// The shared state, as the contracts see it: each client's record, and the
/// cache's entries, least recently used first.
pub struct GatewayView {
    pub windows: Map<Seq<char>, Seq<u64>>,
    pub entries: Seq<EntryView>,
}

/// Whether `message` takes more than `max_len` bytes.
pub open spec fn too_long(message: Seq<char>, max_len: nat) -> bool {
    encode_utf8(message).len() > max_len
}

/// Whether the client is admitted and the message passes as a prompt: it
/// is not too long and is not the model-info command.
pub open spec fn reaches_cache(
    config: ConfigView,
    state: GatewayView,
    client: Seq<char>,
    message: Seq<char>,
    now: u64,
) -> bool {
    &&& admits(state.windows, client, now, config.window, config.max_requests)
    &&& !too_long(message, config.max_message_len)
    &&& message != config.model_info_command
}

/// How the first step ends for `message` from `client` at `now`.
pub open spec fn first_step(
    config: ConfigView,
    state: GatewayView,
    client: Seq<char>,
    message: Seq<char>,
    now: u64,
) -> StepView {
    if !admits(state.windows, client, now, config.window, config.max_requests) {
        StepView::Done(ReplyView::Error(ChatError::RateLimited))
    } else if too_long(message, config.max_message_len) {
        StepView::Done(ReplyView::Error(ChatError::ValidationFailed))
    } else if message == config.model_info_command {
        StepView::Done(ReplyView::ModelInfo(config.llm_model_name))
    } else {
        match lookup(state.entries, message) {
            Some(text) => StepView::Done(ReplyView::Response(text)),
            None => StepView::CallUpstream(
                PendingView {
                    message,
                    call: call_for(config.llm_base_url, config.llm_model_name, message),
                },
            ),
        }
    }
}

/// The state after the first step. The client's request is recorded if it
/// is admitted. The cache is consulted, which counts as a use of the entry
/// found, only for a prompt of an admitted client.
pub open spec fn after_first_step(
    config: ConfigView,
    state: GatewayView,
    client: Seq<char>,
    message: Seq<char>,
    now: u64,
) -> GatewayView {
    GatewayView {
        windows: after_allow(state.windows, client, now, config.window, config.max_requests),
        entries: if reaches_cache(config, state, client, message, now) {
            after_get(state.entries, message)
        } else {
            state.entries
        },
    }
}

/// The reply that ends the second step, for what the call amounted to.
pub open spec fn last_reply(reading: Result<Seq<char>, UpstreamFault>) -> ReplyView {
    match reading {
        Ok(text) => ReplyView::Response(text),
        Err(fault) => ReplyView::Error(ChatError::UpstreamFailure(fault)),
    }
}

/// The state after the second step: a completion is stored under its
/// message; a failure changes nothing.
pub open spec fn after_last_step(
    config: ConfigView,
    state: GatewayView,
    message: Seq<char>,
    reading: Result<Seq<char>, UpstreamFault>,
    now: u64,
) -> GatewayView {
    match reading {
        Ok(text) => GatewayView {
            windows: state.windows,
            entries: after_set(state.entries, message, text, now, config.cache_capacity),
        },
        Err(_) => state,
    }
}

/// The rate limiter, the cache and the settings, behind the two steps of the
/// protocol.
pub struct ChatOrchestrator {
    config: AppConfig,
    rate_limiter: RateLimiter,
    cache: AppCache,
}

impl View for ChatOrchestrator {
    type V = GatewayView;

    closed spec fn view(&self) -> GatewayView {
        GatewayView { windows: self.rate_limiter@, entries: self.cache@ }
    }
}

impl ChatOrchestrator {
    /// The settings the orchestrator was made with.
    pub closed spec fn config(&self) -> ConfigView {
        self.config@
    }

    /// The parts are consistent with each other and with the settings.
    pub closed spec fn wf(&self) -> bool {
        &&& self.rate_limiter.wf()
        &&& self.cache.wf()
        &&& self.rate_limiter.max_requests() == self.config@.max_requests
        &&& self.rate_limiter.window() == self.config@.window
        &&& self.cache.capacity() == self.config@.cache_capacity
    }

    /// What a well-formed orchestrator holds: of each client on record at
    /// least one request and no more than the quota, and in the cache no
    /// message twice and no more answers than its capacity.
    pub proof fn law_state_within_limits(&self)
        requires
            self.wf(),
        ensures
            self@.windows.dom().finite(),
            forall|client: Seq<char>| #[trigger]
                self@.windows.contains_key(client) ==> 0 < self@.windows[client].len()
                    <= self.config().max_requests,
            distinct_keys(self@.entries),
            self@.entries.len() <= self.config().cache_capacity,
    {
        self.rate_limiter.law_records_within_quota();
    }

    /// An orchestrator that knows no client and has cached nothing.
    pub fn new(config: AppConfig) -> (orchestrator: Self)
        ensures
            orchestrator.wf(),
            orchestrator.config() == config@,
            orchestrator@ == (GatewayView {
                windows: Map::<Seq<char>, Seq<u64>>::empty(),
                entries: Seq::<EntryView>::empty(),
            }),
    {
        let rate_limiter = RateLimiter::new(config.max_requests, config.window);
        let cache = AppCache::new(config.cache_capacity);
        ChatOrchestrator { config, rate_limiter, cache }
    }

    /// An orchestrator around a rate limiter and a cache that exist already,
    /// in whatever state they are. There is none where they were not made
    /// with the quota, the window and the capacity that `config` names.
    pub fn with_parts(config: AppConfig, rate_limiter: RateLimiter, cache: AppCache) -> (made:
        Option<Self>)
        requires
            rate_limiter.wf(),
            cache.wf(),
        ensures
            made is Some <==> (rate_limiter.max_requests() == config@.max_requests
                && rate_limiter.window() == config@.window && cache.capacity()
                == config@.cache_capacity),
            match made {
                Some(orchestrator) => orchestrator.wf() && orchestrator.config() == config@
                    && orchestrator@ == (GatewayView {
                    windows: rate_limiter@,
                    entries: cache@,
                }),
                None => true,
            },
    {
        if rate_limiter.quota() == config.max_requests && rate_limiter.window_length()
            == config.window && cache.max_entries() == config.cache_capacity {
            Some(ChatOrchestrator { config, rate_limiter, cache })
        } else {
            None
        }
    }

    /// The first step: admission, validation, the model-info command, the
    /// cache. No step of it touches the network.
    pub fn begin(&mut self, client_key: &str, request: &ChatRequest, now: u64) -> (step: ChatStep)
        requires
            old(self).wf(),
        ensures
            final(self).wf(),
            final(self).config() == old(self).config(),
            step@ == first_step(old(self).config(), old(self)@, client_key@, request.message@, now),
            final(self)@ == after_first_step(
                old(self).config(),
                old(self)@,
                client_key@,
                request.message@,
                now,
            ),
    {
        if !self.rate_limiter.allow(client_key, now) {
            return ChatStep::Done(ChatReply::Error(ChatError::RateLimited));
        }
        let message: &str = request.message.as_str();
        if message.as_bytes().len() > self.config.max_message_len {
            return ChatStep::Done(ChatReply::Error(ChatError::ValidationFailed));
        }
        if same_text(message, self.config.model_info_command.as_str()) {
            return ChatStep::Done(
                ChatReply::ModelInfo(ModelInfoResponse { model: self.config.llm_model_name.clone() }),
            );
        }
        match self.cache.get(message) {
            Some(text) => ChatStep::Done(ChatReply::Response(ChatResponse { response: text })),
            None => ChatStep::CallUpstream(
                PendingCall {
                    message: request.message.clone(),
                    call: upstream_call(
                        self.config.llm_base_url.as_str(),
                        self.config.llm_model_name.as_str(),
                        message,
                    ),
                },
            ),
        }
    }

    /// The second step, for a call whose outcome has been read already: a
    /// completion is stored under the message and returned, a failure is
    /// reported and leaves the cache as it was.
    pub fn conclude(
        &mut self,
        pending: PendingCall,
        reading: Result<String, UpstreamFault>,
        now: u64,
    ) -> (reply: ChatReply)
        requires
            old(self).wf(),
        ensures
            final(self).wf(),
            final(self).config() == old(self).config(),
            reply@ == last_reply(reading_of(reading)),
            final(self)@ == after_last_step(
                old(self).config(),
                old(self)@,
                pending@.message,
                reading_of(reading),
                now,
            ),
    {
        match reading {
            Ok(text) => {
                self.cache.set(pending.message, text.clone(), now);
                ChatReply::Response(ChatResponse { response: text })
            },
            Err(fault) => ChatReply::Error(ChatError::UpstreamFailure(fault)),
        }
    }

    /// The second step: reads how the call ended, stores a completion and
    /// replies.
    pub fn complete(&mut self, pending: PendingCall, outcome: &UpstreamOutcome, now: u64) -> (reply:
        ChatReply)
        requires
            old(self).wf(),
        ensures
            final(self).wf(),
            final(self).config() == old(self).config(),
            reply@ == last_reply(outcome_reading(*outcome)),
            final(self)@ == after_last_step(
                old(self).config(),
                old(self)@,
                pending@.message,
                outcome_reading(*outcome),
                now,
            ),
    {
        let reading = read_outcome(outcome);
        self.conclude(pending, reading, now)
    }
}

impl ChatOrchestrator {
    /// Drops the clients none of whose requests counts at `now`. The cache
    /// is left alone, and no later decision changes.
    pub fn sweep(&mut self, now: u64)
        requires
            old(self).wf(),
        ensures
            final(self).wf(),
            final(self).config() == old(self).config(),
            final(self)@ == (GatewayView {
                windows: after_sweep(old(self)@.windows, now, old(self).config().window),
                entries: old(self)@.entries,
            }),
    {
        self.rate_limiter.sweep(now);
    }

    /// Sweeps if more than [`SWEEP_THRESHOLD`] clients are on record, and
    /// does nothing otherwise: the record of clients that went away is
    /// cleared while serving those that are there, not on a schedule.
    pub fn tidy(&mut self, now: u64)
        requires
            old(self).wf(),
        ensures
            final(self).wf(),
            final(self).config() == old(self).config(),
            final(self)@ == (GatewayView {
                windows: if old(self)@.windows.dom().len() > SWEEP_THRESHOLD {
                    after_sweep(old(self)@.windows, now, old(self).config().window)
                } else {
                    old(self)@.windows
                },
                entries: old(self)@.entries,
            }),
    {
        if self.rate_limiter.tracked_clients() > SWEEP_THRESHOLD {
            self.rate_limiter.sweep(now);
        }
    }

    /// The settings the orchestrator was made with.
    pub fn settings(&self) -> (config: &AppConfig)
        ensures
            config@ == self.config(),
    {
        &self.config
    }

    /// The number of clients on record.
    pub fn tracked_clients(&self) -> (count: usize)
        requires
            self.wf(),
        ensures
            count == self@.windows.dom().len(),
    {
        self.rate_limiter.tracked_clients()
    }

    /// The number of answers in the cache.
    pub fn cached_answers(&self) -> (count: usize)
        ensures
            count == self@.entries.len(),
    {
        self.cache.len()
    }
}

/// The key of a client at `remote_address`, as the contracts see it.
pub open spec fn client_key_of(remote_address: Option<&str>) -> Seq<char> {
    match remote_address {
        Some(address) => address@,
        None => UNKNOWN_CLIENT@,
    }
}

/// Serves one request from start to end, for a caller that can wait for the
/// completion service: `upstream` makes the call and says how it ended. It
/// is asked at most once, and only where the first step ends with a call
/// to make; whatever it hands back is read and replied to as in the second
/// step.
pub fn chat_api<F>(
    orchestrator: &mut ChatOrchestrator,
    remote_address: Option<&str>,
    request: &ChatRequest,
    now: u64,
    upstream: F,
) -> (reply: ChatReply) where F: FnOnce(&UpstreamCall) -> UpstreamOutcome
    requires
        old(orchestrator).wf(),
        forall|call: &UpstreamCall| call_requires(upstream, (call,)),
    ensures
        final(orchestrator).wf(),
        final(orchestrator).config() == old(orchestrator).config(),
        match first_step(
            old(orchestrator).config(),
            old(orchestrator)@,
            client_key_of(remote_address),
            request.message@,
            now,
        ) {
            StepView::Done(replied) => reply@ == replied && final(orchestrator)@
                == after_first_step(
                old(orchestrator).config(),
                old(orchestrator)@,
                client_key_of(remote_address),
                request.message@,
                now,
            ),
            StepView::CallUpstream(pending) => exists|call: UpstreamCall, outcome: UpstreamOutcome|
                call@ == pending.call && #[trigger] call_ensures(upstream, (&call,), outcome)
                    && reply@ == last_reply(outcome_reading(outcome)) && final(orchestrator)@
                    == after_last_step(
                    old(orchestrator).config(),
                    after_first_step(
                        old(orchestrator).config(),
                        old(orchestrator)@,
                        client_key_of(remote_address),
                        request.message@,
                        now,
                    ),
                    pending.message,
                    outcome_reading(outcome),
                    now,
                ),
        },
{
    let client = client_key(remote_address);
    match orchestrator.begin(client.as_str(), request, now) {
        ChatStep::Done(reply) => reply,
        ChatStep::CallUpstream(pending) => {
            let call = pending.call();
            let ghost asked = *call;
            let outcome = upstream(call);
            let reply = orchestrator.complete(pending, &outcome, now);
            proof {
                assert(call_ensures(upstream, (&asked,), outcome));
            }
            reply
        },
    }
}

/// The digit `d` as a character.
pub open spec fn digit_char(d: nat) -> char {
    if d == 0 {
        '0'
    } else if d == 1 {
        '1'
    } else if d == 2 {
        '2'
    } else if d == 3 {
        '3'
    } else if d == 4 {
        '4'
    } else if d == 5 {
        '5'
    } else if d == 6 {
        '6'
    } else if d == 7 {
        '7'
    } else if d == 8 {
        '8'
    } else {
        '9'
    }
}

/// `n` in decimal, without leading zeros.
pub open spec fn decimal_text(n: nat) -> Seq<char>
    decreases n,
{
    if n < 10 {
        seq![digit_char(n)]
    } else {
        decimal_text(n / 10).push(digit_char(n % 10))
    }
}

fn digit_text(d: usize) -> (text: &'static str)
    requires
        d < 10,
    ensures
        text@ == seq![digit_char(d as nat)],
{
    proof {
        reveal_strlit("0");
        reveal_strlit("1");
        reveal_strlit("2");
        reveal_strlit("3");
        reveal_strlit("4");
        reveal_strlit("5");
        reveal_strlit("6");
        reveal_strlit("7");
        reveal_strlit("8");
        reveal_strlit("9");
    }
    let text = if d == 0 {
        "0"
    } else if d == 1 {
        "1"
    } else if d == 2 {
        "2"
    } else if d == 3 {
        "3"
    } else if d == 4 {
        "4"
    } else if d == 5 {
        "5"
    } else if d == 6 {
        "6"
    } else if d == 7 {
        "7"
    } else if d == 8 {
        "8"
    } else {
        "9"
    };
    proof {
        assert(text@ =~= seq![digit_char(d as nat)]);
    }
    text
}

/// `n` in decimal, without leading zeros.
pub fn decimal(n: usize) -> (text: String)
    ensures
        text@ == decimal_text(n as nat),
    decreases n,
{
    if n < 10 {
        digit_text(n).to_owned()
    } else {
        let text = decimal(n / 10).concat(digit_text(n % 10));
        proof {
            assert(text@ =~= decimal_text(n as nat));
        }
        text
    }
}

/// The status with which `reply` goes out.
pub open spec fn status_of(reply: ReplyView) -> u16 {
    match reply {
        ReplyView::Response(_) => 200,
        ReplyView::ModelInfo(_) => 200,
        ReplyView::Error(ChatError::RateLimited) => 429,
        ReplyView::Error(ChatError::ValidationFailed) => 400,
        ReplyView::Error(ChatError::UpstreamFailure(_)) => 500,
    }
}

/// What a client is told of `error`. Of a failure of the completion service
/// it learns only whether the service was reached.
pub open spec fn error_text(error: ChatError, max_message_len: nat) -> Seq<char> {
    match error {
        ChatError::RateLimited => "Rate limit exceeded"@,
        ChatError::ValidationFailed => "Message too long (max "@ + decimal_text(max_message_len)
            + " chars)"@,
        ChatError::UpstreamFailure(UpstreamFault::Unreachable) => "Failed to call LLM API"@,
        ChatError::UpstreamFailure(_) => "LLM API error"@,
    }
}

impl ChatError {
    /// What a client is told of this error, where messages may be up to
    /// `max_message_len` bytes long.
    pub fn message(&self, max_message_len: usize) -> (text: String)
        ensures
            text@ == error_text(*self, max_message_len as nat),
    {
        match self {
            ChatError::RateLimited => "Rate limit exceeded".to_owned(),
            ChatError::ValidationFailed => "Message too long (max ".to_owned().concat(
                decimal(max_message_len).as_str(),
            ).concat(" chars)"),
            ChatError::UpstreamFailure(UpstreamFault::Unreachable) => "Failed to call LLM API".to_owned(),
            ChatError::UpstreamFailure(_) => "LLM API error".to_owned(),
        }
    }
}

impl ChatReply {
    /// The status with which this reply goes out.
    pub fn status(&self) -> (code: u16)
        ensures
            code == status_of(self@),
    {
        match self {
            ChatReply::Response(_) => 200,
            ChatReply::ModelInfo(_) => 200,
            ChatReply::Error(ChatError::RateLimited) => 429,
            ChatReply::Error(ChatError::ValidationFailed) => 400,
            ChatReply::Error(ChatError::UpstreamFailure(_)) => 500,
        }
    }
}

/// The headers that harden every response, name and value, in the order in
/// which they are set.
pub open spec fn security_headers() -> Seq<(Seq<char>, Seq<char>)> {
    seq![
        ("x-content-type-options"@, "nosniff"@),
        ("x-frame-options"@, "sameorigin"@),
        ("x-xss-protection"@, "1; mode=block"@),
        (
            "content-security-policy"@,
            "default-src 'self'; img-src 'self' data:; script-src 'self' 'unsafe-inline' https://cdn.jsdelivr.net; style-src 'self' 'unsafe-inline' https://cdnjs.cloudflare.com; font-src 'self' https://cdnjs.cloudflare.com"@,
        ),
    ]
}

/// The policy that adds the hardening headers to every response.
#[derive(Clone, Copy, Debug, Default)]
pub struct SecurityHeaders;

impl SecurityHeaders {
    /// The headers to set, name and value.
    pub fn entries(&self) -> (headers: Vec<(&'static str, &'static str)>)
        ensures
            headers@.len() == security_headers().len(),
            forall|i: int|
                0 <= i < headers@.len() ==> (#[trigger] headers@[i]).0@ == security_headers()[i].0
                    && headers@[i].1@ == security_headers()[i].1,
    {
        let mut headers: Vec<(&'static str, &'static str)> = Vec::new();
        headers.push(("x-content-type-options", "nosniff"));
        headers.push(("x-frame-options", "sameorigin"));
        headers.push(("x-xss-protection", "1; mode=block"));
        headers.push(
            (
                "content-security-policy",
                "default-src 'self'; img-src 'self' data:; script-src 'self' 'unsafe-inline' https://cdn.jsdelivr.net; style-src 'self' 'unsafe-inline' https://cdnjs.cloudflare.com; font-src 'self' https://cdnjs.cloudflare.com",
            ),
        );
        headers
    }
}

/// A message that the cache holds is answered without a call, whoever asks
/// and whenever.
pub proof fn law_cache_hit_makes_no_call(
    config: ConfigView,
    state: GatewayView,
    client: Seq<char>,
    message: Seq<char>,
    now: u64,
)
    requires
        holds(state.entries, message),
    ensures
        first_step(config, state, client, message, now) is Done,
{
}

/// Once a completion has been stored for a message, the same message again
/// is answered with that completion, and without a call.
pub proof fn law_repeat_served_from_cache(
    config: ConfigView,
    state: GatewayView,
    message: Seq<char>,
    text: Seq<char>,
    stored_at: u64,
    client: Seq<char>,
    now: u64,
)
    requires
        distinct_keys(state.entries),
        state.entries.len() <= config.cache_capacity,
        config.cache_capacity >= 1,
        reaches_cache(
            config,
            after_last_step(config, state, message, Ok(text), stored_at),
            client,
            message,
            now,
        ),
    ensures
        first_step(
            config,
            after_last_step(config, state, message, Ok(text), stored_at),
            client,
            message,
            now,
        ) == StepView::Done(ReplyView::Response(text)),
{
    law_get_after_set(state.entries, message, text, stored_at, config.cache_capacity);
}

/// A message that is too long is rejected whatever the cache holds: for its
/// length where the client is admitted, and for the client's rate where it
/// is not. The cache is neither read nor changed.
pub proof fn law_long_message_rejected(
    config: ConfigView,
    state: GatewayView,
    client: Seq<char>,
    message: Seq<char>,
    now: u64,
)
    requires
        too_long(message, config.max_message_len),
    ensures
        first_step(config, state, client, message, now) == StepView::Done(
            ReplyView::Error(
                if admits(state.windows, client, now, config.window, config.max_requests) {
                    ChatError::ValidationFailed
                } else {
                    ChatError::RateLimited
                },
            ),
        ),
        after_first_step(config, state, client, message, now).entries == state.entries,
{
}

/// The model-info command of an admitted client is answered with the
/// model's name whatever the cache holds, even an entry under the command
/// itself. The cache is neither read nor changed, and no call is made.
pub proof fn law_command_bypasses_cache(
    config: ConfigView,
    state: GatewayView,
    client: Seq<char>,
    now: u64,
)
    requires
        admits(state.windows, client, now, config.window, config.max_requests),
        !too_long(config.model_info_command, config.max_message_len),
    ensures
        first_step(config, state, client, config.model_info_command, now) == StepView::Done(
            ReplyView::ModelInfo(config.llm_model_name),
        ),
        after_first_step(config, state, client, config.model_info_command, now).entries
            == state.entries,
{
}

/// A call that fails changes nothing: neither the cache nor any client's
/// record.
pub proof fn law_failure_changes_nothing(
    config: ConfigView,
    state: GatewayView,
    message: Seq<char>,
    fault: UpstreamFault,
    now: u64,
)
    ensures
        after_last_step(config, state, message, Err(fault), now) == state,
{
}

} // verus!
