//! Onion-service options of a browser and the process-wide onion transport they configure.
//!
//! The transport keeps one set of options for the whole process. Until the first onion
//! request bootstraps a session, any valid options replace the current ones; afterwards
//! only the options that the session was bootstrapped with are accepted.

use vstd::prelude::*;

use crate::request::clone_optional;
use crate::error::{failure_from_str, ExceptionKind, Failure};

verus! {

broadcast use vstd::string::group_string_axioms;

/// The bootstrap endpoint used when none is given.
pub const DEFAULT_BOOTSTRAP: &'static str = "128.31.0.39:9131";

/// Timeout of the transport before any browser configures it, in milliseconds.
pub const DEFAULT_TIMEOUT_MS: i32 = 30000;

/// Largest response the transport reads before any browser configures it, in bytes.
pub const DEFAULT_RESPONSE_LIMIT: usize = 4194304;

/// The transport options as values.
pub struct TransportSettings {
    pub bootstrap: Seq<char>,
    pub consensus_file: Seq<char>,
    pub timeout_ms: i32,
    pub verbose: bool,
    pub response_limit: usize,
}

/// Options of the onion transport.
#[derive(Clone, Debug)]
pub struct OnionTransportConfig {
    pub bootstrap: String,
    pub consensus_file: String,
    pub timeout_ms: i32,
    pub verbose: bool,
    pub response_limit: usize,
}

impl View for OnionTransportConfig {
    type V = TransportSettings;

    open spec fn view(&self) -> TransportSettings {
        TransportSettings {
            bootstrap: self.bootstrap@,
            consensus_file: self.consensus_file@,
            timeout_ms: self.timeout_ms,
            verbose: self.verbose,
            response_limit: self.response_limit,
        }
    }
}

impl OnionTransportConfig {
    /// Whether both hold the same options.
    pub fn same_options(&self, other: &OnionTransportConfig) -> (r: bool)
        ensures
            r == (self@ == other@),
    {
        self.bootstrap == other.bootstrap && self.consensus_file == other.consensus_file
            && self.timeout_ms == other.timeout_ms && self.verbose == other.verbose
            && self.response_limit == other.response_limit
    }

    /// A copy with the same options.
    pub fn duplicate(&self) -> (r: OnionTransportConfig)
        ensures
            r@ == self@,
    {
        OnionTransportConfig {
            bootstrap: self.bootstrap.clone(),
            consensus_file: self.consensus_file.clone(),
            timeout_ms: self.timeout_ms,
            verbose: self.verbose,
            response_limit: self.response_limit,
        }
    }
}

impl Default for OnionTransportConfig {
    fn default() -> (r: OnionTransportConfig)
        ensures
            r@ == default_transport_settings(),
    {
        OnionTransportConfig {
            bootstrap: DEFAULT_BOOTSTRAP.to_string(),
            consensus_file: String::new(),
            timeout_ms: DEFAULT_TIMEOUT_MS,
            verbose: false,
            response_limit: DEFAULT_RESPONSE_LIMIT,
        }
    }
}

/// The options of a transport that no browser configured.
pub open spec fn default_transport_settings() -> TransportSettings {
    TransportSettings {
        bootstrap: DEFAULT_BOOTSTRAP@,
        consensus_file: Seq::empty(),
        timeout_ms: DEFAULT_TIMEOUT_MS,
        verbose: false,
        response_limit: DEFAULT_RESPONSE_LIMIT,
    }
}

/// The transport state as values: the options in force and whether a session was
/// bootstrapped with them.
pub struct TransportState {
    pub settings: TransportSettings,
    pub session_started: bool,
}

pub open spec fn bad_timeout_message() -> Seq<char> {
    "onion timeout must be a positive number of milliseconds"@
}

pub open spec fn bad_limit_message() -> Seq<char> {
    "onion response limit must be greater than zero"@
}

pub open spec fn reconfigure_message() -> Seq<char> {
    "onion transport is process-wide and was already initialized with different options"@
}

/// The outcome of configuring a transport in state `state` with `config`: the new state,
/// or the message it is refused with.
pub open spec fn configure_outcome(state: TransportState, config: TransportSettings) -> Result<
    TransportState,
    Seq<char>,
> {
    if config.timeout_ms <= 0 {
        Err(bad_timeout_message())
    } else if config.response_limit == 0 {
        Err(bad_limit_message())
    } else if state.session_started && state.settings != config {
        Err(reconfigure_message())
    } else {
        Ok(TransportState { settings: config, session_started: state.session_started })
    }
}

/// The process-wide onion transport: its options and whether a session exists.
#[derive(Clone, Debug)]
pub struct OnionTransport {
    config: OnionTransportConfig,
    session_started: bool,
}

impl View for OnionTransport {
    type V = TransportState;

    closed spec fn view(&self) -> TransportState {
        TransportState { settings: self.config@, session_started: self.session_started }
    }
}

impl OnionTransport {
    /// A transport that nobody configured and that has no session.
    pub fn new() -> (r: OnionTransport)
        ensures
            r@ == (TransportState { settings: default_transport_settings(), session_started: false }),
    {
        OnionTransport { config: OnionTransportConfig::default(), session_started: false }
    }

    /// The options in force.
    pub fn config(&self) -> (r: OnionTransportConfig)
        ensures
            r@ == self@.settings,
    {
        self.config.duplicate()
    }

    /// Whether a session was bootstrapped.
    pub fn session_started(&self) -> (r: bool)
        ensures
            r == self@.session_started,
    {
        self.session_started
    }

    /// Replaces the options. Refused when the timeout is not positive, when the response
    /// limit is zero, or when a session exists and the options differ from its own; a
    /// refused call leaves the transport as it was.
    pub fn configure(&mut self, config: OnionTransportConfig) -> (r: Result<(), String>)
        ensures
            match configure_outcome(old(self)@, config@) {
                Ok(state) => r is Ok && final(self)@ == state,
                Err(message) => r matches Err(m) && m@ == message && final(self)@ == old(self)@,
            },
    {
        if config.timeout_ms <= 0 {
            return Err("onion timeout must be a positive number of milliseconds".to_string());
        }
        if config.response_limit == 0 {
            return Err("onion response limit must be greater than zero".to_string());
        }
        if self.session_started && !self.config.same_options(&config) {
            return Err(
                "onion transport is process-wide and was already initialized with different options".to_string(),
            );
        }
        self.config = config;
        Ok(())
    }

    /// Prepares an onion request: returns the options to use and whether a new session
    /// must be bootstrapped with them (only for the first request of the process).
    pub fn begin_request(&mut self) -> (r: (OnionTransportConfig, bool))
        ensures
            r.0@ == old(self)@.settings,
            r.1 == !old(self)@.session_started,
            final(self)@ == (TransportState { settings: old(self)@.settings, session_started: true }),
    {
        let bootstrap = !self.session_started;
        self.session_started = true;
        (self.config.duplicate(), bootstrap)
    }
}

pub open spec fn response_limit_message() -> Seq<char> {
    "onion_response_limit must be greater than zero"@
}

pub open spec fn timeout_range_message() -> Seq<char> {
    "onion timeout must be less than or equal to i32::MAX milliseconds"@
}

/// The transport timeout for a timeout of `millis` whole milliseconds: at least one
/// millisecond, and `None` when it does not fit in an `i32`.
pub open spec fn onion_timeout_ms(millis: u128) -> Option<i32> {
    let m = if millis == 0 { 1 } else { millis };
    if m > i32::MAX {
        None
    } else {
        Some(m as i32)
    }
}

/// Turns a browser timeout, already converted to whole milliseconds, into the transport
/// timeout: zero becomes one millisecond, and more than `i32::MAX` is a `ValueError`.
pub fn clamp_timeout_millis(millis: u128) -> (r: Result<i32, Failure>)
    ensures
        match onion_timeout_ms(millis) {
            Some(t) => r == Ok::<i32, Failure>(t),
            None => r matches Err(f) && f.is(ExceptionKind::ValueError, timeout_range_message()),
        },
{
    let m: u128 = if millis == 0 { 1 } else { millis };
    if m > 2147483647u128 {
        return Err(failure_from_str(
            ExceptionKind::ValueError,
            "onion timeout must be less than or equal to i32::MAX milliseconds",
        ));
    }
    Ok(m as i32)
}

/// The onion options of a browser as values.
pub struct OnionOptions {
    pub bootstrap: Seq<char>,
    pub consensus_file: Option<Seq<char>>,
    pub verbose: bool,
    pub response_limit: usize,
}

/// The transport options that a browser's onion options and timeout stand for.
pub open spec fn transport_settings_for(
    bootstrap: Seq<char>,
    consensus_file: Option<Seq<char>>,
    timeout_ms: i32,
    verbose: bool,
    response_limit: usize,
) -> TransportSettings {
    TransportSettings {
        bootstrap,
        consensus_file: match consensus_file {
            Some(f) => f,
            None => Seq::empty(),
        },
        timeout_ms,
        verbose,
        response_limit,
    }
}

/// The onion options a browser was created with.
#[derive(Clone, Debug)]
pub struct OnionConfig {
    bootstrap: String,
    consensus_file: Option<String>,
    verbose: bool,
    response_limit: usize,
}

impl View for OnionConfig {
    type V = OnionOptions;

    closed spec fn view(&self) -> OnionOptions {
        OnionOptions {
            bootstrap: self.bootstrap@,
            consensus_file: self.consensus_file.deep_view(),
            verbose: self.verbose,
            response_limit: self.response_limit,
        }
    }
}

impl OnionConfig {
    /// Checks a browser's onion options and configures the process-wide transport with
    /// them. `timeout_millis` is the browser's default timeout in whole milliseconds, or
    /// the failure its validation gave. Checked in this order: a zero response limit is a
    /// `ValueError`; then the timeout's own failure; then a timeout beyond `i32::MAX`
    /// milliseconds is a `ValueError`; then a refusal of the transport is a
    /// `RuntimeError` with the transport's message. The transport changes only on success.
    pub fn new(
        timeout_millis: Result<u128, Failure>,
        bootstrap: String,
        consensus_file: Option<String>,
        verbose: bool,
        response_limit: usize,
        transport: &mut OnionTransport,
    ) -> (r: Result<OnionConfig, Failure>)
        ensures
            response_limit == 0 ==> (r matches Err(f) && f.is(
                ExceptionKind::ValueError,
                response_limit_message(),
            ) && final(transport)@ == old(transport)@),
            response_limit != 0 ==> match timeout_millis {
                Err(e) => r == Err::<OnionConfig, Failure>(e) && final(transport)@ == old(
                    transport,
                )@,
                Ok(millis) => match onion_timeout_ms(millis) {
                    None => r matches Err(f) && f.is(
                        ExceptionKind::ValueError,
                        timeout_range_message(),
                    ) && final(transport)@ == old(transport)@,
                    Some(ms) => match configure_outcome(
                        old(transport)@,
                        transport_settings_for(
                            bootstrap@,
                            consensus_file.deep_view(),
                            ms,
                            verbose,
                            response_limit,
                        ),
                    ) {
                        Err(message) => r matches Err(f) && f.is(
                            ExceptionKind::RuntimeError,
                            message,
                        ) && final(transport)@ == old(transport)@,
                        Ok(state) => r matches Ok(c) && c@ == (OnionOptions {
                            bootstrap: bootstrap@,
                            consensus_file: consensus_file.deep_view(),
                            verbose,
                            response_limit,
                        }) && final(transport)@ == state,
                    },
                },
            },
    {
        if response_limit == 0 {
            return Err(failure_from_str(
                ExceptionKind::ValueError,
                "onion_response_limit must be greater than zero",
            ));
        }
        let millis = match timeout_millis {
            Ok(m) => m,
            Err(e) => return Err(e),
        };
        let timeout_ms = match clamp_timeout_millis(millis) {
            Ok(t) => t,
            Err(e) => return Err(e),
        };
        let file = match &consensus_file {
            Some(f) => f.clone(),
            None => String::new(),
        };
        let config = OnionTransportConfig {
            bootstrap: bootstrap.clone(),
            consensus_file: file,
            timeout_ms,
            verbose,
            response_limit,
        };
        match transport.configure(config) {
            Ok(()) => {},
            Err(message) => return Err(Failure::new(ExceptionKind::RuntimeError, message)),
        }
        Ok(OnionConfig { bootstrap, consensus_file, verbose, response_limit })
    }

    pub fn bootstrap(&self) -> (r: String)
        ensures
            r@ == self@.bootstrap,
    {
        self.bootstrap.clone()
    }

    pub fn consensus_file(&self) -> (r: Option<String>)
        ensures
            r.deep_view() == self@.consensus_file,
    {
        clone_optional(&self.consensus_file)
    }

    pub fn verbose(&self) -> (r: bool)
        ensures
            r == self@.verbose,
    {
        self.verbose
    }

    pub fn response_limit(&self) -> (r: usize)
        ensures
            r == self@.response_limit,
    {
        self.response_limit
    }
}

/// Once a session exists, the options in force are those it was bootstrapped with: a
/// configuration is accepted only when it repeats them, and then changes nothing.
pub proof fn lemma_session_pins_options(state: TransportState, config: TransportSettings)
    requires
        state.session_started,
    ensures
        configure_outcome(state, config) matches Ok(next) ==> next == state,
        config != state.settings ==> configure_outcome(state, config) is Err,
{
}

/// Before a session exists, any options with a positive timeout and a non-zero response
/// limit are accepted and take effect.
pub proof fn lemma_unstarted_transport_accepts_valid_options(
    state: TransportState,
    config: TransportSettings,
)
    requires
        !state.session_started,
        config.timeout_ms > 0,
        config.response_limit > 0,
    ensures
        configure_outcome(state, config) == Ok::<TransportState, Seq<char>>(
            TransportState { settings: config, session_started: false },
        ),
{
}

} // verus!
