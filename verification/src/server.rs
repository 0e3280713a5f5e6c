//! The live configuration state and the reload debounce rule. The HTTP
//! plumbing, the file watcher and the locks around this state live in the
//! caller; here is the one value they share and the decisions that govern
//! it: a reload replaces the held configuration wholesale or not at all,
//! and a burst of change events within the debounce window collapses into
//! a single reload.

use vstd::prelude::*;
use crate::types::ClashConfig;

verus! {

/// Why a reload left the live state untouched.
#[derive(Clone, Copy, Debug, PartialEq, Eq, Structural)]
pub enum ReloadError {
    ReloadParseError,
}

/// Query parameters of the configuration endpoint.
pub struct ConfigQuery {
    pub refresh: Option<bool>,
}

/// The authoritative current configuration: exactly one per running
/// server, created at startup from the last persisted configuration and
/// replaced wholesale on every reload, refresh or rollback.
pub struct LiveConfigState {
    pub config: ClashConfig,
}

impl LiveConfigState {
    /// Holds the given initial configuration.
    pub fn new(initial: ClashConfig) -> (s: LiveConfigState)
        ensures
            s.config@ == initial@,
    {
        LiveConfigState { config: initial }
    }

    /// The current configuration, for serving.
    pub fn read(&self) -> (r: &ClashConfig)
        ensures
            r@ == self.config@,
    {
        &self.config
    }

    /// Replaces the held configuration with a freshly re-parsed one, or
    /// keeps it exactly as it was when the persisted file did not parse
    /// (`None`): the state never holds a partially constructed value.
    pub fn reload_from_parsed(&mut self, parsed: Option<ClashConfig>) -> (r: Result<
        (),
        ReloadError,
    >)
        ensures
            parsed is Some ==> r is Ok && final(self).config@ == parsed->0@,
            parsed is None ==> r == Err::<(), ReloadError>(ReloadError::ReloadParseError) && final(self).config@ == old(self).config@,
    {
        match parsed {
            Some(c) => {
                self.config = c;
                Ok(())
            },
            None => Err(ReloadError::ReloadParseError),
        }
    }

    /// Replaces the held configuration with a freshly merged one, after
    /// the caller has re-downloaded subscriptions and persisted the merge
    /// result.
    pub fn refresh_with(&mut self, merged: ClashConfig)
        ensures
            final(self).config@ == merged@,
    {
        self.config = merged;
    }
}

/// When a change event at `now` must trigger a reload, given the time of
/// the last one: only strictly more than `window_ms` after it.
pub open spec fn debounce_fires(last_ms: u64, window_ms: u64, now_ms: u64) -> bool {
    now_ms - last_ms > window_ms
}

/// The reload debounce state: the time of the last accepted reload and
/// the window width. Events inside the window are dropped, not deferred:
/// the first event past the window wins and restarts it.
pub struct DebounceGate {
    pub last_reload_ms: u64,
    pub window_ms: u64,
}

impl DebounceGate {
    /// A gate that last fired at `start_ms`.
    pub fn new(start_ms: u64, window_ms: u64) -> (g: DebounceGate)
        ensures
            g.last_reload_ms == start_ms,
            g.window_ms == window_ms,
    {
        DebounceGate { last_reload_ms: start_ms, window_ms }
    }

    /// Decides one change event: returns whether to reload now, and
    /// records the time when it does. Events within the window change
    /// nothing, so a burst spanning less than the window triggers at most
    /// one reload.
    pub fn note_event(&mut self, now_ms: u64) -> (fire: bool)
        ensures
            fire == debounce_fires(old(self).last_reload_ms, old(self).window_ms, now_ms),
            fire ==> final(self).last_reload_ms == now_ms,
            !fire ==> final(self).last_reload_ms == old(self).last_reload_ms,
            final(self).window_ms == old(self).window_ms,
    {
        if now_ms >= self.last_reload_ms && now_ms - self.last_reload_ms > self.window_ms {
            self.last_reload_ms = now_ms;
            true
        } else {
            false
        }
    }
}

} // verus!
