//! The reload scheduler and the application state it drives.
//!
//! `MonitorState` is everything the event loop accumulates: the held
//! snapshot, the last error, the last seen fingerprint, the debounce and
//! fallback timers, and the view state.  The loop around it only performs
//! I/O: it drains watch events, reads and parses the file when a reload
//! is due, and renders — every decision is taken here, under contract.
//! Times are monotonic milliseconds supplied by the caller.

use vstd::prelude::*;
use crate::tasks::LoadedTasks;
use crate::view::Modal;
use crate::view::ViewState;
use crate::view::SCROLL_STEP;
use crate::view::clamped_index;

verus! {

/// A pending reload fires once it is this many milliseconds old.
pub const DEBOUNCE_MS: u64 = 200;

/// With no reload attempt for this long, one is scheduled anyway.
pub const AUTO_REFRESH_MS: u64 = 60000;

/// A logical key, as the decoded input hands it to the reconciler.
#[derive(Debug, Clone, Copy, PartialEq, Eq, Structural)]
pub enum Key {
    Quit,
    Help,
    Reload,
    Up,
    Down,
    PageUp,
    PageDown,
    Home,
    End,
    Other,
}

/// The accumulated state of the dashboard loop.
#[derive(Debug, Clone)]
pub struct MonitorState {
    pub snapshot: Option<LoadedTasks>,
    pub last_error: Option<String>,
    pub last_fingerprint: Option<u64>,
    pub pending_since: Option<u64>,
    pub last_attempt_at: u64,
    pub view: ViewState,
}

/// How many rows the current snapshot shows.
pub open spec fn snapshot_len(s: MonitorState) -> nat {
    match s.snapshot {
        Some(l) => l.tasks.tasks@.len(),
        None => 0,
    }
}

/// Whether replacing fingerprint `prev` by a load with fingerprint `h`
/// rings the attention signal: only when a previous load existed and its
/// content differed.
pub open spec fn chime_on(prev: Option<u64>, h: u64) -> bool {
    prev is Some && prev != Some(h)
}

/// The attention signal rings exactly once per content change: never on
/// the first successful load, exactly when the fingerprint moves from
/// `a` to a different `b`, and never again while the content stays `b`.
pub proof fn lemma_chime_exactly_once(a: u64, b: u64)
    ensures
        !chime_on(None, a),
        chime_on(Some(a), b) == (a != b),
        !chime_on(Some(b), b),
{
}

impl MonitorState {
    /// The state at startup: nothing loaded yet and a reload already
    /// pending, so the first load happens right away.
    pub fn new(now: u64) -> (s: MonitorState)
        ensures
            s.snapshot is None,
            s.last_error is None,
            s.last_fingerprint is None,
            s.pending_since == Some(now),
            s.last_attempt_at == now,
            s.view.selected_idx == 0 && s.view.details_scroll == 0 && s.view.modal is None,
    {
        MonitorState {
            snapshot: None,
            last_error: None,
            last_fingerprint: None,
            pending_since: Some(now),
            last_attempt_at: now,
            view: ViewState::new(),
        }
    }

    /// A filesystem change event: set (or refresh) the pending-reload
    /// marker, coalescing bursts into one debounced reload.
    pub fn note_change(&mut self, now: u64)
        ensures
            final(self).pending_since == Some(now),
            final(self).snapshot == old(self).snapshot,
            final(self).last_error == old(self).last_error,
            final(self).last_fingerprint == old(self).last_fingerprint,
            final(self).last_attempt_at == old(self).last_attempt_at,
            final(self).view == old(self).view,
    {
        self.pending_since = Some(now);
    }

    /// An error from the watch itself: recorded for display, nothing
    /// else changes and the watch goes on.
    pub fn note_watch_error(&mut self, msg: String)
        ensures
            final(self).last_error == Some(msg),
            final(self).snapshot == old(self).snapshot,
            final(self).last_fingerprint == old(self).last_fingerprint,
            final(self).pending_since == old(self).pending_since,
            final(self).last_attempt_at == old(self).last_attempt_at,
            final(self).view == old(self).view,
    {
        self.last_error = Some(msg);
    }

    /// The periodic fallback: with no reload pending and no attempt for
    /// the refresh interval, schedule one now.
    pub fn poll_auto_refresh(&mut self, now: u64)
        ensures
            final(self).pending_since == if old(self).pending_since is None && now
                >= old(self).last_attempt_at + AUTO_REFRESH_MS {
                Some(now)
            } else {
                old(self).pending_since
            },
            final(self).snapshot == old(self).snapshot,
            final(self).last_error == old(self).last_error,
            final(self).last_fingerprint == old(self).last_fingerprint,
            final(self).last_attempt_at == old(self).last_attempt_at,
            final(self).view == old(self).view,
    {
        if self.pending_since.is_none() {
            let elapsed: u64 = if now >= self.last_attempt_at {
                now - self.last_attempt_at
            } else {
                0
            };
            if elapsed >= AUTO_REFRESH_MS {
                self.pending_since = Some(now);
            }
        }
    }

    /// Whether the pending reload is due: it fires once its marker is a
    /// debounce interval old, clearing the marker and recording the
    /// attempt, so the fallback timer measures from attempts.
    pub fn reload_due(&mut self, now: u64) -> (fire: bool)
        ensures
            fire == (old(self).pending_since is Some && now >= old(self).pending_since->0
                + DEBOUNCE_MS),
            final(self).pending_since == if fire {
                None::<u64>
            } else {
                old(self).pending_since
            },
            final(self).last_attempt_at == if fire {
                now
            } else {
                old(self).last_attempt_at
            },
            final(self).snapshot == old(self).snapshot,
            final(self).last_error == old(self).last_error,
            final(self).last_fingerprint == old(self).last_fingerprint,
            final(self).view == old(self).view,
    {
        match self.pending_since {
            Some(t0) => {
                let elapsed: u64 = if now >= t0 {
                    now - t0
                } else {
                    0
                };
                if elapsed >= DEBOUNCE_MS {
                    self.pending_since = None;
                    self.last_attempt_at = now;
                    true
                } else {
                    false
                }
            },
            None => false,
        }
    }

    /// Take the outcome of one load attempt.
    ///
    /// Success replaces the snapshot wholesale, clears the error, and
    /// clamps the selection to the new list; the returned flag says
    /// whether to ring the attention signal, which happens exactly on a
    /// content change between consecutive successful loads.  Failure
    /// records the message and leaves the previous snapshot, fingerprint
    /// and view untouched.
    pub fn apply_load_result(&mut self, res: Result<LoadedTasks, String>) -> (chime: bool)
        ensures
            match res {
                Ok(snap) => {
                    &&& chime == chime_on(old(self).last_fingerprint, snap.content_hash)
                    &&& final(self).snapshot == Some(snap)
                    &&& final(self).last_error is None
                    &&& final(self).last_fingerprint == Some(snap.content_hash)
                    &&& final(self).view.selected_idx as nat == clamped_index(
                        old(self).view.selected_idx as nat,
                        snap.tasks.tasks@.len(),
                    )
                    &&& final(self).view.details_scroll == old(self).view.details_scroll
                    &&& final(self).view.modal == old(self).view.modal
                },
                Err(msg) => {
                    &&& chime == false
                    &&& final(self).snapshot == old(self).snapshot
                    &&& final(self).last_error == Some(msg)
                    &&& final(self).last_fingerprint == old(self).last_fingerprint
                    &&& final(self).view == old(self).view
                },
            },
            final(self).pending_since == old(self).pending_since,
            final(self).last_attempt_at == old(self).last_attempt_at,
    {
        match res {
            Ok(next) => {
                let chime = match self.last_fingerprint {
                    Some(prev) => prev != next.content_hash,
                    None => false,
                };
                self.last_fingerprint = Some(next.content_hash);
                let total = next.tasks.tasks.len();
                self.snapshot = Some(next);
                self.last_error = None;
                self.view.clamp_selection(total);
                chime
            },
            Err(msg) => {
                self.last_error = Some(msg);
                false
            },
        }
    }

    /// React to one key press, the way the reconciler routes them:
    /// navigation moves the cursor and resets the details scroll, paging
    /// moves the details scroll, the help key toggles the modal, the
    /// reload key refreshes the pending marker, and the quit key asks
    /// the loop to stop.
    pub fn handle_key(&mut self, key: Key, now: u64) -> (quit: bool)
        ensures
            quit == (key == Key::Quit),
            final(self).snapshot == old(self).snapshot,
            final(self).last_error == old(self).last_error,
            final(self).last_fingerprint == old(self).last_fingerprint,
            final(self).last_attempt_at == old(self).last_attempt_at,
            final(self).pending_since == (match key {
                Key::Reload => Some(now),
                _ => old(self).pending_since,
            }),
            final(self).view.modal == (match key {
                Key::Help => if old(self).view.modal is Some {
                    None::<Modal>
                } else {
                    Some(Modal::Help)
                },
                _ => old(self).view.modal,
            }),
            final(self).view.details_scroll == (match key {
                Key::Up | Key::Down | Key::Home | Key::End => 0u16,
                Key::PageUp => if old(self).view.details_scroll >= SCROLL_STEP {
                    (old(self).view.details_scroll - SCROLL_STEP) as u16
                } else {
                    0u16
                },
                Key::PageDown => if old(self).view.details_scroll <= u16::MAX - SCROLL_STEP {
                    (old(self).view.details_scroll + SCROLL_STEP) as u16
                } else {
                    u16::MAX
                },
                _ => old(self).view.details_scroll,
            }),
            final(self).view.selected_idx as nat == (match key {
                Key::Up => if old(self).view.selected_idx >= 1 {
                    (old(self).view.selected_idx - 1) as nat
                } else {
                    0
                },
                Key::Down => if snapshot_len(*old(self)) == 0 {
                    old(self).view.selected_idx as nat
                } else if old(self).view.selected_idx + 1 < snapshot_len(*old(self)) {
                    (old(self).view.selected_idx + 1) as nat
                } else {
                    (snapshot_len(*old(self)) - 1) as nat
                },
                Key::Home => 0,
                Key::End => if snapshot_len(*old(self)) == 0 {
                    old(self).view.selected_idx as nat
                } else {
                    (snapshot_len(*old(self)) - 1) as nat
                },
                _ => old(self).view.selected_idx as nat,
            }),
    {
        match key {
            Key::Quit => {
                return true;
            },
            Key::Help => {
                self.view.modal = match self.view.modal {
                    Some(Modal::Help) => None,
                    None => Some(Modal::Help),
                };
            },
            Key::Reload => {
                self.pending_since = Some(now);
            },
            Key::Up => {
                self.view.details_scroll = 0;
                if self.view.selected_idx >= 1 {
                    self.view.selected_idx = self.view.selected_idx - 1;
                } else {
                    self.view.selected_idx = 0;
                }
            },
            Key::Down => {
                self.view.details_scroll = 0;
                let max = self.snapshot_total();
                if max > 0 {
                    let cap = max - 1;
                    if self.view.selected_idx < cap {
                        self.view.selected_idx = self.view.selected_idx + 1;
                    } else {
                        self.view.selected_idx = cap;
                    }
                }
            },
            Key::PageUp => {
                if self.view.details_scroll >= SCROLL_STEP {
                    self.view.details_scroll = self.view.details_scroll - SCROLL_STEP;
                } else {
                    self.view.details_scroll = 0;
                }
            },
            Key::PageDown => {
                if self.view.details_scroll <= u16::MAX - SCROLL_STEP {
                    self.view.details_scroll = self.view.details_scroll + SCROLL_STEP;
                } else {
                    self.view.details_scroll = u16::MAX;
                }
            },
            Key::Home => {
                self.view.details_scroll = 0;
                self.view.selected_idx = 0;
            },
            Key::End => {
                self.view.details_scroll = 0;
                let max = self.snapshot_total();
                if max > 0 {
                    self.view.selected_idx = max - 1;
                }
            },
            Key::Other => {
            },
        }
        false
    }

    /// How many rows the current snapshot shows.
    pub fn snapshot_total(&self) -> (r: usize)
        ensures
            r as nat == snapshot_len(*self),
    {
        match &self.snapshot {
            Some(l) => l.tasks.tasks.len(),
            None => 0,
        }
    }
}

} // verus!
