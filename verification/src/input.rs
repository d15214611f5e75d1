//! Keyboard state shared between the thread that polls the window and the
//! thread that runs the simulation. The poller stores, the simulation reads a
//! snapshot once per tick; a snapshot may be one poll old.

use std::sync::atomic::{AtomicBool, Ordering};
use std::sync::Arc;
use vstd::prelude::*;

verus! {

/// The tracked keys as they were at one moment.
#[derive(Clone, Copy, Debug, PartialEq, Eq, Structural)]
pub struct InputSnapshot {
    /// Whether the key for moving up was down.
    pub up: bool,
    /// Whether the key for moving left was down.
    pub left: bool,
    /// Whether the key for moving down was down.
    pub down: bool,
    /// Whether the key for moving right was down.
    pub right: bool,
    /// Whether the escape key was down.
    pub escape: bool,
}

impl InputSnapshot {
    /// The snapshot in which each key is as given.
    pub fn from_keys(up: bool, left: bool, down: bool, right: bool, escape: bool) -> (snapshot:
        Self)
        ensures
            snapshot == (InputSnapshot { up, left, down, right, escape }),
    {
        InputSnapshot { up, left, down, right, escape }
    }
}

/// The current state of the tracked keys. Clones share the same flags.
#[derive(Clone)]
pub struct InputState {
    /// Whether the key for moving up is down.
    pub up: Arc<AtomicBool>,
    /// Whether the key for moving left is down.
    pub left: Arc<AtomicBool>,
    /// Whether the key for moving down is down.
    pub down: Arc<AtomicBool>,
    /// Whether the key for moving right is down.
    pub right: Arc<AtomicBool>,
    /// Whether the escape key is down.
    pub escape: Arc<AtomicBool>,
}

impl InputState {
    /// Creates a state in which no key is down.
    pub fn new() -> Self {
        InputState {
            up: Arc::new(AtomicBool::new(false)),
            down: Arc::new(AtomicBool::new(false)),
            left: Arc::new(AtomicBool::new(false)),
            right: Arc::new(AtomicBool::new(false)),
            escape: Arc::new(AtomicBool::new(false)),
        }
    }

    /// Stores the keys that a poll of the window found down.
    pub fn update(&self, pressed: &InputSnapshot) {
        self.up.store(pressed.up, Ordering::Relaxed);
        self.down.store(pressed.down, Ordering::Relaxed);
        self.left.store(pressed.left, Ordering::Relaxed);
        self.right.store(pressed.right, Ordering::Relaxed);
        self.escape.store(pressed.escape, Ordering::Relaxed);
    }

    /// Reads all tracked keys into a snapshot. Another thread may store
    /// between two loads, so nothing is promised of the values; what the
    /// snapshot is for the values that were loaded, `from_keys` says.
    pub fn read(&self) -> InputSnapshot {
        let up = self.up.load(Ordering::Relaxed);
        let down = self.down.load(Ordering::Relaxed);
        let left = self.left.load(Ordering::Relaxed);
        let right = self.right.load(Ordering::Relaxed);
        let escape = self.escape.load(Ordering::Relaxed);
        InputSnapshot::from_keys(up, left, down, right, escape)
    }
}

} // verus!
