//! Platform abstractions for haptics and secure storage. The app picks the
//! implementations for its target at start-up.
use vstd::prelude::*;

verus! {

// ── Haptic Engine ──

/// Haptic feedback, one method per pattern.
pub trait HapticEngine: Send + Sync {
    fn light_tap(&self);

    fn success_pulse(&self);

    fn error_tap(&self);

    fn double_pulse(&self);

    fn medium_tap(&self);
}

/// Haptics that do nothing, for the web and for tests.
pub struct NoOpHaptics;

impl HapticEngine for NoOpHaptics {
    fn light_tap(&self) {
    }

    fn success_pulse(&self) {
    }

    fn error_tap(&self) {
    }

    fn double_pulse(&self) {
    }

    fn medium_tap(&self) {
    }
}

// ── Secure Storage ──

/// A key-value store for secrets such as session tokens.
pub trait SecureStorage: Send + Sync {
    fn set(&self, key: &str, value: &str) -> Result<(), StorageError>;

    fn get(&self, key: &str) -> Result<Option<String>, StorageError>;

    fn delete(&self, key: &str) -> Result<(), StorageError>;
}

#[derive(Debug)]
pub enum StorageError {
    NotAvailable,
    WriteError(String),
    ReadError(String),
}

} // verus!
