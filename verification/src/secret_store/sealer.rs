//! Host-provided wrap/unwrap for the data-encryption key.
//!
//! The host never sees identity semantics. It only encrypts opaque bytes with a
//! platform key that must not be exportable into application memory.

use vstd::prelude::*;
use vstd::string::*;

verus! {

#[derive(Debug, Clone, Copy, PartialEq, Eq, Structural)]
pub enum SealErrorKind {
    NotInstalled,
    KeyUnavailable,
    KeyInvalidated,
    CiphertextInvalid,
    DecryptFailed,
    OperationFailed,
    Unsupported,
}

#[derive(Debug)]
pub struct SealError {
    pub kind: SealErrorKind,
    pub text: String,
}

impl SealError {
    pub fn new(kind: SealErrorKind, message: &str) -> (e: Self)
        ensures
            e.kind == kind,
            e.text@ == message@,
    {
        SealError { kind, text: message.to_owned() }
    }

    pub fn message(&self) -> (s: &str)
        ensures
            s@ == self.text@,
    {
        self.text.as_str()
    }
}

/// A platform that wraps keys.
pub trait PlatformSealer: Sized {
    fn wrap(&self, plaintext: &[u8]) -> (r: Result<Vec<u8>, SealError>);

    fn unwrap(&self, wrapped: &[u8]) -> (r: Result<Vec<u8>, SealError>);
}

/// The place for the platform's sealer.
pub struct SealerSlot<S> {
    pub installed: Option<S>,
}

/// The error where no sealer is installed.
pub open spec fn not_installed(e: SealError) -> bool {
    e.kind == SealErrorKind::NotInstalled && e.text@ == "no platform sealer installed"@
}

impl<S: PlatformSealer> SealerSlot<S> {
    pub fn new() -> (s: Self)
        ensures
            s.installed is None,
    {
        SealerSlot { installed: None }
    }

    pub fn set_platform_sealer(&mut self, sealer: S)
        ensures
            final(self).installed == Some(sealer),
    {
        self.installed = Some(sealer);
    }

    pub fn clear_platform_sealer(&mut self)
        ensures
            final(self).installed is None,
    {
        self.installed = None;
    }

    /// Wraps with the platform's sealer: what it returns is handed on as it came.
    pub fn wrap_with_platform(&self, plaintext: &[u8]) -> (r: Result<Vec<u8>, SealError>)
        ensures
            match self.installed {
                Some(s) => call_ensures(S::wrap, (&s, plaintext), r),
                None => r matches Err(e) && not_installed(e),
            },
    {
        match &self.installed {
            Some(s) => s.wrap(plaintext),
            None => Err(SealError::new(SealErrorKind::NotInstalled, "no platform sealer installed")),
        }
    }

    /// Unwraps with the platform's sealer: what it returns is handed on as it came.
    pub fn unwrap_with_platform(&self, wrapped: &[u8]) -> (r: Result<Vec<u8>, SealError>)
        ensures
            match self.installed {
                Some(s) => call_ensures(S::unwrap, (&s, wrapped), r),
                None => r matches Err(e) && not_installed(e),
            },
    {
        match &self.installed {
            Some(s) => s.unwrap(wrapped),
            None => Err(SealError::new(SealErrorKind::NotInstalled, "no platform sealer installed")),
        }
    }
}

} // verus!
