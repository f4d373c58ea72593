use vstd::prelude::*;
use crate::error::StorageError;

verus! {

/// Where a single submitted operation stands.
#[derive(Clone, Copy, Debug, PartialEq, Eq, Structural)]
pub enum TokenState {
    /// Submitted; the device has not called back yet.
    Pending,
    /// The device called back with this outcome; nobody has collected it.
    Resolved { success: bool },
    /// The outcome was handed to the caller; the token is spent.
    Collected,
}

/// The one-shot pairing between one submitted operation and the caller that
/// waits for it. The callback resolves it once, the caller collects it once.
pub struct CompletionToken {
    state: TokenState,
}

/// What a caller gets back for an outcome that the device reported.
pub open spec fn outcome_result(success: bool) -> Result<(), StorageError> {
    if success {
        Ok(())
    } else {
        Err(StorageError::IoCompletion)
    }
}

/// What the submission call's status says: a negative status means that the
/// operation was refused and no callback will come; any other means that it is
/// under way.
pub fn submission_result(status: i32) -> (r: Result<(), StorageError>)
    ensures
        status < 0 ==> r == Err::<(), StorageError>(StorageError::IoSubmission { code: status }),
        status >= 0 ==> r is Ok,
{
    if status < 0 {
        Err(StorageError::IoSubmission { code: status })
    } else {
        Ok(())
    }
}

impl CompletionToken {
    pub closed spec fn view(&self) -> TokenState {
        self.state
    }

    /// A token for an operation that was just submitted.
    pub fn new() -> (r: CompletionToken)
        ensures
            r@ == TokenState::Pending,
    {
        CompletionToken { state: TokenState::Pending }
    }

    /// Where the operation stands.
    pub fn state(&self) -> (r: TokenState)
        ensures
            r == self@,
    {
        self.state
    }

    /// The device's callback: records the outcome. It is called once, on a
    /// pending token.
    pub fn resolve(&mut self, success: bool)
        requires
            old(self)@ == TokenState::Pending,
        ensures
            final(self)@ == (TokenState::Resolved { success }),
    {
        self.state = TokenState::Resolved { success };
    }

    /// The waiting caller: takes the recorded outcome, once.
    pub fn collect(&mut self) -> (r: Result<(), StorageError>)
        requires
            old(self)@ is Resolved,
        ensures
            final(self)@ == TokenState::Collected,
            r == outcome_result(old(self)@->Resolved_success),
    {
        let success = match self.state {
            TokenState::Resolved { success } => success,
            _ => false,
        };
        self.state = TokenState::Collected;
        if success {
            Ok(())
        } else {
            Err(StorageError::IoCompletion)
        }
    }
}

} // verus!
