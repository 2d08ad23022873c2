//! The one slot of shared mutable state: the secret that the edge stamps on requests.
use vstd::prelude::*;
use vstd::slice::slice_to_vec;
use crate::bytes::opt_seq;

verus! {

/// Holds at most one secret. Each install replaces the previous value whole.
pub struct SecretCell {
    current: Option<Vec<u8>>,
}

impl View for SecretCell {
    type V = Option<Seq<u8>>;

    closed spec fn view(&self) -> Option<Seq<u8>> {
        opt_seq(self.current)
    }
}

/// The content of a cell after installing `secret` into one holding `current`.
pub open spec fn installed(current: Option<Seq<u8>>, secret: Seq<u8>) -> Option<Seq<u8>> {
    Some(secret)
}

/// The content of a cell that held `start` after installing each of `secrets` in order.
pub open spec fn after_installs(start: Option<Seq<u8>>, secrets: Seq<Seq<u8>>) -> Option<Seq<u8>>
    decreases secrets.len(),
{
    if secrets.len() == 0 {
        start
    } else {
        installed(after_installs(start, secrets.drop_last()), secrets.last())
    }
}

/// Installs replace and never merge: after any sequence of installs, in whatever order
/// concurrent callers were serialised, the cell holds exactly the last value installed,
/// which is one of the values attempted.
pub proof fn lemma_last_install_wins(start: Option<Seq<u8>>, secrets: Seq<Seq<u8>>)
    requires
        secrets.len() > 0,
    ensures
        after_installs(start, secrets) == Some(secrets.last()),
        secrets.contains(after_installs(start, secrets)->0),
{
    assert(secrets[secrets.len() - 1] == secrets.last());
}

impl SecretCell {
    /// An empty cell: no secret installed yet.
    pub fn new() -> (r: Self)
        ensures
            r@ is None,
    {
        SecretCell { current: None }
    }

    /// Replaces the current value, whatever it was, by `secret`.
    pub fn install(&mut self, secret: Vec<u8>)
        ensures
            final(self)@ == installed(old(self)@, secret@),
    {
        self.current = Some(secret);
    }

    /// A copy of the current value, or `None` while no secret is installed.
    pub fn read_snapshot(&self) -> (r: Option<Vec<u8>>)
        ensures
            opt_seq(r) == self@,
    {
        match &self.current {
            Some(s) => Some(slice_to_vec(s.as_slice())),
            None => None,
        }
    }
}

} // verus!
