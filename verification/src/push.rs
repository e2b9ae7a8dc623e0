use vstd::prelude::*;

verus! {

// The push-negotiation protocol. Before any data transfer the transport
// reports the branch's current remote position (`remote_src`). The
// decision whether overwriting it is safe depends only on that position,
// the push mode, the last locally recorded tracking position (the lease),
// and — for a plain push — whether the update is a strict fast-forward.
// Only an accepted negotiation proceeds to transfer; the final outcome
// combines the decision with the transport result.
#[derive(Debug, PartialEq, Eq, Clone, Copy)]
pub enum PushMode {
    Normal,
    Force,
    ForceWithLease,
}

/// The decision taken during negotiation.
#[derive(Debug, PartialEq, Eq)]
pub enum NegotiationResult {
    /// The transport reported no update to perform.
    NoPushNeeded,
    /// The remote moved since it was last observed; overwriting it could
    /// discard someone else's work.
    RemoteDiverged,
    /// Overwriting the remote branch is safe.
    AllowedToPush,
    /// The branch does not yet exist on the remote.
    AllowedToPushNewBranch,
    /// A plain push that is not a strict fast-forward; this mode is
    /// defined only for fast-forward updates.
    UnimplementedMode,
}

/// Why a branch was not pushed.
#[derive(Debug, PartialEq, Eq)]
pub enum NotPushedReason {
    Diverged,
    NoUpdateNeeded,
    UnimplementedMode,
    /// The transport failed after the negotiation accepted; the message is
    /// the transport's own.
    TransportError(String),
}

/// What a branch was pushed as.
#[derive(Debug, PartialEq, Eq, Clone, Copy)]
pub enum PushedKind {
    NewBranch,
    Updated,
}

/// The outcome of one branch's push.
#[derive(Debug, PartialEq, Eq)]
pub enum PushOutcome {
    Pushed(PushedKind),
    NotPushed(NotPushedReason),
}

/// The spec-level form of a push outcome.
pub ghost enum PushOutcomeV {
    Pushed(PushedKind),
    NotPushedDiverged,
    NotPushedNoUpdateNeeded,
    NotPushedUnimplementedMode,
    NotPushedTransportError(Seq<char>),
}

impl View for PushOutcome {
    type V = PushOutcomeV;

    open spec fn view(&self) -> PushOutcomeV {
        match self {
            PushOutcome::Pushed(k) => PushOutcomeV::Pushed(*k),
            PushOutcome::NotPushed(r) => match r {
                NotPushedReason::Diverged => PushOutcomeV::NotPushedDiverged,
                NotPushedReason::NoUpdateNeeded => PushOutcomeV::NotPushedNoUpdateNeeded,
                NotPushedReason::UnimplementedMode => PushOutcomeV::NotPushedUnimplementedMode,
                NotPushedReason::TransportError(m) => PushOutcomeV::NotPushedTransportError(m@),
            },
        }
    }
}

/// The negotiation decision. `remote_src` is the remote's reported current
/// position, `None` when the branch does not exist there; `lease` is the
/// last locally recorded tracking position of that branch on that remote;
/// `fast_forward` says whether the requested update strictly fast-forwards
/// the remote's position.
pub open spec fn spec_negotiate(
    mode: PushMode,
    remote_src: Option<Seq<char>>,
    lease: Option<Seq<char>>,
    fast_forward: bool,
) -> NegotiationResult {
    match remote_src {
        None => NegotiationResult::AllowedToPushNewBranch,
        Some(src) => match mode {
            PushMode::Force => NegotiationResult::AllowedToPush,
            PushMode::ForceWithLease => match lease {
                Some(l) => if l == src {
                    NegotiationResult::AllowedToPush
                } else {
                    NegotiationResult::RemoteDiverged
                },
                None => NegotiationResult::RemoteDiverged,
            },
            PushMode::Normal => if fast_forward {
                NegotiationResult::AllowedToPush
            } else {
                NegotiationResult::UnimplementedMode
            },
        },
    }
}

/// Decide whether a push may overwrite the remote branch.
pub fn negotiate(
    mode: PushMode,
    remote_src: &Option<String>,
    lease: &Option<String>,
    fast_forward: bool,
) -> (r: NegotiationResult)
    ensures
        r == spec_negotiate(
            mode,
            match remote_src {
                Some(s) => Some(s@),
                None => None,
            },
            match lease {
                Some(l) => Some(l@),
                None => None,
            },
            fast_forward,
        ),
{
    match remote_src {
        None => NegotiationResult::AllowedToPushNewBranch,
        Some(src) => match mode {
            PushMode::Force => NegotiationResult::AllowedToPush,
            PushMode::ForceWithLease => match lease {
                Some(l) => if l.eq(src) {
                    NegotiationResult::AllowedToPush
                } else {
                    NegotiationResult::RemoteDiverged
                },
                None => NegotiationResult::RemoteDiverged,
            },
            PushMode::Normal => if fast_forward {
                NegotiationResult::AllowedToPush
            } else {
                NegotiationResult::UnimplementedMode
            },
        },
    }
}

pub open spec fn negotiation_accepted(n: NegotiationResult) -> bool {
    n == NegotiationResult::AllowedToPush || n == NegotiationResult::AllowedToPushNewBranch
}

impl NegotiationResult {
    /// Only an accepted negotiation lets the data transfer proceed.
    pub fn accepted(&self) -> (r: bool)
        ensures
            r == negotiation_accepted(*self),
    {
        match self {
            NegotiationResult::AllowedToPush => true,
            NegotiationResult::AllowedToPushNewBranch => true,
            _ => false,
        }
    }
}

/// The final classification of one branch's push: a rejected negotiation
/// is reported as such whatever the transport said; an accepted one is
/// `Pushed` exactly when the transfer succeeded. `negotiation` is `None`
/// when the transport failed before the negotiation could run.
pub open spec fn spec_classify_push(
    negotiation: Option<NegotiationResult>,
    transport: Result<(), Seq<char>>,
) -> PushOutcomeV {
    match negotiation {
        None => match transport {
            Ok(_) => PushOutcomeV::NotPushedTransportError(Seq::empty()),
            Err(m) => PushOutcomeV::NotPushedTransportError(m),
        },
        Some(n) => match n {
            NegotiationResult::NoPushNeeded => PushOutcomeV::NotPushedNoUpdateNeeded,
            NegotiationResult::RemoteDiverged => PushOutcomeV::NotPushedDiverged,
            NegotiationResult::UnimplementedMode => PushOutcomeV::NotPushedUnimplementedMode,
            NegotiationResult::AllowedToPush => match transport {
                Ok(_) => PushOutcomeV::Pushed(PushedKind::Updated),
                Err(m) => PushOutcomeV::NotPushedTransportError(m),
            },
            NegotiationResult::AllowedToPushNewBranch => match transport {
                Ok(_) => PushOutcomeV::Pushed(PushedKind::NewBranch),
                Err(m) => PushOutcomeV::NotPushedTransportError(m),
            },
        },
    }
}

/// Combine the negotiation decision and the transport result into the
/// branch's outcome.
pub fn classify_push(negotiation: Option<NegotiationResult>, transport: Result<(), String>) -> (r:
    PushOutcome)
    ensures
        r@ == spec_classify_push(
            negotiation,
            match transport {
                Ok(u) => Ok(u),
                Err(ref m) => Err(m@),
            },
        ),
{
    match negotiation {
        None => match transport {
            Ok(_) => {
                let empty = String::new();
                PushOutcome::NotPushed(NotPushedReason::TransportError(empty))
            },
            Err(m) => PushOutcome::NotPushed(NotPushedReason::TransportError(m)),
        },
        Some(n) => match n {
            NegotiationResult::NoPushNeeded => PushOutcome::NotPushed(
                NotPushedReason::NoUpdateNeeded,
            ),
            NegotiationResult::RemoteDiverged => PushOutcome::NotPushed(NotPushedReason::Diverged),
            NegotiationResult::UnimplementedMode => PushOutcome::NotPushed(
                NotPushedReason::UnimplementedMode,
            ),
            NegotiationResult::AllowedToPush => match transport {
                Ok(_) => PushOutcome::Pushed(PushedKind::Updated),
                Err(m) => PushOutcome::NotPushed(NotPushedReason::TransportError(m)),
            },
            NegotiationResult::AllowedToPushNewBranch => match transport {
                Ok(_) => PushOutcome::Pushed(PushedKind::NewBranch),
                Err(m) => PushOutcome::NotPushed(NotPushedReason::TransportError(m)),
            },
        },
    }
}

/// New-branch push: when the remote has no existing ref for the branch,
/// the negotiation accepts under every mode, whatever the lease holds, and
/// a successful transfer reports a new branch.
pub proof fn lemma_new_branch_always_accepted(
    mode: PushMode,
    lease: Option<Seq<char>>,
    fast_forward: bool,
)
    ensures
        spec_negotiate(mode, None, lease, fast_forward)
            == NegotiationResult::AllowedToPushNewBranch,
        spec_classify_push(Some(spec_negotiate(mode, None, lease, fast_forward)), Ok(()))
            == PushOutcomeV::Pushed(PushedKind::NewBranch),
{
}

/// Lease rejection: a force-with-lease push is rejected, and no data is
/// transferred, exactly when the remote's reported position differs from
/// the last locally observed one (or none was ever observed).
pub proof fn lemma_lease_rejection(src: Seq<char>, lease: Option<Seq<char>>, ff: bool)
    requires
        lease != Some(src),
    ensures
        spec_negotiate(PushMode::ForceWithLease, Some(src), lease, ff)
            == NegotiationResult::RemoteDiverged,
        forall|t: Result<(), Seq<char>>|
            spec_classify_push(
                Some(spec_negotiate(PushMode::ForceWithLease, Some(src), lease, ff)),
                t,
            ) == PushOutcomeV::NotPushedDiverged,
{
}

/// Lease acceptance: when the remote has not moved since the last
/// observation, a force-with-lease push is accepted, and a successful
/// transfer reports an update.
pub proof fn lemma_lease_acceptance(src: Seq<char>, ff: bool)
    ensures
        spec_negotiate(PushMode::ForceWithLease, Some(src), Some(src), ff)
            == NegotiationResult::AllowedToPush,
        spec_classify_push(
            Some(spec_negotiate(PushMode::ForceWithLease, Some(src), Some(src), ff)),
            Ok(()),
        ) == PushOutcomeV::Pushed(PushedKind::Updated),
{
}

} // verus!
