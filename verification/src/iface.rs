//! The interface lifecycle as a state machine. Startup drives the link
//! through creation, configuration, addressing, bring-up, routing, the full
//! peer resynchronization and the NAT rule, in that order; the stages whose
//! work may already be in place tolerate failure, the rest stop startup.
//! The kernel work itself is asynchronous and happens at the caller, which
//! feeds each stage's outcome back in.

use vstd::prelude::*;

verus! {

/// One stage of startup, in the order they run.
#[derive(Debug, Clone, Copy, PartialEq, Eq, Structural)]
pub enum LinkStage {
    /// Check that the link exists and create it if not.
    EnsureLink,
    /// Apply the private key and listen port to the device.
    Configure,
    /// Resolve the link's name to its kernel index.
    ResolveIndex,
    /// Assign the interface address.
    AssignAddress,
    /// Bring the link up.
    BringUp,
    /// Install the route for the VPN subnet.
    AddRoute,
    /// Replace the kernel peer table with the roster's enabled peers.
    SyncPeers,
    /// Install the NAT masquerade rule.
    SetupNat,
    /// Startup is complete; the serving layer may accept traffic.
    Ready,
    /// A required stage failed; startup stops.
    Failed,
}

/// The stage after this one when its work succeeded.
pub open spec fn spec_next_stage(s: LinkStage) -> LinkStage {
    match s {
        LinkStage::EnsureLink => LinkStage::Configure,
        LinkStage::Configure => LinkStage::ResolveIndex,
        LinkStage::ResolveIndex => LinkStage::AssignAddress,
        LinkStage::AssignAddress => LinkStage::BringUp,
        LinkStage::BringUp => LinkStage::AddRoute,
        LinkStage::AddRoute => LinkStage::SyncPeers,
        LinkStage::SyncPeers => LinkStage::SetupNat,
        LinkStage::SetupNat => LinkStage::Ready,
        LinkStage::Ready => LinkStage::Ready,
        LinkStage::Failed => LinkStage::Failed,
    }
}

/// A stage whose failure is tolerated: its work may survive from an earlier
/// partial run (the address or route already exists), or is not needed for
/// on-subnet connectivity (the NAT rule). Such a failure is logged and
/// startup goes on.
pub open spec fn spec_tolerates_failure(s: LinkStage) -> bool {
    s is AssignAddress || s is AddRoute || s is SetupNat
}

/// Whether a failure at this stage is tolerated.
pub fn tolerates_failure(s: LinkStage) -> (r: bool)
    ensures
        r == spec_tolerates_failure(s),
{
    match s {
        LinkStage::AssignAddress => true,
        LinkStage::AddRoute => true,
        LinkStage::SetupNat => true,
        _ => false,
    }
}

/// Advance startup by one stage, given whether the stage's work succeeded:
/// success moves on, a tolerated failure moves on too, any other failure
/// stops startup.
pub fn startup_advance(stage: LinkStage, ok: bool) -> (next: LinkStage)
    ensures
        next == (if ok || spec_tolerates_failure(stage) {
            spec_next_stage(stage)
        } else {
            LinkStage::Failed
        }),
{
    if ok || tolerates_failure(stage) {
        match stage {
            LinkStage::EnsureLink => LinkStage::Configure,
            LinkStage::Configure => LinkStage::ResolveIndex,
            LinkStage::ResolveIndex => LinkStage::AssignAddress,
            LinkStage::AssignAddress => LinkStage::BringUp,
            LinkStage::BringUp => LinkStage::AddRoute,
            LinkStage::AddRoute => LinkStage::SyncPeers,
            LinkStage::SyncPeers => LinkStage::SetupNat,
            LinkStage::SetupNat => LinkStage::Ready,
            LinkStage::Ready => LinkStage::Ready,
            LinkStage::Failed => LinkStage::Failed,
        }
    } else {
        LinkStage::Failed
    }
}

/// The serving layer starts only from `Ready`, and `Ready` is reached only
/// through the peer resynchronization stage: a failed resynchronization can
/// never be passed over.
pub proof fn lemma_ready_needs_sync()
    ensures
        forall|s: LinkStage| #[trigger] spec_next_stage(s) is Ready ==> (s is SetupNat || s is Ready),
        !spec_tolerates_failure(LinkStage::SyncPeers),
{
    assert forall|s: LinkStage| #[trigger] spec_next_stage(s) is Ready
        implies (s is SetupNat || s is Ready) by {
        match s {
            LinkStage::SetupNat => {},
            LinkStage::Ready => {},
            _ => {
                assert(!(spec_next_stage(s) is Ready));
            },
        }
    }
}

/// One stage of graceful shutdown, in order: the NAT rule goes first, then
/// the link. Either failure is tolerated and logged; shutdown always runs to
/// the end.
#[derive(Debug, Clone, Copy, PartialEq, Eq, Structural)]
pub enum ShutdownStage {
    TeardownNat,
    DeleteLink,
    Done,
}

/// Advance shutdown by one stage; the outcome of the stage's work never
/// stops it.
pub fn shutdown_advance(stage: ShutdownStage) -> (next: ShutdownStage)
    ensures
        stage is TeardownNat ==> next is DeleteLink,
        stage is DeleteLink ==> next is Done,
        stage is Done ==> next is Done,
{
    match stage {
        ShutdownStage::TeardownNat => ShutdownStage::DeleteLink,
        ShutdownStage::DeleteLink => ShutdownStage::Done,
        ShutdownStage::Done => ShutdownStage::Done,
    }
}

} // verus!
