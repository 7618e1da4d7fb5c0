//! Where an object came from, and how much that matters.
//!
//! Every read is verified against its CID, so a source cannot serve wrong bytes,
//! only fail to serve. Provenance is recorded for diagnostics, and for
//! confidentiality: verification says nothing about who is allowed to hold an
//! object.

use vstd::prelude::*;
use vstd::string::*;

verus! {

/// Where an object was obtained.
#[derive(Debug, PartialEq, Eq)]
pub enum Origin {
    /// Already on local disk.
    Local,
    /// A CDN or object-store seed operated by us.
    Seed {
        /// Which seed, for diagnostics.
        name: String,
    },
    /// Another participant in the network.
    Peer {
        /// Opaque peer identifier.
        id: String,
    },
    /// Produced here, by compiling or building.
    Built,
}

/// An [`Origin`] as a value of the model.
pub enum OriginView {
    /// Already on local disk.
    Local,
    /// A seed operated by us.
    Seed {
        /// Which seed.
        name: Seq<char>,
    },
    /// Another participant in the network.
    Peer {
        /// Opaque peer identifier.
        id: Seq<char>,
    },
    /// Produced here.
    Built,
}

impl View for Origin {
    type V = OriginView;

    open spec fn view(&self) -> OriginView {
        match *self {
            Origin::Local => OriginView::Local,
            Origin::Seed { name } => OriginView::Seed { name: name@ },
            Origin::Peer { id } => OriginView::Peer { id: id@ },
            Origin::Built => OriginView::Built,
        }
    }
}

impl Clone for Origin {
    fn clone(&self) -> (copy: Self)
        ensures
            copy@ == self@,
    {
        match self {
            Origin::Local => Origin::Local,
            Origin::Seed { name } => Origin::Seed { name: name.clone() },
            Origin::Peer { id } => Origin::Peer { id: id.clone() },
            Origin::Built => Origin::Built,
        }
    }
}

impl Origin {
    /// Whether this origin is operated by us.
    pub fn is_operator_controlled(&self) -> (ours: bool)
        ensures
            ours == !(self@ is Peer),
    {
        match self {
            Origin::Local | Origin::Seed { .. } | Origin::Built => true,
            Origin::Peer { .. } => false,
        }
    }
}

/// How far an object has got through verification.
///
/// This is about artifacts we produced, not about content integrity. A compiled
/// artifact from a volunteer hashes perfectly well and may still be the output
/// of a subverted compiler.
#[derive(Debug, Clone, Copy, PartialEq, Eq, PartialOrd, Ord, Structural)]
pub enum TrustState {
    /// Produced by capacity we do not control. Held, but not usable for judging.
    Quarantined,
    /// Reproduced bit for bit by trusted capacity, or produced by it.
    Verified,
    /// Verified and recently used. A cache hint, never a trust upgrade.
    Hot,
}

/// An object in this state may be used to decide a verdict.
pub open spec fn judgeable(trust: TrustState) -> bool {
    trust != TrustState::Quarantined
}

/// The state after independent reproduction.
pub open spec fn promoted(trust: TrustState) -> TrustState {
    if trust == TrustState::Hot {
        TrustState::Hot
    } else {
        TrustState::Verified
    }
}

/// The state after a recent use.
pub open spec fn touched(trust: TrustState) -> TrustState {
    if trust == TrustState::Quarantined {
        TrustState::Quarantined
    } else {
        TrustState::Hot
    }
}

impl TrustState {
    /// Whether an object in this state may be used to decide a verdict.
    pub fn usable_for_judging(self) -> (usable: bool)
        ensures
            usable == judgeable(self),
    {
        match self {
            TrustState::Verified | TrustState::Hot => true,
            TrustState::Quarantined => false,
        }
    }

    /// Promote after independent reproduction.
    ///
    /// There is deliberately no way to promote from `Quarantined` other than
    /// through this function, and its name says what the caller must have done.
    pub fn promote_after_reproduction(self) -> (trust: Self)
        ensures
            trust == promoted(self),
    {
        match self {
            TrustState::Quarantined | TrustState::Verified => TrustState::Verified,
            TrustState::Hot => TrustState::Hot,
        }
    }

    /// Mark as recently used. Never changes whether an object is trusted.
    pub fn touch(self) -> (trust: Self)
        ensures
            trust == touched(self),
    {
        match self {
            TrustState::Quarantined => TrustState::Quarantined,
            TrustState::Verified | TrustState::Hot => TrustState::Hot,
        }
    }
}

/// How widely an object may be distributed.
///
/// Verification protects integrity; this protects confidentiality. They are
/// different problems and conflating them is how hidden tests escape.
#[derive(Debug, Clone, Copy, PartialEq, Eq, Structural)]
pub enum Distribution {
    /// Public immutable data. May go anywhere: CDN, peers, browser caches.
    Public,
    /// Private, but safe to distribute once encrypted client-side.
    EncryptedAtRest,
    /// Trusted storage only. Never reaches a peer, a CDN, or a browser.
    ///
    /// Hidden tests live here. So does unencrypted private source.
    TrustedOnly,
}

/// An object of this class may leave trusted storage.
pub open spec fn distributable(distribution: Distribution) -> bool {
    distribution != Distribution::TrustedOnly
}

/// The name of a distribution class.
pub open spec fn distribution_name(distribution: Distribution) -> Seq<char> {
    match distribution {
        Distribution::Public => "Public"@,
        Distribution::EncryptedAtRest => "EncryptedAtRest"@,
        Distribution::TrustedOnly => "TrustedOnly"@,
    }
}

impl Distribution {
    /// Whether an object may be served to an arbitrary peer.
    pub fn may_serve_to_peers(self) -> (may: bool)
        ensures
            may == distributable(self),
    {
        match self {
            Distribution::Public | Distribution::EncryptedAtRest => true,
            Distribution::TrustedOnly => false,
        }
    }

    /// Whether an object may be placed on a public CDN.
    pub fn may_place_on_cdn(self) -> (may: bool)
        ensures
            may == distributable(self),
    {
        match self {
            Distribution::Public | Distribution::EncryptedAtRest => true,
            Distribution::TrustedOnly => false,
        }
    }

    /// The name of the class, for messages.
    pub fn name(self) -> (name: &'static str)
        ensures
            name@ == distribution_name(self),
    {
        match self {
            Distribution::Public => "Public",
            Distribution::EncryptedAtRest => "EncryptedAtRest",
            Distribution::TrustedOnly => "TrustedOnly",
        }
    }
}

/// Everything recorded about an object beyond its bytes.
#[derive(Debug, PartialEq, Eq)]
pub struct Provenance {
    /// Where it came from.
    pub origin: Origin,
    /// How far it has got through verification.
    pub trust: TrustState,
    /// How widely it may travel.
    pub distribution: Distribution,
}

/// A [`Provenance`] as a value of the model.
pub struct ProvenanceView {
    /// Where it came from.
    pub origin: OriginView,
    /// How far it has got through verification.
    pub trust: TrustState,
    /// How widely it may travel.
    pub distribution: Distribution,
}

impl View for Provenance {
    type V = ProvenanceView;

    open spec fn view(&self) -> ProvenanceView {
        ProvenanceView {
            origin: self.origin@,
            trust: self.trust,
            distribution: self.distribution,
        }
    }
}

impl Clone for Provenance {
    fn clone(&self) -> (copy: Self)
        ensures
            copy@ == self@,
    {
        Provenance {
            origin: self.origin.clone(),
            trust: self.trust,
            distribution: self.distribution,
        }
    }
}

/// The provenance of a public object built here.
pub open spec fn public_build() -> ProvenanceView {
    ProvenanceView {
        origin: OriginView::Built,
        trust: TrustState::Verified,
        distribution: Distribution::Public,
    }
}

/// The provenance of an artifact that volunteer `peer` produced.
pub open spec fn volunteered(peer: Seq<char>) -> ProvenanceView {
    ProvenanceView {
        origin: OriginView::Peer { id: peer },
        trust: TrustState::Quarantined,
        distribution: Distribution::Public,
    }
}

/// The provenance of material that must never leave trusted infrastructure.
pub open spec fn confined() -> ProvenanceView {
    ProvenanceView {
        origin: OriginView::Local,
        trust: TrustState::Verified,
        distribution: Distribution::TrustedOnly,
    }
}

impl Provenance {
    /// A public object built here.
    pub fn built_public() -> (provenance: Self)
        ensures
            provenance@ == public_build(),
    {
        Provenance {
            origin: Origin::Built,
            trust: TrustState::Verified,
            distribution: Distribution::Public,
        }
    }

    /// An artifact produced by a volunteer: held, quarantined, still public.
    pub fn from_volunteer(peer: &str) -> (provenance: Self)
        ensures
            provenance@ == volunteered(peer@),
    {
        Provenance {
            origin: Origin::Peer { id: peer.to_owned() },
            trust: TrustState::Quarantined,
            distribution: Distribution::Public,
        }
    }

    /// Material that must never leave trusted infrastructure.
    pub fn trusted_only() -> (provenance: Self)
        ensures
            provenance@ == confined(),
    {
        Provenance {
            origin: Origin::Local,
            trust: TrustState::Verified,
            distribution: Distribution::TrustedOnly,
        }
    }

    /// Whether this object may be handed to a peer.
    pub fn may_share_with_peer(&self) -> (may: bool)
        ensures
            may == distributable(self@.distribution),
    {
        self.distribution.may_serve_to_peers()
    }

    /// Whether this object may decide a verdict.
    pub fn may_decide_a_verdict(&self) -> (may: bool)
        ensures
            may == judgeable(self@.trust),
    {
        self.trust.usable_for_judging()
    }
}

/// Using an object never changes whether it is trusted.
pub proof fn lemma_touch_keeps_trust(trust: TrustState)
    ensures
        judgeable(touched(trust)) == judgeable(trust),
        touched(touched(trust)) == touched(trust),
{
}

/// Reproduction lifts a quarantine, takes nothing away from a trusted object,
/// and is needed only once.
pub proof fn lemma_promotion_trusts(trust: TrustState)
    ensures
        judgeable(promoted(trust)),
        trust == TrustState::Quarantined ==> promoted(trust) == TrustState::Verified,
        judgeable(trust) ==> promoted(trust) == trust,
        promoted(promoted(trust)) == promoted(trust),
{
}

/// The state after `times` recent uses.
pub open spec fn touched_times(trust: TrustState, times: nat) -> TrustState
    decreases times,
{
    if times == 0 {
        trust
    } else {
        touched(touched_times(trust, (times - 1) as nat))
    }
}

/// No number of uses launders a quarantined object into a trusted one, or a
/// trusted one into a quarantined one: quarantine lifts only through
/// reproduction.
pub proof fn lemma_no_laundering(trust: TrustState, times: nat)
    ensures
        judgeable(touched_times(trust, times)) == judgeable(trust),
        trust == TrustState::Quarantined ==> touched_times(trust, times)
            == TrustState::Quarantined,
    decreases times,
{
    if times > 0 {
        lemma_no_laundering(trust, (times - 1) as nat);
    }
}

/// How usable a state makes an object, from least to most.
pub open spec fn trust_rank(trust: TrustState) -> nat {
    match trust {
        TrustState::Quarantined => 0,
        TrustState::Verified => 1,
        TrustState::Hot => 2,
    }
}

/// Neither a use nor a reproduction ever moves an object down, and an object is
/// usable for judging exactly from `Verified` upwards.
pub proof fn lemma_trust_never_falls(trust: TrustState)
    ensures
        trust_rank(touched(trust)) >= trust_rank(trust),
        trust_rank(promoted(trust)) >= trust_rank(trust),
        judgeable(trust) <==> trust_rank(trust) >= trust_rank(TrustState::Verified),
{
}

/// Quarantine and confinement are different questions: what a volunteer built
/// may be shared but not judged by, what is confined the other way round.
pub proof fn lemma_trust_is_not_distribution(peer: Seq<char>)
    ensures
        distributable(volunteered(peer).distribution) && !judgeable(volunteered(peer).trust),
        !distributable(confined().distribution) && judgeable(confined().trust),
{
}

/// Every trust state, and what follows from it: only quarantine keeps an object from
/// judging; reproduction ends quarantine and changes no other state; and use makes a
/// trusted object hot and leaves a quarantined one where it is.
pub proof fn lemma_trust_states(trust: TrustState)
    ensures
        judgeable(trust) <==> trust is Verified || trust is Hot,
        match trust {
            TrustState::Quarantined => promoted(trust) is Verified && touched(trust) is Quarantined,
            TrustState::Verified => promoted(trust) is Verified && touched(trust) is Hot,
            TrustState::Hot => promoted(trust) is Hot && touched(trust) is Hot,
        },
{
}

/// Every distribution class, and what follows from it: only what is confined to
/// trusted storage stays there.
pub proof fn lemma_distribution_classes(distribution: Distribution)
    ensures
        distributable(distribution) <==> distribution is Public || distribution is EncryptedAtRest,
        match distribution {
            Distribution::Public => distribution_name(distribution) == "Public"@,
            Distribution::EncryptedAtRest => distribution_name(distribution) == "EncryptedAtRest"@,
            Distribution::TrustedOnly => distribution_name(distribution) == "TrustedOnly"@,
        },
{
}

/// The three ways in: what is built here is trusted and public, what a volunteer
/// built is named after the volunteer, quarantined and public, and what is confined is
/// trusted and local.
pub proof fn lemma_ways_in(peer: Seq<char>)
    ensures
        public_build().origin is Built && public_build().trust is Verified
            && public_build().distribution is Public,
        volunteered(peer).origin == (OriginView::Peer { id: peer }) && volunteered(
            peer,
        ).trust is Quarantined && volunteered(peer).distribution is Public,
        confined().origin is Local && confined().trust is Verified
            && confined().distribution is TrustedOnly,
{
}

/// The model of a provenance holds what the provenance holds.
pub proof fn lemma_provenance_views(provenance: Provenance)
    ensures
        provenance@.trust == provenance.trust,
        provenance@.distribution == provenance.distribution,
        match provenance.origin {
            Origin::Local => provenance@.origin is Local,
            Origin::Seed { name } => provenance@.origin == (OriginView::Seed { name: name@ }),
            Origin::Peer { id } => provenance@.origin == (OriginView::Peer { id: id@ }),
            Origin::Built => provenance@.origin is Built,
        },
{
}

} // verus!
