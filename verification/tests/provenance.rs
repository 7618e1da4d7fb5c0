use rustly_storage::provenance::{Distribution, Origin, Provenance, TrustState};

#[test]
fn trusted_only_material_never_reaches_a_peer_or_a_cdn() {
    let provenance = Provenance::trusted_only();
    assert!(!provenance.may_share_with_peer());
    assert!(!provenance.distribution.may_place_on_cdn());
}

#[test]
fn public_and_encrypted_material_may_be_distributed() {
    for distribution in [Distribution::Public, Distribution::EncryptedAtRest] {
        assert!(distribution.may_serve_to_peers(), "{distribution:?}");
        assert!(distribution.may_place_on_cdn(), "{distribution:?}");
    }
}

#[test]
fn a_volunteer_artifact_is_held_but_cannot_decide_a_verdict() {
    let provenance = Provenance::from_volunteer("peer-7");
    assert_eq!(provenance.trust, TrustState::Quarantined);
    assert!(!provenance.may_decide_a_verdict());
    // It is still public: quarantine is about our confidence in the build,
    // not about who may see the bytes.
    assert!(provenance.may_share_with_peer());
}

#[test]
fn quarantine_lifts_only_through_reproduction() {
    let quarantined = TrustState::Quarantined;
    assert!(!quarantined.usable_for_judging());

    // Touching is a cache hint. It must not launder a quarantined artifact
    // into a trusted one.
    assert_eq!(quarantined.touch(), TrustState::Quarantined);
    assert!(!quarantined.touch().usable_for_judging());

    assert_eq!(
        quarantined.promote_after_reproduction(),
        TrustState::Verified
    );
    assert!(TrustState::Verified.usable_for_judging());
}

#[test]
fn hot_is_a_cache_state_not_a_trust_level() {
    assert_eq!(TrustState::Verified.touch(), TrustState::Hot);
    assert!(TrustState::Hot.usable_for_judging());
    assert_eq!(
        TrustState::Hot.promote_after_reproduction(),
        TrustState::Hot
    );
}

#[test]
fn trust_states_order_from_least_to_most_usable() {
    assert!(TrustState::Quarantined < TrustState::Verified);
    assert!(TrustState::Verified < TrustState::Hot);
}

#[test]
fn peer_origins_are_not_operator_controlled() {
    assert!(!Origin::Peer { id: "p".into() }.is_operator_controlled());
    for origin in [
        Origin::Local,
        Origin::Built,
        Origin::Seed { name: "b2".into() },
    ] {
        assert!(origin.is_operator_controlled(), "{origin:?}");
    }
}

#[test]
fn the_ways_to_come_by_an_object_are_recorded() {
    assert_eq!(
        Provenance::built_public(),
        Provenance {
            origin: Origin::Built,
            trust: TrustState::Verified,
            distribution: Distribution::Public,
        }
    );
    assert_eq!(
        Provenance::from_volunteer("peer-7").origin,
        Origin::Peer {
            id: "peer-7".into()
        }
    );
    assert_eq!(
        Provenance::trusted_only(),
        Provenance {
            origin: Origin::Local,
            trust: TrustState::Verified,
            distribution: Distribution::TrustedOnly,
        }
    );
    let copy = Provenance::from_volunteer("peer-7");
    assert_eq!(copy.clone(), copy);
    assert_eq!(Distribution::EncryptedAtRest.name(), "EncryptedAtRest");
}

#[test]
fn use_never_launders_and_promotion_happens_once() {
    let mut trust = TrustState::Quarantined;
    for _ in 0..5 {
        trust = trust.touch();
    }
    assert_eq!(trust, TrustState::Quarantined);
    let promoted = trust.promote_after_reproduction();
    assert_eq!(promoted.promote_after_reproduction(), promoted);
    assert_eq!(promoted.touch().touch(), TrustState::Hot);
}
