use orbit_state::verbs::memory::TOPOLOGY_NUDGE;
use orbit_state::verbs::names::numeric_id_from_card_id;
use orbit_state::verbs::topology::topology_setup_seeds;

#[test]
fn topology_setup_seeds_validate_against_schema() {
    for seed in topology_setup_seeds() {
        assert!(
            seed.validate().is_ok(),
            "seed `{}` failed validate: {:?}",
            seed.subsystem,
            seed.validate()
        );
    }
}

#[test]
fn memory_remember_canonical_nudge_text_const() {
    assert!(TOPOLOGY_NUDGE.contains("consider /orb:topology"));
}

#[test]
fn numeric_id_from_card_id_strips_leading_zeros() {
    assert_eq!(numeric_id_from_card_id("0039-workflow-conformance"), "39");
    assert_eq!(numeric_id_from_card_id("0001-spec-foo"), "1");
    assert_eq!(numeric_id_from_card_id("0010-foo"), "10");
    assert_eq!(numeric_id_from_card_id("9999-foo"), "9999");
}
