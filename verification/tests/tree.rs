use orbit_state::error::Category;
use orbit_state::schema::{Card, CardMaturity, Relation, RelationKind};
use orbit_state::verbs::tree::card_tree;

fn card(feature: &str, relations: Vec<(&str, RelationKind, &str)>) -> Card {
    Card {
        id: None,
        feature: feature.into(),
        as_a: None,
        i_want: None,
        so_that: None,
        goal: "goal".into(),
        scenarios: vec![],
        maturity: CardMaturity::Planned,
        specs: vec![],
        relations: relations
            .into_iter()
            .map(|(c, kind, reason)| Relation { card: c.into(), kind, reason: reason.into() })
            .collect(),
        references: vec![],
        notes: vec![],
        park: None,
    }
}

fn deck() -> Vec<(String, Card)> {
    vec![
        ("0001-a".into(), card("A", vec![("0002-b", RelationKind::DependsOn, "needs b")])),
        ("0002-b".into(), card("B", vec![("0003-c", RelationKind::Feeds, "feeds c")])),
        ("0003-c".into(), card("C", vec![("0001-a", RelationKind::Supersedes, "loops back")])),
    ]
}

#[test]
fn card_tree_depth_zero_is_truncated_root() {
    let r = card_tree("card.tree", "0001-a".into(), &deck(), 0).unwrap();
    assert_eq!(r.root, "0001-a");
    assert_eq!(r.depth, 0);
    assert!(r.tree.truncated);
    assert_eq!(r.tree.feature, "A");
    assert!(r.tree.outgoing.is_empty() && r.tree.incoming.is_empty());
}

#[test]
fn card_tree_expands_outgoing_and_incoming_one_hop() {
    let r = card_tree("card.tree", "0001-a".into(), &deck(), 1).unwrap();
    assert!(!r.tree.truncated);
    assert_eq!(r.tree.outgoing.len(), 1);
    assert_eq!(r.tree.outgoing[0].kind, "depends-on");
    assert_eq!(r.tree.outgoing[0].reason, "needs b");
    assert_eq!(r.tree.outgoing[0].target.slug, "0002-b");
    assert!(r.tree.outgoing[0].target.truncated);
    assert_eq!(r.tree.incoming.len(), 1);
    assert_eq!(r.tree.incoming[0].kind, "supersedes");
    assert_eq!(r.tree.incoming[0].target.slug, "0003-c");
    assert_eq!(r.tree.incoming[0].target.feature, "C");
}

#[test]
fn card_tree_cycle_is_cut_at_a_card_already_on_the_path() {
    let r = card_tree("card.tree", "0001-a".into(), &deck(), 5).unwrap();
    // a -> b -> c -> a: the second visit of a is a truncated leaf.
    let b = &r.tree.outgoing[0].target;
    let c = &b.outgoing[0].target;
    let a_again = &c.outgoing[0].target;
    assert_eq!(a_again.slug, "0001-a");
    assert!(a_again.truncated);
    assert!(a_again.outgoing.is_empty());
}

#[test]
fn card_tree_dangling_relation_keeps_target_with_empty_feature() {
    let cards = vec![("0001-a".to_string(), card("A", vec![("0099-gone", RelationKind::Feeds, "r")]))];
    let r = card_tree("card.tree", "0001-a".into(), &cards, 2).unwrap();
    let gone = &r.tree.outgoing[0].target;
    assert_eq!(gone.slug, "0099-gone");
    assert_eq!(gone.feature, "");
    assert!(!gone.truncated);
    assert!(gone.outgoing.is_empty());
    assert_eq!(gone.incoming.len(), 1);
}

#[test]
fn card_tree_unknown_root_is_not_found() {
    let err = card_tree("card.tree", "0042-x".into(), &deck(), 1).unwrap_err();
    assert_eq!(err.category, Category::NotFound);
    assert_eq!(err.rendered(), "card.tree: not-found: card 0042-x not present in loaded card set");
}
