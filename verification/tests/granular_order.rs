use openmines_server::granular::{canonicalize_granular_intents, GranularIntent};

#[test]
fn granular_intent_conflicts_have_stable_legacy_order() {
    let mut intents = vec![
        GranularIntent {
            src_x: 33,
            src_y: 31,
            dest_x: 32,
            dest_y: 32,
            cell: 100,
        },
        GranularIntent {
            src_x: 31,
            src_y: 31,
            dest_x: 32,
            dest_y: 32,
            cell: 100,
        },
    ];

    canonicalize_granular_intents(&mut intents);

    assert_eq!(intents[0].src_x, 31);
    assert_eq!(intents[1].src_x, 33);
    assert!(intents.iter().all(|intent| intent.crosses_chunk_boundary()));
}
