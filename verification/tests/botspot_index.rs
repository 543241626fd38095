use openmines_server::botspot_index::{BotSpotIndex, BotSpotView};
use openmines_server::ids::{EntityId, PlayerId};

#[test]
fn registered_spot_is_listed_and_rendered_with_negated_owner_id() {
    let mut idx = BotSpotIndex::new();
    idx.register_botspot_entity(PlayerId(12), 40, 70, 3, EntityId(100));
    assert_eq!(idx.botspot_of(PlayerId(12)), Some(EntityId(100)));
    assert_eq!(idx.botspot_of(PlayerId(13)), None);
    assert_eq!(idx.botspot_entities_in_chunk(1, 2), vec![EntityId(100)]);
    assert_eq!(
        idx.bots_render_botspots_in_chunk(1, 2),
        vec![BotSpotView { bot_id: -12, x: 40, y: 70, dir: 0, clan_id: 3 }]
    );
    assert!(idx.bots_render_botspots_in_chunk(0, 0).is_empty());
}

#[test]
fn removing_a_spot_clears_every_chunk() {
    let mut idx = BotSpotIndex::new();
    idx.register_botspot_entity(PlayerId(1), 1, 1, 0, EntityId(10));
    idx.register_botspot_entity(PlayerId(2), 2, 2, 0, EntityId(20));
    idx.register_botspot_entity(PlayerId(1), 100, 1, 0, EntityId(11));
    assert_eq!(idx.botspot_of(PlayerId(1)), Some(EntityId(11)));
    assert_eq!(idx.remove_botspot_runtime(PlayerId(1)), Some(EntityId(11)));
    assert_eq!(idx.botspot_of(PlayerId(1)), None);
    // The first spot of owner 1 stays listed by entity, but its view is gone.
    assert_eq!(idx.botspot_entities_in_chunk(0, 0), vec![EntityId(10), EntityId(20)]);
    assert!(idx.botspot_entities_in_chunk(3, 0).is_empty());
    assert_eq!(
        idx.bots_render_botspots_in_chunk(0, 0),
        vec![BotSpotView { bot_id: -2, x: 2, y: 2, dir: 0, clan_id: 0 }]
    );
    assert_eq!(idx.remove_botspot_runtime(PlayerId(1)), None);
}
