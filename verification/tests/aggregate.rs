use gm_helper_corelibrary::{Counter, Elements, Story, TtrpgEntity};

fn story_element(label: &str, text: &str) -> Elements {
    Elements::Story(Story::new(1, 1, label, text).unwrap())
}

#[test]
fn new_entity_defaults_missing_fields_to_empty() {
    let entity = TtrpgEntity::new(true, false, None, String::from("campaign"), None);
    assert!(entity.active);
    assert!(!entity.edit);
    assert_eq!(entity.id, "");
    assert_eq!(entity.name, "campaign");
    assert_eq!(entity.database, "");
    assert!(entity.elements.is_empty());
}

#[test]
fn new_entity_keeps_given_id_and_database() {
    let entity = TtrpgEntity::new(
        false,
        true,
        Some(String::from("abc123")),
        String::from("campaign"),
        Some("saved.db"),
    );
    assert_eq!(entity.id, "abc123");
    assert_eq!(entity.database, "saved.db");
}

#[test]
fn add_element_appends_under_label() {
    let mut entity = TtrpgEntity::new(true, false, None, String::from("c"), None);
    assert!(entity.add_element(story_element("intro", "once")).is_none());
    assert!(entity.add_element(story_element("outro", "twice")).is_none());
    assert_eq!(
        entity.retrieve_all_element_ids(),
        vec![String::from("intro"), String::from("outro")]
    );
}

#[test]
fn add_element_replaces_and_returns_displaced() {
    let mut entity = TtrpgEntity::new(true, false, None, String::from("c"), None);
    entity.add_element(story_element("intro", "once"));
    let displaced = entity.add_element(story_element("intro", "again")).unwrap();
    match displaced {
        Elements::Story(old) => assert_eq!(old.raw_narration, "once"),
        _ => panic!("displaced element has the wrong kind"),
    }
    assert_eq!(entity.elements.len(), 1);
    match &entity.elements[0].1 {
        Elements::Story(story) => assert_eq!(story.raw_narration, "again"),
        _ => panic!("stored element has the wrong kind"),
    }
}

#[test]
fn add_element_keys_by_each_kind_label() {
    let mut entity = TtrpgEntity::new(true, false, None, String::from("c"), None);
    entity.add_element(Elements::Counter(Counter::new(1, 1, String::from("hp"), 10)));
    assert_eq!(entity.retrieve_all_element_ids(), vec![String::from("hp")]);
}

#[test]
fn delete_element_removes_only_the_named_label() {
    let mut entity = TtrpgEntity::new(true, false, None, String::from("c"), None);
    entity.add_element(story_element("intro", "once"));
    entity.add_element(story_element("outro", "twice"));
    entity.delete_element("intro").unwrap();
    assert_eq!(entity.retrieve_all_element_ids(), vec![String::from("outro")]);
}

#[test]
fn delete_element_of_missing_label_changes_nothing() {
    let mut entity = TtrpgEntity::new(true, false, None, String::from("c"), None);
    entity.add_element(story_element("intro", "once"));
    entity.delete_element("missing").unwrap();
    assert_eq!(entity.retrieve_all_element_ids(), vec![String::from("intro")]);
}
