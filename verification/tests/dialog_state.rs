use isonav::audio::AudioCategory;
use isonav::dialog::DialogMenu;
use isonav::dialog::DialogNode;
use isonav::dialog::DialogOption;

#[test]
fn new_dialog_menu_is_closed_at_root() {
    let m = DialogMenu::new();
    assert!(!m.open);
    assert_eq!(m.current_dialog_id, None);
    assert_eq!(m.current_level, 0);
    assert_eq!(m.hovered_option, None);
}

#[test]
fn dialog_tree_nodes_hold_their_options() {
    let option = DialogOption {
        id: 1,
        text: String::from("Hello there."),
        response_audio: vec![String::from("01"), String::from("02")],
        target: 2,
    };
    let node = DialogNode { level: 0, options: vec![option.clone()] };
    assert_eq!(node.level, 0);
    assert_eq!(node.options.len(), 1);
    assert_eq!(node.options[0].id, 1);
    assert_eq!(node.options[0].target, 2);
    assert_eq!(node.options[0].response_audio.len(), 2);
}

#[test]
fn audio_categories_are_distinct() {
    assert_eq!(AudioCategory::Music, AudioCategory::Music);
    assert!(AudioCategory::Music != AudioCategory::Dialog);
    assert!(AudioCategory::Dialog != AudioCategory::SoundEffect);
}
