use location_tracker::config::{hook_for_place, Hook};

fn hook(place: &str, command: &str) -> Hook {
    Hook { place: place.to_string(), command: command.to_string() }
}

#[test]
fn hook_lookup_takes_first_match() {
    let hooks = vec![hook("home", "a"), hook("work", "b"), hook("home", "c")];
    assert_eq!(hook_for_place(&hooks, &"home".to_string()), Some(0));
    assert_eq!(hook_for_place(&hooks, &"work".to_string()), Some(1));
    assert_eq!(hook_for_place(&hooks, &"gym".to_string()), None);
    assert_eq!(hook_for_place(&Vec::new(), &"home".to_string()), None);
}

#[test]
fn command_split_on_single_spaces() {
    assert_eq!(hook("p", "notify-send arrived home").command_parts(), vec!["notify-send", "arrived", "home"]);
    assert_eq!(hook("p", "ls").command_parts(), vec!["ls"]);
    assert_eq!(hook("p", "").command_parts(), vec![""]);
    assert_eq!(hook("p", "a  b ").command_parts(), vec!["a", "", "b", ""]);
    assert_eq!(hook("p", " x").command_parts(), vec!["", "x"]);
}
