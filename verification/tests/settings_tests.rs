use keenio::settings::{KeenError, ProjectSettings};
use keenio::wire::{batch_url, single_event_url};

#[test]
fn empty_project_id_is_a_configuration_error() {
    let r = ProjectSettings::new(None, "", "secret");
    assert!(matches!(r, Err(KeenError::Configuration)));
}

#[test]
fn empty_api_key_is_a_configuration_error() {
    let r = ProjectSettings::new(None, "proj", "");
    assert!(matches!(r, Err(KeenError::Configuration)));
}

#[test]
fn valid_credentials_are_accepted() {
    let r = ProjectSettings::new(Some("https://keen.example".to_string()), "proj", "key");
    assert!(r.is_ok());
}

#[test]
fn batch_url_uses_default_base() {
    let s = ProjectSettings::new(None, "pid", "wkey").unwrap();
    assert_eq!(
        batch_url(&s),
        "https://api.keen.io/3.0/projects/pid/events?api_key=wkey"
    );
}

#[test]
fn batch_url_uses_custom_base() {
    let s = ProjectSettings::new(Some("https://keen.example".to_string()), "pid", "wkey").unwrap();
    assert_eq!(
        batch_url(&s),
        "https://keen.example/3.0/projects/pid/events?api_key=wkey"
    );
}

#[test]
fn single_event_url_names_the_collection() {
    let s = ProjectSettings::new(None, "pid", "wkey").unwrap();
    assert_eq!(
        single_event_url(&s, "clicks"),
        "https://api.keen.io/3.0/projects/pid/events/clicks?api_key=wkey"
    );
}
