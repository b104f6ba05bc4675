use breeze::config::default_motd;
use breeze::requests::{default_keep_exif, upload_key_ok, ViewError};

#[test]
fn upload_key_rules() {
    assert!(upload_key_ok(&String::new(), &None));
    assert!(upload_key_ok(&String::new(), &Some("x".to_string())));
    assert!(upload_key_ok(&"k".to_string(), &Some("k".to_string())));
    assert!(!upload_key_ok(&"k".to_string(), &Some("j".to_string())));
    assert!(!upload_key_ok(&"k".to_string(), &None));
}

#[test]
fn defaults() {
    assert!(!default_keep_exif());
    assert_eq!(
        default_motd(),
        "breeze file server (v%version%) - currently hosting %uplcount% files"
    );
}

#[test]
fn view_errors_map_to_statuses() {
    assert_eq!(ViewError::NotFound.status(), 404);
    assert_eq!(ViewError::InternalServerError.status(), 500);
    assert_eq!(ViewError::RangeNotSatisfiable.status(), 416);
    assert_eq!(ViewError::NotFound.message(), "Not found!");
}
