use secretd::protected_secret::{ProtectedSecret, ProtectedValue};

#[test]
fn present_secret_holds_its_value() {
    let secret = ProtectedSecret::new(Some("hunter2".to_string()));
    assert!(secret.has_value());
    let value: &ProtectedValue = secret.get_value().unwrap();
    assert_eq!(&**value, "hunter2");
    assert_eq!(value.len(), 7);
    assert_eq!(secret.expose(), Some("hunter2".to_string()));
}

#[test]
fn absent_secret_holds_nothing() {
    let secret = ProtectedSecret::new(None);
    assert!(!secret.has_value());
    assert!(secret.get_value().is_none());
    assert_eq!(secret.expose(), None);
}

#[test]
fn text_form_is_the_placeholder() {
    let present = ProtectedSecret::new(Some("hunter2".to_string()));
    let absent = ProtectedSecret::new(None);
    assert_eq!(present.to_text(), "[PROTECTED]");
    assert_eq!(absent.to_text(), "[PROTECTED]");
    assert_eq!(present.get_value().unwrap().to_text(), "[PROTECTED]");
}

#[test]
fn secret_compares_with_text() {
    let present = ProtectedSecret::new(Some("hunter2".to_string()));
    let absent = ProtectedSecret::new(None);
    assert!(present == *"hunter2");
    assert!(present != *"hunter3");
    assert!(present != *"");
    assert!(absent != *"hunter2");
    assert!(absent != *"");
    assert!(*present.get_value().unwrap() == *"hunter2");
    assert!(*present.get_value().unwrap() != *"Hunter2");
}

#[test]
fn copy_holds_the_same_value() {
    let present = ProtectedSecret::new(Some("hunter2".to_string()));
    let copy = present.clone();
    assert_eq!(copy.expose(), Some("hunter2".to_string()));
    let value = present.get_value().unwrap().clone();
    assert_eq!(&*value, "hunter2");
    assert!(!ProtectedSecret::new(None).clone().has_value());
}
