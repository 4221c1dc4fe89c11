use testament::items::Pane;

#[test]
fn test_pane_equality() {
    assert_eq!(Pane::Projects, Pane::Projects);
    assert_eq!(Pane::Tests, Pane::Tests);
    assert_eq!(Pane::Output, Pane::Output);
}

#[test]
fn test_pane_inequality() {
    assert_ne!(Pane::Projects, Pane::Tests);
    assert_ne!(Pane::Tests, Pane::Output);
    assert_ne!(Pane::Projects, Pane::Output);
}

#[test]
fn test_pane_clone() {
    let pane = Pane::Tests;
    let cloned = pane;
    assert_eq!(pane, cloned);
}

#[test]
fn test_pane_copy() {
    let pane = Pane::Output;
    let copied = pane;
    assert_eq!(pane, copied);
}
