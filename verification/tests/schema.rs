use mission_control::schema::pane_view::Attention;

#[test]
fn attention_is_ord() {
    // Critical > High > Medium > Low > Nothing
    assert!(Attention::Critical > Attention::High);
    assert!(Attention::High > Attention::Medium);
    assert!(Attention::Medium > Attention::Low);
    assert!(Attention::Low > Attention::Nothing);
}
