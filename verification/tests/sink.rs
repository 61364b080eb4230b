use hanabot::sink::Outbox;

#[test]
fn outbox_keeps_messages_in_order() {
    let mut out = Outbox::new();
    assert!(out.msgs.is_empty());
    out.send("a", "one");
    out.send("b", "two");
    out.send("a", "three");
    assert_eq!(
        out.msgs,
        vec![
            ("a".to_string(), "one".to_string()),
            ("b".to_string(), "two".to_string()),
            ("a".to_string(), "three".to_string())
        ]
    );
}
