use quiche::guid::Guid;

#[test]
fn with_braces() {
    let clsid = "{FA19F1DF-3226-441A-BA5B-40F6EB8AB6B1}";
    let guid = Guid::from_str(clsid).unwrap().format("B").unwrap();
    assert_eq!(guid, clsid);
}

#[test]
fn without_braces() {
    let clsid = "FA19F1DF3226441ABA5B40F6EB8AB6B1";
    let guid = Guid::from_str(clsid).unwrap().format("N").unwrap();
    assert_eq!(guid, clsid);
}

#[test]
fn format_error() {
    let clsid = "Pork Chop Sandwiches";
    assert_eq!(Guid::from_str(clsid).is_none(), true);
}

#[test]
fn lower_case_comes_out_upper() {
    let guid = Guid::from_str("fa19f1df3226441aba5b40f6eb8ab6b1").unwrap();
    assert_eq!(guid.format("N").unwrap(), "FA19F1DF3226441ABA5B40F6EB8AB6B1");
}

#[test]
fn hyphenated_and_wrapped_forms() {
    let guid = Guid::from_str("FA19F1DF3226441ABA5B40F6EB8AB6B1").unwrap();
    assert_eq!(guid.format("D").unwrap(), "FA19F1DF-3226-441A-BA5B-40F6EB8AB6B1");
    assert_eq!(guid.format("P").unwrap(), "(FA19F1DF-3226-441A-BA5B-40F6EB8AB6B1)");
    assert_eq!(guid.format("").unwrap(), "{FA19F1DF-3226-441A-BA5B-40F6EB8AB6B1}");
    assert!(guid.format("X").is_none());
}

#[test]
fn hyphens_without_braces_are_refused() {
    assert!(Guid::from_str("FA19F1DF-3226-441A-BA5B-40F6EB8AB6B1").is_none());
}

#[test]
fn stray_character_is_refused() {
    assert!(Guid::from_str("ZA19F1DF3226441ABA5B40F6EB8AB6B1").is_none());
}
