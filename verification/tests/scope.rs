use rok::keys::scope::Scope;

#[test]
fn test_root_scope() {
    let root = Scope::root();
    assert_eq!(root.as_str(), "/");
    assert_eq!(root.depth(), 0);
    assert!(root.components().is_empty());
    assert!(root.parent().is_none());
}

#[test]
fn test_valid_scopes() {
    assert!(Scope::new("/").is_ok());
    assert!(Scope::new("/finance").is_ok());
    assert!(Scope::new("/finance/q1").is_ok());
    assert!(Scope::new("/a-b_c/d123").is_ok());
}

#[test]
fn test_invalid_scopes() {
    assert!(Scope::new("").is_err());
    assert!(Scope::new("finance").is_err());
    assert!(Scope::new("/finance/").is_err());
    assert!(Scope::new("//").is_err());
    assert!(Scope::new("/finance//q1").is_err());
    assert!(Scope::new("/finance/q 1").is_err());
    assert!(Scope::new("/finance/q!1").is_err());
}

#[test]
fn test_is_ancestor_of() {
    let root = Scope::root();
    let finance = Scope::new("/finance").unwrap();
    let finance_q1 = Scope::new("/finance/q1").unwrap();
    let legal = Scope::new("/legal").unwrap();

    assert!(root.is_ancestor_of(&root));
    assert!(root.is_ancestor_of(&finance));
    assert!(root.is_ancestor_of(&finance_q1));
    assert!(root.is_ancestor_of(&legal));

    assert!(finance.is_ancestor_of(&finance));
    assert!(finance.is_ancestor_of(&finance_q1));
    assert!(!finance.is_ancestor_of(&root));
    assert!(!finance.is_ancestor_of(&legal));

    assert!(finance_q1.is_ancestor_of(&finance_q1));
    assert!(!finance_q1.is_ancestor_of(&finance));
}

#[test]
fn test_no_prefix_confusion() {
    let fin = Scope::new("/fin").unwrap();
    let finance = Scope::new("/finance").unwrap();
    assert!(!fin.is_ancestor_of(&finance));
}

#[test]
fn test_depth() {
    assert_eq!(Scope::root().depth(), 0);
    assert_eq!(Scope::new("/a").unwrap().depth(), 1);
    assert_eq!(Scope::new("/a/b").unwrap().depth(), 2);
    assert_eq!(Scope::new("/a/b/c").unwrap().depth(), 3);
}

#[test]
fn test_components() {
    assert_eq!(Scope::root().components(), Vec::<&str>::new());
    assert_eq!(Scope::new("/finance").unwrap().components(), vec!["finance"]);
    assert_eq!(Scope::new("/finance/q1").unwrap().components(), vec!["finance", "q1"]);
}

#[test]
fn test_parent() {
    assert_eq!(Scope::root().parent(), None);
    assert_eq!(Scope::new("/finance").unwrap().parent(), Some(Scope::root()));
    assert_eq!(
        Scope::new("/finance/q1").unwrap().parent(),
        Some(Scope::new("/finance").unwrap())
    );
}

#[test]
fn test_child() {
    let root = Scope::root();
    let finance = root.child("finance").unwrap();
    assert_eq!(finance.as_str(), "/finance");

    let q1 = finance.child("q1").unwrap();
    assert_eq!(q1.as_str(), "/finance/q1");

    assert!(root.child("").is_err());
    assert!(root.child("a/b").is_err());
    assert!(root.child("a b").is_err());
}

#[test]
fn scope_invalid_input_reports_invalid_scope() {
    let err = Scope::new("/a//b").unwrap_err();
    assert!(err.message().starts_with("invalid scope path: "));
    assert!(Scope::new("/é").is_err());
}

#[test]
fn scope_child_then_parent_gives_back_the_scope() {
    let s = Scope::new("/x/y").unwrap();
    let c = s.child("z").unwrap();
    assert_eq!(c.parent(), Some(s.clone()));
    assert_eq!(c.depth(), s.depth() + 1);
    assert!(s.is_ancestor_of(&c));
    assert!(!c.is_ancestor_of(&s));
}

#[test]
fn ancestry_is_a_prefix_of_components() {
    let paths = ["/", "/a", "/a/b", "/a/bc", "/ab", "/a/b/c", "/x"];
    for p in paths.iter() {
        for q in paths.iter() {
            let a = Scope::new(p).unwrap();
            let d = Scope::new(q).unwrap();
            let ca = a.components();
            let cd = d.components();
            let prefix = ca.len() <= cd.len() && cd[..ca.len()] == ca[..];
            assert_eq!(a.is_ancestor_of(&d), prefix, "{} {}", p, q);
        }
    }
}
