use ferrox_auth::roles::{RoleAdmin, RoleUser, Roles, RolesMut};
use ferrox_auth::permissions::{AnyPerm, AnyPermissions, NotPerm, PermExpr, Permission};

fn names(items: &[&str]) -> Vec<String> {
    items.iter().map(|s| s.to_string()).collect()
}

#[test]
fn contains_and_is_granted() {
    let roles = Roles(names(&["ROLE_USER", "ROLE_ADMIN"]));
    assert!(roles.contains(&"ROLE_USER".to_string()));
    assert!(!roles.contains(&"ROLE_AUDIT".to_string()));
    assert!(roles.is_granted::<RoleUser>());
    assert!(roles.is_granted::<RoleAdmin>());
    assert!(!Roles(names(&["ROLE_USER"])).is_granted::<RoleAdmin>());
}

#[test]
fn add_role_is_idempotent() {
    let mut roles = RolesMut(Vec::new());
    roles.add_role::<RoleUser>();
    let once = roles.0.clone();
    roles.add_role::<RoleUser>();
    assert_eq!(roles.0, once);
    assert_eq!(roles.0, vec!["ROLE_USER".to_string()]);
    roles.add_role::<RoleAdmin>();
    assert_eq!(roles.0, vec!["ROLE_USER".to_string(), "ROLE_ADMIN".to_string()]);
}

#[test]
fn remove_absent_role_is_noop() {
    let mut roles = RolesMut(names(&["ROLE_USER"]));
    roles.remove_role::<RoleAdmin>();
    assert_eq!(roles.0, vec!["ROLE_USER".to_string()]);
    roles.remove_role::<RoleUser>();
    assert!(roles.0.is_empty());
    roles.remove_role::<RoleUser>();
    assert!(roles.0.is_empty());
}

#[test]
fn expr_all_requires_both_roles() {
    let both = PermExpr::All(vec![
        PermExpr::RolePredicate("ROLE_USER".to_string()),
        PermExpr::RolePredicate("ROLE_ADMIN".to_string()),
    ]);
    assert!(both.eval(&Roles(names(&["ROLE_ADMIN", "ROLE_USER"]))));
    assert!(!both.eval(&Roles(names(&["ROLE_USER"]))));
    assert!(!both.eval(&Roles(names(&["ROLE_ADMIN"]))));
    assert!(!both.eval(&Roles(Vec::new())));
}

#[test]
fn expr_any_requires_one_role() {
    let either = PermExpr::Any(vec![
        PermExpr::RolePredicate("ROLE_USER".to_string()),
        PermExpr::RolePredicate("ROLE_ADMIN".to_string()),
    ]);
    assert!(either.eval(&Roles(names(&["ROLE_USER"]))));
    assert!(either.eval(&Roles(names(&["ROLE_ADMIN"]))));
    assert!(either.eval(&Roles(names(&["ROLE_USER", "ROLE_ADMIN"]))));
    assert!(!either.eval(&Roles(Vec::new())));
    assert!(!either.eval(&Roles(names(&["ROLE_AUDIT"]))));
}

#[test]
fn expr_not_and_always() {
    let not_user = PermExpr::Not(Box::new(PermExpr::RolePredicate("ROLE_USER".to_string())));
    assert!(not_user.eval(&Roles(Vec::new())));
    assert!(not_user.eval(&Roles(names(&["ROLE_ADMIN"]))));
    assert!(!not_user.eval(&Roles(names(&["ROLE_USER"]))));
    assert!(PermExpr::Always.eval(&Roles(Vec::new())));
}

#[test]
fn expr_nested_composition() {
    // All(Any(user, admin), audit) is exactly (user or admin) and audit.
    let expr = PermExpr::All(vec![
        PermExpr::Any(vec![
            PermExpr::RolePredicate("ROLE_USER".to_string()),
            PermExpr::RolePredicate("ROLE_ADMIN".to_string()),
        ]),
        PermExpr::RolePredicate("ROLE_AUDIT".to_string()),
    ]);
    assert!(expr.eval(&Roles(names(&["ROLE_USER", "ROLE_AUDIT"]))));
    assert!(expr.eval(&Roles(names(&["ROLE_ADMIN", "ROLE_AUDIT"]))));
    assert!(!expr.eval(&Roles(names(&["ROLE_USER", "ROLE_ADMIN"]))));
    assert!(!expr.eval(&Roles(names(&["ROLE_AUDIT"]))));
}

#[test]
fn trait_permissions_compose() {
    let both = Roles(names(&["ROLE_USER", "ROLE_ADMIN"]));
    let user_only = Roles(names(&["ROLE_USER"]));
    let empty = Roles(Vec::new());

    assert!(<(RoleUser, RoleAdmin) as Permission>::is_granted(&both));
    assert!(!<(RoleUser, RoleAdmin) as Permission>::is_granted(&user_only));

    assert!(<AnyPerm<(RoleUser, RoleAdmin)>>::is_granted(&user_only));
    assert!(!<AnyPerm<(RoleUser, RoleAdmin)>>::is_granted(&empty));

    assert!(<NotPerm<RoleAdmin>>::is_granted(&user_only));
    assert!(!<NotPerm<RoleAdmin>>::is_granted(&both));

    assert!(<() as Permission>::is_granted(&empty));

    assert!(<(RoleUser, RoleAdmin) as AnyPermissions>::is_granted(&user_only));
}
