use sentinel::hierarchy::{PermissionCheckResult, PermissionHierarchy};

#[test]
fn test_permission_hierarchy() {
    let hierarchy = PermissionHierarchy::new();

    assert_eq!(hierarchy.get_level("viewer"), 1);
    assert_eq!(hierarchy.get_level("editor"), 3);
    assert_eq!(hierarchy.get_level("owner"), 5);
    assert_eq!(hierarchy.get_level("nonexistent"), 0);

    assert!(hierarchy.can_access("editor", "viewer"));
    assert!(hierarchy.can_access("owner", "editor"));
    assert!(!hierarchy.can_access("viewer", "editor"));

    assert!(hierarchy.includes("owner", "viewer"));
    assert!(hierarchy.includes("editor", "viewer"));
    assert!(!hierarchy.includes("viewer", "editor"));
}

#[test]
fn test_permission_check_result() {
    let hierarchy = PermissionHierarchy::new();
    let mut result = PermissionCheckResult::new("editor", &hierarchy);

    result.add_direct_permission("viewer", &hierarchy);
    assert!(!result.allowed);
    assert_eq!(result.user_max_level, 1);

    result.add_team_permission("admin", "team:backend", &hierarchy);
    assert!(result.allowed);
    assert_eq!(result.user_max_level, 4);
    assert_eq!(result.user_max_permission, Some("admin".to_string()));
}

#[test]
fn levels_of_all_relations() {
    let h = PermissionHierarchy::new();
    assert_eq!(h.get_level("commenter"), 2);
    assert_eq!(h.get_level("admin"), 4);
    assert_eq!(h.get_level(""), 0);
    assert_eq!(h.get_level("Viewer"), 0);
    assert!(h.is_valid_permission("admin"));
    assert!(!h.is_valid_permission("member"));
}

#[test]
fn unknown_relations_rank_lowest() {
    let h = PermissionHierarchy::new();
    assert!(h.can_access("viewer", "unknown"));
    assert!(!h.can_access("unknown", "viewer"));
    assert!(h.can_access("unknown", "other"));
}

#[test]
fn includes_is_reflexive_and_directed() {
    let h = PermissionHierarchy::new();
    assert!(h.includes("member", "member"));
    assert!(h.includes("admin", "commenter"));
    assert!(!h.includes("commenter", "admin"));
    assert!(!h.includes("member", "viewer"));
}

#[test]
fn inherited_permissions_start_with_the_relation() {
    let h = PermissionHierarchy::new();
    assert_eq!(
        h.get_inherited_permissions("owner"),
        vec!["owner", "admin", "editor", "commenter", "viewer"]
    );
    assert_eq!(h.get_inherited_permissions("viewer"), vec!["viewer"]);
    assert_eq!(h.get_inherited_permissions("member"), vec!["member"]);
}

#[test]
fn max_level_of_a_list() {
    let h = PermissionHierarchy::new();
    let perms = vec!["viewer".to_string(), "admin".to_string(), "editor".to_string()];
    assert_eq!(h.get_max_permission_level(&perms), 4);
    assert_eq!(h.get_max_permission_level(&[]), 0);
    assert_eq!(h.get_max_permission_level(&["member".to_string()]), 0);
}

#[test]
fn sort_by_level_is_strongest_first_and_stable() {
    let h = PermissionHierarchy::new();
    let mut perms: Vec<String> = ["viewer", "x", "owner", "editor", "y", "viewer", "admin"]
        .iter()
        .map(|s| s.to_string())
        .collect();
    h.sort_by_level(&mut perms);
    assert_eq!(perms, vec!["owner", "admin", "editor", "viewer", "viewer", "x", "y"]);
}

#[test]
fn all_permissions_strongest_first() {
    let h = PermissionHierarchy::new();
    assert_eq!(
        h.get_all_permissions(),
        vec!["owner", "admin", "editor", "commenter", "viewer"]
    );
}

#[test]
fn weaker_source_keeps_strongest() {
    let h = PermissionHierarchy::new();
    let mut r = PermissionCheckResult::new("viewer", &h);
    assert_eq!(r.required_level, 1);
    r.add_direct_permission("owner", &h);
    r.add_direct_permission("editor", &h);
    assert!(r.allowed);
    assert_eq!(r.user_max_level, 5);
    assert_eq!(r.user_max_permission, Some("owner".to_string()));
    assert_eq!(r.permission_sources.len(), 2);
    assert_eq!(r.permission_sources[1].source_type, "direct");
    assert_eq!(r.permission_sources[1].source_identifier, None);
}
