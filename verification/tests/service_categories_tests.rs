use igra_cli::service_categories::{CategoryError, CategoryManager, ServiceCategory, TrackedService};

fn manager() -> CategoryManager {
    CategoryManager::from_config(CategoryManager::default_config())
}

fn category(id: &str, order: i32) -> ServiceCategory {
    ServiceCategory {
        id: id.to_string(),
        name: id.to_uppercase(),
        icon: String::new(),
        color: String::new(),
        services: vec![],
        order,
        is_default: false,
        is_active: true,
    }
}

#[test]
fn default_categories_sorted() {
    let m = manager();
    let ids: Vec<String> = m.get_categories().into_iter().map(|c| c.id).collect();
    assert_eq!(
        ids,
        vec!["system", "networking", "file-sharing", "node-services", "web-services", "databases", "game-servers"]
    );
}

#[test]
fn sorting_is_stable_by_order() {
    let mut m = manager();
    m.add_category(category("late", 0)).unwrap();
    m.add_category(category("early", 0)).unwrap();
    let ids: Vec<String> = m.get_categories().into_iter().map(|c| c.id).collect();
    assert_eq!(ids[0], "late");
    assert_eq!(ids[1], "early");
    assert_eq!(ids[2], "system");
}

#[test]
fn add_update_delete_category() {
    let mut m = manager();
    m.add_category(category("mine", 9)).unwrap();
    assert_eq!(
        m.add_category(category("mine", 10)),
        Err(CategoryError::AlreadyExists("mine".to_string()))
    );
    m.update_category("mine", category("mine", 11)).unwrap();
    assert_eq!(m.get_category("mine").unwrap().order, 11);
    assert_eq!(m.delete_category("system"), Err(CategoryError::CannotDeleteDefault));
    assert_eq!(m.delete_category("nope"), Err(CategoryError::NotFound("nope".to_string())));
    m.add_service_to_category("mine", "foo.service".to_string()).unwrap();
    assert_eq!(m.get_service_category("foo.service"), "mine");
    m.delete_category("mine").unwrap();
    assert!(m.get_category("mine").is_none());
    assert_eq!(m.get_service_category("foo.service"), "Uncategorized");
    assert!(m.is_tracked("foo.service"));
}

#[test]
fn services_and_tracking() {
    let mut m = manager();
    assert_eq!(m.get_service_category("nginx.service"), "web-services");
    assert_eq!(m.get_service_category("unknown.service"), "Uncategorized");
    assert!(m.is_tracked("redis.service"));
    assert!(!m.is_tracked("unknown.service"));
    m.add_service_to_category("databases", "x.service.service".to_string()).unwrap();
    let shown = m.get_tracked_services().get("x.service.service").unwrap();
    assert_eq!(shown.display_name, "x");
    m.remove_service_from_category("web-services", "nginx.service").unwrap();
    assert_eq!(m.get_service_category("nginx.service"), "Uncategorized");
    m.update_tracked_service(
        "y.service".to_string(),
        TrackedService {
            category: "system".to_string(),
            display_name: "y".to_string(),
            metrics_enabled: false,
            plugin: None,
        },
    );
    assert_eq!(m.get_service_category("y.service"), "system");
    m.remove_tracked_service("redis.service");
    assert!(!m.is_tracked("redis.service"));
    assert_eq!(m.get_service_category("redis.service"), "Uncategorized");
}

#[test]
fn reorder_puts_named_first() {
    let mut m = manager();
    m.reorder_categories(vec!["databases".to_string(), "system".to_string()]);
    let ids: Vec<String> = m.get_categories().into_iter().map(|c| c.id).collect();
    assert_eq!(ids[0], "databases");
    assert_eq!(ids[1], "system");
    assert_eq!(ids[2], "networking");
}
