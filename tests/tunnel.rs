use baihu::memory::MemoryCategory;
use baihu::tools::ToolResult;
use baihu::tunnel::NoneTunnel;

#[test]
fn none_tunnel_points_at_local_address() {
    let t = NoneTunnel;
    assert_eq!(t.name(), "none");
    assert_eq!(t.start("127.0.0.1", 8080).unwrap(), "http://127.0.0.1:8080");
    assert_eq!(t.start("localhost", 0).unwrap(), "http://localhost:0");
    assert!(t.stop().is_ok());
    assert!(t.health_check());
    assert!(t.public_url().is_none());
}

#[test]
fn memory_category_names() {
    assert_eq!(MemoryCategory::Core.to_string(), "core");
    assert_eq!(MemoryCategory::Daily.to_string(), "daily");
    assert_eq!(MemoryCategory::Conversation.to_string(), "conversation");
    assert_eq!(MemoryCategory::Custom("projects".into()).to_string(), "projects");
}

#[test]
fn tool_result_holds_outcome() {
    let r = ToolResult { success: false, output: String::new(), error: Some("not allowed".into()) };
    let c = r.clone();
    assert!(!c.success);
    assert_eq!(c.error.as_deref(), Some("not allowed"));
}

#[test]
fn landlock_is_not_applied_yet() {
    assert!(!baihu::tools::apply_landlock("/tmp"));
}
