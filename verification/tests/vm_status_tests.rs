use axvm::vm::machine::VMStatus;

#[test]
fn test_vm_status_as_str() {
    assert_eq!(VMStatus::Loading.as_str(), "loading");
    assert_eq!(VMStatus::Loaded.as_str(), "loaded");
    assert_eq!(VMStatus::Running.as_str(), "running");
    assert_eq!(VMStatus::Suspended.as_str(), "suspended");
    assert_eq!(VMStatus::Stopping.as_str(), "stopping");
    assert_eq!(VMStatus::Stopped.as_str(), "stopped");
}

#[test]
fn test_vm_status_as_str_with_icon() {
    assert!(VMStatus::Loading.as_str_with_icon().contains("loading"));
    assert!(VMStatus::Loaded.as_str_with_icon().contains("loaded"));
    assert!(VMStatus::Running.as_str_with_icon().contains("running"));
    assert!(VMStatus::Suspended.as_str_with_icon().contains("suspended"));
    assert!(VMStatus::Stopping.as_str_with_icon().contains("stopping"));
    assert!(VMStatus::Stopped.as_str_with_icon().contains("stopped"));
}

#[test]
fn test_vm_status_display() {
    assert_eq!(VMStatus::Loading.to_display_string(), "loading");
    assert_eq!(VMStatus::Loaded.to_display_string(), "loaded");
    assert_eq!(VMStatus::Running.to_display_string(), "running");
    assert_eq!(VMStatus::Suspended.to_display_string(), "suspended");
    assert_eq!(VMStatus::Stopping.to_display_string(), "stopping");
    assert_eq!(VMStatus::Stopped.to_display_string(), "stopped");
}

#[test]
fn test_vm_status_debug() {
    let debug_str = format!("{:?}", VMStatus::Running);
    assert!(debug_str.contains("Running"));
}

#[test]
fn test_vm_status_clone() {
    let status1 = VMStatus::Running;
    let status2 = status1.clone();
    assert_eq!(status1, status2);
}

#[test]
fn test_vm_status_copy() {
    let status1 = VMStatus::Suspended;
    let status2 = status1;
    assert_eq!(status1, status2);
}

#[test]
fn test_vm_status_eq() {
    assert_eq!(VMStatus::Loading, VMStatus::Loading);
    assert_eq!(VMStatus::Running, VMStatus::Running);
    assert_ne!(VMStatus::Loading, VMStatus::Running);
    assert_ne!(VMStatus::Stopped, VMStatus::Stopping);
}

#[test]
fn test_vm_status_all_variants() {
    let statuses = [
        VMStatus::Loading,
        VMStatus::Loaded,
        VMStatus::Running,
        VMStatus::Suspended,
        VMStatus::Stopping,
        VMStatus::Stopped,
    ];

    let mut seen = std::collections::BTreeSet::new();
    for status in &statuses {
        let s = status.as_str();
        assert!(seen.insert(s), "Duplicate status string: {}", s);
    }
}

#[test]
fn vm_status_round_trips_through_its_number() {
    let statuses = [
        VMStatus::Loading,
        VMStatus::Loaded,
        VMStatus::Running,
        VMStatus::Suspended,
        VMStatus::Stopping,
        VMStatus::Stopped,
    ];
    for (i, status) in statuses.iter().enumerate() {
        assert_eq!(status.to_u8() as usize, i);
        assert_eq!(VMStatus::from_u8(status.to_u8()), *status);
    }
}
