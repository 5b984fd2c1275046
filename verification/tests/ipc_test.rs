use lar::ipc::services::CoreServiceState;
use lar::ipc::transaction::{activity, package, window};
use lar::ipc::{BinderRegistry, IpcError, Parcel, ParcelValue, ServiceBinding, SharedRingBuffer};
use lar::managers::{ActivityManager, ActivityState, ManagerError, PackageManager, WindowGeometry, WindowManager};

#[test]
fn parcel_reads_back_what_was_written_in_order() {
    let mut parcel = Parcel::new();
    parcel.write_i32(-7);
    parcel.write_i64(1 << 40);
    parcel.write_bool(true);
    parcel.write_string("hello");
    parcel.write_bytes(&[1, 2, 3]);
    assert_eq!(parcel.len(), 5);
    assert_eq!(parcel.read_i32(), Some(-7));
    assert_eq!(parcel.read_i64(), Some(1 << 40));
    assert_eq!(parcel.read_bool(), Some(true));
    assert_eq!(parcel.read_string().as_deref(), Some("hello"));
    assert!(matches!(parcel.read(), Some(ParcelValue::Bytes(b)) if b == vec![1, 2, 3]));
    assert!(parcel.read().is_none());
    parcel.reset();
    assert_eq!(parcel.read_i32(), Some(-7));
}

#[test]
fn parcel_typed_read_of_another_type_is_none_and_advances() {
    let mut parcel = Parcel::new();
    assert!(parcel.is_empty());
    parcel.write_bool(false);
    parcel.write_i32(3);
    assert_eq!(parcel.read_i32(), None);
    assert_eq!(parcel.read_i32(), Some(3));
}

#[test]
fn binder_registry_registers_and_transacts() {
    let mut registry = BinderRegistry::new();
    assert!(!registry.is_available(false));
    assert!(registry.is_available(true));
    registry.register_core_services_with_state();
    assert!(registry.is_available(false));
    assert_eq!(registry.get("activity"), Some(ServiceBinding::Activity));
    assert_eq!(registry.get("missing"), None);
    let mut names = registry.services();
    names.sort();
    assert_eq!(names, vec!["activity", "input", "package", "window"]);

    let mut state = CoreServiceState::new();
    let mut data = Parcel::new();
    data.write_string("com.example");
    data.write_string(".Main");
    let mut reply = registry.transact("activity", activity::START, data, &mut state).unwrap();
    let id = reply.read_i64().unwrap();

    let mut top = registry.transact("activity", activity::GET_TOP, Parcel::new(), &mut state).unwrap();
    assert_eq!(top.read_bool(), Some(true));
    assert_eq!(top.read_i64(), Some(id));
    assert_eq!(top.read_string().as_deref(), Some("com.example"));
    assert_eq!(top.read_string().as_deref(), Some(".Main"));

    let mut finish = Parcel::new();
    finish.write_i64(id);
    let mut done = registry.transact("activity", activity::FINISH, finish, &mut state).unwrap();
    assert_eq!(done.read_bool(), Some(true));
    let mut empty = registry.transact("activity", activity::GET_TOP, Parcel::new(), &mut state).unwrap();
    assert_eq!(empty.read_bool(), Some(false));

    assert!(registry.transact("nope", 1, Parcel::new(), &mut state).is_none());
}

#[test]
fn mock_services_answer_with_empty_replies() {
    let mut registry = BinderRegistry::new();
    registry.register_core_services();
    let mut state = CoreServiceState::new();
    let reply = registry.transact("window", window::CREATE, Parcel::new(), &mut state).unwrap();
    assert!(reply.is_empty());
}

#[test]
fn package_service_describes_installed_packages() {
    let mut registry = BinderRegistry::new();
    registry.register_core_services_with_state();
    let mut state = CoreServiceState::new();
    state
        .package_manager
        .parse_manifest("<manifest package=\"com.example.p\" android:versionCode=\"7\">\n<uses-permission android:name=\"android.permission.INTERNET\"/>\n</manifest>")
        .unwrap();
    let mut data = Parcel::new();
    data.write_string("com.example.p");
    let mut reply = registry.transact("package", package::GET_PACKAGE, data, &mut state).unwrap();
    assert_eq!(reply.read_bool(), Some(true));
    assert_eq!(reply.read_string().as_deref(), Some("com.example.p"));
    assert_eq!(reply.read_i64(), Some(7));
    assert_eq!(reply.read_i32(), Some(1));
    assert_eq!(reply.read_string().as_deref(), Some("android.permission.INTERNET"));
}

#[test]
fn shared_ring_buffer_is_fifo() {
    assert!(matches!(SharedRingBuffer::<u32>::new(0), Err(IpcError::InvalidCapacity)));
    let mut ring = SharedRingBuffer::new(2).unwrap();
    assert_eq!(ring.capacity(), 2);
    assert_eq!(ring.push(1u32), Ok(()));
    assert_eq!(ring.push(2u32), Ok(()));
    assert_eq!(ring.push(3u32), Err(3));
    assert_eq!(ring.pop(), Some(1));
    assert_eq!(ring.pop(), Some(2));
    assert_eq!(ring.pop(), None);
}

#[test]
fn package_manager_parses_versions_and_permissions() {
    let mut pm = PackageManager::new();
    let manifest = "<manifest package=\"com.example.app\" android:versionCode=\"42\">\n<uses-permission android:name=\"android.permission.CAMERA\"/>\n<uses-permission android:name=\"android.permission.CAMERA\"/>\n<activity android:name=\".Main\"/>\n</manifest>";
    let info = pm.parse_manifest(manifest).unwrap();
    assert_eq!(info.name, "com.example.app");
    assert_eq!(info.version_code, 42);
    assert_eq!(info.permissions, vec!["android.permission.CAMERA".to_string()]);
    assert!(pm.has_permission("com.example.app", "android.permission.CAMERA"));
    assert!(!pm.has_permission("com.example.app", "android.permission.INTERNET"));
    assert_eq!(pm.len(), 1);
    assert!(matches!(pm.parse_manifest("<manifest/>"), Err(ManagerError::InvalidManifest)));
}

#[test]
fn version_code_defaults_to_one() {
    let mut pm = PackageManager::new();
    let info = pm.parse_manifest("<manifest package=\"a.b\" android:versionCode=\"x\">").unwrap();
    assert_eq!(info.version_code, 1);
}

#[test]
fn activity_stack_keeps_one_resumed_on_top() {
    let mut am = ActivityManager::new();
    let a = am.start("p", ".A");
    let b = am.start("p", ".B");
    assert_ne!(a, b);
    assert_eq!(am.stack()[0].state, ActivityState::Paused);
    assert_eq!(am.top().unwrap().state, ActivityState::Resumed);
    assert!(am.finish(b));
    assert_eq!(am.top().unwrap().id, a);
    assert_eq!(am.top().unwrap().state, ActivityState::Resumed);
    assert!(!am.finish(b));
}

#[test]
fn window_manager_resizes_known_windows() {
    let mut wm = WindowManager::new();
    wm.create(1, WindowGeometry { x: 0, y: 0, width: 100, height: 200, dpi: 160 });
    assert_eq!(wm.len(), 1);
    wm.resize(1, 300, 400).unwrap();
    assert_eq!(wm.geometry(1), Some(WindowGeometry { x: 0, y: 0, width: 300, height: 400, dpi: 160 }));
    assert_eq!(wm.resize(2, 1, 1), Err(ManagerError::UnknownWindow));
    assert_eq!(wm.geometry(2), None);
}
