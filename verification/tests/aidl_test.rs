use lar::aidl::{generate_rust, parse, ParameterDirection};

const SOURCE: &str = "package com.example;\nimport foo.Bar;\n// a comment\ninterface IFoo {\n    int add(int a, in int b); // sum\n    void fill(out byte[] data, inout String s);\n    oneway void ping();\n}\n";

#[test]
fn aidl_file_is_read() {
    let file = parse(SOURCE).unwrap();
    assert_eq!(file.package.as_deref(), Some("com.example"));
    assert_eq!(file.interfaces.len(), 1);
    let iface = &file.interfaces[0];
    assert_eq!(iface.name, "IFoo");
    assert_eq!(iface.methods.len(), 3);
    assert_eq!(iface.methods[0].name, "add");
    assert_eq!(iface.methods[0].return_type, "int");
    assert_eq!(iface.methods[0].parameters.len(), 2);
    assert_eq!(iface.methods[0].parameters[1].direction, ParameterDirection::In);
    assert_eq!(iface.methods[1].parameters[0].direction, ParameterDirection::Out);
    assert_eq!(iface.methods[1].parameters[0].ty, "byte[]");
    assert_eq!(iface.methods[1].parameters[1].direction, ParameterDirection::InOut);
    assert_eq!(iface.methods[2].name, "ping");
    assert_eq!(iface.methods[2].return_type, "void");
    assert!(iface.methods[2].parameters.is_empty());
}

#[test]
fn rust_traits_are_generated() {
    let file = parse(SOURCE).unwrap();
    assert_eq!(
        generate_rust(&file),
        "// package: com.example\npub trait IFoo {\n    fn add(&mut self, a: i32, b: i32) -> i32;\n    fn fill(&mut self, data: &mut Vec<i8>, s: &mut String) -> ();\n    fn ping(&mut self) -> ();\n}\n\npub struct IFooStub<T> { pub implementation: T }\n"
    );
    assert_eq!(lar::hidl::generate_rust(&file), generate_rust(&file));
}

#[test]
fn unterminated_interface_is_kept_and_unknown_types_become_parcel_values() {
    let file = parse("oneway interface ICallback{\nFoo get(long[][] ids);").unwrap();
    assert_eq!(file.package, None);
    assert_eq!(file.interfaces[0].name, "ICallback");
    assert_eq!(
        generate_rust(&file),
        "pub trait ICallback {\n    fn get(&mut self, ids: Vec<Vec<i64>>) -> ParcelValue;\n}\n\npub struct ICallbackStub<T> { pub implementation: T }\n"
    );
}

#[test]
fn malformed_lines_are_reported_with_their_number() {
    let e = parse("package p;\ninterface {\n}").unwrap_err();
    assert_eq!((e.line, e.message.as_str()), (2, "missing interface name"));
    let e = parse("interface I {\nint f(int);\n}").unwrap_err();
    assert_eq!((e.line, e.message.as_str()), (2, "parameter requires type and name"));
    let e = parse("interface I {\n\nint f(int a\n}").unwrap_err();
    assert_eq!((e.line, e.message.as_str()), (3, "missing ')'"));
    let e = lar::hidl::parse("interface I {\nf();\n}").unwrap_err();
    assert_eq!((e.line, e.message.as_str()), (2, "method requires return type and name"));
}

#[test]
fn methods_outside_an_interface_are_ignored() {
    let file = parse("int f(int a);\ninterface A {\n}\ninterface B {\n}\n").unwrap();
    assert_eq!(file.interfaces.len(), 2);
    assert!(file.interfaces[0].methods.is_empty());
    assert_eq!(file.interfaces[1].name, "B");
}
