use gas_api_json::{
    find_type_define_location, get_interface_name_from_js_type, is_in_same_service,
    is_in_somewhere_service, is_self_type, ApiService, Class, EnumMember, InterfaceType,
    JsTypeString,
};

fn class(name: &str) -> Class {
    Class {
        name: name.to_string(),
        url: String::new(),
        description: String::new(),
        methods: vec![],
        enum_members: vec![],
        implementing_classes: vec![],
    }
}

fn service(name: &str, classes: Vec<Class>) -> ApiService {
    ApiService { service_name: name.to_string(), url: String::new(), classes }
}

fn services() -> Vec<ApiService> {
    let mut access = class("Enum Access");
    access.enum_members = vec![EnumMember { name: "ANYONE".to_string(), description: String::new() }];
    vec![
        service("base", vec![class("Class Blob"), class("Interface BlobSource")]),
        service("drive", vec![class("Class DriveApp"), class("Class File"), access]),
    ]
}

fn js(s: &str) -> JsTypeString {
    JsTypeString(s.to_string())
}

#[test]
fn eq_js_type_string_test00() {
    assert!(JsTypeString("hello world".to_string()) == JsTypeString("hello world".to_string()));
    assert!(JsTypeString("world".to_string()) != JsTypeString("hello".to_string()));
}

#[test]
fn interface_name_parts() {
    let c = js("Class Blob");
    let (kind, bare) = get_interface_name_from_js_type(&c).unwrap();
    assert_eq!(kind, InterfaceType::Class);
    assert_eq!(bare, "Blob");
    let e = js("Enum Access");
    assert_eq!(get_interface_name_from_js_type(&e), Some((InterfaceType::Enum, "Access")));
    let i = js("Interface BlobSource");
    assert_eq!(get_interface_name_from_js_type(&i), Some((InterfaceType::Interface, "BlobSource")));
    let n = js("Blob");
    assert_eq!(get_interface_name_from_js_type(&n), None);
    let bare_prefix = js("Class ");
    assert_eq!(get_interface_name_from_js_type(&bare_prefix), Some((InterfaceType::Class, "")));
}

#[test]
fn self_type_compares_bare_names() {
    assert!(is_self_type(&class("Class File"), &js("File")));
    assert!(!is_self_type(&class("Class File"), &js("Class File")));
    assert!(!is_self_type(&class("File"), &js("File")));
}

#[test]
fn same_service_and_somewhere() {
    let list = services();
    let drive = &list[1];
    assert_eq!(is_in_same_service(drive, &js("Blob")), false);
    assert_eq!(is_in_somewhere_service(&list, &js("Blob")), true);
    assert_eq!(is_in_same_service(drive, &js("File")), true);
    assert_eq!(is_in_somewhere_service(&list, &js("File")), true);
    assert_eq!(is_in_somewhere_service(&list, &js("Folder")), false);
}

#[test]
fn find_reports_first_definition() {
    let mut list = services();
    // A second definition of Blob, later in the list, is not the one reported.
    list[1].classes.push(class("Class Blob"));
    let loc = find_type_define_location(&list, &js("Blob")).unwrap();
    assert_eq!(loc.service.0, "base");
    assert_eq!(loc.class.0, "Class Blob");
    let loc = find_type_define_location(&list, &js("Access")).unwrap();
    assert_eq!(loc.service.0, "drive");
    assert_eq!(loc.class.0, "Enum Access");
    assert!(find_type_define_location(&list, &js("Folder")).is_none());
}

#[test]
fn find_agrees_with_somewhere() {
    let list = services();
    for t in ["Blob", "BlobSource", "DriveApp", "File", "Access", "Folder", "Class Blob", ""] {
        assert_eq!(
            find_type_define_location(&list, &js(t)).is_some(),
            is_in_somewhere_service(&list, &js(t))
        );
    }
}

#[test]
fn search_stops_before_unreadable_names() {
    // A name whose character after the prefix is not ASCII cannot be cut;
    // it is never read when an earlier class matches.
    let list = vec![service("x", vec![class("Class File"), class("Classé")])];
    assert!(is_in_same_service(&list[0], &js("File")));
    assert!(find_type_define_location(&list, &js("File")).is_some());
}
