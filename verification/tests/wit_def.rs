use gas_api_json::wit_def::{self, WitDataType};
use gas_api_json::{
    generate_wit_definition, generate_wit_definition_string, ApiService, Class, EnumMember,
    Js2WitConvertErr, Method, Parameter, ReturnType, Type,
};

fn class(name: &str, methods: Vec<Method>) -> Class {
    Class {
        name: name.to_string(),
        url: String::new(),
        description: String::new(),
        methods,
        enum_members: vec![],
        implementing_classes: vec![],
    }
}

fn method(name: &str, ret: &str, ret_url: Option<&str>, params: Vec<(&str, &str)>) -> Method {
    Method {
        name: name.to_string(),
        description: String::new(),
        return_type: ReturnType { name: ret.to_string(), url: ret_url.map(|u| u.to_string()) },
        parameters: params
            .into_iter()
            .map(|(n, t)| Parameter {
                name: n.to_string(),
                param_type: Type { name: t.to_string(), url: None },
                description: String::new(),
            })
            .collect(),
    }
}

fn services() -> Vec<ApiService> {
    let mut access = class("Enum Access", vec![]);
    access.enum_members = vec![
        EnumMember { name: "ANYONE".to_string(), description: String::new() },
        EnumMember { name: "DOMAIN".to_string(), description: String::new() },
    ];
    vec![
        ApiService {
            service_name: "base".to_string(),
            url: String::new(),
            classes: vec![class("Class Blob", vec![method("getName()", "String", None, vec![])])],
        },
        ApiService {
            service_name: "drive".to_string(),
            url: String::new(),
            classes: vec![
                class(
                    "Class DriveApp",
                    vec![method("getFileById(id)", "File", Some("u"), vec![("id", "String")])],
                ),
                class("Class File", vec![method("getBlob()", "Blob", Some("u"), vec![])]),
                access,
            ],
        },
    ]
}

#[test]
fn definition_of_a_service() {
    let list = services();
    let f = generate_wit_definition(&list[1], &list).unwrap();
    assert_eq!(f.package_name, "drive");
    assert_eq!(f.package_version.as_deref(), Some("0.1.0-alpha"));
    assert_eq!(
        f.deps_uses,
        vec!["use gas:drive/file@0.1.0-alpha".to_string(), "use gas:base/blob@0.1.0-alpha".to_string()]
    );
    assert_eq!(f.defined_interfaces.len(), 3);
    let names: Vec<&str> = f.defined_interfaces.iter().map(|i| i.name.as_str()).collect();
    assert_eq!(names, vec!["DriveApp", "File", "Access"]);
    match &f.defined_interfaces[0].inner_data {
        WitDataType::WitInterfaceConst(c) => {
            assert_eq!(c.func_defines, vec!["get-file-by-id: func (id: string) -> file".to_string()])
        }
        other => panic!("DriveApp is used by no method: {:?}", other),
    }
    match &f.defined_interfaces[1].inner_data {
        WitDataType::WitInterfaceResource(r) => {
            assert_eq!(r.name, "File");
            assert_eq!(r.func_defines, vec!["get-blob: func () -> blob".to_string()]);
        }
        other => panic!("File is returned by a method: {:?}", other),
    }
    match &f.defined_interfaces[2].inner_data {
        WitDataType::WitInterfaceEnum(e) => {
            assert_eq!(e.enum_members, vec!["ANYONE".to_string(), "DOMAIN".to_string()])
        }
        other => panic!("Access is an enum: {:?}", other),
    }
    let deps: Vec<&str> = f.defined_interfaces[0].deps_uses.iter().map(|t| t.0.as_str()).collect();
    assert_eq!(deps, vec!["File"]);
    assert!(f.world_section.imports.is_empty() && f.world_section.exports.is_empty());
}

#[test]
fn definition_text_as_names_stand() {
    let list = services();
    let f = generate_wit_definition(&list[1], &list).unwrap();
    let expected = [
        "package gas:drive@0.1.0-alpha;\n",
        "use gas:drive/file@0.1.0-alpha;",
        "use gas:base/blob@0.1.0-alpha;",
        "interface DriveApp {\n    use file.{file};\n\n\n    get-file-by-id: func (id: string) -> file;\n\n\n}\n",
        "interface File {\n    use blob.{blob};\n\n\n    resource File {\n        get-blob: func () -> blob;\n\n    }\n\n}\n",
        "interface Access {\n\n\n    enum Access {\n        ANYONE,\n        DOMAIN,\n\n    }\n\n}\n",
    ]
    .join("\n");
    assert_eq!(wit_def::generate_wit_definition_string(&f), expected);
}

#[test]
fn definition_text_in_kebab_case() {
    let list = services();
    let f = generate_wit_definition(&list[1], &list).unwrap();
    let expected = [
        "package gas:drive@0.1.0-alpha;\n",
        "use gas:drive/file@0.1.0-alpha;",
        "use gas:base/blob@0.1.0-alpha;",
        "interface drive-app {\n    use file.{file};\n\n\n    get-file-by-id: func (id: string) -> file;\n\n\n}\n",
        "interface file {\n    use blob.{blob};\n\n\n    resource file {\n        get-blob: func () -> blob;\n\n    }\n\n}\n",
        "interface access {\n\n\n    enum access {\n        anyone,\n        domain,\n\n    }\n\n}\n",
    ]
    .join("\n");
    assert_eq!(generate_wit_definition_string(&f), expected);
}

#[test]
fn requirements_come_once() {
    let list = vec![ApiService {
        service_name: "s".to_string(),
        url: String::new(),
        classes: vec![
            class(
                "Class A",
                vec![
                    method("f(x)", "Blob", None, vec![("x", "Blob")]),
                    method("g()", "Blob[]", None, vec![]),
                ],
            ),
            class("Class Blob", vec![]),
        ],
    }];
    let f = generate_wit_definition(&list[0], &list).unwrap();
    let deps: Vec<&str> = f.defined_interfaces[0].deps_uses.iter().map(|t| t.0.as_str()).collect();
    assert_eq!(deps, vec!["Blob"]);
    assert_eq!(f.deps_uses, vec!["use gas:s/blob@0.1.0-alpha".to_string()]);
    // Blob is needed, so it is a resource even without methods.
    assert!(matches!(f.defined_interfaces[1].inner_data, WitDataType::WitInterfaceResource(_)));
}

#[test]
fn unprefixed_classes_are_left_out_and_unknown_types_get_no_use() {
    let list = vec![ApiService {
        service_name: "s".to_string(),
        url: String::new(),
        classes: vec![
            class("Helper", vec![]),
            class("Interface Source", vec![method("getBlob()", "Nowhere", None, vec![])]),
        ],
    }];
    let f = generate_wit_definition(&list[0], &list).unwrap();
    assert_eq!(f.defined_interfaces.len(), 1);
    assert_eq!(f.defined_interfaces[0].name, "Source");
    assert!(matches!(f.defined_interfaces[0].inner_data, WitDataType::WitInterfaceResource(_)));
    assert!(f.deps_uses.is_empty());
}

#[test]
fn first_bad_method_gives_the_error() {
    let list = vec![ApiService {
        service_name: "s".to_string(),
        url: String::new(),
        classes: vec![
            class("Class A", vec![method("f()", "Bad Type", None, vec![])]),
            class("Class B", vec![method("g()", "Integer", None, vec![("x", "Bad Type")])]),
        ],
    }];
    assert!(matches!(
        generate_wit_definition(&list[0], &list),
        Err(Js2WitConvertErr::ReturnStringErr)
    ));
}

#[test]
fn later_class_of_the_same_name_wins() {
    let list = vec![ApiService {
        service_name: "s".to_string(),
        url: String::new(),
        classes: vec![
            class("Class A", vec![method("f()", "Integer", None, vec![])]),
            class("Class A", vec![method("g()", "String", None, vec![])]),
        ],
    }];
    let f = generate_wit_definition(&list[0], &list).unwrap();
    assert_eq!(f.defined_interfaces.len(), 2);
    for i in &f.defined_interfaces {
        match &i.inner_data {
            WitDataType::WitInterfaceConst(c) => {
                assert_eq!(c.func_defines, vec!["g: func () -> string".to_string()])
            }
            other => panic!("A is used by no method: {:?}", other),
        }
    }
}
