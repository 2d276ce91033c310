//! Scenarios on the service definitions, run on in-code stand-ins for the
//! `api-def` service files.

use gas_api_json::{
    find_type_define_location, is_in_same_service, is_in_somewhere_service, wit_gen_func_def,
    wit_gen_interface_use, wit_gen_service_use, ApiService, Class, EnumMember, Js2WitConvertErr,
    JsTypeString, Method, Parameter, ReturnType, Type, TypeDefineLocation, WitTypeString,
};
use owo_colors::OwoColorize;
use std::collections::HashSet;

fn class(name: &str, methods: Vec<Method>) -> Class {
    Class {
        name: name.to_string(),
        url: String::new(),
        description: String::new(),
        methods,
        enum_members: vec![],
        implementing_classes: vec![],
    }
}

fn method(name: &str, ret: &str, params: Vec<(&str, &str)>) -> Method {
    Method {
        name: name.to_string(),
        description: String::new(),
        return_type: ReturnType { name: ret.to_string(), url: Some("https://example".to_string()) },
        parameters: params
            .into_iter()
            .map(|(n, t)| Parameter {
                name: n.to_string(),
                param_type: Type { name: t.to_string(), url: Some("https://example".to_string()) },
                description: String::new(),
            })
            .collect(),
    }
}

/// Stand-in for `api-def/base.json`.
fn base_service() -> ApiService {
    ApiService {
        service_name: "base".to_string(),
        url: String::new(),
        classes: vec![class(
            "Class Blob",
            vec![method("copyBlob()", "Blob", vec![]), method("getName()", "String", vec![])],
        )],
    }
}

/// Stand-in for `api-def/drive.json`.
fn drive_service() -> ApiService {
    let mut access = class("Enum Access", vec![]);
    access.enum_members = vec![
        EnumMember { name: "ANYONE".to_string(), description: String::new() },
        EnumMember { name: "DOMAIN".to_string(), description: String::new() },
    ];
    ApiService {
        service_name: "drive".to_string(),
        url: String::new(),
        classes: vec![
            class(
                "Class DriveApp",
                vec![
                    method("getFileById(id)", "File", vec![("id", "String")]),
                    method("getRootFolder()", "Folder", vec![]),
                ],
            ),
            class(
                "Class File",
                vec![method("getBlob()", "Blob", vec![]), method("setSharing(access)", "File", vec![("access", "Access")])],
            ),
            class(
                "Class Folder",
                vec![method("createFile(blob)", "File", vec![("blob", "BlobSource")])],
            ),
            access,
        ],
    }
}

/// Stand-in for the directory `./api-def`.
fn all_services() -> Vec<ApiService> {
    vec![base_service(), drive_service()]
}

#[test]
fn test_wit_resolver_is_in_same_service() {
    let result = drive_service();

    let js_type_string = JsTypeString("Blob".to_string());
    println!("{:?}", js_type_string);
    assert_eq!(is_in_same_service(&result, &js_type_string), false);

    let js_type_string = JsTypeString("File".to_string());
    println!("{:?}", js_type_string);
    assert_eq!(is_in_same_service(&result, &js_type_string), true);
}

#[test]
fn test_wit_resolver_is_in_somewhere_service() {
    let service_list = all_services();
    let result = service_list.iter().find(|a| a.service_name == "drive").unwrap();

    let js_type_string = JsTypeString("Blob".to_string());
    println!("{:?}", js_type_string);
    assert_eq!(is_in_same_service(result, &js_type_string), false);
    assert_eq!(is_in_somewhere_service(&service_list, &js_type_string), true);

    let js_type_string = JsTypeString("File".to_string());
    println!("{:?}", js_type_string);
    assert_eq!(is_in_same_service(result, &js_type_string), true);
}

#[test]
fn test_find_type_define_location() {
    let service_list = all_services();

    let target = "File";
    if let Some(a) = find_type_define_location(&service_list, &JsTypeString(target.to_string())) {
        println!("{:?}", a);
    } else {
        println!("{} not such type found", target);
    }
}

#[test]
fn test_wit_gen_func_def00() {
    let api_service = drive_service();
    for i in api_service.classes {
        println!("class name \"{}\"", i.name);
        for j in i.methods {
            let a = wit_gen_func_def(&j);

            match a {
                Ok(b) => {
                    println!("Primitive クラス: {}", b.0.green());
                }
                Err(Js2WitConvertErr::NotPrimitiveType { wit_type_string, unknown_fields }) => {
                    println!("Primitiveでない: {}", wit_type_string.0.purple());

                    println!("次の型の定義の確認が必要です {:?}", unknown_fields);
                }
                _ => {
                    println!("{}", "Something Wrong!".red());
                }
            }
        }
        println!("===");
    }
}

fn required_find_type_define_location<'a, T>(
    self_service_set: &[ApiService],
    deps_uses: T,
) -> Vec<TypeDefineLocation>
where
    T: IntoIterator<Item = &'a JsTypeString>,
{
    let mut rlist = vec![];
    for i in deps_uses {
        if let Some(a) = find_type_define_location(self_service_set, i) {
            rlist.push(a);
        }
    }
    rlist
}

fn eq_type_define_location_and_service(
    type_define_location: &TypeDefineLocation,
    service: &ApiService,
) -> bool {
    type_define_location.service.0 == service.service_name
}

#[test]
fn test_wit_gen_func_def01() {
    let service_list = all_services();
    let result = service_list.iter().find(|a| a.service_name == "drive");

    if let Some(api_service) = result {
        for i in &api_service.classes {
            println!("class name \"{}\"", i.name);
            let mut deps_uses: HashSet<JsTypeString> = HashSet::new();
            for j in &i.methods {
                match wit_gen_func_def(j) {
                    Ok(b) => {
                        println!("Primitive クラス: {}", b.0.green());
                    }
                    Err(Js2WitConvertErr::NotPrimitiveType { wit_type_string, unknown_fields }) => {
                        println!("Primitiveでない: {}", wit_type_string.0.purple());
                        deps_uses.extend(unknown_fields);
                    }
                    _ => {
                        println!("{}", "Something Wrong!".red());
                    }
                }
            }
            let type_location = required_find_type_define_location(&service_list, &deps_uses);

            let (in_of_service, out_of_service): (Vec<_>, Vec<_>) = type_location
                .into_iter()
                .partition(|inner| eq_type_define_location_and_service(inner, api_service));

            println!("=== in of service ===");
            for i in &in_of_service {
                if let Ok(a) = wit_gen_interface_use(&i.class) {
                    println!("{}", a.0.cyan());
                } else {
                    println!("{}", "Something Wrong".red());
                }
            }
            println!("=== out of service ===");
            for i in &out_of_service {
                if let Ok(a) = wit_gen_service_use(
                    "gas",
                    &i.service,
                    &i.class,
                    Some(&WitTypeString("alpha-0.1.0".to_string())),
                ) {
                    println!("{}", a.0.blue())
                } else {
                    println!("{}", "Something Wrong!".red());
                }
                if let Ok(a) = wit_gen_interface_use(&i.class) {
                    println!("{}", a.0.cyan());
                } else {
                    println!("{}", "Something Wrong".red());
                }
            }

            println!("===");
        }
    } else {
        println!("Some Error occured!");
    }
}
