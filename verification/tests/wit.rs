use gas_api_json::{
    convert_wit_type_string, wit_gen_func_def, wit_gen_interface_name, wit_gen_interface_use,
    wit_gen_package_name, wit_gen_service_use, wit_parameters_string, ApiService,
    Js2WitConvertErr, JsTypeString, Method, Parameter, ReturnType, Type, WitTypeString,
};
use owo_colors::OwoColorize;

fn ty(name: &str, url: Option<&str>) -> Type {
    Type { name: name.to_string(), url: url.map(|u| u.to_string()) }
}

fn ret(name: &str, url: Option<&str>) -> ReturnType {
    ReturnType { name: name.to_string(), url: url.map(|u| u.to_string()) }
}

fn param(name: &str, t: Type) -> Parameter {
    Parameter { name: name.to_string(), param_type: t, description: String::new() }
}

fn method(name: &str, r: ReturnType, parameters: Vec<Parameter>) -> Method {
    Method { name: name.to_string(), description: String::new(), return_type: r, parameters }
}

fn ok_text(r: Result<WitTypeString, Js2WitConvertErr>) -> String {
    match r {
        Ok(w) => w.0,
        Err(e) => panic!("expected success, got {:?}", e),
    }
}

fn not_primitive(r: Result<WitTypeString, Js2WitConvertErr>) -> (String, Vec<String>) {
    match r {
        Err(Js2WitConvertErr::NotPrimitiveType { wit_type_string, unknown_fields }) => {
            (wit_type_string.0, unknown_fields.into_iter().map(|j| j.0).collect())
        }
        other => panic!("expected NotPrimitiveType, got {:?}", other),
    }
}

#[test]
fn test_convert_wit_type_string() {
    let a = "Blob[][]";

    match convert_wit_type_string(&Type { name: a.to_string(), url: None }) {
        Ok(b) => {
            println!("Primitive クラス: {}", b.0);
        }
        Err(Js2WitConvertErr::NotPrimitiveType { wit_type_string, unknown_fields: _ }) => {
            println!("Gas 独自のクラス: {}", wit_type_string.0);
        }
        _ => {
            println!("{}", "Something Wrong!".red());
        }
    }
}

#[test]
fn test_wit_gen_interface_name() {
    if let Ok(a) = wit_gen_interface_name(&JsTypeString("Class FolderIterator".to_string())) {
        println!("{}", a.0);
    } else {
        println!("Error");
    }
}

#[test]
fn primitives_map_to_wit_names() {
    let cases = [
        ("String", "string"),
        ("Boolean", "boolean"),
        ("Byte", "u8"),
        ("Number", "f64"),
        ("Integer", "s64"),
        ("void", "void"),
        ("Object", "object"),
        ("Date", "date"),
    ];
    for (js, wit) in cases {
        assert_eq!(ok_text(convert_wit_type_string(&ty(js, None))), wit);
        assert_eq!(ok_text(convert_wit_type_string(&ret(js, None))), wit);
    }
}

#[test]
fn primitive_name_with_url_is_an_api_type() {
    let (text, unknown) =
        not_primitive(convert_wit_type_string(&ty("String", Some("https://example/string"))));
    assert_eq!(text, "string");
    assert_eq!(unknown, vec!["String".to_string()]);
}

#[test]
fn api_type_is_kebab_cased_and_listed() {
    let (text, unknown) = not_primitive(convert_wit_type_string(&ty("FolderIterator", None)));
    assert_eq!(text, "folder-iterator");
    assert_eq!(unknown, vec!["FolderIterator".to_string()]);
}

#[test]
fn nested_list_of_api_type() {
    let (text, unknown) = not_primitive(convert_wit_type_string(&ty("Blob[][]", None)));
    assert_eq!(text, "list<list<blob>>");
    assert_eq!(unknown, vec!["Blob".to_string()]);
}

#[test]
fn list_of_primitive_succeeds() {
    assert_eq!(ok_text(convert_wit_type_string(&ty("Integer[]", None))), "list<s64>");
    assert_eq!(ok_text(convert_wit_type_string(&ty("String[][]", None))), "list<list<string>>");
}

#[test]
fn list_conversion_follows_element() {
    // A list converts as its element, wrapped in list<..>.
    let (elem, elem_unknown) = not_primitive(convert_wit_type_string(&ty("Blob", None)));
    let (list, list_unknown) = not_primitive(convert_wit_type_string(&ty("Blob[]", None)));
    assert_eq!(list, format!("list<{}>", elem));
    assert_eq!(list_unknown, elem_unknown);
    assert!(matches!(
        convert_wit_type_string(&ty("Bad Type[]", None)),
        Err(Js2WitConvertErr::SyntaxErr)
    ));
}

#[test]
fn malformed_types_are_syntax_errors() {
    assert!(matches!(convert_wit_type_string(&ty("Bad Type", None)), Err(Js2WitConvertErr::SyntaxErr)));
    assert!(matches!(convert_wit_type_string(&ty("Blob[", None)), Err(Js2WitConvertErr::SyntaxErr)));
    assert!(matches!(convert_wit_type_string(&ty("Object.<String>", None)), Err(Js2WitConvertErr::SyntaxErr)));
}

#[test]
fn empty_type_name_is_an_api_type() {
    let (_, unknown) = not_primitive(convert_wit_type_string(&ty("", None)));
    assert_eq!(unknown, vec![String::new()]);
}

#[test]
fn parameters_of_primitives() {
    let ps = vec![param("id", ty("String", None)), param("count", ty("Integer", None))];
    assert_eq!(ok_text(wit_parameters_string(&ps)), "id: string, count: s64");
    assert_eq!(ok_text(wit_parameters_string(&vec![])), "");
}

#[test]
fn parameters_gather_api_types_in_order() {
    let ps = vec![
        param("a", ty("Blob", None)),
        param("b", ty("String", None)),
        param("c", ty("File[]", None)),
    ];
    let (text, unknown) = not_primitive(wit_parameters_string(&ps));
    assert_eq!(text, "a: blob, b: string, c: list<file>");
    assert_eq!(unknown, vec!["Blob".to_string(), "File".to_string()]);
}

#[test]
fn bad_parameter_is_parameter_error() {
    let ps = vec![param("a", ty("Blob", None)), param("b", ty("Bad Type", None))];
    assert!(matches!(wit_parameters_string(&ps), Err(Js2WitConvertErr::ParameterStringErr)));
}

#[test]
fn func_def_with_return_type() {
    let m = method("copyBlob()", ret("Blob", Some("https://example/blob")), vec![]);
    let (text, unknown) = not_primitive(wit_gen_func_def(&m));
    assert_eq!(text, "copy-blob: func () -> blob");
    assert_eq!(unknown, vec!["Blob".to_string()]);
}

#[test]
fn func_def_void_has_no_arrow() {
    let m = method("setName(name)", ret("void", None), vec![param("name", ty("String", None))]);
    assert_eq!(ok_text(wit_gen_func_def(&m)), "set-name: func (name: string)");
}

#[test]
fn func_def_lists_parameter_types_before_return_type() {
    let m = method(
        "moveTo(destination)",
        ret("File", Some("u")),
        vec![param("destination", ty("Folder", Some("u")))],
    );
    let (text, unknown) = not_primitive(wit_gen_func_def(&m));
    assert_eq!(text, "move-to: func (destination: folder) -> file");
    assert_eq!(unknown, vec!["Folder".to_string(), "File".to_string()]);
}

#[test]
fn func_def_errors() {
    let m = method("f()", ret("Bad Type", None), vec![]);
    assert!(matches!(wit_gen_func_def(&m), Err(Js2WitConvertErr::ReturnStringErr)));
    let m = method("f()", ret("Bad Type", None), vec![param("x", ty("Bad Type", None))]);
    assert!(matches!(wit_gen_func_def(&m), Err(Js2WitConvertErr::ParameterStringErr)));
    // An error comes before the name is read, so a name without `(` is no problem here.
    let m = method("noParens", ret("Bad Type", None), vec![]);
    assert!(matches!(wit_gen_func_def(&m), Err(Js2WitConvertErr::ReturnStringErr)));
}

#[test]
fn interface_names() {
    let name = |s: &str| wit_gen_interface_name(&JsTypeString(s.to_string()));
    assert_eq!(ok_text(name("Class FolderIterator")), "folder-iterator");
    assert_eq!(ok_text(name("Enum Access")), "access");
    assert_eq!(ok_text(name("Interface BlobSource")), "blob-source");
    assert!(matches!(name("Blob"), Err(Js2WitConvertErr::WrongFormatErr)));
}

#[test]
fn package_name_with_and_without_version() {
    let service = ApiService { service_name: "drive".to_string(), url: String::new(), classes: vec![] };
    let v = WitTypeString("0.1.0".to_string());
    assert_eq!(wit_gen_package_name("gas", &service, Some(&v)).0, "package gas:drive@0.1.0");
    assert_eq!(wit_gen_package_name("gas", &service, None).0, "package gas:drive");
}

#[test]
fn service_and_interface_uses() {
    let v = WitTypeString("alpha-0.1.0".to_string());
    let r = wit_gen_service_use(
        "gas",
        &JsTypeString("base".to_string()),
        &JsTypeString("Class Blob".to_string()),
        Some(&v),
    );
    assert_eq!(ok_text(r), "use gas:base/blob@alpha-0.1.0");
    let r = wit_gen_interface_use(&JsTypeString("Class FileIterator".to_string()));
    assert_eq!(ok_text(r), "use file-iterator.{file-iterator}");
    let r = wit_gen_interface_use(&JsTypeString("FileIterator".to_string()));
    assert!(matches!(r, Err(Js2WitConvertErr::WrongFormatErr)));
}
