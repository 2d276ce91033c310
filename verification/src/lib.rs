pub mod casing;
pub mod json_struct;
pub mod text;
pub mod wit;
pub mod wit_config;
pub mod wit_def;
pub mod wit_def_stringify;
pub mod wit_resolver;
pub mod wit_setting;

pub use json_struct::{ApiService, Class, EnumMember, Method, Parameter, ReturnType, Type, TypeTrait};
pub use wit::{
    convert_wit_type_string, wit_gen_func_def, wit_gen_interface_name, wit_gen_interface_use,
    wit_gen_package_name, wit_gen_service_use, wit_parameters_string, Js2WitConvertErr,
    JsTypeString, WitTypeString,
};
pub use wit_config::WitFileConfig;
pub use wit_def::{generate_wit_definition, TypeRequirements, WitDefFile};
pub use wit_def_stringify::generate_wit_definition_string;
pub use wit_resolver::{
    find_type_define_location, get_interface_name_from_js_type, is_in_same_service,
    is_in_somewhere_service, is_self_type, InterfaceType, TypeDefineLocation,
};
pub use wit_setting::WitFileSetting;
