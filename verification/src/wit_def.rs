use vstd::prelude::*;

use crate::casing::{kebab_case, to_kebab_case};
use crate::json_struct::{opt_text, ApiService, Class, EnumMember, Method};
use crate::text::{
    dedup, dedup_strings, frame_each, frame_strings, join_strings, join_with, lemma_dedup,
    to_owned_string, views_of,
};
use crate::wit::{
    use_text, js_texts, law_method_conversion, method_convertible, method_error, method_named,
    method_text, method_unknowns, reported, spec_convert_type, spec_func_def, spec_parameters,
    version_suffix, wit_gen_func_def, Js2WitConvertErr, JsTypeString, WitTypeString,
};
use crate::wit_resolver::{
    find_type_define_location, first_match, get_interface_name_from_js_type, in_some_service,
    interface_split, name_sliceable, services_scan_ok, InterfaceType, TypeDefineLocation,
};

verus! {

/// A WIT file: the package, the `use` lines that reach beyond the service,
/// and the interfaces that the service defines.
#[derive(Debug)]
pub struct WitDefFile {
    pub package_name: String,
    pub package_version: Option<String>,
    pub deps_uses: Vec<String>,
    pub defined_interfaces: Vec<WitInterface>,
    pub world_section: WitWorldSection,
}

/// An interface of a WIT file, with the types that it needs.
#[derive(Debug)]
pub struct WitInterface {
    pub name: String,
    pub deps_uses: Vec<TypeRequirements>,
    pub inner_data: WitDataType,
}

/// What an interface holds.
#[derive(Debug)]
pub enum WitDataType {
    /// A class that no method returns or takes.
    WitInterfaceConst(WitInterfaceConst),
    /// A class that some method returns or takes.
    WitInterfaceResource(WitInterfaceResource),
    /// An enum.
    WitInterfaceEnum(WitInterfaceEnum),
}

#[derive(Debug)]
pub struct WitInterfaceConst {
    pub name: String,
    pub func_defines: Vec<String>,
}

#[derive(Debug)]
pub struct WitInterfaceResource {
    pub name: String,
    pub func_defines: Vec<String>,
}

#[derive(Debug)]
pub struct WitInterfaceEnum {
    pub name: String,
    pub enum_members: Vec<String>,
}

/// The world of a WIT file.
#[derive(Debug)]
pub struct WitWorldSection {
    pub imports: Vec<String>,
    pub exports: Vec<String>,
}

/// The name of a type that some method needs.
#[derive(Debug, Hash, PartialEq, Eq, Clone)]
pub struct TypeRequirements(pub String);

/// The texts of a sequence of type requirements.
pub open spec fn req_texts(v: Seq<TypeRequirements>) -> Seq<Seq<char>> {
    v.map_values(|t: TypeRequirements| t.0@)
}

// ------------------------------------------------------------ rendering

/// `package gas:name@version;` and an empty line.
pub open spec fn package_line(f: WitDefFile) -> Seq<char> {
    "package gas:"@ + f.package_name@ + version_suffix(opt_text(f.package_version)) + ";\n"@
}

/// The lines of a WIT file: the package, each service-wide use with `;`,
/// then the given interface texts, joined by line breaks.
pub open spec fn file_text(f: WitDefFile, interfaces: Seq<Seq<char>>) -> Seq<char> {
    join_with(
        seq![package_line(f)] + views_of(f.deps_uses@).map_values(|d: Seq<char>| d + ";"@)
            + interfaces,
        "\n"@,
    )
}

/// `use name.{name}` for a needed type, in kebab case.
pub open spec fn use_line(t: Seq<char>) -> Seq<char> {
    "use "@ + kebab_case(t) + ".{"@ + kebab_case(t) + "}"@
}

/// The use lines of an interface, indented.
pub open spec fn uses_text(reqs: Seq<TypeRequirements>) -> Seq<char> {
    frame_each(req_texts(reqs).map_values(|t: Seq<char>| use_line(t)), "    "@, ";\n"@)
}

/// An interface: its header, its uses, its body.
pub open spec fn interface_text(name: Seq<char>, reqs: Seq<TypeRequirements>, body: Seq<char>) -> Seq<
    char,
> {
    "interface "@ + name + " {\n"@ + uses_text(reqs) + "\n"@ + body + "\n}\n"@
}

/// A function list at the top level of an interface.
pub open spec fn const_body(funcs: Seq<Seq<char>>) -> Seq<char> {
    "\n"@ + frame_each(funcs, "    "@, ";\n"@) + "\n"@
}

/// An enum block.
pub open spec fn enum_body(name: Seq<char>, members: Seq<Seq<char>>) -> Seq<char> {
    "\n    enum "@ + name + " {\n"@ + frame_each(members, "        "@, ",\n"@) + "\n    }\n"@
}

/// A resource block.
pub open spec fn resource_body(name: Seq<char>, funcs: Seq<Seq<char>>) -> Seq<char> {
    "\n    resource "@ + name + " {\n"@ + frame_each(funcs, "        "@, ";\n"@) + "\n    }\n"@
}

/// The body of an interface, names as they stand.
pub open spec fn data_text(d: WitDataType) -> Seq<char> {
    match d {
        WitDataType::WitInterfaceConst(c) => const_body(views_of(c.func_defines@)),
        WitDataType::WitInterfaceEnum(e) => enum_body(e.name@, views_of(e.enum_members@)),
        WitDataType::WitInterfaceResource(r) => resource_body(r.name@, views_of(r.func_defines@)),
    }
}

/// The text of a WIT file, names as they stand.
pub open spec fn definition_text(f: WitDefFile) -> Seq<char> {
    file_text(
        f,
        f.defined_interfaces@.map_values(
            |i: WitInterface| interface_text(i.name@, i.deps_uses@, data_text(i.inner_data)),
        ),
    )
}

/// The text of a WIT file: the package line, the service-wide uses, then each
/// interface, joined by line breaks.
pub fn generate_wit_definition_string(wit_def_file: &WitDefFile) -> (r: String)
    ensures
        r@ == definition_text(*wit_def_file),
{
    let mut rlist: Vec<String> = Vec::new();
    rlist.push(package_string(wit_def_file));
    let mut i: usize = 0;
    while i < wit_def_file.deps_uses.len()
        invariant
            i <= wit_def_file.deps_uses@.len(),
            rlist@.len() == 1 + i,
            rlist@[0]@ == package_line(*wit_def_file),
            forall|j: int|
                0 <= j < i ==> #[trigger] rlist@[1 + j]@ == wit_def_file.deps_uses@[j]@ + ";"@,
        decreases wit_def_file.deps_uses@.len() - i,
    {
        let mut line = wit_def_file.deps_uses[i].clone();
        line.append(";");
        rlist.push(line);
        i = i + 1;
    }
    let n = wit_def_file.deps_uses.len();
    let mut k: usize = 0;
    while k < wit_def_file.defined_interfaces.len()
        invariant
            n == wit_def_file.deps_uses@.len(),
            k <= wit_def_file.defined_interfaces@.len(),
            rlist@.len() == 1 + n + k,
            rlist@[0]@ == package_line(*wit_def_file),
            forall|j: int| 0 <= j < n ==> #[trigger] rlist@[1 + j]@ == wit_def_file.deps_uses@[j]@ + ";"@,
            forall|j: int|
                0 <= j < k ==> #[trigger] rlist@[1 + n + j]@ == interface_text(
                    wit_def_file.defined_interfaces@[j].name@,
                    wit_def_file.defined_interfaces@[j].deps_uses@,
                    data_text(wit_def_file.defined_interfaces@[j].inner_data),
                ),
        decreases wit_def_file.defined_interfaces@.len() - k,
    {
        rlist.push(generate_wit_interface_string(&wit_def_file.defined_interfaces[k]));
        k = k + 1;
    }
    let r = join_strings(&rlist, "\n");
    proof {
        let f = *wit_def_file;
        let lines = seq![package_line(f)] + views_of(f.deps_uses@).map_values(
            |d: Seq<char>| d + ";"@,
        ) + f.defined_interfaces@.map_values(
            |i: WitInterface| interface_text(i.name@, i.deps_uses@, data_text(i.inner_data)),
        );
        let deps = views_of(f.deps_uses@).map_values(|d: Seq<char>| d + ";"@);
        let ifs = f.defined_interfaces@.map_values(
            |i: WitInterface| interface_text(i.name@, i.deps_uses@, data_text(i.inner_data)),
        );
        assert forall|j: int| 0 <= j < lines.len() implies #[trigger] views_of(rlist@)[j]
            == lines[j] by {
            if j == 0 {
            } else if j < 1 + n {
                assert(lines[j] == deps[j - 1]);
                assert(rlist@[1 + (j - 1)]@ == f.deps_uses@[j - 1]@ + ";"@);
            } else {
                assert(lines[j] == ifs[j - 1 - n]);
                assert(rlist@[1 + n + (j - 1 - n)]@ == ifs[j - 1 - n]);
            }
        }
        assert(views_of(rlist@) =~= lines);
    }
    r
}

/// `package gas:name@version;` and an empty line.
pub(crate) fn package_string(wit_def_file: &WitDefFile) -> (r: String)
    ensures
        r@ == package_line(*wit_def_file),
{
    let mut r = to_owned_string("package gas:");
    r.append(wit_def_file.package_name.as_str());
    match &wit_def_file.package_version {
        Some(v) => {
            r.append("@");
            r.append(v.as_str());
        },
        None => {},
    }
    r.append(";\n");
    r
}

/// The use lines of an interface: `use name.{name}` in kebab case.
fn generate_wit_uses(deps_uses: &Vec<TypeRequirements>) -> (r: Vec<String>)
    ensures
        views_of(r@) == req_texts(deps_uses@).map_values(|t: Seq<char>| use_line(t)),
{
    let mut r: Vec<String> = Vec::new();
    let mut i: usize = 0;
    while i < deps_uses.len()
        invariant
            i <= deps_uses@.len(),
            r@.len() == i,
            forall|j: int| 0 <= j < i ==> #[trigger] r@[j]@ == use_line(deps_uses@[j].0@),
        decreases deps_uses@.len() - i,
    {
        let aa = to_kebab_case(deps_uses[i].0.as_str());
        r.push(use_text(aa.as_str()));
        i = i + 1;
    }
    assert(views_of(r@) =~= req_texts(deps_uses@).map_values(|t: Seq<char>| use_line(t)));
    r
}

/// An interface: `interface name {`, its uses, its body, `}`.
fn generate_wit_interface_string(wit_interface: &WitInterface) -> (r: String)
    ensures
        r@ == interface_text(
            wit_interface.name@,
            wit_interface.deps_uses@,
            data_text(wit_interface.inner_data),
        ),
{
    let uses = generate_wit_uses(&wit_interface.deps_uses);
    let uses_block = frame_strings(&uses, "    ", ";\n");
    let body = generate_wit_inner_struct(&wit_interface.inner_data);
    let mut r = to_owned_string("interface ");
    r.append(wit_interface.name.as_str());
    r.append(" {\n");
    r.append(uses_block.as_str());
    r.append("\n");
    r.append(body.as_str());
    r.append("\n}\n");
    r
}

/// The body of an interface: a function list, an enum block or a resource block.
fn generate_wit_inner_struct(wit_data_type: &WitDataType) -> (r: String)
    ensures
        r@ == data_text(*wit_data_type),
{
    match wit_data_type {
        WitDataType::WitInterfaceConst(inner) => {
            let funcs = frame_strings(&inner.func_defines, "    ", ";\n");
            let mut r = to_owned_string("\n");
            r.append(funcs.as_str());
            r.append("\n");
            r
        },
        WitDataType::WitInterfaceEnum(inner) => {
            let members = frame_strings(&inner.enum_members, "        ", ",\n");
            let mut r = to_owned_string("\n    enum ");
            r.append(inner.name.as_str());
            r.append(" {\n");
            r.append(members.as_str());
            r.append("\n    }\n");
            r
        },
        WitDataType::WitInterfaceResource(inner) => {
            let funcs = frame_strings(&inner.func_defines, "        ", ";\n");
            let mut r = to_owned_string("\n    resource ");
            r.append(inner.name.as_str());
            r.append(" {\n");
            r.append(funcs.as_str());
            r.append("\n    }\n");
            r
        },
    }
}

// ------------------------------------------------------------- methods

/// A WIT function declaration.
#[derive(Clone)]
struct WitFuncDef(String);

/// The texts of a sequence of function declarations.
spec fn func_texts(v: Seq<WitFuncDef>) -> Seq<Seq<char>> {
    v.map_values(|f: WitFuncDef| f.0@)
}

trait Conv2WitFuncDef: Sized {
    spec fn def_text(&self) -> Seq<char>;

    fn conv2_wit_func_def(self) -> (r: WitFuncDef)
        ensures
            r.0@ == self.def_text(),
    ;
}

impl Conv2WitFuncDef for String {
    spec fn def_text(&self) -> Seq<char> {
        self@
    }

    fn conv2_wit_func_def(self) -> (r: WitFuncDef) {
        WitFuncDef(self)
    }
}

impl Conv2WitFuncDef for WitTypeString {
    spec fn def_text(&self) -> Seq<char> {
        self.0@
    }

    fn conv2_wit_func_def(self) -> (r: WitFuncDef) {
        WitFuncDef(self.0)
    }
}

trait Conv2TypeRequirements: Sized {
    fn conv2_type_requirements(self) -> (r: TypeRequirements);
}

impl Conv2TypeRequirements for JsTypeString {
    fn conv2_type_requirements(self) -> (r: TypeRequirements)
        ensures
            r.0@ == self.0@,
    {
        TypeRequirements(self.0)
    }
}

/// The full name of a class, prefix included (`Class Blob`).
struct JsClassName(String);

trait Conv2ClassName: Sized {
    spec fn class_text(&self) -> Seq<char>;

    fn conv2_class_name(self) -> (r: JsClassName)
        ensures
            r.0@ == self.class_text(),
    ;
}

impl Conv2ClassName for String {
    spec fn class_text(&self) -> Seq<char> {
        self@
    }

    fn conv2_class_name(self) -> (r: JsClassName) {
        JsClassName(self)
    }
}

impl Conv2ClassName for JsTypeString {
    spec fn class_text(&self) -> Seq<char> {
        self.0@
    }

    fn conv2_class_name(self) -> (r: JsClassName) {
        JsClassName(self.0)
    }
}

trait Conv2JsTypeString: Sized {
    spec fn js_text(&self) -> Seq<char>;

    fn conv2_js_type_string(self) -> (r: JsTypeString)
        ensures
            r.0@ == self.js_text(),
    ;
}

impl Conv2JsTypeString for TypeRequirements {
    spec fn js_text(&self) -> Seq<char> {
        self.0@
    }

    fn conv2_js_type_string(self) -> (r: JsTypeString) {
        JsTypeString(self.0)
    }
}

impl Conv2JsTypeString for String {
    spec fn js_text(&self) -> Seq<char> {
        self@
    }

    fn conv2_js_type_string(self) -> (r: JsTypeString) {
        JsTypeString(self)
    }
}

/// Every method can be written in WIT.
pub open spec fn methods_convertible(ms: Seq<Method>) -> bool {
    forall|k: int| 0 <= k < ms.len() ==> method_convertible(#[trigger] ms[k])
}

/// Method `k` is the first that cannot be written in WIT.
pub open spec fn first_unconvertible(ms: Seq<Method>, k: int) -> bool {
    &&& 0 <= k < ms.len()
    &&& !method_convertible(ms[k])
    &&& forall|j: int| 0 <= j < k ==> method_convertible(#[trigger] ms[j])
}

/// The methods convert without a panic: every method before the first one
/// that cannot be written has a `(` in its name.
pub open spec fn methods_named(ms: Seq<Method>) -> bool {
    forall|k: int|
        0 <= k < ms.len() && !method_named(#[trigger] ms[k]) ==> exists|j: int|
            0 <= j < k && !method_convertible(#[trigger] ms[j])
}

/// The non-primitive types that the methods name, in order.
pub open spec fn methods_unknowns(ms: Seq<Method>) -> Seq<Seq<char>>
    decreases ms.len(),
{
    if ms.len() == 0 {
        Seq::empty()
    } else {
        methods_unknowns(ms.drop_last()) + method_unknowns(ms.last())
    }
}

/// The WIT declarations of the methods.
pub open spec fn methods_texts(ms: Seq<Method>) -> Seq<Seq<char>> {
    ms.map_values(|m: Method| method_text(m))
}

/// Appends the names of `v` to `raw`.
fn push_js_names(raw: &mut Vec<String>, v: Vec<JsTypeString>)
    ensures
        views_of(final(raw)@) == views_of(old(raw)@) + js_texts(v@),
{
    let ghost start = raw@;
    let mut i: usize = 0;
    while i < v.len()
        invariant
            i <= v@.len(),
            raw@.len() == start.len() + i,
            forall|j: int| 0 <= j < start.len() ==> #[trigger] raw@[j] == start[j],
            forall|j: int| 0 <= j < i ==> #[trigger] raw@[start.len() + j]@ == v@[j].0@,
        decreases v@.len() - i,
    {
        raw.push(v[i].0.clone());
        i = i + 1;
    }
    assert forall|j: int| 0 <= j < raw@.len() implies #[trigger] views_of(raw@)[j] == (
    views_of(start) + js_texts(v@))[j] by {
        if j >= start.len() {
            assert(raw@[start.len() + (j - start.len())]@ == v@[j - start.len()].0@);
        }
    }
    assert(views_of(raw@) =~= views_of(start) + js_texts(v@));
}

/// The strings of `v`, each as a type name.
fn to_js_types(v: Vec<String>) -> (r: Vec<JsTypeString>)
    ensures
        js_texts(r@) == views_of(v@),
{
    let mut r: Vec<JsTypeString> = Vec::new();
    let mut i: usize = 0;
    while i < v.len()
        invariant
            i <= v@.len(),
            r@.len() == i,
            forall|j: int| 0 <= j < i ==> #[trigger] r@[j].0@ == v@[j]@,
        decreases v@.len() - i,
    {
        r.push(v[i].clone().conv2_js_type_string());
        i = i + 1;
    }
    assert(js_texts(r@) =~= views_of(v@));
    r
}

/// The WIT declarations of the methods and the types that they need, each
/// once; the first method that cannot be written gives the error.
fn get_func_def_string_vec(methods: &Vec<Method>) -> (r: Result<
    (Vec<WitFuncDef>, Vec<JsTypeString>),
    Js2WitConvertErr,
>)
    requires
        methods_named(methods@),
    ensures
        r is Ok <==> methods_convertible(methods@),
        r matches Ok((defs, deps)) ==> func_texts(defs@) == methods_texts(methods@) && js_texts(
            deps@,
        ) == dedup(methods_unknowns(methods@)),
        r matches Err(e) ==> exists|k: int|
            first_unconvertible(methods@, k) && e@ == method_error(#[trigger] methods@[k]),
{
    let ghost ms = methods@;
    let mut rlist: Vec<WitFuncDef> = Vec::new();
    let mut raw: Vec<String> = Vec::new();
    let mut i: usize = 0;
    while i < methods.len()
        invariant
            ms == methods@,
            methods_named(ms),
            i <= ms.len(),
            forall|j: int| 0 <= j < i ==> method_convertible(#[trigger] ms[j]),
            rlist@.len() == i,
            forall|j: int| 0 <= j < i ==> #[trigger] rlist@[j].0@ == method_text(ms[j]),
            views_of(raw@) == methods_unknowns(ms.subrange(0, i as int)),
        decreases ms.len() - i,
    {
        proof {
            if !method_named(ms[i as int]) {
                let j = choose|j: int| 0 <= j < i && !method_convertible(#[trigger] ms[j]);
                assert(method_convertible(ms[j]));
            }
        }
        let ghost pre = ms.subrange(0, i as int + 1);
        proof {
            assert(pre.drop_last() =~= ms.subrange(0, i as int));
            assert(pre.last() == ms[i as int]);
        }
        match wit_gen_func_def(&methods[i]) {
            Ok(b) => {
                rlist.push(b.conv2_wit_func_def());
                assert(views_of(raw@) =~= methods_unknowns(pre));
            },
            Err(Js2WitConvertErr::NotPrimitiveType { wit_type_string, unknown_fields }) => {
                rlist.push(wit_type_string.conv2_wit_func_def());
                push_js_names(&mut raw, unknown_fields);
            },
            Err(e) => {
                assert(first_unconvertible(ms, i as int));
                return Err(e);
            },
        }
        i = i + 1;
    }
    assert(ms.subrange(0, ms.len() as int) =~= ms);
    assert(func_texts(rlist@) =~= methods_texts(ms));
    let deps = dedup_strings(&raw);
    Ok((rlist, to_js_types(deps)))
}

// ------------------------------------------------------------- classes

/// What the methods of one class give: their WIT declarations and the types
/// that they need.
struct ClassMethods {
    class_name: JsClassName,
    func_defs: Vec<WitFuncDef>,
    requirements: Vec<TypeRequirements>,
}

/// Every method of every class can be written in WIT.
pub open spec fn classes_convertible(cs: Seq<Class>) -> bool {
    forall|c: int| 0 <= c < cs.len() ==> methods_convertible(#[trigger] cs[c].methods@)
}

/// Class `c` is the first class with a method that cannot be written.
pub open spec fn first_unconvertible_class(cs: Seq<Class>, c: int) -> bool {
    &&& 0 <= c < cs.len()
    &&& !methods_convertible(cs[c].methods@)
    &&& forall|p: int| 0 <= p < c ==> methods_convertible(#[trigger] cs[p].methods@)
}

/// The classes convert without a panic: the methods of every class that is
/// reached (all earlier classes converted) are named as `methods_named` asks.
pub open spec fn classes_named(cs: Seq<Class>) -> bool {
    forall|c: int|
        0 <= c < cs.len() && (forall|p: int|
            0 <= p < c ==> methods_convertible(#[trigger] cs[p].methods@)) ==> methods_named(
            #[trigger] cs[c].methods@,
        )
}

/// The error of the first method, in class order, that cannot be written.
pub open spec fn classes_error(cs: Seq<Class>, e: Js2WitConvertErr) -> bool {
    exists|c: int, k: int|
        first_unconvertible_class(cs, c) && first_unconvertible(cs[c].methods@, k) && e@
            == method_error(#[trigger] cs[c].methods@[k])
}

/// What the entries hold: per class, its name, the WIT declarations of its
/// methods, and the types that they need, each once.
spec fn entries_match(es: Seq<ClassMethods>, cs: Seq<Class>) -> bool {
    &&& es.len() == cs.len()
    &&& forall|i: int|
        0 <= i < cs.len() ==> {
            &&& (#[trigger] es[i]).class_name.0@ == cs[i].name@
            &&& func_texts(es[i].func_defs@) == methods_texts(cs[i].methods@)
            &&& req_texts(es[i].requirements@) == dedup(methods_unknowns(cs[i].methods@))
        }
}

/// The requirements of a class's methods, as a type the interfaces hold.
fn to_requirements(v: Vec<JsTypeString>) -> (r: Vec<TypeRequirements>)
    ensures
        req_texts(r@) == js_texts(v@),
{
    let mut r: Vec<TypeRequirements> = Vec::new();
    let mut i: usize = 0;
    while i < v.len()
        invariant
            i <= v@.len(),
            r@.len() == i,
            forall|j: int| 0 <= j < i ==> #[trigger] r@[j].0@ == v@[j].0@,
        decreases v@.len() - i,
    {
        let t = JsTypeString(v[i].0.clone());
        r.push(t.conv2_type_requirements());
        i = i + 1;
    }
    assert(req_texts(r@) =~= js_texts(v@));
    r
}

/// For each class, the WIT declarations of its methods and the types that
/// they need; the first method, in class order, that cannot be written gives
/// the error.
fn generate_wit_methods_in_service(class_list: &Vec<Class>) -> (r: Result<
    Vec<ClassMethods>,
    Js2WitConvertErr,
>)
    requires
        classes_named(class_list@),
    ensures
        r is Ok <==> classes_convertible(class_list@),
        r matches Ok(es) ==> entries_match(es@, class_list@),
        r matches Err(e) ==> classes_error(class_list@, e),
{
    let ghost cs = class_list@;
    let mut class_methods_dir: Vec<ClassMethods> = Vec::new();
    let mut i: usize = 0;
    while i < class_list.len()
        invariant
            cs == class_list@,
            classes_named(cs),
            i <= cs.len(),
            forall|p: int| 0 <= p < i ==> methods_convertible(#[trigger] cs[p].methods@),
            entries_match(class_methods_dir@, cs.subrange(0, i as int)),
        decreases cs.len() - i,
    {
        let class = &class_list[i];
        assert(methods_named(cs[i as int].methods@));
        let b = get_func_def_string_vec(&class.methods);
        match b {
            Ok((i0, i1)) => {
                let entry = ClassMethods {
                    class_name: class.name.clone().conv2_class_name(),
                    func_defs: i0,
                    requirements: to_requirements(i1),
                };
                let ghost before = class_methods_dir@;
                class_methods_dir.push(entry);
                proof {
                    let pre = cs.subrange(0, i as int + 1);
                    assert forall|q: int| 0 <= q < pre.len() implies {
                        &&& (#[trigger] class_methods_dir@[q]).class_name.0@ == pre[q].name@
                        &&& func_texts(class_methods_dir@[q].func_defs@) == methods_texts(
                            pre[q].methods@,
                        )
                        &&& req_texts(class_methods_dir@[q].requirements@) == dedup(
                            methods_unknowns(pre[q].methods@),
                        )
                    } by {
                        if q < i {
                            assert(class_methods_dir@[q] == before[q]);
                            assert(pre[q] == cs.subrange(0, i as int)[q]);
                        }
                    }
                }
            },
            Err(e) => {
                proof {
                    assert(first_unconvertible_class(cs, i as int));
                    let k = choose|k: int|
                        first_unconvertible(cs[i as int].methods@, k) && e@ == method_error(
                            #[trigger] cs[i as int].methods@[k],
                        );
                    assert(first_unconvertible_class(cs, i as int) && first_unconvertible(
                        cs[i as int].methods@,
                        k,
                    ) && e@ == method_error(cs[i as int].methods@[k]));
                }
                return Err(e);
            },
        }
        i = i + 1;
    }
    assert(cs.subrange(0, cs.len() as int) =~= cs);
    Ok(class_methods_dir)
}

// ------------------------------------------------------ lookup by name

/// Class `i` is the last class named `n`.
pub open spec fn is_last_named(cs: Seq<Class>, n: Seq<char>, i: int) -> bool {
    &&& 0 <= i < cs.len()
    &&& cs[i].name@ == n
    &&& forall|j: int| i < j < cs.len() ==> #[trigger] cs[j].name@ != n
}

/// The position of the last class named `n`; a later class of the same name
/// replaces an earlier one.
pub open spec fn last_named(cs: Seq<Class>, n: Seq<char>) -> int {
    choose|i: int| is_last_named(cs, n, i)
}

/// There is one last class of a name.
pub proof fn lemma_last_named(cs: Seq<Class>, n: Seq<char>, i: int)
    requires
        is_last_named(cs, n, i),
    ensures
        last_named(cs, n) == i,
{
    let k = last_named(cs, n);
    assert(is_last_named(cs, n, k));
    if k < i {
        assert(cs[i].name@ != n);
    }
    if i < k {
        assert(cs[k].name@ != n);
    }
}

/// The entry of the last class named `name`.
fn lookup_entry(es: &Vec<ClassMethods>, name: &String, Ghost(cs): Ghost<Seq<Class>>) -> (r: usize)
    requires
        entries_match(es@, cs),
        exists|i: int| 0 <= i < cs.len() && (#[trigger] cs[i]).name@ == name@,
    ensures
        r == last_named(cs, name@),
        is_last_named(cs, name@, r as int),
{
    let mut i: usize = es.len();
    while i > 0
        invariant
            entries_match(es@, cs),
            i <= es@.len(),
            exists|k: int| 0 <= k < i && (#[trigger] cs[k]).name@ == name@,
            forall|j: int| i <= j < cs.len() ==> #[trigger] cs[j].name@ != name@,
        decreases i,
    {
        i = i - 1;
        assert(es@[i as int].class_name.0@ == cs[i as int].name@);
        if es[i].class_name.0 == *name {
            proof {
                lemma_last_named(cs, name@, i as int);
            }
            return i;
        }
    }
    proof {
        let k = choose|k: int| 0 <= k < i && (#[trigger] cs[k]).name@ == name@;
        assert(false);
    }
    0
}

// -------------------------------------------------- service requirements

/// No later class has the name of class `i`.
pub open spec fn is_last_of_its_name(cs: Seq<Class>, i: int) -> bool {
    forall|j: int| i < j < cs.len() ==> #[trigger] cs[j].name@ != cs[i].name@
}

/// The types needed by the first `n` classes, each class counted only if no
/// later class has its name.
pub open spec fn requirements_upto(cs: Seq<Class>, n: nat) -> Seq<Seq<char>>
    decreases n,
{
    if n == 0 {
        Seq::empty()
    } else {
        requirements_upto(cs, (n - 1) as nat) + if is_last_of_its_name(cs, n - 1) {
            dedup(methods_unknowns(cs[n - 1].methods@))
        } else {
            Seq::empty()
        }
    }
}

/// The types that the methods of the service need, each once. Of classes of
/// the same name, only the last counts.
pub open spec fn service_requirements(cs: Seq<Class>) -> Seq<Seq<char>> {
    dedup(requirements_upto(cs, cs.len()))
}

/// Whether no later entry has the name of entry `i`.
fn is_last_entry(es: &Vec<ClassMethods>, i: usize) -> (r: bool)
    requires
        i < es@.len(),
    ensures
        r == forall|j: int|
            i < j < es@.len() ==> (#[trigger] es@[j]).class_name.0@ != es@[i as int].class_name.0@,
{
    let n = es.len();
    let mut j: usize = i + 1;
    while j < n
        invariant
            n == es@.len(),
            i < j <= es@.len(),
            forall|k: int|
                i < k < j ==> (#[trigger] es@[k]).class_name.0@ != es@[i as int].class_name.0@,
        decreases es@.len() - j,
    {
        if es[j].class_name.0 == es[i].class_name.0 {
            return false;
        }
        j = j + 1;
    }
    true
}

/// Appends the names of `v` to `raw`.
fn push_requirement_names(raw: &mut Vec<String>, v: &Vec<TypeRequirements>)
    ensures
        views_of(final(raw)@) == views_of(old(raw)@) + req_texts(v@),
{
    let ghost start = raw@;
    let mut i: usize = 0;
    while i < v.len()
        invariant
            i <= v@.len(),
            raw@.len() == start.len() + i,
            forall|j: int| 0 <= j < start.len() ==> #[trigger] raw@[j] == start[j],
            forall|j: int| 0 <= j < i ==> #[trigger] raw@[start.len() + j]@ == v@[j].0@,
        decreases v@.len() - i,
    {
        raw.push(v[i].0.clone());
        i = i + 1;
    }
    assert forall|j: int| 0 <= j < raw@.len() implies #[trigger] views_of(raw@)[j] == (
    views_of(start) + req_texts(v@))[j] by {
        if j >= start.len() {
            assert(raw@[start.len() + (j - start.len())]@ == v@[j - start.len()].0@);
        }
    }
    assert(views_of(raw@) =~= views_of(start) + req_texts(v@));
}

/// The strings of `v`, each as a type requirement.
fn strings_to_requirements(v: &Vec<String>) -> (r: Vec<TypeRequirements>)
    ensures
        req_texts(r@) == views_of(v@),
{
    let mut r: Vec<TypeRequirements> = Vec::new();
    let mut i: usize = 0;
    while i < v.len()
        invariant
            i <= v@.len(),
            r@.len() == i,
            forall|j: int| 0 <= j < i ==> #[trigger] r@[j].0@ == v@[j]@,
        decreases v@.len() - i,
    {
        r.push(TypeRequirements(v[i].clone()));
        i = i + 1;
    }
    assert(req_texts(r@) =~= views_of(v@));
    r
}

/// A copy of a list of type requirements.
fn copy_requirements(v: &Vec<TypeRequirements>) -> (r: Vec<TypeRequirements>)
    ensures
        req_texts(r@) == req_texts(v@),
{
    let mut r: Vec<TypeRequirements> = Vec::new();
    let mut i: usize = 0;
    while i < v.len()
        invariant
            i <= v@.len(),
            r@.len() == i,
            forall|j: int| 0 <= j < i ==> #[trigger] r@[j].0@ == v@[j].0@,
        decreases v@.len() - i,
    {
        r.push(TypeRequirements(v[i].0.clone()));
        i = i + 1;
    }
    assert(req_texts(r@) =~= req_texts(v@));
    r
}

/// The types that the methods of the service need, each once.
fn collect_service_requirements(es: &Vec<ClassMethods>, Ghost(cs): Ghost<Seq<Class>>) -> (r: Vec<
    TypeRequirements,
>)
    requires
        entries_match(es@, cs),
    ensures
        req_texts(r@) == service_requirements(cs),
{
    let mut raw: Vec<String> = Vec::new();
    let mut i: usize = 0;
    while i < es.len()
        invariant
            entries_match(es@, cs),
            i <= es@.len(),
            views_of(raw@) == requirements_upto(cs, i as nat),
        decreases es@.len() - i,
    {
        let last = is_last_entry(es, i);
        proof {
            assert(last == is_last_of_its_name(cs, i as int)) by {
                assert forall|j: int| i < j < cs.len() implies (#[trigger] cs[j].name@ != cs[i as int].name@)
                    == (es@[j].class_name.0@ != es@[i as int].class_name.0@) by {}
                if !last {
                    let j = choose|j: int|
                        i < j < es@.len() && !((#[trigger] es@[j]).class_name.0@
                            != es@[i as int].class_name.0@);
                    assert(cs[j].name@ == cs[i as int].name@);
                }
                if !is_last_of_its_name(cs, i as int) {
                    let j = choose|j: int| i < j < cs.len() && !(#[trigger] cs[j].name@ != cs[i as int].name@);
                    assert(es@[j].class_name.0@ == es@[i as int].class_name.0@);
                }
            }
        }
        if last {
            push_requirement_names(&mut raw, &es[i].requirements);
        }
        proof {
            assert(requirements_upto(cs, (i + 1) as nat) == requirements_upto(cs, i as nat) + if is_last_of_its_name(cs, i as int) {
                dedup(methods_unknowns(cs[i as int].methods@))
            } else {
                Seq::<Seq<char>>::empty()
            });
            if !last {
                assert(views_of(raw@) =~= requirements_upto(cs, (i + 1) as nat));
            }
        }
        i = i + 1;
    }
    let deduped = dedup_strings(&raw);
    strings_to_requirements(&deduped)
}

// ---------------------------------------------------------- interfaces

/// What an interface body holds, by kind: name and function list, or name
/// and member list.
pub enum DataModel {
    Const(Seq<char>, Seq<Seq<char>>),
    Resource(Seq<char>, Seq<Seq<char>>),
    Enum(Seq<char>, Seq<Seq<char>>),
}

/// The mathematical value of an interface body.
pub open spec fn data_model(d: WitDataType) -> DataModel {
    match d {
        WitDataType::WitInterfaceConst(c) => DataModel::Const(c.name@, views_of(c.func_defines@)),
        WitDataType::WitInterfaceResource(r) => DataModel::Resource(
            r.name@,
            views_of(r.func_defines@),
        ),
        WitDataType::WitInterfaceEnum(e) => DataModel::Enum(e.name@, views_of(e.enum_members@)),
    }
}

/// The body of a definition: a class is a resource when some method of the
/// service needs it and a const interface otherwise; an interface is a
/// resource; an enum lists its members.
pub open spec fn expected_data(
    kind: InterfaceType,
    bare: Seq<char>,
    funcs: Seq<Seq<char>>,
    members: Seq<Seq<char>>,
    used: bool,
) -> DataModel {
    match kind {
        InterfaceType::Class => if used {
            DataModel::Resource(bare, funcs)
        } else {
            DataModel::Const(bare, funcs)
        },
        InterfaceType::Interface => DataModel::Resource(bare, funcs),
        InterfaceType::Enum => DataModel::Enum(bare, members),
    }
}

/// The names of the members of an enum.
pub open spec fn member_names(c: Class) -> Seq<Seq<char>> {
    c.enum_members@.map_values(|m: EnumMember| m.name@)
}

/// Whether the class is among the types that the service's methods need.
fn is_used_by_others(class: &Class, type_requirements_list: &Vec<TypeRequirements>) -> (r: bool)
    requires
        name_sliceable(class.name@),
        interface_split(class.name@) is Some,
    ensures
        interface_split(class.name@) matches Some((_, bare)) && r == req_texts(
            type_requirements_list@,
        ).contains(bare),
{
    let js_type_string = JsTypeString(class.name.clone());
    let js_type = get_interface_name_from_js_type(&js_type_string);
    let (_, j) = js_type.unwrap();
    let ghost ts = req_texts(type_requirements_list@);
    let mut k: usize = 0;
    while k < type_requirements_list.len()
        invariant
            ts == req_texts(type_requirements_list@),
            interface_split(class.name@) matches Some((_, bare)) && bare == j@,
            k <= ts.len(),
            forall|q: int| 0 <= q < k ==> #[trigger] ts[q] != j@,
        decreases ts.len() - k,
    {
        if crate::text::str_eq(type_requirements_list[k].0.as_str(), j) {
            assert(ts[k as int] == j@);
            assert(ts.contains(j@));
            return true;
        }
        k = k + 1;
    }
    proof {
        if ts.contains(j@) {
            let q = choose|q: int| 0 <= q < ts.len() && ts[q] == j@;
            assert(ts[q] != j@);
        }
    }
    false
}

/// The function declarations of an entry as strings.
fn func_def_strings(v: &Vec<WitFuncDef>) -> (r: Vec<String>)
    ensures
        views_of(r@) == func_texts(v@),
{
    let mut r: Vec<String> = Vec::new();
    let mut i: usize = 0;
    while i < v.len()
        invariant
            i <= v@.len(),
            r@.len() == i,
            forall|j: int| 0 <= j < i ==> #[trigger] r@[j]@ == v@[j].0@,
        decreases v@.len() - i,
    {
        r.push(v[i].0.clone());
        i = i + 1;
    }
    assert(views_of(r@) =~= func_texts(v@));
    r
}

/// The names of the members of an enum.
fn enum_member_names(class: &Class) -> (r: Vec<String>)
    ensures
        views_of(r@) == member_names(*class),
{
    let mut r: Vec<String> = Vec::new();
    let mut i: usize = 0;
    while i < class.enum_members.len()
        invariant
            i <= class.enum_members@.len(),
            r@.len() == i,
            forall|j: int| 0 <= j < i ==> #[trigger] r@[j]@ == class.enum_members@[j].name@,
        decreases class.enum_members@.len() - i,
    {
        r.push(class.enum_members[i].name.clone());
        i = i + 1;
    }
    assert(views_of(r@) =~= member_names(*class));
    r
}

/// The interface body of one class, interface or enum.
fn generate_wit_data_type(
    class: &Class,
    class_hashmap: &Vec<ClassMethods>,
    service_requirements: &Vec<TypeRequirements>,
    Ghost(cs): Ghost<Seq<Class>>,
) -> (r: Result<WitDataType, Js2WitConvertErr>)
    requires
        entries_match(class_hashmap@, cs),
        (interface_split(class.name@) matches Some((kind, _)) && kind != InterfaceType::Enum)
            ==> exists|i: int| 0 <= i < cs.len() && (#[trigger] cs[i]).name@ == class.name@,
        name_sliceable(class.name@),
    ensures
        match interface_split(class.name@) {
            Some((kind, bare)) => r matches Ok(d) && data_model(d) == expected_data(
                kind,
                bare,
                methods_texts(cs[last_named(cs, class.name@)].methods@),
                member_names(*class),
                req_texts(service_requirements@).contains(bare),
            ),
            None => r matches Err(e) && e@ == crate::wit::ConvErr::WrongFormat,
        },
{
    let js_class_name = class.name.clone().conv2_js_type_string();
    if let Some((wit_class_type, wit_class_name)) = get_interface_name_from_js_type(&js_class_name) {
        match wit_class_type {
            InterfaceType::Class => {
                let li = lookup_entry(class_hashmap, &class.name, Ghost(cs));
                let func_defines = func_def_strings(&class_hashmap[li].func_defs);
                if is_used_by_others(class, service_requirements) {
                    Ok(
                        WitDataType::WitInterfaceResource(
                            WitInterfaceResource {
                                name: to_owned_string(wit_class_name),
                                func_defines,
                            },
                        ),
                    )
                } else {
                    Ok(
                        WitDataType::WitInterfaceConst(
                            WitInterfaceConst { name: to_owned_string(wit_class_name), func_defines },
                        ),
                    )
                }
            },
            InterfaceType::Interface => {
                let li = lookup_entry(class_hashmap, &class.name, Ghost(cs));
                let func_defines = func_def_strings(&class_hashmap[li].func_defs);
                Ok(
                    WitDataType::WitInterfaceResource(
                        WitInterfaceResource { name: to_owned_string(wit_class_name), func_defines },
                    ),
                )
            },
            InterfaceType::Enum => {
                Ok(
                    WitDataType::WitInterfaceEnum(
                        WitInterfaceEnum {
                            name: to_owned_string(wit_class_name),
                            enum_members: enum_member_names(class),
                        },
                    ),
                )
            },
        }
    } else {
        Err(Js2WitConvertErr::WrongFormatErr)
    }
}

/// The interface that a definition gives: its bare name, the types that its
/// methods need, and its body. A name without a known prefix is a
/// `WrongFormatErr`.
fn generate_wit_interface(
    class: &Class,
    class_hashmap: &Vec<ClassMethods>,
    service_requirements: &Vec<TypeRequirements>,
    Ghost(cs): Ghost<Seq<Class>>,
) -> (r: Result<WitInterface, Js2WitConvertErr>)
    requires
        entries_match(class_hashmap@, cs),
        interface_split(class.name@) is Some ==> exists|i: int|
            0 <= i < cs.len() && (#[trigger] cs[i]).name@ == class.name@,
        name_sliceable(class.name@),
    ensures
        match interface_split(class.name@) {
            Some((kind, bare)) => r matches Ok(w) && interface_matches(
                w,
                *class,
                cs,
                req_texts(service_requirements@),
            ),
            None => r matches Err(e) && e@ == crate::wit::ConvErr::WrongFormat,
        },
{
    let js_class_name = class.name.clone().conv2_js_type_string();
    if let Some((_wit_class_type, wit_class_name)) = get_interface_name_from_js_type(&js_class_name) {
        let li = lookup_entry(class_hashmap, &class.name, Ghost(cs));
        let required_type_list = copy_requirements(&class_hashmap[li].requirements);
        let inner_data = match generate_wit_data_type(class, class_hashmap, service_requirements, Ghost(cs)) {
            Ok(d) => d,
            Err(e) => {
                return Err(e);
            },
        };
        Ok(
            WitInterface {
                name: to_owned_string(wit_class_name),
                deps_uses: required_type_list,
                inner_data,
            },
        )
    } else {
        Err(Js2WitConvertErr::WrongFormatErr)
    }
}

/// The interface `iface` is what the definition `c` of the classes `cs`
/// gives, where `ts` are the types that the service needs.
pub open spec fn interface_matches(iface: WitInterface, c: Class, cs: Seq<Class>, ts: Seq<Seq<char>>) -> bool {
    match interface_split(c.name@) {
        Some((kind, bare)) => {
            let src = cs[last_named(cs, c.name@)];
            &&& iface.name@ == bare
            &&& req_texts(iface.deps_uses@) == dedup(methods_unknowns(src.methods@))
            &&& data_model(iface.inner_data) == expected_data(
                kind,
                bare,
                methods_texts(src.methods@),
                member_names(c),
                ts.contains(bare),
            )
        },
        None => false,
    }
}

// --------------------------------------------------- service-wide uses

/// The names of `ts` that some service defines, in order.
pub open spec fn located(ss: Seq<ApiService>, ts: Seq<Seq<char>>) -> Seq<Seq<char>>
    decreases ts.len(),
{
    if ts.len() == 0 {
        Seq::empty()
    } else {
        located(ss, ts.drop_last()) + if in_some_service(ss, ts.last()) {
            seq![ts.last()]
        } else {
            Seq::empty()
        }
    }
}

/// `loc` names the first definition of `t` in `ss`.
pub open spec fn location_of(ss: Seq<ApiService>, t: Seq<char>, loc: TypeDefineLocation) -> bool {
    &&& exists|si: int, ci: int|
        first_match(ss, t, si, ci) && loc.service.0@ == ss[si].service_name@ && loc.class.0@
            == #[trigger] ss[si].classes@[ci].name@
    &&& name_sliceable(loc.class.0@)
    &&& interface_split(loc.class.0@) matches Some((_, rest)) && rest == t
}

/// The name of the service that first defines `t`.
pub open spec fn first_service_name(ss: Seq<ApiService>, t: Seq<char>) -> Seq<char> {
    let (si, ci) = choose|si: int, ci: int| first_match(ss, t, si, ci);
    ss[si].service_name@
}

/// There is one first definition.
pub proof fn lemma_first_match_unique(ss: Seq<ApiService>, t: Seq<char>, si: int, ci: int)
    requires
        first_match(ss, t, si, ci),
    ensures
        forall|sj: int, cj: int| first_match(ss, t, sj, cj) ==> sj == si && cj == ci,
        first_service_name(ss, t) == ss[si].service_name@,
{
    assert forall|sj: int, cj: int| first_match(ss, t, sj, cj) implies sj == si && cj == ci by {
        if sj < si {
            assert(crate::wit_resolver::service_has(ss[sj], t)) by {
                assert(crate::wit_resolver::self_type(ss[sj].classes@[cj], t));
            }
        }
        if si < sj {
            assert(crate::wit_resolver::service_has(ss[si], t)) by {
                assert(crate::wit_resolver::self_type(ss[si].classes@[ci], t));
            }
        }
        if sj == si && cj < ci {
            assert(crate::wit_resolver::self_type(ss[si].classes@[cj], t));
        }
        if sj == si && ci < cj {
            assert(crate::wit_resolver::self_type(ss[si].classes@[ci], t));
        }
    }
    let (a, b) = choose|a: int, b: int| first_match(ss, t, a, b);
    assert(first_match(ss, t, a, b));
}

/// The use line for a type that service `svc` defines.
pub open spec fn dep_line(svc: Seq<char>, t: Seq<char>) -> Seq<char> {
    "use gas:"@ + svc + "/"@ + kebab_case(t) + "@0.1.0-alpha"@
}

/// `use gas:service/name@0.1.0-alpha`.
pub fn dep_use_text(service: &str, name: &str) -> (r: String)
    ensures
        r@ == "use gas:"@ + service@ + "/"@ + name@ + "@0.1.0-alpha"@,
{
    let mut line = to_owned_string("use gas:");
    line.append(service);
    line.append("/");
    line.append(name);
    line.append("@0.1.0-alpha");
    line
}

/// The use lines for the names of `ts` that some service defines.
pub open spec fn dep_lines(ss: Seq<ApiService>, ts: Seq<Seq<char>>) -> Seq<Seq<char>> {
    located(ss, ts).map_values(|t: Seq<char>| dep_line(first_service_name(ss, t), t))
}

/// Where each needed type is defined; a type that no service defines is left out.
fn required_find_type_define_location(
    self_service_set: &[ApiService],
    deps_uses: &Vec<TypeRequirements>,
) -> (r: Vec<TypeDefineLocation>)
    requires
        forall|k: int|
            0 <= k < deps_uses@.len() ==> services_scan_ok(
                self_service_set@,
                #[trigger] deps_uses@[k].0@,
            ),
    ensures
        r@.len() == located(self_service_set@, req_texts(deps_uses@)).len(),
        forall|i: int|
            0 <= i < r@.len() ==> location_of(
                self_service_set@,
                located(self_service_set@, req_texts(deps_uses@))[i],
                #[trigger] r@[i],
            ),
{
    let ghost ss = self_service_set@;
    let ghost ts = req_texts(deps_uses@);
    let mut rlist: Vec<TypeDefineLocation> = Vec::new();
    let mut i: usize = 0;
    while i < deps_uses.len()
        invariant
            ss == self_service_set@,
            ts == req_texts(deps_uses@),
            i <= ts.len(),
            forall|k: int|
                0 <= k < deps_uses@.len() ==> services_scan_ok(ss, #[trigger] deps_uses@[k].0@),
            rlist@.len() == located(ss, ts.subrange(0, i as int)).len(),
            forall|q: int|
                0 <= q < rlist@.len() ==> location_of(
                    ss,
                    located(ss, ts.subrange(0, i as int))[q],
                    #[trigger] rlist@[q],
                ),
        decreases ts.len() - i,
    {
        let ghost pre = ts.subrange(0, i as int + 1);
        proof {
            assert(pre.drop_last() =~= ts.subrange(0, i as int));
            assert(pre.last() == deps_uses@[i as int].0@);
            assert(services_scan_ok(ss, deps_uses@[i as int].0@));
        }
        let t = TypeRequirements(deps_uses[i].0.clone()).conv2_js_type_string();
        let ghost before = rlist@;
        if let Some(a) = find_type_define_location(self_service_set, &t) {
            rlist.push(a);
            proof {
                let old_loc = located(ss, ts.subrange(0, i as int));
                assert(located(ss, pre) == old_loc.push(t.0@));
                assert forall|q: int| 0 <= q < rlist@.len() implies location_of(
                    ss,
                    located(ss, pre)[q],
                    #[trigger] rlist@[q],
                ) by {
                    if q < before.len() {
                        assert(rlist@[q] == before[q]);
                    }
                }
            }
        } else {
            proof {
                assert(located(ss, pre) == located(ss, ts.subrange(0, i as int)));
            }
        }
        i = i + 1;
    }
    assert(ts.subrange(0, ts.len() as int) =~= ts);
    rlist
}

/// Whether the type is defined in the given service.
fn eq_type_define_location_and_service(
    type_define_location: &TypeDefineLocation,
    service: &ApiService,
) -> (r: bool)
    ensures
        r == (type_define_location.service.0@ == service.service_name@),
{
    type_define_location.service.0 == service.service_name
}

/// The use line for a found type: `use gas:service/name@0.1.0-alpha`.
fn dep_use_string(loc: &TypeDefineLocation, Ghost(ss): Ghost<Seq<ApiService>>, Ghost(t): Ghost<Seq<char>>) -> (r: String)
    requires
        location_of(ss, t, *loc),
    ensures
        r@ == dep_line(first_service_name(ss, t), t),
{
    let c = loc.class.0.clone().conv2_js_type_string();
    let (_, a) = get_interface_name_from_js_type(&c).unwrap();
    let aa = to_kebab_case(a);
    let line = dep_use_text(loc.service.0.as_str(), aa.as_str());
    proof {
        let (si, ci) = choose|si: int, ci: int|
            first_match(ss, t, si, ci) && loc.service.0@ == ss[si].service_name@ && loc.class.0@
                == #[trigger] ss[si].classes@[ci].name@;
        lemma_first_match_unique(ss, t, si, ci);
    }
    line
}

// ------------------------------------------------------------ the file

/// The classes whose names carry a known prefix, in order.
pub open spec fn named_classes(cs: Seq<Class>) -> Seq<Class>
    decreases cs.len(),
{
    if cs.len() == 0 {
        Seq::empty()
    } else {
        named_classes(cs.drop_last()) + if interface_split(cs.last().name@) is Some {
            seq![cs.last()]
        } else {
            Seq::empty()
        }
    }
}

/// The WIT file of a service: package `gas:name@0.1.0-alpha`, one interface
/// per class, interface or enum whose name carries a known prefix, and a
/// `use` line for each needed type that some service of `api_services`
/// defines, each line once. The first method that cannot be written in WIT
/// makes the whole an error.
pub fn generate_wit_definition(target_service: &ApiService, api_services: &[ApiService]) -> (r:
    Result<WitDefFile, Js2WitConvertErr>)
    requires
        classes_named(target_service.classes@),
        classes_convertible(target_service.classes@) ==> forall|c: int|
            0 <= c < target_service.classes@.len() ==> name_sliceable(
                #[trigger] target_service.classes@[c].name@,
            ),
        classes_convertible(target_service.classes@) ==> forall|k: int|
            0 <= k < service_requirements(target_service.classes@).len() ==> services_scan_ok(
                api_services@,
                #[trigger] service_requirements(target_service.classes@)[k],
            ),
    ensures
        r is Ok <==> classes_convertible(target_service.classes@),
        r matches Err(e) ==> classes_error(target_service.classes@, e),
        r matches Ok(f) ==> {
            let cs = target_service.classes@;
            let ts = service_requirements(cs);
            &&& f.package_name@ == target_service.service_name@
            &&& opt_text(f.package_version) == Some("0.1.0-alpha"@)
            &&& views_of(f.deps_uses@) == dedup(dep_lines(api_services@, ts))
            &&& f.defined_interfaces@.len() == named_classes(cs).len()
            &&& forall|i: int|
                0 <= i < named_classes(cs).len() ==> interface_matches(
                    #[trigger] f.defined_interfaces@[i],
                    named_classes(cs)[i],
                    cs,
                    ts,
                )
            &&& f.world_section.imports@.len() == 0
            &&& f.world_section.exports@.len() == 0
        },
{
    let ghost cs = target_service.classes@;
    let all_method = match generate_wit_methods_in_service(&target_service.classes) {
        Ok(m) => m,
        Err(e) => {
            return Err(e);
        },
    };
    let ts = collect_service_requirements(&all_method, Ghost(cs));
    let mut defined_interfaces: Vec<WitInterface> = Vec::new();
    let mut i: usize = 0;
    while i < target_service.classes.len()
        invariant
            cs == target_service.classes@,
            entries_match(all_method@, cs),
            req_texts(ts@) == service_requirements(cs),
            forall|c: int| 0 <= c < cs.len() ==> name_sliceable(#[trigger] cs[c].name@),
            i <= cs.len(),
            defined_interfaces@.len() == named_classes(cs.subrange(0, i as int)).len(),
            forall|q: int|
                0 <= q < defined_interfaces@.len() ==> interface_matches(
                    #[trigger] defined_interfaces@[q],
                    named_classes(cs.subrange(0, i as int))[q],
                    cs,
                    service_requirements(cs),
                ),
        decreases cs.len() - i,
    {
        let class = &target_service.classes[i];
        let ghost pre = cs.subrange(0, i as int + 1);
        proof {
            assert(pre.drop_last() =~= cs.subrange(0, i as int));
            assert(pre.last() == cs[i as int]);
            assert(cs[i as int].name@ == class.name@);
        }
        let ghost before = defined_interfaces@;
        match generate_wit_interface(class, &all_method, &ts, Ghost(cs)) {
            Ok(wit_interface) => {
                defined_interfaces.push(wit_interface);
                proof {
                    assert(named_classes(pre) == named_classes(cs.subrange(0, i as int)).push(
                        cs[i as int],
                    ));
                    assert forall|q: int| 0 <= q < defined_interfaces@.len() implies interface_matches(
                        #[trigger] defined_interfaces@[q],
                        named_classes(pre)[q],
                        cs,
                        service_requirements(cs),
                    ) by {
                        if q < before.len() {
                            assert(defined_interfaces@[q] == before[q]);
                        }
                    }
                }
            },
            Err(_) => {
                proof {
                    assert(named_classes(pre) == named_classes(cs.subrange(0, i as int)));
                }
            },
        }
        i = i + 1;
    }
    proof {
        assert(cs.subrange(0, cs.len() as int) =~= cs);
    }
    proof {
        assert forall|k: int| 0 <= k < ts@.len() implies services_scan_ok(
            api_services@,
            #[trigger] ts@[k].0@,
        ) by {
            assert(req_texts(ts@)[k] == ts@[k].0@);
        }
    }
    let locations = required_find_type_define_location(api_services, &ts);
    let ghost ss = api_services@;
    let ghost found = located(ss, service_requirements(cs));
    let mut lines: Vec<String> = Vec::new();
    let mut k: usize = 0;
    while k < locations.len()
        invariant
            ss == api_services@,
            found == located(ss, service_requirements(cs)),
            locations@.len() == found.len(),
            forall|q: int| 0 <= q < locations@.len() ==> location_of(ss, found[q], #[trigger] locations@[q]),
            k <= found.len(),
            lines@.len() == k,
            forall|q: int|
                0 <= q < k ==> #[trigger] lines@[q]@ == dep_line(first_service_name(ss, found[q]), found[q]),
        decreases found.len() - k,
    {
        let line = dep_use_string(&locations[k], Ghost(ss), Ghost(found[k as int]));
        lines.push(line);
        k = k + 1;
    }
    proof {
        assert(views_of(lines@) =~= dep_lines(ss, service_requirements(cs)));
    }
    let deps_uses = dedup_strings(&lines);
    let package_version = to_owned_string("0.1.0-alpha");
    Ok(
        WitDefFile {
            package_name: target_service.service_name.clone(),
            package_version: Some(package_version),
            deps_uses,
            defined_interfaces,
            world_section: WitWorldSection { imports: Vec::new(), exports: Vec::new() },
        },
    )
}

// ----------------------------------------------------------------- laws

/// A name is located exactly when it is among `ts` and some service defines it.
proof fn lemma_located(ss: Seq<ApiService>, ts: Seq<Seq<char>>)
    ensures
        forall|t: Seq<char>|
            #[trigger] located(ss, ts).contains(t) <==> (ts.contains(t) && in_some_service(ss, t)),
    decreases ts.len(),
{
    if ts.len() > 0 {
        let init = ts.drop_last();
        lemma_located(ss, init);
        let prev = located(ss, init);
        let add = if in_some_service(ss, ts.last()) { seq![ts.last()] } else { Seq::<Seq<char>>::empty() };
        assert(located(ss, ts) == prev + add);
        assert forall|t: Seq<char>| located(ss, ts).contains(t) <==> (ts.contains(t) && in_some_service(ss, t)) by {
            if located(ss, ts).contains(t) {
                let k = choose|k: int| 0 <= k < (prev + add).len() && (prev + add)[k] == t;
                if k < prev.len() {
                    assert(prev[k] == t);
                    assert(prev.contains(t));
                    assert(init.contains(t));
                    let j = choose|j: int| 0 <= j < init.len() && init[j] == t;
                    assert(ts[j] == t);
                } else {
                    assert(add[k - prev.len()] == t);
                    assert(ts[ts.len() - 1] == t);
                }
            }
            if ts.contains(t) && in_some_service(ss, t) {
                let j = choose|j: int| 0 <= j < ts.len() && ts[j] == t;
                if j < ts.len() - 1 {
                    assert(init[j] == t);
                    assert(prev.contains(t));
                    let k = choose|k: int| 0 <= k < prev.len() && prev[k] == t;
                    assert((prev + add)[k] == t);
                } else {
                    assert((prev + add)[prev.len() as int] == t);
                }
            }
        }
    }
}

/// The `use` lines of a generated WIT file: of the types that the service's
/// methods need, exactly those that some service defines are located, and
/// the lines, like the needed types, come once each.
pub proof fn law_use_lines(ss: Seq<ApiService>, cs: Seq<Class>)
    ensures
        forall|t: Seq<char>|
            located(ss, service_requirements(cs)).contains(t) <==> (service_requirements(
                cs,
            ).contains(t) && in_some_service(ss, t)),
        crate::text::no_duplicates(dedup(dep_lines(ss, service_requirements(cs)))),
        crate::text::no_duplicates(service_requirements(cs)),
{
    lemma_located(ss, service_requirements(cs));
    lemma_dedup(dep_lines(ss, service_requirements(cs)));
    lemma_dedup(requirements_upto(cs, cs.len()));
}

/// Each generated interface lists the types that its methods need once each,
/// and every one of them is a type that the service needs.
pub proof fn law_interface_requirements(cs: Seq<Class>, i: int)
    requires
        0 <= i < cs.len(),
        is_last_of_its_name(cs, i),
    ensures
        crate::text::no_duplicates(dedup(methods_unknowns(cs[i].methods@))),
        forall|t: Seq<char>|
            dedup(methods_unknowns(cs[i].methods@)).contains(t) ==> service_requirements(
                cs,
            ).contains(t),
{
    lemma_dedup(methods_unknowns(cs[i].methods@));
    lemma_requirements_upto(cs, cs.len(), i);
    lemma_dedup(requirements_upto(cs, cs.len()));
}

/// The types of the `i`th class, when it is the last of its name, are among
/// the requirements of the first `n > i` classes.
proof fn lemma_requirements_upto(cs: Seq<Class>, n: nat, i: int)
    requires
        0 <= i < n <= cs.len(),
        is_last_of_its_name(cs, i),
    ensures
        forall|t: Seq<char>|
            #[trigger] dedup(methods_unknowns(cs[i].methods@)).contains(t) ==> requirements_upto(
                cs,
                n,
            ).contains(t),
    decreases n,
{
    let own = dedup(methods_unknowns(cs[i].methods@));
    let prev = requirements_upto(cs, (n - 1) as nat);
    let add = if is_last_of_its_name(cs, n - 1) {
        dedup(methods_unknowns(cs[n - 1].methods@))
    } else {
        Seq::<Seq<char>>::empty()
    };
    assert(requirements_upto(cs, n) == prev + add);
    if i < n - 1 {
        lemma_requirements_upto(cs, (n - 1) as nat, i);
        assert forall|t: Seq<char>| own.contains(t) implies requirements_upto(cs, n).contains(t) by {
            assert(prev.contains(t));
            let k = choose|k: int| 0 <= k < prev.len() && prev[k] == t;
            assert((prev + add)[k] == t);
        }
    } else {
        assert forall|t: Seq<char>| own.contains(t) implies requirements_upto(cs, n).contains(t) by {
            let k = choose|k: int| 0 <= k < own.len() && own[k] == t;
            assert((prev + add)[prev.len() + k] == t);
        }
    }
}

/// What converting a method reports: its parameters' non-primitive types,
/// then its return type's.
pub open spec fn parts_reported(m: Method) -> Seq<Seq<char>> {
    reported(spec_parameters(m.parameters@)) + reported(
        spec_convert_type(m.return_type.name@, m.return_type.url is Some),
    )
}

/// The types that the methods of a class need are, in method order, exactly
/// those that converting each method reports: for each method the types of
/// its parameters, then those of its return type.
pub proof fn law_methods_unknowns_reported(ms: Seq<Method>)
    requires
        methods_convertible(ms),
    ensures
        methods_unknowns(ms) == ms.map_values(|m: Method| reported(spec_func_def(m))).flatten(),
        methods_unknowns(ms) == ms.map_values(|m: Method| parts_reported(m)).flatten(),
    decreases ms.len(),
{
    let a = ms.map_values(|m: Method| reported(spec_func_def(m)));
    let b = ms.map_values(|m: Method| parts_reported(m));
    a.lemma_flatten_and_flatten_alt_are_equivalent();
    b.lemma_flatten_and_flatten_alt_are_equivalent();
    if ms.len() > 0 {
        let init = ms.drop_last();
        let m = ms.last();
        assert(methods_convertible(init)) by {
            assert forall|k: int| 0 <= k < init.len() implies method_convertible(
                #[trigger] init[k],
            ) by {
                assert(init[k] == ms[k]);
            }
        }
        law_methods_unknowns_reported(init);
        assert(method_convertible(ms[ms.len() - 1]));
        law_method_conversion(m);
        crate::wit::lemma_reported_func_def(m);
        assert(a.drop_last() =~= init.map_values(|m: Method| reported(spec_func_def(m))));
        assert(b.drop_last() =~= init.map_values(|m: Method| parts_reported(m)));
        a.drop_last().lemma_flatten_and_flatten_alt_are_equivalent();
        b.drop_last().lemma_flatten_and_flatten_alt_are_equivalent();
        assert(a.last() == reported(spec_func_def(m)));
        assert(b.last() == parts_reported(m));
    }
}

/// Every type that converting a method of a class reports, whether a
/// parameter's or the return type's, is among the types that the class's
/// interface uses and among the types that the service needs. This holds of
/// the last class of each name, the one whose interface is generated.
pub proof fn law_method_types_are_needed(cs: Seq<Class>, i: int, k: int, t: Seq<char>)
    requires
        0 <= i < cs.len(),
        is_last_of_its_name(cs, i),
        methods_convertible(cs[i].methods@),
        0 <= k < cs[i].methods@.len(),
        parts_reported(cs[i].methods@[k]).contains(t),
    ensures
        dedup(methods_unknowns(cs[i].methods@)).contains(t),
        service_requirements(cs).contains(t),
{
    let ms = cs[i].methods@;
    let b = ms.map_values(|m: Method| parts_reported(m));
    law_methods_unknowns_reported(ms);
    lemma_flatten_contains(b, k, t);
    lemma_dedup(methods_unknowns(ms));
    law_interface_requirements(cs, i);
}

/// An element of one of the sequences is an element of their concatenation.
proof fn lemma_flatten_contains(s: Seq<Seq<Seq<char>>>, k: int, t: Seq<char>)
    requires
        0 <= k < s.len(),
        s[k].contains(t),
    ensures
        s.flatten().contains(t),
    decreases s.len(),
{
    if k == 0 {
        let j = choose|j: int| 0 <= j < s[0].len() && s[0][j] == t;
        assert(s.flatten() == s.first() + s.drop_first().flatten());
        assert(s.flatten()[j] == t);
    } else {
        let rest = s.drop_first();
        assert(rest[k - 1] == s[k]);
        lemma_flatten_contains(rest, k - 1, t);
        let j = choose|j: int| 0 <= j < rest.flatten().len() && rest.flatten()[j] == t;
        assert(s.flatten() == s.first() + rest.flatten());
        assert(s.flatten()[s.first().len() + j] == t);
    }
}

} // verus!
