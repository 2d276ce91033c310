use vstd::prelude::*;

use crate::casing::{kebab_case, to_kebab_case};
use crate::json_struct::{ApiService, Method, Parameter, Type, TypeTrait};
use crate::text::{
    all_ident_chars, is_ident_char, ends_with, find_char, is_ident_text, join_strings, join_with, str_eq,
    to_owned_string, views_of,
};
use crate::wit_resolver::{get_interface_name_from_js_type, interface_split, name_sliceable};

verus! {

/// The name of a type as the JSON definitions write it.
#[derive(Clone, Debug, Eq, PartialEq, Hash)]
pub struct JsTypeString(pub String);

/// A piece of WIT text.
#[derive(Debug)]
pub struct WitTypeString(pub String);

/// What can go wrong when a JSON type is turned into WIT.
#[derive(Debug)]
pub enum Js2WitConvertErr {
    /// The WIT text was made, but it names types that are not primitive;
    /// their JSON names are listed. A caller may go on with the text.
    NotPrimitiveType { wit_type_string: WitTypeString, unknown_fields: Vec<JsTypeString> },
    ParameterStringErr,
    ReturnStringErr,
    SyntaxErr,
    WrongFormatErr,
}

/// The mathematical value of a `Js2WitConvertErr`.
pub enum ConvErr {
    NotPrimitive { text: Seq<char>, unknown: Seq<Seq<char>> },
    ParameterString,
    ReturnString,
    Syntax,
    WrongFormat,
}

/// The texts of a sequence of type names.
pub open spec fn js_texts(v: Seq<JsTypeString>) -> Seq<Seq<char>> {
    v.map_values(|j: JsTypeString| j.0@)
}

impl View for Js2WitConvertErr {
    type V = ConvErr;

    open spec fn view(&self) -> ConvErr {
        match self {
            Js2WitConvertErr::NotPrimitiveType { wit_type_string, unknown_fields } =>
                ConvErr::NotPrimitive {
                text: wit_type_string.0@,
                unknown: js_texts(unknown_fields@),
            },
            Js2WitConvertErr::ParameterStringErr => ConvErr::ParameterString,
            Js2WitConvertErr::ReturnStringErr => ConvErr::ReturnString,
            Js2WitConvertErr::SyntaxErr => ConvErr::Syntax,
            Js2WitConvertErr::WrongFormatErr => ConvErr::WrongFormat,
        }
    }
}

/// The mathematical value of a conversion's result.
pub open spec fn outcome(r: Result<WitTypeString, Js2WitConvertErr>) -> Result<Seq<char>, ConvErr> {
    match r {
        Ok(w) => Ok(w.0@),
        Err(e) => Err(e@),
    }
}

/// The result that has `text` and names `unknown` as non-primitive types:
/// success when it names none.
pub open spec fn text_with_unknowns(text: Seq<char>, unknown: Seq<Seq<char>>) -> Result<
    Seq<char>,
    ConvErr,
> {
    if unknown.len() == 0 {
        Ok(text)
    } else {
        Err(ConvErr::NotPrimitive { text, unknown })
    }
}

// ---------------------------------------------------------------- types

/// The WIT form of a primitive JSON type name.
pub open spec fn primitive_wit(name: Seq<char>) -> Option<Seq<char>> {
    if name == "String"@ {
        Some("string"@)
    } else if name == "Boolean"@ {
        Some("boolean"@)
    } else if name == "Byte"@ {
        Some("u8"@)
    } else if name == "Number"@ {
        Some("f64"@)
    } else if name == "Integer"@ {
        Some("s64"@)
    } else if name == "void"@ {
        Some("void"@)
    } else if name == "Object"@ {
        Some("object"@)
    } else if name == "Date"@ {
        Some("date"@)
    } else {
        None
    }
}

/// A list type: the name ends with `[]`.
pub open spec fn is_list_name(name: Seq<char>) -> bool {
    name.len() >= 2 && name[name.len() - 2] == '[' && name[name.len() - 1] == ']'
}

/// The element type of a list type.
pub open spec fn list_element(name: Seq<char>) -> Seq<char> {
    name.subrange(0, name.len() - 2)
}

/// The type is primitive: it has no documentation URL and a primitive name.
pub open spec fn is_primitive(name: Seq<char>, has_url: bool) -> bool {
    !has_url && primitive_wit(name) is Some
}

/// The type can be written in WIT: a primitive, a plain identifier (a type
/// of the API itself), or a list of such.
pub open spec fn type_convertible(name: Seq<char>, has_url: bool) -> bool
    decreases name.len(),
{
    if is_primitive(name, has_url) {
        true
    } else if all_ident_chars(name) {
        true
    } else if is_list_name(name) {
        type_convertible(list_element(name), has_url)
    } else {
        false
    }
}

/// The non-primitive types that the type names.
pub open spec fn type_unknowns(name: Seq<char>, has_url: bool) -> Seq<Seq<char>>
    decreases name.len(),
{
    if is_primitive(name, has_url) {
        Seq::empty()
    } else if all_ident_chars(name) {
        seq![name]
    } else if is_list_name(name) {
        type_unknowns(list_element(name), has_url)
    } else {
        Seq::empty()
    }
}

/// The WIT text of the type: a primitive's WIT name, the kebab case of an
/// identifier, `list<..>` around the text of a list's element.
pub open spec fn type_text(name: Seq<char>, has_url: bool) -> Seq<char>
    decreases name.len(),
{
    if is_primitive(name, has_url) {
        primitive_wit(name).unwrap()
    } else if all_ident_chars(name) {
        kebab_case(name)
    } else if is_list_name(name) {
        "list<"@ + type_text(list_element(name), has_url) + ">"@
    } else {
        Seq::empty()
    }
}

/// The result of converting a type: a syntax error when it cannot be
/// written; otherwise its text, with the non-primitive types it names.
pub open spec fn spec_convert_type(name: Seq<char>, has_url: bool) -> Result<Seq<char>, ConvErr> {
    if !type_convertible(name, has_url) {
        Err(ConvErr::Syntax)
    } else {
        text_with_unknowns(type_text(name, has_url), type_unknowns(name, has_url))
    }
}

/// A conversion's result wrapped in `list<..>`; an error other than a
/// non-primitive type becomes a syntax error.
pub open spec fn list_of(r: Result<Seq<char>, ConvErr>) -> Result<Seq<char>, ConvErr> {
    match r {
        Ok(t) => Ok("list<"@ + t + ">"@),
        Err(ConvErr::NotPrimitive { text, unknown }) => Err(
            ConvErr::NotPrimitive { text: "list<"@ + text + ">"@, unknown },
        ),
        Err(_) => Err(ConvErr::Syntax),
    }
}

/// The conversion of a list type; any other name is a syntax error.
pub open spec fn spec_dress_list(name: Seq<char>, has_url: bool) -> Result<Seq<char>, ConvErr> {
    if is_list_name(name) {
        list_of(spec_convert_type(list_element(name), has_url))
    } else {
        Err(ConvErr::Syntax)
    }
}

/// A type that is neither primitive nor a plain identifier converts as a list.
pub proof fn lemma_convert_non_ident(name: Seq<char>, has_url: bool)
    requires
        !is_primitive(name, has_url),
        !all_ident_chars(name),
    ensures
        spec_convert_type(name, has_url) == spec_dress_list(name, has_url),
{
    if is_list_name(name) {
        let e = list_element(name);
        assert(type_convertible(name, has_url) == type_convertible(e, has_url));
        assert(type_unknowns(name, has_url) == type_unknowns(e, has_url));
        assert(type_text(name, has_url) == "list<"@ + type_text(e, has_url) + ">"@);
    }
}

/// Whether every character of `s` is an ASCII letter, an ASCII digit or an underscore.
fn is_ascii_alnum_or_underscore(s: &str) -> (r: bool)
    ensures
        r == all_ident_chars(s@),
{
    is_ident_text(s)
}

/// The part of `signature` before its first `(`, if it has one.
fn extract_method_name(signature: &str) -> (r: Option<&str>)
    ensures
        r is Some <==> signature@.contains('('),
        r matches Some(base) ==> base@ == before_first(signature@, '('),
{
    match find_char(signature, '(') {
        Some(i) => {
            proof {
                lemma_before_first(signature@, '(', i as int);
            }
            Some(signature.substring_char(0, i))
        },
        None => {
            proof {
                if signature@.contains('(') {
                    let k = choose|k: int| 0 <= k < signature@.len() && signature@[k] == '(';
                    assert(signature@[k] != '(');
                }
            }
            None
        },
    }
}

/// The part of `s` before its first `c`.
pub open spec fn before_first(s: Seq<char>, c: char) -> Seq<char> {
    let i = choose|i: int| 0 <= i < s.len() && s[i] == c && (forall|j: int| 0 <= j < i ==> s[j] != c);
    s.subrange(0, i)
}

/// `before_first` cuts at the first position of the character.
pub proof fn lemma_before_first(s: Seq<char>, c: char, i: int)
    requires
        0 <= i < s.len(),
        s[i] == c,
        forall|j: int| 0 <= j < i ==> s[j] != c,
    ensures
        before_first(s, c) == s.subrange(0, i),
        s.contains(c),
{
    let k = choose|k: int| 0 <= k < s.len() && s[k] == c && (forall|j: int| 0 <= j < k ==> s[j] != c);
    assert(0 <= k < s.len() && s[k] == c && (forall|j: int| 0 <= j < k ==> s[j] != c));
    if k < i {
        assert(s[k] != c);
    }
    if i < k {
        assert(s[i] != c);
    }
}

/// The WIT form of a primitive name, if it is one.
fn primitive_of(name: &str) -> (r: Option<&'static str>)
    ensures
        match r {
            Some(w) => primitive_wit(name@) == Some(w@),
            None => primitive_wit(name@) is None,
        },
{
    if str_eq(name, "String") {
        Some("string")
    } else if str_eq(name, "Boolean") {
        Some("boolean")
    } else if str_eq(name, "Byte") {
        Some("u8")
    } else if str_eq(name, "Number") {
        Some("f64")
    } else if str_eq(name, "Integer") {
        Some("s64")
    } else if str_eq(name, "void") {
        Some("void")
    } else if str_eq(name, "Object") {
        Some("object")
    } else if str_eq(name, "Date") {
        Some("date")
    } else {
        None
    }
}

/// `pre`, then `mid`, then `post`.
fn surround(pre: &str, mid: &str, post: &str) -> (r: String)
    ensures
        r@ == pre@ + mid@ + post@,
{
    let mut r = to_owned_string(pre);
    r.append(mid);
    r.append(post);
    r
}

/// Converts a list type (its name ends with `[]`) by converting its element
/// type and wrapping the text in `list<..>`.
fn wit_dress_list(arg: &Type) -> (r: Result<WitTypeString, Js2WitConvertErr>)
    ensures
        outcome(r) == spec_dress_list(arg.name@, arg.url is Some),
    decreases 2 * arg.name@.len(),
{
    let name = arg.get_name();
    let ghost n = name@;
    proof {
        reveal_strlit("[]");
        if n.len() >= 2 {
            assert(has_list_suffix(n) == is_list_name(n)) by {
                let tail = n.subrange(n.len() - 2, n.len() as int);
                if is_list_name(n) {
                    assert(tail =~= "[]"@);
                }
                if tail == "[]"@ {
                    assert(tail[0] == '[' && tail[1] == ']');
                }
            }
        }
    }
    if ends_with(name.as_str(), "[]") {
        let len = name.as_str().unicode_len();
        let inner = name.as_str().substring_char(0, len - 2);
        let element = Type { name: to_owned_string(inner), url: arg.get_url() };
        assert(element.name@ == list_element(n));
        let converted = convert_type(&element);
        match converted {
            Ok(b) => Ok(WitTypeString(surround("list<", b.0.as_str(), ">"))),
            Err(Js2WitConvertErr::NotPrimitiveType { wit_type_string, unknown_fields }) => {
                Err(
                    Js2WitConvertErr::NotPrimitiveType {
                        wit_type_string: WitTypeString(
                            surround("list<", wit_type_string.0.as_str(), ">"),
                        ),
                        unknown_fields,
                    },
                )
            },
            Err(_) => Err(Js2WitConvertErr::SyntaxErr),
        }
    } else {
        Err(Js2WitConvertErr::SyntaxErr)
    }
}

/// The name ends with the two characters `[]`.
spec fn has_list_suffix(n: Seq<char>) -> bool {
    crate::text::has_suffix(n, "[]"@)
}

/// Converts a JSON type to WIT: primitives (no URL) map to their WIT names,
/// a plain identifier is a type of the API and gives its kebab-case name as
/// a `NotPrimitiveType`, a name ending with `[]` gives a `list<..>`, and any
/// other name is a `SyntaxErr`.
pub fn convert_wit_type_string<T: TypeTrait>(arg: &T) -> (r: Result<WitTypeString, Js2WitConvertErr>)
    ensures
        outcome(r) == spec_convert_type(arg.name_text(), arg.url_text() is Some),
{
    convert_type(&Type { name: arg.get_name(), url: arg.get_url() })
}

/// `convert_wit_type_string` on the name and URL of a type.
fn convert_type(arg: &Type) -> (r: Result<WitTypeString, Js2WitConvertErr>)
    ensures
        outcome(r) == spec_convert_type(arg.name@, arg.url is Some),
    decreases 2 * arg.name@.len() + 1,
{
    let name = arg.get_name();
    let url = arg.get_url();
    if url.is_none() {
        if let Some(w) = primitive_of(name.as_str()) {
            return Ok(WitTypeString(to_owned_string(w)));
        }
    }
    if is_ascii_alnum_or_underscore(name.as_str()) {
        let mut unknown_fields: Vec<JsTypeString> = Vec::new();
        unknown_fields.push(JsTypeString(name.clone()));
        assert(js_texts(unknown_fields@) =~= seq![name@]);
        return Err(
            Js2WitConvertErr::NotPrimitiveType {
                wit_type_string: WitTypeString(to_kebab_case(name.as_str())),
                unknown_fields,
            },
        );
    }
    proof {
        lemma_convert_non_ident(name@, arg.url is Some);
    }
    wit_dress_list(arg)
}

// ----------------------------------------------------------- parameters

/// The parameter's type can be written in WIT.
pub open spec fn param_convertible(p: Parameter) -> bool {
    type_convertible(p.param_type.name@, p.param_type.url is Some)
}

/// The non-primitive types that the parameter's type names.
pub open spec fn param_unknowns(p: Parameter) -> Seq<Seq<char>> {
    type_unknowns(p.param_type.name@, p.param_type.url is Some)
}

/// `name: type` in WIT.
pub open spec fn param_text(p: Parameter) -> Seq<char> {
    p.name@ + ": "@ + type_text(p.param_type.name@, p.param_type.url is Some)
}

/// The result of converting one parameter.
pub open spec fn spec_arg_pair(p: Parameter) -> Result<Seq<char>, ConvErr> {
    if !param_convertible(p) {
        Err(ConvErr::ParameterString)
    } else {
        text_with_unknowns(param_text(p), param_unknowns(p))
    }
}

/// Every parameter's type can be written in WIT.
pub open spec fn params_convertible(ps: Seq<Parameter>) -> bool {
    forall|i: int| 0 <= i < ps.len() ==> param_convertible(#[trigger] ps[i])
}

/// The non-primitive types that the parameters name, in order.
pub open spec fn params_unknowns(ps: Seq<Parameter>) -> Seq<Seq<char>>
    decreases ps.len(),
{
    if ps.len() == 0 {
        Seq::empty()
    } else {
        params_unknowns(ps.drop_last()) + param_unknowns(ps.last())
    }
}

/// The parameters in WIT, separated by `, `.
pub open spec fn params_text(ps: Seq<Parameter>) -> Seq<char> {
    join_with(ps.map_values(|p: Parameter| param_text(p)), ", "@)
}

/// The result of converting a parameter list.
pub open spec fn spec_parameters(ps: Seq<Parameter>) -> Result<Seq<char>, ConvErr> {
    if !params_convertible(ps) {
        Err(ConvErr::ParameterString)
    } else {
        text_with_unknowns(params_text(ps), params_unknowns(ps))
    }
}

/// `name: type` for one parameter; a type that cannot be written is a
/// `ParameterStringErr`.
fn wit_convert_arg_type_pair(parameter: &Parameter) -> (r: Result<WitTypeString, Js2WitConvertErr>)
    ensures
        outcome(r) == spec_arg_pair(*parameter),
{
    let a = convert_wit_type_string(&parameter.param_type);
    match a {
        Ok(b) => Ok(WitTypeString(surround(parameter.name.as_str(), ": ", b.0.as_str()))),
        Err(Js2WitConvertErr::NotPrimitiveType { wit_type_string, unknown_fields }) => {
            Err(
                Js2WitConvertErr::NotPrimitiveType {
                    wit_type_string: WitTypeString(
                        surround(parameter.name.as_str(), ": ", wit_type_string.0.as_str()),
                    ),
                    unknown_fields,
                },
            )
        },
        Err(_) => Err(Js2WitConvertErr::ParameterStringErr),
    }
}

/// The parameter part of a WIT function declaration: `a: string, b: blob`.
/// When parameters name non-primitive types, the text comes as a
/// `NotPrimitiveType` that lists them all, in order.
pub fn wit_parameters_string(parameter_list: &Vec<Parameter>) -> (r: Result<
    WitTypeString,
    Js2WitConvertErr,
>)
    ensures
        outcome(r) == spec_parameters(parameter_list@),
{
    let ghost ps = parameter_list@;
    let mut rlist: Vec<String> = Vec::new();
    let mut unknown_fields_gather: Vec<JsTypeString> = Vec::new();
    let mut i: usize = 0;
    while i < parameter_list.len()
        invariant
            ps == parameter_list@,
            i <= ps.len(),
            params_convertible(ps.subrange(0, i as int)),
            rlist@.len() == i,
            views_of(rlist@) == ps.subrange(0, i as int).map_values(|p: Parameter| param_text(p)),
            js_texts(unknown_fields_gather@) == params_unknowns(ps.subrange(0, i as int)),
        decreases ps.len() - i,
    {
        let arg_type = wit_convert_arg_type_pair(&parameter_list[i]);
        let ghost pre = ps.subrange(0, i as int + 1);
        proof {
            assert(pre.drop_last() =~= ps.subrange(0, i as int));
            assert(pre.last() == ps[i as int]);
        }
        match arg_type {
            Ok(b) => {
                assert(b.0@ == param_text(ps[i as int]));
                rlist.push(b.0);
                proof {
                    assert(js_texts(unknown_fields_gather@) =~= params_unknowns(pre));
                }
            },
            Err(Js2WitConvertErr::NotPrimitiveType { wit_type_string, mut unknown_fields }) => {
                assert(wit_type_string.0@ == param_text(ps[i as int]));
                rlist.push(wit_type_string.0);
                let ghost before = unknown_fields_gather@;
                let ghost added = unknown_fields@;
                unknown_fields_gather.append(&mut unknown_fields);
                proof {
                    assert(unknown_fields_gather@ == before + added);
                    assert(js_texts(unknown_fields_gather@) =~= js_texts(before) + js_texts(added));
                }
            },
            Err(e) => {
                proof {
                    assert(!param_convertible(ps[i as int]));
                    assert(!params_convertible(ps));
                }
                return Err(e);
            },
        }
        proof {
            let old_views = ps.subrange(0, i as int).map_values(|p: Parameter| param_text(p));
            assert(rlist@.len() == i + 1);
            assert(rlist@[i as int]@ == param_text(ps[i as int]));
            assert forall|k: int| 0 <= k < i implies #[trigger] rlist@[k]@ == old_views[k] by {
                assert(views_of(rlist@.subrange(0, i as int)) == old_views);
                assert(rlist@.subrange(0, i as int)[k] == rlist@[k]);
            }
            assert(views_of(rlist@) =~= pre.map_values(|p: Parameter| param_text(p)));
            assert(params_convertible(pre)) by {
                assert forall|k: int| 0 <= k < pre.len() implies param_convertible(
                    #[trigger] pre[k],
                ) by {
                    if k < i {
                        assert(pre[k] == ps.subrange(0, i as int)[k]);
                    }
                }
            }
        }
        i = i + 1;
    }
    proof {
        assert(ps.subrange(0, ps.len() as int) =~= ps);
    }
    let r_text = WitTypeString(join_strings(&rlist, ", "));
    if unknown_fields_gather.len() == 0 {
        Ok(r_text)
    } else {
        Err(
            Js2WitConvertErr::NotPrimitiveType {
                wit_type_string: r_text,
                unknown_fields: unknown_fields_gather,
            },
        )
    }
}

// ------------------------------------------------------------- methods

/// The parameters and the return type of the method can be written in WIT.
pub open spec fn method_convertible(m: Method) -> bool {
    params_convertible(m.parameters@) && type_convertible(m.return_type.name@, m.return_type.url is Some)
}

/// The non-primitive types that the method names: those of its parameters,
/// then those of its return type.
pub open spec fn method_unknowns(m: Method) -> Seq<Seq<char>> {
    params_unknowns(m.parameters@) + type_unknowns(m.return_type.name@, m.return_type.url is Some)
}

/// `func (params)`, with ` -> ret` unless the return type is `void`.
pub open spec fn func_signature(params: Seq<char>, ret: Seq<char>) -> Seq<char> {
    if ret == "void"@ {
        "func ("@ + params + ")"@
    } else {
        "func ("@ + params + ") -> "@ + ret
    }
}

/// The WIT declaration of the method: its name (the part before `(`) in kebab
/// case, `: `, and its signature.
pub open spec fn method_text(m: Method) -> Seq<char> {
    kebab_case(before_first(m.name@, '(')) + ": "@ + func_signature(
        params_text(m.parameters@),
        type_text(m.return_type.name@, m.return_type.url is Some),
    )
}

/// The error of a method that cannot be written in WIT.
pub open spec fn method_error(m: Method) -> ConvErr {
    if !params_convertible(m.parameters@) {
        ConvErr::ParameterString
    } else {
        ConvErr::ReturnString
    }
}

/// The result of converting a method.
pub open spec fn spec_func_def(m: Method) -> Result<Seq<char>, ConvErr> {
    if !method_convertible(m) {
        Err(method_error(m))
    } else {
        text_with_unknowns(method_text(m), method_unknowns(m))
    }
}

/// The method can be converted without a panic: a method that gets as far as
/// its name has a `(` in it.
pub open spec fn method_named(m: Method) -> bool {
    method_convertible(m) ==> m.name@.contains('(')
}

/// The WIT declaration of a method, `name: func (params) -> ret`. Parameter
/// errors come before return type errors; non-primitive types of both are
/// listed in a `NotPrimitiveType`, those of the parameters first.
pub fn wit_gen_func_def(method: &Method) -> (r: Result<WitTypeString, Js2WitConvertErr>)
    requires
        method_named(*method),
    ensures
        outcome(r) == spec_func_def(*method),
{
    let mut unknown_fields_gather: Vec<JsTypeString> = Vec::new();
    let wit_parameters = wit_parameters_string(&method.parameters);
    let wit_return = convert_wit_type_string(&method.return_type);
    let wit_parameters = match wit_parameters {
        Ok(b) => b,
        Err(Js2WitConvertErr::NotPrimitiveType { wit_type_string, mut unknown_fields }) => {
            unknown_fields_gather.append(&mut unknown_fields);
            wit_type_string
        },
        Err(_) => {
            return Err(Js2WitConvertErr::ParameterStringErr);
        },
    };
    let ghost from_params = unknown_fields_gather@;
    let wit_return = match wit_return {
        Ok(b) => b,
        Err(Js2WitConvertErr::NotPrimitiveType { wit_type_string, mut unknown_fields }) => {
            unknown_fields_gather.append(&mut unknown_fields);
            wit_type_string
        },
        Err(_) => {
            return Err(Js2WitConvertErr::ReturnStringErr);
        },
    };
    assert(js_texts(unknown_fields_gather@) =~= method_unknowns(*method));
    let base = extract_method_name(method.name.as_str());
    let base = match base {
        Some(b) => b,
        None => {
            proof {
                assert(false);
            }
            return Err(Js2WitConvertErr::SyntaxErr);
        },
    };
    assert(wit_parameters.0@ == params_text(method.parameters@));
    assert(wit_return.0@ == type_text(method.return_type.name@, method.return_type.url is Some));
    let func_name = to_kebab_case(base);
    let text = func_def_text(func_name.as_str(), wit_parameters.0.as_str(), wit_return.0.as_str());
    let r_text = WitTypeString(text);
    if unknown_fields_gather.len() == 0 {
        Ok(r_text)
    } else {
        Err(
            Js2WitConvertErr::NotPrimitiveType {
                wit_type_string: r_text,
                unknown_fields: unknown_fields_gather,
            },
        )
    }
}

/// A WIT function declaration from its parts: `name: func (params) -> ret`,
/// without the arrow when `ret` is `void`.
pub fn func_def_text(func_name: &str, params: &str, ret: &str) -> (r: String)
    ensures
        r@ == func_name@ + ": "@ + func_signature(params@, ret@),
{
    let func_type = if str_eq(ret, "void") {
        surround("func (", params, ")")
    } else {
        let mut t = surround("func (", params, ") -> ");
        t.append(ret);
        t
    };
    surround(func_name, ": ", func_type.as_str())
}

// ------------------------------------------------------- names and uses

/// `use name.{name}`.
pub fn use_text(name: &str) -> (r: String)
    ensures
        r@ == "use "@ + name@ + ".{"@ + name@ + "}"@,
{
    let mut text = surround("use ", name, ".{");
    text.append(name);
    text.append("}");
    text
}

/// The kebab-case bare name of a definition written like `Class Blob`.
pub open spec fn spec_interface_name(js: Seq<char>) -> Result<Seq<char>, ConvErr> {
    match interface_split(js) {
        Some((_, bare)) => Ok(kebab_case(bare)),
        None => Err(ConvErr::WrongFormat),
    }
}

/// The name of an interface or resource: the kebab case of the bare name of a
/// definition such as `Class Blob`; other names are a `WrongFormatErr`.
pub fn wit_gen_interface_name(js_type_name: &JsTypeString) -> (r: Result<
    WitTypeString,
    Js2WitConvertErr,
>)
    requires
        name_sliceable(js_type_name.0@),
    ensures
        outcome(r) == spec_interface_name(js_type_name.0@),
{
    if let Some((_, sliced)) = get_interface_name_from_js_type(js_type_name) {
        Ok(WitTypeString(to_kebab_case(sliced)))
    } else {
        Err(Js2WitConvertErr::WrongFormatErr)
    }
}

/// `@version`, or nothing.
pub open spec fn version_suffix(v: Option<Seq<char>>) -> Seq<char> {
    match v {
        Some(t) => "@"@ + t,
        None => Seq::empty(),
    }
}

/// The text of an optional WIT version.
pub open spec fn opt_wit(v: Option<&WitTypeString>) -> Option<Seq<char>> {
    match v {
        Some(w) => Some(w.0@),
        None => None,
    }
}

/// `@version`, or nothing.
fn version_string(wit_version: Option<&WitTypeString>) -> (r: String)
    ensures
        r@ == version_suffix(opt_wit(wit_version)),
{
    match wit_version {
        Some(version) => {
            let mut r = to_owned_string("@");
            r.append(version.0.as_str());
            r
        },
        None => String::new(),
    }
}

/// `package prefix:service@version`.
pub fn wit_gen_package_name(
    prefix: &str,
    target_service: &ApiService,
    wit_version: Option<&WitTypeString>,
) -> (r: WitTypeString)
    ensures
        r.0@ == "package "@ + prefix@ + ":"@ + target_service.service_name@ + version_suffix(
            opt_wit(wit_version),
        ),
{
    let mut text = surround("package ", prefix, ":");
    text.append(target_service.service_name.as_str());
    let v = version_string(wit_version);
    text.append(v.as_str());
    WitTypeString(text)
}

/// `use prefix:service/interface@version`, the interface named in kebab case.
pub fn wit_gen_service_use(
    prefix: &str,
    target_service: &JsTypeString,
    target_interface: &JsTypeString,
    wit_version: Option<&WitTypeString>,
) -> (r: Result<WitTypeString, Js2WitConvertErr>)
    requires
        name_sliceable(target_interface.0@),
    ensures
        outcome(r) == match spec_interface_name(target_interface.0@) {
            Ok(a) => Ok(
                "use "@ + prefix@ + ":"@ + target_service.0@ + "/"@ + a + version_suffix(
                    opt_wit(wit_version),
                ),
            ),
            Err(e) => Err(e),
        },
{
    let a = wit_gen_interface_name(target_interface)?;
    let mut text = surround("use ", prefix, ":");
    text.append(target_service.0.as_str());
    text.append("/");
    text.append(a.0.as_str());
    let v = version_string(wit_version);
    text.append(v.as_str());
    Ok(WitTypeString(text))
}

/// `use name.{name}`, the resource named in kebab case.
pub fn wit_gen_interface_use(target_resource: &JsTypeString) -> (r: Result<
    WitTypeString,
    Js2WitConvertErr,
>)
    requires
        name_sliceable(target_resource.0@),
    ensures
        outcome(r) == match spec_interface_name(target_resource.0@) {
            Ok(a) => Ok("use "@ + a + ".{"@ + a + "}"@),
            Err(e) => Err(e),
        },
{
    let a = wit_gen_interface_name(target_resource)?;
    Ok(WitTypeString(use_text(a.0.as_str())))
}

/// A list type converts as its element type does, its text wrapped in
/// `list<..>`: success stays success, the non-primitive types stay the same,
/// and any other error becomes a syntax error.
pub proof fn law_list_conversion(name: Seq<char>, has_url: bool)
    ensures
        spec_convert_type(name + seq!['[', ']'], has_url) == list_of(
            spec_convert_type(name, has_url),
        ),
{
    let n2 = name + seq!['[', ']'];
    let last = n2.len() - 1;
    assert(n2[last] == ']');
    reveal_strlit("String");
    reveal_strlit("Boolean");
    reveal_strlit("Byte");
    reveal_strlit("Number");
    reveal_strlit("Integer");
    reveal_strlit("void");
    reveal_strlit("Object");
    reveal_strlit("Date");
    assert(primitive_wit(n2) is None);
    assert(!is_ident_char(n2[last]));
    assert(!all_ident_chars(n2));
    assert(is_list_name(n2));
    assert(list_element(n2) =~= name);
    lemma_convert_non_ident(n2, has_url);
}

/// The non-primitive types that a conversion reports: those listed in a
/// `NotPrimitiveType`, none otherwise.
pub open spec fn reported(r: Result<Seq<char>, ConvErr>) -> Seq<Seq<char>> {
    match r {
        Err(ConvErr::NotPrimitive { unknown, .. }) => unknown,
        _ => Seq::empty(),
    }
}

/// The text that a conversion made: that of a success or of a `NotPrimitiveType`.
pub open spec fn made_text(r: Result<Seq<char>, ConvErr>) -> Seq<char> {
    match r {
        Ok(t) => t,
        Err(ConvErr::NotPrimitive { text, .. }) => text,
        _ => Seq::empty(),
    }
}

/// A conversion that can be written reports exactly the types it was given,
/// and succeeds exactly when there are none.
proof fn lemma_text_with_unknowns(text: Seq<char>, unknown: Seq<Seq<char>>)
    ensures
        reported(text_with_unknowns(text, unknown)) == unknown,
        made_text(text_with_unknowns(text, unknown)) == text,
        text_with_unknowns(text, unknown) is Ok <==> unknown.len() == 0,
        text_with_unknowns(text, unknown) is Ok || text_with_unknowns(text, unknown) is Err
            && text_with_unknowns(text, unknown)->Err_0 is NotPrimitive,
{
    if unknown.len() == 0 {
        assert(unknown =~= Seq::<Seq<char>>::empty());
    }
}

/// A method converts as its parts do. A parameter list that cannot be written
/// makes it a `ParameterStringErr`; otherwise a return type that cannot be
/// written makes it a `ReturnStringErr`. Otherwise it reports exactly the
/// types that converting its parameters reports, followed by those that
/// converting its return type reports, whatever the return type's shape; it
/// succeeds exactly when both conversions do; and its text is its name (the
/// part before `(`) in kebab case, `: `, and the signature made of the two
/// texts.
pub proof fn law_method_conversion(m: Method)
    ensures
        ({
            let ps = spec_parameters(m.parameters@);
            let rt = spec_convert_type(m.return_type.name@, m.return_type.url is Some);
            let f = spec_func_def(m);
            &&& ps == Err::<Seq<char>, ConvErr>(ConvErr::ParameterString) ==> f == Err::<
                Seq<char>,
                ConvErr,
            >(ConvErr::ParameterString)
            &&& ps != Err::<Seq<char>, ConvErr>(ConvErr::ParameterString) && rt == Err::<
                Seq<char>,
                ConvErr,
            >(ConvErr::Syntax) ==> f == Err::<Seq<char>, ConvErr>(ConvErr::ReturnString)
            &&& ps != Err::<Seq<char>, ConvErr>(ConvErr::ParameterString) && rt != Err::<
                Seq<char>,
                ConvErr,
            >(ConvErr::Syntax) ==> {
                &&& reported(f) == reported(ps) + reported(rt)
                &&& (f is Ok <==> ps is Ok && rt is Ok)
                &&& made_text(f) == kebab_case(before_first(m.name@, '(')) + ": "@
                    + func_signature(made_text(ps), made_text(rt))
            }
        }),
{
    let n = m.return_type.name@;
    let u = m.return_type.url is Some;
    let pt = params_text(m.parameters@);
    let pu = params_unknowns(m.parameters@);
    lemma_text_with_unknowns(pt, pu);
    lemma_text_with_unknowns(type_text(n, u), type_unknowns(n, u));
    lemma_text_with_unknowns(method_text(m), method_unknowns(m));
}

/// A method whose return type is `T[]` converts as the same method returning
/// `T` does, as far as what it reports goes: the same non-primitive types, and
/// success exactly when that one succeeds.
pub proof fn law_list_return(m1: Method, m2: Method)
    requires
        m2.name@ == m1.name@,
        m2.parameters@ == m1.parameters@,
        (m2.return_type.url is Some) == (m1.return_type.url is Some),
        m2.return_type.name@ == m1.return_type.name@ + seq!['[', ']'],
        method_convertible(m1),
    ensures
        method_convertible(m2),
        reported(spec_func_def(m2)) == reported(spec_func_def(m1)),
        spec_func_def(m2) is Ok <==> spec_func_def(m1) is Ok,
{
    let u = m1.return_type.url is Some;
    let n1 = m1.return_type.name@;
    law_list_conversion(n1, u);
    lemma_text_with_unknowns(type_text(n1, u), type_unknowns(n1, u));
    assert(spec_convert_type(m2.return_type.name@, u) == list_of(spec_convert_type(n1, u)));
    assert(type_convertible(m2.return_type.name@, u));
    law_method_conversion(m1);
    law_method_conversion(m2);
    lemma_text_with_unknowns(params_text(m1.parameters@), params_unknowns(m1.parameters@));
}

/// A method that can be written reports the types that it names.
pub proof fn lemma_reported_func_def(m: Method)
    requires
        method_convertible(m),
    ensures
        reported(spec_func_def(m)) == method_unknowns(m),
        reported(spec_func_def(m)) == reported(spec_parameters(m.parameters@)) + reported(
            spec_convert_type(m.return_type.name@, m.return_type.url is Some),
        ),
{
    law_method_conversion(m);
    lemma_text_with_unknowns(method_text(m), method_unknowns(m));
}

} // verus!
