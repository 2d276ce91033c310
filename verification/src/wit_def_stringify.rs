use vstd::prelude::*;

use crate::casing::{kebab_case, to_kebab_case};
use crate::text::{frame_strings, join_strings, to_owned_string, views_of};
use crate::wit::use_text;
use crate::text::frame_each;
use crate::wit_def::{
    const_body, data_text, definition_text, enum_body, file_text, interface_text, package_line,
    package_string, req_texts, resource_body, use_line, TypeRequirements, WitDataType, WitDefFile,
    WitInterface,
};

verus! {

/// The body of an interface, with the names of enums, enum members and
/// resources in kebab case.
pub open spec fn kebab_data_text(d: WitDataType) -> Seq<char> {
    match d {
        WitDataType::WitInterfaceConst(c) => const_body(views_of(c.func_defines@)),
        WitDataType::WitInterfaceEnum(e) => enum_body(
            kebab_case(e.name@),
            views_of(e.enum_members@).map_values(|m: Seq<char>| kebab_case(m)),
        ),
        WitDataType::WitInterfaceResource(r) => resource_body(
            kebab_case(r.name@),
            views_of(r.func_defines@),
        ),
    }
}

/// The text of a WIT file, with interface, enum, member and resource names
/// in kebab case.
pub open spec fn kebab_definition_text(f: WitDefFile) -> Seq<char> {
    file_text(
        f,
        f.defined_interfaces@.map_values(
            |i: WitInterface|
                interface_text(kebab_case(i.name@), i.deps_uses@, kebab_data_text(i.inner_data)),
        ),
    )
}

/// The text of a WIT file, names in kebab case: the package line, the
/// service-wide uses, then each interface, joined by line breaks.
pub fn generate_wit_definition_string(wit_def_file: &WitDefFile) -> (r: String)
    ensures
        r@ == kebab_definition_text(*wit_def_file),
{
    let mut rlist: Vec<String> = Vec::new();
    rlist.push(package_string(wit_def_file));
    let mut i: usize = 0;
    while i < wit_def_file.deps_uses.len()
        invariant
            i <= wit_def_file.deps_uses@.len(),
            rlist@.len() == 1 + i,
            rlist@[0]@ == package_line(*wit_def_file),
            forall|j: int|
                0 <= j < i ==> #[trigger] rlist@[1 + j]@ == wit_def_file.deps_uses@[j]@ + ";"@,
        decreases wit_def_file.deps_uses@.len() - i,
    {
        let mut line = wit_def_file.deps_uses[i].clone();
        line.append(";");
        rlist.push(line);
        i = i + 1;
    }
    let n = wit_def_file.deps_uses.len();
    let mut k: usize = 0;
    while k < wit_def_file.defined_interfaces.len()
        invariant
            n == wit_def_file.deps_uses@.len(),
            k <= wit_def_file.defined_interfaces@.len(),
            rlist@.len() == 1 + n + k,
            rlist@[0]@ == package_line(*wit_def_file),
            forall|j: int| 0 <= j < n ==> #[trigger] rlist@[1 + j]@ == wit_def_file.deps_uses@[j]@ + ";"@,
            forall|j: int|
                0 <= j < k ==> #[trigger] rlist@[1 + n + j]@ == interface_text(
                    kebab_case(wit_def_file.defined_interfaces@[j].name@),
                    wit_def_file.defined_interfaces@[j].deps_uses@,
                    kebab_data_text(wit_def_file.defined_interfaces@[j].inner_data),
                ),
        decreases wit_def_file.defined_interfaces@.len() - k,
    {
        rlist.push(generate_wit_interface_string(&wit_def_file.defined_interfaces[k]));
        k = k + 1;
    }
    let r = join_strings(&rlist, "\n");
    proof {
        let f = *wit_def_file;
        let deps = views_of(f.deps_uses@).map_values(|d: Seq<char>| d + ";"@);
        let ifs = f.defined_interfaces@.map_values(
            |i: WitInterface|
                interface_text(kebab_case(i.name@), i.deps_uses@, kebab_data_text(i.inner_data)),
        );
        let lines = seq![package_line(f)] + deps + ifs;
        assert forall|j: int| 0 <= j < lines.len() implies #[trigger] views_of(rlist@)[j]
            == lines[j] by {
            if j == 0 {
            } else if j < 1 + n {
                assert(lines[j] == deps[j - 1]);
                assert(rlist@[1 + (j - 1)]@ == f.deps_uses@[j - 1]@ + ";"@);
            } else {
                assert(lines[j] == ifs[j - 1 - n]);
                assert(rlist@[1 + n + (j - 1 - n)]@ == ifs[j - 1 - n]);
            }
        }
        assert(views_of(rlist@) =~= lines);
    }
    r
}

/// An interface, its name in kebab case: `interface name {`, its uses, its
/// body, `}`.
fn generate_wit_interface_string(wit_interface: &WitInterface) -> (r: String)
    ensures
        r@ == interface_text(
            kebab_case(wit_interface.name@),
            wit_interface.deps_uses@,
            kebab_data_text(wit_interface.inner_data),
        ),
{
    let uses = generate_wit_uses(&wit_interface.deps_uses);
    let uses_block = frame_strings(&uses, "    ", ";\n");
    let body = generate_wit_inner_struct(&wit_interface.inner_data);
    let name = to_kebab_case(wit_interface.name.as_str());
    let mut r = to_owned_string("interface ");
    r.append(name.as_str());
    r.append(" {\n");
    r.append(uses_block.as_str());
    r.append("\n");
    r.append(body.as_str());
    r.append("\n}\n");
    r
}

/// The use lines of an interface: `use name.{name}` in kebab case.
fn generate_wit_uses(deps_uses: &Vec<TypeRequirements>) -> (r: Vec<String>)
    ensures
        views_of(r@) == req_texts(deps_uses@).map_values(|t: Seq<char>| use_line(t)),
{
    let mut r: Vec<String> = Vec::new();
    let mut i: usize = 0;
    while i < deps_uses.len()
        invariant
            i <= deps_uses@.len(),
            r@.len() == i,
            forall|j: int| 0 <= j < i ==> #[trigger] r@[j]@ == use_line(deps_uses@[j].0@),
        decreases deps_uses@.len() - i,
    {
        let aa = to_kebab_case(deps_uses[i].0.as_str());
        r.push(use_text(aa.as_str()));
        i = i + 1;
    }
    assert(views_of(r@) =~= req_texts(deps_uses@).map_values(|t: Seq<char>| use_line(t)));
    r
}

/// Each string in kebab case.
fn kebab_all(v: &Vec<String>) -> (r: Vec<String>)
    ensures
        views_of(r@) == views_of(v@).map_values(|m: Seq<char>| kebab_case(m)),
{
    let mut r: Vec<String> = Vec::new();
    let mut i: usize = 0;
    while i < v.len()
        invariant
            i <= v@.len(),
            r@.len() == i,
            forall|j: int| 0 <= j < i ==> #[trigger] r@[j]@ == kebab_case(v@[j]@),
        decreases v@.len() - i,
    {
        r.push(to_kebab_case(v[i].as_str()));
        i = i + 1;
    }
    assert(views_of(r@) =~= views_of(v@).map_values(|m: Seq<char>| kebab_case(m)));
    r
}

/// The body of an interface, enum, member and resource names in kebab case.
fn generate_wit_inner_struct(wit_data_type: &WitDataType) -> (r: String)
    ensures
        r@ == kebab_data_text(*wit_data_type),
{
    match wit_data_type {
        WitDataType::WitInterfaceConst(inner) => {
            let funcs = frame_strings(&inner.func_defines, "    ", ";\n");
            let mut r = to_owned_string("\n");
            r.append(funcs.as_str());
            r.append("\n");
            r
        },
        WitDataType::WitInterfaceEnum(inner) => {
            let kebab_members = kebab_all(&inner.enum_members);
            let members = frame_strings(&kebab_members, "        ", ",\n");
            let name = to_kebab_case(inner.name.as_str());
            let mut r = to_owned_string("\n    enum ");
            r.append(name.as_str());
            r.append(" {\n");
            r.append(members.as_str());
            r.append("\n    }\n");
            r
        },
        WitDataType::WitInterfaceResource(inner) => {
            let funcs = frame_strings(&inner.func_defines, "        ", ";\n");
            let name = to_kebab_case(inner.name.as_str());
            let mut r = to_owned_string("\n    resource ");
            r.append(name.as_str());
            r.append(" {\n");
            r.append(funcs.as_str());
            r.append("\n    }\n");
            r
        },
    }
}

/// The text is its own kebab case.
pub open spec fn kebab_fixed(s: Seq<char>) -> bool {
    kebab_case(s) == s
}

/// The names that the kebab rendering of an interface body changes are
/// already in kebab case.
pub open spec fn data_names_fixed(d: WitDataType) -> bool {
    match d {
        WitDataType::WitInterfaceConst(_) => true,
        WitDataType::WitInterfaceEnum(e) => kebab_fixed(e.name@) && forall|k: int|
            0 <= k < e.enum_members@.len() ==> kebab_fixed(#[trigger] e.enum_members@[k]@),
        WitDataType::WitInterfaceResource(r) => kebab_fixed(r.name@),
    }
}

/// The two renderings of an interface body differ only in kebab-casing the
/// names of resources, enums and enum members: a function list reads the same
/// in both, and a body whose names are already in kebab case reads the same.
pub proof fn law_kebab_body_keeps_functions(d: WitDataType)
    ensures
        d is WitInterfaceConst ==> kebab_data_text(d) == data_text(d),
        data_names_fixed(d) ==> kebab_data_text(d) == data_text(d),
{
    if let WitDataType::WitInterfaceEnum(e) = d {
        if data_names_fixed(d) {
            let vs = views_of(e.enum_members@);
            assert(vs.map_values(|m: Seq<char>| kebab_case(m)) =~= vs);
        }
    }
}

/// Each part framed, laid end to end, is the concatenation of the framed parts.
pub proof fn lemma_frame_each_lines(parts: Seq<Seq<char>>, pre: Seq<char>, post: Seq<char>)
    ensures
        frame_each(parts, pre, post) == parts.map_values(|p: Seq<char>| pre + p + post).flatten(),
    decreases parts.len(),
{
    let lines = parts.map_values(|p: Seq<char>| pre + p + post);
    lines.lemma_flatten_and_flatten_alt_are_equivalent();
    if parts.len() > 0 {
        lemma_frame_each_lines(parts.drop_last(), pre, post);
        assert(lines.drop_last() =~= parts.drop_last().map_values(|p: Seq<char>| pre + p + post));
        lines.drop_last().lemma_flatten_and_flatten_alt_are_equivalent();
        assert(lines.last() == pre + parts.last() + post);
        assert(frame_each(parts, pre, post) =~= frame_each(parts.drop_last(), pre, post) + (pre
            + parts.last() + post));
    }
}

/// In the kebab rendering, every function of a function list or of a resource
/// stands on a line of its own, indented and ended by `;`, in order: a
/// function list as four spaces, the function and `;` per line between two
/// empty lines; a resource as `resource name {`, eight spaces, the function
/// and `;` per line, and `}`.
pub proof fn law_one_function_per_line(d: WitDataType)
    ensures
        d matches WitDataType::WitInterfaceConst(c) ==> kebab_data_text(d) == "\n"@
            + views_of(c.func_defines@).map_values(|f: Seq<char>| "    "@ + f + ";\n"@).flatten()
            + "\n"@,
        d matches WitDataType::WitInterfaceResource(r) ==> kebab_data_text(d) == "\n    resource "@
            + kebab_case(r.name@) + " {\n"@ + views_of(r.func_defines@).map_values(
            |f: Seq<char>| "        "@ + f + ";\n"@,
        ).flatten() + "\n    }\n"@,
{
    match d {
        WitDataType::WitInterfaceConst(c) => {
            lemma_frame_each_lines(views_of(c.func_defines@), "    "@, ";\n"@);
        },
        WitDataType::WitInterfaceResource(r) => {
            lemma_frame_each_lines(views_of(r.func_defines@), "        "@, ";\n"@);
        },
        WitDataType::WitInterfaceEnum(_) => {},
    }
}

/// A WIT file whose interface, resource, enum and member names are already in
/// kebab case reads the same in both renderings.
pub proof fn law_kebab_file_of_kebab_names(f: WitDefFile)
    requires
        forall|i: int|
            0 <= i < f.defined_interfaces@.len() ==> kebab_fixed(
                #[trigger] f.defined_interfaces@[i].name@,
            ) && data_names_fixed(f.defined_interfaces@[i].inner_data),
    ensures
        kebab_definition_text(f) == definition_text(f),
{
    let ifs = f.defined_interfaces@;
    let a = ifs.map_values(
        |i: WitInterface|
            interface_text(kebab_case(i.name@), i.deps_uses@, kebab_data_text(i.inner_data)),
    );
    let b = ifs.map_values(
        |i: WitInterface| interface_text(i.name@, i.deps_uses@, data_text(i.inner_data)),
    );
    assert forall|k: int| 0 <= k < ifs.len() implies a[k] == b[k] by {
        law_kebab_body_keeps_functions(ifs[k].inner_data);
    }
    assert(a =~= b);
}

} // verus!
