use vstd::prelude::*;

use crate::json_struct::{ApiService, Class};
use crate::text::{has_prefix, starts_with};
use crate::wit::JsTypeString;

verus! {

/// Where a type is defined: the name of the service and the full name of the
/// class (`Class File`, ...).
#[derive(Debug)]
pub struct TypeDefineLocation {
    pub service: JsTypeString,
    pub class: JsTypeString,
}

/// The kind of a definition, as the prefix of its name tells it.
#[derive(Debug, Clone, Copy, PartialEq, Eq, Structural)]
pub enum InterfaceType {
    Interface,
    Class,
    Enum,
}

/// The kind of a definition and its bare name: `Class Blob` gives `Blob`.
/// The bare name is what follows the prefix and one more character (the
/// space of `Class Blob`); a name with none of the three prefixes has none.
pub open spec fn interface_split(s: Seq<char>) -> Option<(InterfaceType, Seq<char>)> {
    if has_prefix(s, "Class"@) {
        Some((InterfaceType::Class, s.subrange(6, s.len() as int)))
    } else if has_prefix(s, "Enum"@) {
        Some((InterfaceType::Enum, s.subrange(5, s.len() as int)))
    } else if has_prefix(s, "Interface"@) {
        Some((InterfaceType::Interface, s.subrange(10, s.len() as int)))
    } else {
        None
    }
}

/// The bare name can be cut out of `s`: the name cuts it at a byte offset
/// right after the prefix and one more character, so that character must
/// exist and be one byte long (ASCII).
pub open spec fn name_sliceable(s: Seq<char>) -> bool {
    if has_prefix(s, "Class"@) {
        s.len() >= 6 && (s[5] as int) < 128
    } else if has_prefix(s, "Enum"@) {
        s.len() >= 5 && (s[4] as int) < 128
    } else if has_prefix(s, "Interface"@) {
        s.len() >= 10 && (s[9] as int) < 128
    } else {
        true
    }
}

/// The class `c` defines the type named `t`.
pub open spec fn self_type(c: Class, t: Seq<char>) -> bool {
    match interface_split(c.name@) {
        Some((_, rest)) => rest == t,
        None => false,
    }
}

/// Some class of `s` defines the type named `t`.
pub open spec fn service_has(s: ApiService, t: Seq<char>) -> bool {
    exists|k: int| 0 <= k < s.classes@.len() && self_type(#[trigger] s.classes@[k], t)
}

/// Some service of `ss` defines the type named `t`.
pub open spec fn in_some_service(ss: Seq<ApiService>, t: Seq<char>) -> bool {
    exists|i: int| 0 <= i < ss.len() && service_has(#[trigger] ss[i], t)
}

/// A search for `t` through `cs`, which stops at the first class that
/// defines it, reads only names that can be cut.
pub open spec fn class_scan_ok(cs: Seq<Class>, t: Seq<char>) -> bool {
    forall|j: int|
        0 <= j < cs.len() && !name_sliceable(#[trigger] cs[j].name@) ==> exists|k: int|
            0 <= k < j && self_type(#[trigger] cs[k], t)
}

/// A search for `t` through the services `ss`, which stops at the first
/// class that defines it, reads only names that can be cut.
pub open spec fn services_scan_ok(ss: Seq<ApiService>, t: Seq<char>) -> bool {
    forall|i: int|
        0 <= i < ss.len() && (forall|p: int| 0 <= p < i ==> !service_has(#[trigger] ss[p], t))
            ==> class_scan_ok(#[trigger] ss[i].classes@, t)
}

/// Class `ci` of service `si` is the first definition of `t`: no earlier
/// service defines it, and no earlier class of that service.
pub open spec fn first_match(ss: Seq<ApiService>, t: Seq<char>, si: int, ci: int) -> bool {
    &&& 0 <= si < ss.len()
    &&& 0 <= ci < ss[si].classes@.len()
    &&& self_type(ss[si].classes@[ci], t)
    &&& forall|p: int| 0 <= p < si ==> !service_has(#[trigger] ss[p], t)
    &&& forall|k: int| 0 <= k < ci ==> !self_type(#[trigger] ss[si].classes@[k], t)
}

/// Finds the first class, in the order of the services and of their classes,
/// that defines the type `js_type`, and says where it is.
pub fn find_type_define_location(self_service_set: &[ApiService], js_type: &JsTypeString) -> (r:
    Option<TypeDefineLocation>)
    requires
        services_scan_ok(self_service_set@, js_type.0@),
    ensures
        r is None <==> !in_some_service(self_service_set@, js_type.0@),
        r matches Some(loc) ==> exists|si: int, ci: int|
            first_match(self_service_set@, js_type.0@, si, ci) && loc.service.0@
                == self_service_set@[si].service_name@ && loc.class.0@
                == #[trigger] self_service_set@[si].classes@[ci].name@,
        r matches Some(loc) ==> name_sliceable(loc.class.0@) && (interface_split(loc.class.0@)
            matches Some((_, rest)) && rest == js_type.0@),
{
    let ghost ss = self_service_set@;
    let ghost t = js_type.0@;
    let mut i: usize = 0;
    while i < self_service_set.len()
        invariant
            ss == self_service_set@,
            t == js_type.0@,
            i <= ss.len(),
            services_scan_ok(ss, t),
            forall|p: int| 0 <= p < i ==> !service_has(#[trigger] ss[p], t),
        decreases ss.len() - i,
    {
        let classes = &self_service_set[i].classes;
        assert(class_scan_ok(ss[i as int].classes@, t));
        let mut j: usize = 0;
        while j < classes.len()
            invariant
                ss == self_service_set@,
                t == js_type.0@,
                i < ss.len(),
                classes@ == ss[i as int].classes@,
                j <= classes@.len(),
                class_scan_ok(classes@, t),
                forall|p: int| 0 <= p < i ==> !service_has(#[trigger] ss[p], t),
                forall|k: int| 0 <= k < j ==> !self_type(#[trigger] classes@[k], t),
            decreases classes@.len() - j,
        {
            proof {
                if !name_sliceable(classes@[j as int].name@) {
                    let k = choose|k: int| 0 <= k < j && self_type(#[trigger] classes@[k], t);
                    assert(self_type(classes@[k], t));
                }
            }
            if is_self_type(&classes[j], js_type) {
                let loc = TypeDefineLocation {
                    service: JsTypeString(self_service_set[i].service_name.clone()),
                    class: JsTypeString(classes[j].name.clone()),
                };
                assert(first_match(ss, t, i as int, j as int));
                return Some(loc);
            }
            j = j + 1;
        }
        i = i + 1;
    }
    assert forall|p: int| 0 <= p < ss.len() implies !service_has(#[trigger] ss[p], t) by {}
    None
}

/// The kind of a definition and its bare name, for names written in the
/// fixed format `Class Blob`, `Enum Access`, `Interface BlobSource`.
pub fn get_interface_name_from_js_type(js_type: &JsTypeString) -> (r: Option<(InterfaceType, &str)>)
    requires
        name_sliceable(js_type.0@),
    ensures
        match r {
            Some((kind, bare)) => interface_split(js_type.0@) == Some((kind, bare@)),
            None => interface_split(js_type.0@) is None,
        },
{
    let s = js_type.0.as_str();
    let n = s.unicode_len();
    proof {
        reveal_strlit("Class");
        reveal_strlit("Enum");
        reveal_strlit("Interface");
    }
    if starts_with(s, "Class") {
        Some((InterfaceType::Class, s.substring_char(6, n)))
    } else if starts_with(s, "Enum") {
        Some((InterfaceType::Enum, s.substring_char(5, n)))
    } else if starts_with(s, "Interface") {
        Some((InterfaceType::Interface, s.substring_char(10, n)))
    } else {
        None
    }
}

/// Whether the class `self_class` defines the type named `js_type`.
pub fn is_self_type(self_class: &Class, js_type: &JsTypeString) -> (r: bool)
    requires
        name_sliceable(self_class.name@),
    ensures
        r == self_type(*self_class, js_type.0@),
{
    let own = JsTypeString(self_class.name.clone());
    if let Some((_, sliced)) = get_interface_name_from_js_type(&own) {
        crate::text::str_eq(sliced, js_type.0.as_str())
    } else {
        false
    }
}

/// Whether some class of `self_service` defines the type named `js_type`.
pub fn is_in_same_service(self_service: &ApiService, js_type: &JsTypeString) -> (r: bool)
    requires
        class_scan_ok(self_service.classes@, js_type.0@),
    ensures
        r == service_has(*self_service, js_type.0@),
{
    let classes = &self_service.classes;
    let mut j: usize = 0;
    while j < classes.len()
        invariant
            classes@ == self_service.classes@,
            j <= classes@.len(),
            class_scan_ok(classes@, js_type.0@),
            forall|k: int| 0 <= k < j ==> !self_type(#[trigger] classes@[k], js_type.0@),
        decreases classes@.len() - j,
    {
        proof {
            if !name_sliceable(classes@[j as int].name@) {
                let k = choose|k: int| 0 <= k < j && self_type(#[trigger] classes@[k], js_type.0@);
                assert(self_type(classes@[k], js_type.0@));
            }
        }
        if is_self_type(&classes[j], js_type) {
            return true;
        }
        j = j + 1;
    }
    false
}

/// Whether some class of some service of `self_service_set` defines the type
/// named `js_type`.
pub fn is_in_somewhere_service(self_service_set: &[ApiService], js_type: &JsTypeString) -> (r:
    bool)
    requires
        services_scan_ok(self_service_set@, js_type.0@),
    ensures
        r == in_some_service(self_service_set@, js_type.0@),
{
    let ghost ss = self_service_set@;
    let mut i: usize = 0;
    while i < self_service_set.len()
        invariant
            ss == self_service_set@,
            i <= ss.len(),
            services_scan_ok(ss, js_type.0@),
            forall|p: int| 0 <= p < i ==> !service_has(#[trigger] ss[p], js_type.0@),
        decreases ss.len() - i,
    {
        assert(class_scan_ok(ss[i as int].classes@, js_type.0@));
        if is_in_same_service(&self_service_set[i], js_type) {
            return true;
        }
        i = i + 1;
    }
    false
}

/// Among the first `n` classes of `cs`, one defines `t` only if a first one
/// among them does.
proof fn lemma_first_class(cs: Seq<Class>, t: Seq<char>, n: int)
    requires
        0 <= n <= cs.len(),
        exists|k: int| 0 <= k < n && self_type(#[trigger] cs[k], t),
    ensures
        exists|k: int|
            0 <= k < n && self_type(cs[k], t) && forall|j: int|
                0 <= j < k ==> !self_type(#[trigger] cs[j], t),
    decreases n,
{
    if exists|k: int| 0 <= k < n - 1 && self_type(#[trigger] cs[k], t) {
        lemma_first_class(cs, t, n - 1);
    } else {
        assert(self_type(cs[n - 1], t));
        assert forall|j: int| 0 <= j < n - 1 implies !self_type(#[trigger] cs[j], t) by {}
    }
}

/// Among the first `n` services, one defines `t` only if a first one among
/// them does.
proof fn lemma_first_service(ss: Seq<ApiService>, t: Seq<char>, n: int)
    requires
        0 <= n <= ss.len(),
        exists|i: int| 0 <= i < n && service_has(#[trigger] ss[i], t),
    ensures
        exists|i: int|
            0 <= i < n && service_has(ss[i], t) && forall|p: int|
                0 <= p < i ==> !service_has(#[trigger] ss[p], t),
    decreases n,
{
    if exists|i: int| 0 <= i < n - 1 && service_has(#[trigger] ss[i], t) {
        lemma_first_service(ss, t, n - 1);
    } else {
        assert(service_has(ss[n - 1], t));
        assert forall|p: int| 0 <= p < n - 1 implies !service_has(#[trigger] ss[p], t) by {}
    }
}

/// A type is defined in some service exactly when it has a first definition
/// (in the order of the services and of their classes): the one that
/// `find_type_define_location` reports. So `is_in_somewhere_service` holds
/// exactly when `find_type_define_location` finds a location.
pub proof fn law_defined_iff_first_definition(ss: Seq<ApiService>, t: Seq<char>)
    ensures
        in_some_service(ss, t) <==> exists|si: int, ci: int| first_match(ss, t, si, ci),
{
    if in_some_service(ss, t) {
        lemma_first_service(ss, t, ss.len() as int);
        let si = choose|i: int|
            0 <= i < ss.len() && service_has(ss[i], t) && forall|p: int|
                0 <= p < i ==> !service_has(#[trigger] ss[p], t);
        let cs = ss[si].classes@;
        lemma_first_class(cs, t, cs.len() as int);
        let ci = choose|k: int|
            0 <= k < cs.len() && self_type(cs[k], t) && forall|j: int|
                0 <= j < k ==> !self_type(#[trigger] cs[j], t);
        assert(first_match(ss, t, si, ci));
    }
    if exists|si: int, ci: int| first_match(ss, t, si, ci) {
        let (si, ci) = choose|si: int, ci: int| first_match(ss, t, si, ci);
        assert(service_has(ss[si], t));
    }
}

/// A type that one service of a list defines is defined somewhere in the
/// list: `is_in_same_service` on a member implies `is_in_somewhere_service`.
pub proof fn law_same_service_is_somewhere(ss: Seq<ApiService>, i: int, t: Seq<char>)
    requires
        0 <= i < ss.len(),
        service_has(ss[i], t),
    ensures
        in_some_service(ss, t),
{
}

/// A definition defines the type of its bare name, whatever its kind: a class
/// defines `t` exactly when its name splits into a known prefix and the bare
/// name `t`.
pub proof fn law_bare_name_defines(c: Class, t: Seq<char>)
    ensures
        self_type(c, t) <==> (interface_split(c.name@) matches Some((_, b)) && b == t),
{
}

/// An `Interface X` entry of a service defines `X`: that service has it, the
/// services it belongs to have it somewhere, and so a search through them
/// finds a first definition of `X`.
pub proof fn law_interface_entry_defines(ss: Seq<ApiService>, si: int, ci: int)
    requires
        0 <= si < ss.len(),
        0 <= ci < ss[si].classes@.len(),
        has_prefix(ss[si].classes@[ci].name@, "Interface"@),
        ss[si].classes@[ci].name@.len() >= 10,
    ensures
        ({
            let n = ss[si].classes@[ci].name@;
            let x = n.subrange(10, n.len() as int);
            &&& interface_split(n) == Some((InterfaceType::Interface, x))
            &&& service_has(ss[si], x)
            &&& in_some_service(ss, x)
            &&& exists|i: int, j: int| first_match(ss, x, i, j)
        }),
{
    let n = ss[si].classes@[ci].name@;
    let x = n.subrange(10, n.len() as int);
    reveal_strlit("Class");
    reveal_strlit("Enum");
    reveal_strlit("Interface");
    assert(n[0] == "Interface"@[0]);
    assert(!has_prefix(n, "Class"@));
    assert(!has_prefix(n, "Enum"@));
    assert(self_type(ss[si].classes@[ci], x));
    assert(service_has(ss[si], x));
    law_defined_iff_first_definition(ss, x);
}

} // verus!
