use vstd::prelude::*;

verus! {

/// A service of the Google Apps Script API, as its JSON definition describes it.
#[derive(Debug)]
pub struct ApiService {
    pub service_name: String,
    pub url: String,
    pub classes: Vec<Class>,
}

/// A class, interface or enum of a service. Its name carries the kind as a
/// prefix: `Class Blob`, `Interface BlobSource`, `Enum Access`.
#[derive(Debug)]
pub struct Class {
    pub name: String,
    pub url: String,
    pub description: String,
    pub methods: Vec<Method>,
    pub enum_members: Vec<EnumMember>,
    pub implementing_classes: Vec<String>,
}

/// A method; its name is written as a call, such as `copyBlob()`.
#[derive(Debug)]
pub struct Method {
    pub name: String,
    pub description: String,
    pub return_type: ReturnType,
    pub parameters: Vec<Parameter>,
}

#[derive(Debug)]
pub struct Parameter {
    pub name: String,
    pub param_type: Type,
    pub description: String,
}

/// The type of a parameter. A type without a documentation URL may be primitive.
#[derive(Debug)]
pub struct Type {
    pub name: String,
    pub url: Option<String>,
}

/// The type that a method returns.
#[derive(Debug)]
pub struct ReturnType {
    pub name: String,
    pub url: Option<String>,
}

#[derive(Debug)]
pub struct EnumMember {
    pub name: String,
    pub description: String,
}

/// The text of an optional string.
pub open spec fn opt_text(o: Option<String>) -> Option<Seq<char>> {
    match o {
        Some(s) => Some(s@),
        None => None,
    }
}

/// A copy of an optional string.
pub fn clone_opt_string(o: &Option<String>) -> (r: Option<String>)
    ensures
        r == *o,
{
    match o {
        Some(s) => Some(s.clone()),
        None => None,
    }
}

/// What is read of a type, whether of a parameter or of a return value:
/// its name and its documentation URL.
pub trait TypeTrait {
    spec fn name_text(&self) -> Seq<char>;

    spec fn url_text(&self) -> Option<Seq<char>>;

    fn get_name(&self) -> (r: String)
        ensures
            r@ == self.name_text(),
    ;

    fn get_url(&self) -> (r: Option<String>)
        ensures
            opt_text(r) == self.url_text(),
    ;
}

impl TypeTrait for Type {
    open spec fn name_text(&self) -> Seq<char> {
        self.name@
    }

    open spec fn url_text(&self) -> Option<Seq<char>> {
        opt_text(self.url)
    }

    fn get_name(&self) -> (r: String) {
        self.name.clone()
    }

    fn get_url(&self) -> (r: Option<String>) {
        clone_opt_string(&self.url)
    }
}

impl TypeTrait for ReturnType {
    open spec fn name_text(&self) -> Seq<char> {
        self.name@
    }

    open spec fn url_text(&self) -> Option<Seq<char>> {
        opt_text(self.url)
    }

    fn get_name(&self) -> (r: String) {
        self.name.clone()
    }

    fn get_url(&self) -> (r: Option<String>) {
        clone_opt_string(&self.url)
    }
}

} // verus!
