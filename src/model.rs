use vstd::prelude::*;

verus! {

/// A named palette: `colors` maps each color slot (such as `base00`) to its
/// hex value, in the order the source file lists them. Well formed when no
/// slot name occurs twice.
pub struct Scheme {
    pub slug: String,
    pub name: String,
    pub author: String,
    pub colors: Vec<(String, String)>,
}

impl Scheme {
    pub open spec fn wf(&self) -> bool {
        forall|p: int, q: int|
            0 <= p < q < self.colors@.len() ==> #[trigger] self.colors@[p].0@
                != #[trigger] self.colors@[q].0@
    }
}

/// A text skeleton, named as its group's config lists it, with the
/// directory and file extension of what it renders.
pub struct Template {
    pub name: String,
    pub body: String,
    pub extension: String,
    pub output: String,
}

/// A template variable's value, as handed to the renderer.
pub enum Value {
    Text(String),
    Integer(i32),
}

/// The mathematical content of a `Value`.
pub enum ValueModel {
    Text(Seq<char>),
    Integer(int),
}

impl Value {
    pub open spec fn model(&self) -> ValueModel {
        match self {
            Value::Text(s) => ValueModel::Text(s@),
            Value::Integer(n) => ValueModel::Integer(*n as int),
        }
    }
}

/// The content of a variable list: names and values, in order.
pub open spec fn vars_model(vars: Seq<(String, Value)>) -> Seq<(Seq<char>, ValueModel)> {
    vars.map_values(|p: (String, Value)| (p.0@, p.1.model()))
}

} // verus!
