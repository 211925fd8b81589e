//! The description of a tool, as an upstream server lists it.
use vstd::prelude::*;

verus! {

/// One tool of a `tools/list` answer. `input_schema` is the canonical JSON
/// text of the tool's input schema.
#[derive(Debug, PartialEq, Eq)]
pub struct Tool {
    pub name: String,
    pub description: Option<String>,
    pub input_schema: String,
}

/// The mathematical value of a [`Tool`].
pub struct ToolView {
    pub name: Seq<char>,
    pub description: Option<Seq<char>>,
    pub input_schema: Seq<char>,
}

/// The characters of an optional text.
pub open spec fn opt_text(s: Option<String>) -> Option<Seq<char>> {
    match s {
        Some(t) => Some(t@),
        None => None,
    }
}

impl View for Tool {
    type V = ToolView;

    open spec fn view(&self) -> ToolView {
        ToolView {
            name: self.name@,
            description: opt_text(self.description),
            input_schema: self.input_schema@,
        }
    }
}

/// The values of a list of tools.
pub open spec fn tools_view(tools: Seq<Tool>) -> Seq<ToolView> {
    Seq::new(tools.len(), |i: int| tools[i]@)
}

/// A copy of an optional text.
pub fn clone_opt_text(s: &Option<String>) -> (res: Option<String>)
    ensures
        opt_text(res) == opt_text(*s),
{
    match s {
        Some(t) => Some(t.clone()),
        None => None,
    }
}

impl Clone for Tool {
    fn clone(&self) -> (res: Tool)
        ensures
            res@ == self@,
    {
        Tool {
            name: self.name.clone(),
            description: clone_opt_text(&self.description),
            input_schema: self.input_schema.clone(),
        }
    }
}

impl Tool {
    /// A tool with the given name, description and input schema text.
    pub fn new(name: &str, description: Option<&str>, input_schema: &str) -> (res: Tool)
        ensures
            res@.name == name@,
            res@.description == match description {
                Some(d) => Some(d@),
                None => None,
            },
            res@.input_schema == input_schema@,
    {
        let description = match description {
            Some(d) => Some(d.to_owned()),
            None => None,
        };
        Tool { name: name.to_owned(), description, input_schema: input_schema.to_owned() }
    }
}

/// A copy of a list of tools.
pub fn clone_tools(tools: &Vec<Tool>) -> (res: Vec<Tool>)
    ensures
        tools_view(res@) == tools_view(tools@),
{
    let mut out: Vec<Tool> = Vec::new();
    let mut i: usize = 0;
    while i < tools.len()
        invariant
            i <= tools.len(),
            out.len() == i,
            forall|k: int| 0 <= k < i ==> out@[k]@ == tools@[k]@,
        decreases tools.len() - i,
    {
        out.push(tools[i].clone());
        i += 1;
    }
    assert(tools_view(out@) =~= tools_view(tools@));
    out
}

} // verus!
