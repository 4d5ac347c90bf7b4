//! The workflow document model: a named, parameterized command template
//! with its metadata, its arguments, and the template rendering that
//! substitutes values for `{{placeholder}}` tokens.

use crate::text::{replace_str, replaced};
use vstd::prelude::*;
use vstd::string::*;

verus! {

/// The shells a workflow declares itself compatible with.
#[derive(Debug, PartialEq, Eq, Hash, PartialOrd)]
pub enum Shell {
    Fish,
    Bash,
    Zsh,
}

impl Clone for Shell {
    fn clone(&self) -> (r: Self)
        ensures
            r == *self,
    {
        match self {
            Shell::Fish => Shell::Fish,
            Shell::Bash => Shell::Bash,
            Shell::Zsh => Shell::Zsh,
        }
    }
}

/// A parameter that a workflow's command template can take; it is used to
/// ask the user for a value before the command is rendered.
#[derive(Debug, PartialEq, Eq, Hash)]
pub struct Argument {
    pub name: String,
    pub description: Option<String>,
    pub default_value: Option<String>,
}

/// The mathematical content of an `Argument`: its strings as character
/// sequences.
#[verifier::ext_equal]
pub struct ArgumentView {
    pub name: Seq<char>,
    pub description: Option<Seq<char>>,
    pub default_value: Option<Seq<char>>,
}

impl View for Argument {
    type V = ArgumentView;

    open spec fn view(&self) -> ArgumentView {
        ArgumentView {
            name: self.name@,
            description: self.description.deep_view(),
            default_value: self.default_value.deep_view(),
        }
    }
}

impl DeepView for Argument {
    type V = ArgumentView;

    open spec fn deep_view(&self) -> ArgumentView {
        self.view()
    }
}

fn clone_opt_string(o: &Option<String>) -> (r: Option<String>)
    ensures
        r == *o,
{
    match o {
        Some(s) => Some(s.clone()),
        None => None,
    }
}

impl Clone for Argument {
    fn clone(&self) -> (r: Self)
        ensures
            r == *self,
    {
        Argument {
            name: self.name.clone(),
            description: clone_opt_string(&self.description),
            default_value: clone_opt_string(&self.default_value),
        }
    }
}

impl Default for Argument {
    fn default() -> (r: Self)
        ensures
            r.name@ == Seq::<char>::empty(),
            r.description is None,
            r.default_value is None,
    {
        Argument { name: String::new(), description: None, default_value: None }
    }
}

impl Argument {
    pub fn new(name: &str) -> (r: Self)
        ensures
            r.name@ == name@,
            r.description is None,
            r.default_value is None,
    {
        Argument { name: name.to_owned(), description: None, default_value: None }
    }

    pub fn with_description(self, description: &str) -> (r: Self)
        ensures
            r.name == self.name,
            r.description matches Some(d) && d@ == description@,
            r.default_value == self.default_value,
    {
        let mut a = self;
        a.description = Some(description.to_owned());
        a
    }

    pub fn name(&self) -> (r: &str)
        ensures
            r@ == self.name@,
    {
        self.name.as_str()
    }

    pub fn description(&self) -> (r: &Option<String>)
        ensures
            r == self.description,
    {
        &self.description
    }

    pub fn default_value(&self) -> (r: &Option<String>)
        ensures
            r == self.default_value,
    {
        &self.default_value
    }
}

/// A named, parameterized shell command template, together with the
/// descriptive metadata its YAML document carries.
#[derive(Debug, PartialEq, Eq, Hash)]
pub struct Workflow {
    pub name: String,
    pub command: String,
    pub tags: Vec<String>,
    pub description: Option<String>,
    pub arguments: Vec<Argument>,
    pub source_url: Option<String>,
    pub author: Option<String>,
    pub author_url: Option<String>,
    pub shells: Vec<Shell>,
}

/// The mathematical content of a `Workflow`: every field as sequences and
/// options over character sequences.
#[verifier::ext_equal]
pub struct WorkflowView {
    pub name: Seq<char>,
    pub command: Seq<char>,
    pub tags: Seq<Seq<char>>,
    pub description: Option<Seq<char>>,
    pub arguments: Seq<ArgumentView>,
    pub source_url: Option<Seq<char>>,
    pub author: Option<Seq<char>>,
    pub author_url: Option<Seq<char>>,
    pub shells: Seq<Shell>,
}

impl View for Workflow {
    type V = WorkflowView;

    open spec fn view(&self) -> WorkflowView {
        WorkflowView {
            name: self.name@,
            command: self.command@,
            tags: self.tags.deep_view(),
            description: self.description.deep_view(),
            arguments: self.arguments.deep_view(),
            source_url: self.source_url.deep_view(),
            author: self.author.deep_view(),
            author_url: self.author_url.deep_view(),
            shells: self.shells@,
        }
    }
}

impl DeepView for Workflow {
    type V = WorkflowView;

    open spec fn deep_view(&self) -> WorkflowView {
        self.view()
    }
}

fn clone_strings(v: &Vec<String>) -> (r: Vec<String>)
    ensures
        r@ == v@,
{
    let mut out: Vec<String> = Vec::new();
    let mut i: usize = 0;
    while i < v.len()
        invariant
            i <= v@.len(),
            out@ =~= v@.subrange(0, i as int),
        decreases v@.len() - i,
    {
        out.push(v[i].clone());
        i += 1;
    }
    proof {
        assert(out@ =~= v@);
    }
    out
}

fn clone_shells(v: &Vec<Shell>) -> (r: Vec<Shell>)
    ensures
        r@ == v@,
{
    let mut out: Vec<Shell> = Vec::new();
    let mut i: usize = 0;
    while i < v.len()
        invariant
            i <= v@.len(),
            out@ =~= v@.subrange(0, i as int),
        decreases v@.len() - i,
    {
        out.push(v[i].clone());
        i += 1;
    }
    proof {
        assert(out@ =~= v@);
    }
    out
}

fn clone_arguments(v: &Vec<Argument>) -> (r: Vec<Argument>)
    ensures
        r@ == v@,
{
    let mut out: Vec<Argument> = Vec::new();
    let mut i: usize = 0;
    while i < v.len()
        invariant
            i <= v@.len(),
            out@ =~= v@.subrange(0, i as int),
        decreases v@.len() - i,
    {
        out.push(v[i].clone());
        i += 1;
    }
    proof {
        assert(out@ =~= v@);
    }
    out
}

impl Clone for Workflow {
    fn clone(&self) -> (r: Self)
        ensures
            r@ == self@,
    {
        let r = Workflow {
            name: self.name.clone(),
            command: self.command.clone(),
            tags: clone_strings(&self.tags),
            description: clone_opt_string(&self.description),
            arguments: clone_arguments(&self.arguments),
            source_url: clone_opt_string(&self.source_url),
            author: clone_opt_string(&self.author),
            author_url: clone_opt_string(&self.author_url),
            shells: clone_shells(&self.shells),
        };
        proof {
            assert(r@ =~= self@);
        }
        r
    }
}

impl Default for Workflow {
    fn default() -> (r: Self)
        ensures
            r.name@ == Seq::<char>::empty(),
            r.command@ == Seq::<char>::empty(),
            r.tags@ == Seq::<String>::empty(),
            r.description is None,
            r.arguments@ == Seq::<Argument>::empty(),
            r.source_url is None,
            r.author is None,
            r.author_url is None,
            r.shells@ == Seq::<Shell>::empty(),
    {
        Workflow {
            name: String::new(),
            command: String::new(),
            tags: Vec::new(),
            description: None,
            arguments: Vec::new(),
            source_url: None,
            author: None,
            author_url: None,
            shells: Vec::new(),
        }
    }
}

/// The template token that `render` substitutes for `key`: the key wrapped
/// in double curly braces.
pub open spec fn placeholder(key: Seq<char>) -> Seq<char> {
    "{{"@ + key + "}}"@
}

/// The command text after substituting, pair by pair in order, every
/// occurrence of each key's placeholder with that key's value.
pub open spec fn rendered(command: Seq<char>, values: Seq<(String, String)>) -> Seq<char>
    decreases values.len(),
{
    if values.len() == 0 {
        command
    } else {
        rendered(
            replaced(command, placeholder(values[0].0@), values[0].1@),
            values.drop_first(),
        )
    }
}

impl Workflow {
    /// A workflow with the given name and command and every other field empty.
    pub fn new(name: &str, command: &str) -> (r: Self)
        ensures
            r.name@ == name@,
            r.command@ == command@,
            r.tags@ == Seq::<String>::empty(),
            r.description is None,
            r.arguments@ == Seq::<Argument>::empty(),
            r.source_url is None,
            r.author is None,
            r.author_url is None,
            r.shells@ == Seq::<Shell>::empty(),
    {
        Workflow {
            name: name.to_owned(),
            command: command.to_owned(),
            tags: Vec::new(),
            description: None,
            arguments: Vec::new(),
            source_url: None,
            author: None,
            author_url: None,
            shells: Vec::new(),
        }
    }

    pub fn with_arguments(self, arguments: Vec<Argument>) -> (r: Self)
        ensures
            r == (Workflow { arguments, ..self }),
    {
        let mut w = self;
        w.arguments = arguments;
        w
    }

    pub fn with_description(self, description: String) -> (r: Self)
        ensures
            r == (Workflow { description: Some(description), ..self }),
    {
        let mut w = self;
        w.description = Some(description);
        w
    }

    /// Replaces, for every `(key, value)` pair supplied, every occurrence of
    /// `{{key}}` in the command with `value`; placeholders for which no value
    /// is supplied are left verbatim.
    pub fn render(&self, values: &Vec<(String, String)>) -> (r: String)
        ensures
            r@ == rendered(self.command@, values@),
    {
        let mut command = self.command.clone();
        let mut i: usize = 0;
        proof {
            assert(values@.subrange(0, values@.len() as int) =~= values@);
        }
        while i < values.len()
            invariant
                i <= values@.len(),
                rendered(self.command@, values@) == rendered(
                    command@,
                    values@.subrange(i as int, values@.len() as int),
                ),
            decreases values@.len() - i,
        {
            let pair = &values[i];
            let mut pat = String::from_str("{{");
            pat.append(pair.0.as_str());
            pat.append("}}");
            proof {
                reveal_strlit("{{");
                reveal_strlit("}}");
                assert(pat@ =~= placeholder(values@[i as int].0@));
                assert(pat@.len() >= 1);
            }
            let next = replace_str(command.as_str(), pat.as_str(), pair.1.as_str());
            proof {
                let tail = values@.subrange(i as int, values@.len() as int);
                assert(tail[0] == values@[i as int]);
                assert(tail.drop_first() =~= values@.subrange(i + 1, values@.len() as int));
            }
            command = next;
            i += 1;
        }
        command
    }

    pub fn name(&self) -> (r: &str)
        ensures
            r@ == self.name@,
    {
        self.name.as_str()
    }

    pub fn tags(&self) -> (r: &Vec<String>)
        ensures
            r == self.tags,
    {
        &self.tags
    }

    pub fn command(&self) -> (r: &str)
        ensures
            r@ == self.command@,
    {
        self.command.as_str()
    }

    pub fn description(&self) -> (r: &Option<String>)
        ensures
            r == self.description,
    {
        &self.description
    }

    pub fn arguments(&self) -> (r: &Vec<Argument>)
        ensures
            r == self.arguments,
    {
        &self.arguments
    }

    pub fn source_url(&self) -> (r: &Option<String>)
        ensures
            r == self.source_url,
    {
        &self.source_url
    }

    pub fn author_name(&self) -> (r: &Option<String>)
        ensures
            r == self.author,
    {
        &self.author
    }

    pub fn shells(&self) -> (r: &Vec<Shell>)
        ensures
            r == self.shells,
    {
        &self.shells
    }
}

} // verus!
