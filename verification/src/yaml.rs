//! Reading workflow documents out of YAML text. The YAML parser is an
//! outside collaborator reached through one trusted wrapper, whose result —
//! a function of the text alone — is the named outcome `yaml_model_of`; the
//! workflow schema over that model is specified and verified here, field by
//! field.

use crate::text::eq_str;
use crate::workflow::{Argument, ArgumentView, Shell, Workflow, WorkflowView};
use vstd::prelude::*;

verus! {

#[verifier::external_type_specification]
#[verifier::external_body]
pub struct ExYamlValue(serde_yaml::Value);

/// The library's model of a parsed YAML document: everything the workflow
/// schema can read. Scalars other than strings and null, and tagged values,
/// all look alike to the schema and fold into `Other`.
pub enum YamlValue {
    Null,
    Text(String),
    List(Vec<YamlValue>),
    Entries(Vec<(YamlValue, YamlValue)>),
    Other,
}

/// The mathematical content of a `YamlValue`.
pub enum YamlNode {
    Null,
    Text(Seq<char>),
    List(Seq<YamlNode>),
    Entries(Seq<(YamlNode, YamlNode)>),
    Other,
}

/// The nodes of a list's elements. The range test keeps the recursion on
/// elements of the sequence, where it is structurally decreasing.
pub open spec fn list_nodes(items: Seq<YamlValue>) -> Seq<YamlNode>
    decreases items,
{
    Seq::new(
        items.len(),
        |i: int|
            if 0 <= i < items.len() {
                yaml_view(items[i])
            } else {
                YamlNode::Other
            },
    )
}

/// The nodes of a mapping's key-value entries.
pub open spec fn entry_nodes(es: Seq<(YamlValue, YamlValue)>) -> Seq<(YamlNode, YamlNode)>
    decreases es,
{
    Seq::new(
        es.len(),
        |i: int|
            if 0 <= i < es.len() {
                (yaml_view(es[i].0), yaml_view(es[i].1))
            } else {
                (YamlNode::Other, YamlNode::Other)
            },
    )
}

/// The mathematical content of a model value.
pub open spec fn yaml_view(v: YamlValue) -> YamlNode
    decreases v,
{
    match v {
        YamlValue::Null => YamlNode::Null,
        YamlValue::Text(s) => YamlNode::Text(s@),
        YamlValue::List(items) => YamlNode::List(list_nodes(items@)),
        YamlValue::Entries(es) => YamlNode::Entries(entry_nodes(es@)),
        YamlValue::Other => YamlNode::Other,
    }
}

/// The model of the document that `text` holds, if `text` is well-formed
/// YAML: the parse outcome, a function of the text alone. What parses, and
/// into which tree, is the YAML parser's to decide; this name stands for its
/// answer.
pub uninterp spec fn yaml_model_of(text: Seq<char>) -> Option<YamlNode>;

/// The node of an optional model value.
pub open spec fn node_of(r: Option<YamlValue>) -> Option<YamlNode> {
    match r {
        Some(v) => Some(yaml_view(v)),
        None => None,
    }
}

/// The conversion half of `parse_yaml`: the parsed tree, variant by variant,
/// as the library's model. Recursive because the tree is. Relies on the
/// `serde_yaml::Value` variants alone; strings and structure move over
/// unchanged, the other scalars and tagged values become `Other`.
#[verifier::external_body]
fn yaml_value_model(v: &serde_yaml::Value) -> YamlValue {
    match v {
        serde_yaml::Value::Null => YamlValue::Null,
        serde_yaml::Value::Bool(_) => YamlValue::Other,
        serde_yaml::Value::Number(_) => YamlValue::Other,
        serde_yaml::Value::String(s) => YamlValue::Text(s.clone()),
        serde_yaml::Value::Sequence(items) => YamlValue::List(
            items.iter().map(yaml_value_model).collect(),
        ),
        serde_yaml::Value::Mapping(m) => YamlValue::Entries(
            m.iter().map(|(k, val)| (yaml_value_model(k), yaml_value_model(val))).collect(),
        ),
        serde_yaml::Value::Tagged(_) => YamlValue::Other,
    }
}

/// Relies on serde_yaml::from_str: parses YAML text into a value tree,
/// `None` when the text is not well-formed YAML. The tree comes back as the
/// library's model, and the result depends on the text alone: the same text
/// always yields the same outcome, `yaml_model_of(text)`.
#[verifier::external_body]
fn parse_yaml(text: &str) -> (r: Option<YamlValue>)
    ensures
        node_of(r) == yaml_model_of(text@),
{
    serde_yaml::from_str::<serde_yaml::Value>(text).ok().map(|v| yaml_value_model(&v))
}

/// The shell a YAML string names: the lower-case aliases and the capitalized
/// variant names are accepted; anything else is rejected.
pub open spec fn spec_shell_of(s: Seq<char>) -> Option<Shell> {
    if s == "fish"@ || s == "Fish"@ {
        Some(Shell::Fish)
    } else if s == "bash"@ || s == "Bash"@ {
        Some(Shell::Bash)
    } else if s == "zsh"@ || s == "Zsh"@ {
        Some(Shell::Zsh)
    } else {
        None
    }
}

/// The shell named by `s`, or `None` for an unrecognized name.
pub fn shell_from_str(s: &str) -> (r: Option<Shell>)
    ensures
        r == spec_shell_of(s@),
{
    if eq_str(s, "fish") || eq_str(s, "Fish") {
        Some(Shell::Fish)
    } else if eq_str(s, "bash") || eq_str(s, "Bash") {
        Some(Shell::Bash)
    } else if eq_str(s, "zsh") || eq_str(s, "Zsh") {
        Some(Shell::Zsh)
    } else {
        None
    }
}

/// The value under `key` among a mapping's entries: the first entry whose
/// key is the string `key`.
pub open spec fn entries_get(es: Seq<(YamlNode, YamlNode)>, key: Seq<char>) -> Option<YamlNode>
    decreases es.len(),
{
    if es.len() == 0 {
        None
    } else if es[0].0 == YamlNode::Text(key) {
        Some(es[0].1)
    } else {
        entries_get(es.drop_first(), key)
    }
}

/// The field `key` of document `v`: present only when `v` is a mapping that
/// holds the key.
pub open spec fn field_of(v: YamlNode, key: Seq<char>) -> Option<YamlNode> {
    match v {
        YamlNode::Entries(es) => entries_get(es, key),
        _ => None,
    }
}

/// A required string field: its text; `None` when the field is absent or
/// not a string.
pub open spec fn text_field(v: YamlNode, key: Seq<char>) -> Option<Seq<char>> {
    match field_of(v, key) {
        Some(YamlNode::Text(s)) => Some(s),
        _ => None,
    }
}

/// An optional string field: `Ok(None)` when absent or null, its text when
/// a string, `Err` when present with any other shape.
pub open spec fn opt_text_field(v: YamlNode, key: Seq<char>) -> Result<Option<Seq<char>>, ()> {
    match field_of(v, key) {
        None => Ok(None),
        Some(YamlNode::Null) => Ok(None),
        Some(YamlNode::Text(s)) => Ok(Some(s)),
        Some(_) => Err(()),
    }
}

/// A list field: empty when absent, its elements when a list, `Err` when
/// present with any other shape.
pub open spec fn list_field(v: YamlNode, key: Seq<char>) -> Result<Seq<YamlNode>, ()> {
    match field_of(v, key) {
        None => Ok(Seq::empty()),
        Some(YamlNode::List(items)) => Ok(items),
        Some(_) => Err(()),
    }
}

/// The text of a string node; empty for any other node.
pub open spec fn text_of(n: YamlNode) -> Seq<char> {
    match n {
        YamlNode::Text(s) => s,
        _ => Seq::empty(),
    }
}

/// The texts of a list of string nodes; `None` when any element is not a
/// string.
pub open spec fn texts_of(items: Seq<YamlNode>) -> Option<Seq<Seq<char>>> {
    if forall|i: int| 0 <= i < items.len() ==> items[i] is Text {
        Some(Seq::new(items.len(), |i: int| text_of(items[i])))
    } else {
        None
    }
}

/// The shell a string node names; `None` for any other node or name.
pub open spec fn node_shell(n: YamlNode) -> Option<Shell> {
    match n {
        YamlNode::Text(s) => spec_shell_of(s),
        _ => None,
    }
}

/// The shells of a list of string nodes; `None` when any element is not a
/// known shell name.
pub open spec fn shells_of(items: Seq<YamlNode>) -> Option<Seq<Shell>> {
    if forall|i: int| 0 <= i < items.len() ==> node_shell(items[i]) is Some {
        Some(Seq::new(items.len(), |i: int| node_shell(items[i]).unwrap()))
    } else {
        None
    }
}

/// One workflow argument from a mapping node: `name` is required; the
/// descriptive fields are optional but must be strings when present.
pub open spec fn argument_of(n: YamlNode) -> Option<ArgumentView> {
    if text_field(n, "name"@) is Some && opt_text_field(n, "description"@) is Ok && opt_text_field(
        n,
        "default_value"@,
    ) is Ok {
        Some(
            ArgumentView {
                name: text_field(n, "name"@).unwrap(),
                description: opt_text_field(n, "description"@)->Ok_0,
                default_value: opt_text_field(n, "default_value"@)->Ok_0,
            },
        )
    } else {
        None
    }
}

/// The arguments of a list of mapping nodes; `None` when any element is not
/// a well-formed argument.
pub open spec fn arguments_of(items: Seq<YamlNode>) -> Option<Seq<ArgumentView>> {
    if forall|i: int| 0 <= i < items.len() ==> argument_of(items[i]) is Some {
        Some(Seq::new(items.len(), |i: int| argument_of(items[i]).unwrap()))
    } else {
        None
    }
}

/// The workflow document that node `v` holds: `name` and `command` are
/// required strings; `tags`, `arguments` and `shells` default to empty when
/// absent but must be well-formed lists when present; the descriptive
/// fields are optional strings.
pub open spec fn workflow_of_node(v: YamlNode) -> Option<WorkflowView> {
    if text_field(v, "name"@) is Some && text_field(v, "command"@) is Some && list_field(
        v,
        "tags"@,
    ) is Ok && texts_of(list_field(v, "tags"@)->Ok_0) is Some && opt_text_field(
        v,
        "description"@,
    ) is Ok && list_field(v, "arguments"@) is Ok && arguments_of(
        list_field(v, "arguments"@)->Ok_0,
    ) is Some && opt_text_field(v, "source_url"@) is Ok && opt_text_field(v, "author"@) is Ok
        && opt_text_field(v, "author_url"@) is Ok && list_field(v, "shells"@) is Ok && shells_of(
        list_field(v, "shells"@)->Ok_0,
    ) is Some {
        Some(
            WorkflowView {
                name: text_field(v, "name"@).unwrap(),
                command: text_field(v, "command"@).unwrap(),
                tags: texts_of(list_field(v, "tags"@)->Ok_0).unwrap(),
                description: opt_text_field(v, "description"@)->Ok_0,
                arguments: arguments_of(list_field(v, "arguments"@)->Ok_0).unwrap(),
                source_url: opt_text_field(v, "source_url"@)->Ok_0,
                author: opt_text_field(v, "author"@)->Ok_0,
                author_url: opt_text_field(v, "author_url"@)->Ok_0,
                shells: shells_of(list_field(v, "shells"@)->Ok_0).unwrap(),
            },
        )
    } else {
        None
    }
}

/// The workflow document that `text` holds: the named parse outcome, read
/// by the workflow schema.
pub open spec fn parsed_workflow(text: Seq<char>) -> Option<WorkflowView> {
    match yaml_model_of(text) {
        Some(v) => workflow_of_node(v),
        None => None,
    }
}

proof fn lemma_entries_get_at(es: Seq<(YamlNode, YamlNode)>, key: Seq<char>, i: int)
    requires
        0 <= i < es.len(),
        es[i].0 == YamlNode::Text(key),
        forall|j: int| 0 <= j < i ==> es[j].0 != YamlNode::Text(key),
    ensures
        entries_get(es, key) == Some(es[i].1),
    decreases es.len(),
{
    if i > 0 {
        lemma_entries_get_at(es.drop_first(), key, i - 1);
    }
}

proof fn lemma_entries_get_absent(es: Seq<(YamlNode, YamlNode)>, key: Seq<char>)
    requires
        forall|j: int| 0 <= j < es.len() ==> es[j].0 != YamlNode::Text(key),
    ensures
        entries_get(es, key) is None,
    decreases es.len(),
{
    if es.len() > 0 {
        lemma_entries_get_absent(es.drop_first(), key);
    }
}

/// The field `key` of model value `v`, as `field_of` finds it on the node.
fn get_entry<'a>(v: &'a YamlValue, key: &str) -> (r: Option<&'a YamlValue>)
    ensures
        match r {
            Some(x) => field_of(yaml_view(*v), key@) == Some(yaml_view(*x)),
            None => field_of(yaml_view(*v), key@) is None,
        },
{
    match v {
        YamlValue::Entries(es) => {
            let ghost ns = entry_nodes(es@);
            let n = es.len();
            let mut i: usize = 0;
            while i < n
                invariant
                    i <= n,
                    n == es@.len(),
                    ns == entry_nodes(es@),
                    yaml_view(*v) == YamlNode::Entries(ns),
                    forall|j: int| 0 <= j < i ==> #[trigger] ns[j].0 != YamlNode::Text(key@),
                decreases n - i,
            {
                let pair = &es[i];
                match &pair.0 {
                    YamlValue::Text(k) => {
                        if eq_str(k.as_str(), key) {
                            proof {
                                assert(ns[i as int].0 == YamlNode::Text(key@));
                                lemma_entries_get_at(ns, key@, i as int);
                                assert(ns[i as int].1 == yaml_view(es@[i as int].1));
                            }
                            return Some(&pair.1);
                        }
                        proof {
                            assert(ns[i as int].0 != YamlNode::Text(key@));
                        }
                    },
                    _ => {
                        proof {
                            assert(ns[i as int].0 != YamlNode::Text(key@));
                        }
                    },
                }
                i += 1;
            }
            proof {
                lemma_entries_get_absent(ns, key@);
            }
            None
        },
        _ => None,
    }
}

/// The text of the string field `key` of `v`, as `text_field` reads it.
fn string_field(v: &YamlValue, key: &str) -> (r: Option<String>)
    ensures
        match r {
            Some(s) => text_field(yaml_view(*v), key@) == Some(s@),
            None => text_field(yaml_view(*v), key@) is None,
        },
{
    match get_entry(v, key) {
        Some(f) => match f {
            YamlValue::Text(s) => Some(s.clone()),
            _ => None,
        },
        None => None,
    }
}

/// The text of the optional string field `key` of `v`, as `opt_text_field`
/// reads it.
fn optional_string_field(v: &YamlValue, key: &str) -> (r: Result<Option<String>, ()>)
    ensures
        match r {
            Ok(d) => opt_text_field(yaml_view(*v), key@) == Ok::<Option<Seq<char>>, ()>(d.deep_view()),
            Err(_) => opt_text_field(yaml_view(*v), key@) is Err,
        },
{
    match get_entry(v, key) {
        None => Ok(None),
        Some(f) => match f {
            YamlValue::Null => Ok(None),
            YamlValue::Text(s) => Ok(Some(s.clone())),
            _ => Err(()),
        },
    }
}

/// The texts of a list of string values, as `texts_of` reads the nodes.
fn string_items(items: &Vec<YamlValue>) -> (r: Option<Vec<String>>)
    ensures
        match r {
            Some(ts) => texts_of(list_nodes(items@)) == Some(ts.deep_view()),
            None => texts_of(list_nodes(items@)) is None,
        },
{
    let ghost ns = list_nodes(items@);
    let mut out: Vec<String> = Vec::new();
    let mut i: usize = 0;
    while i < items.len()
        invariant
            i <= items@.len(),
            ns == list_nodes(items@),
            out@.len() == i,
            forall|j: int| 0 <= j < i ==> #[trigger] ns[j] is Text,
            forall|j: int| 0 <= j < i ==> #[trigger] out@[j]@ == text_of(ns[j]),
        decreases items@.len() - i,
    {
        match &items[i] {
            YamlValue::Text(s) => {
                out.push(s.clone());
            },
            _ => {
                proof {
                    assert(!(ns[i as int] is Text));
                }
                return None;
            },
        }
        i += 1;
    }
    proof {
        assert(out.deep_view() =~= Seq::new(ns.len(), |j: int| text_of(ns[j])));
    }
    Some(out)
}

/// The shells of a list of string values, as `shells_of` reads the nodes.
fn shell_items(items: &Vec<YamlValue>) -> (r: Option<Vec<Shell>>)
    ensures
        match r {
            Some(shs) => shells_of(list_nodes(items@)) == Some(shs@),
            None => shells_of(list_nodes(items@)) is None,
        },
{
    let ghost ns = list_nodes(items@);
    let mut out: Vec<Shell> = Vec::new();
    let mut i: usize = 0;
    while i < items.len()
        invariant
            i <= items@.len(),
            ns == list_nodes(items@),
            out@.len() == i,
            forall|j: int| 0 <= j < i ==> #[trigger] node_shell(ns[j]) is Some,
            forall|j: int| 0 <= j < i ==> #[trigger] out@[j] == node_shell(ns[j]).unwrap(),
        decreases items@.len() - i,
    {
        match &items[i] {
            YamlValue::Text(s) => match shell_from_str(s.as_str()) {
                Some(shell) => out.push(shell),
                None => {
                    proof {
                        assert(node_shell(ns[i as int]) is None);
                    }
                    return None;
                },
            },
            _ => {
                proof {
                    assert(node_shell(ns[i as int]) is None);
                }
                return None;
            },
        }
        i += 1;
    }
    proof {
        assert(out@ =~= Seq::new(ns.len(), |j: int| node_shell(ns[j]).unwrap()));
    }
    Some(out)
}

/// One workflow argument from a mapping value, as `argument_of` reads the
/// node.
fn argument_from_value(v: &YamlValue) -> (r: Option<Argument>)
    ensures
        match r {
            Some(a) => argument_of(yaml_view(*v)) == Some(a@),
            None => argument_of(yaml_view(*v)) is None,
        },
{
    let name = match string_field(v, "name") {
        Some(n) => n,
        None => {
            return None;
        },
    };
    let description = match optional_string_field(v, "description") {
        Ok(d) => d,
        Err(()) => {
            return None;
        },
    };
    let default_value = match optional_string_field(v, "default_value") {
        Ok(d) => d,
        Err(()) => {
            return None;
        },
    };
    let a = Argument { name, description, default_value };
    proof {
        assert(a@ =~= argument_of(yaml_view(*v)).unwrap());
    }
    Some(a)
}

/// The arguments of a list of mapping values, as `arguments_of` reads the
/// nodes.
fn argument_items(items: &Vec<YamlValue>) -> (r: Option<Vec<Argument>>)
    ensures
        match r {
            Some(args) => arguments_of(list_nodes(items@)) == Some(args.deep_view()),
            None => arguments_of(list_nodes(items@)) is None,
        },
{
    let ghost ns = list_nodes(items@);
    let mut out: Vec<Argument> = Vec::new();
    let mut i: usize = 0;
    while i < items.len()
        invariant
            i <= items@.len(),
            ns == list_nodes(items@),
            out@.len() == i,
            forall|j: int| 0 <= j < i ==> #[trigger] argument_of(ns[j]) is Some,
            forall|j: int| 0 <= j < i ==> #[trigger] out@[j]@ == argument_of(ns[j]).unwrap(),
        decreases items@.len() - i,
    {
        match argument_from_value(&items[i]) {
            Some(a) => out.push(a),
            None => {
                proof {
                    assert(argument_of(ns[i as int]) is None);
                }
                return None;
            },
        }
        i += 1;
    }
    proof {
        assert(out.deep_view() =~= Seq::new(ns.len(), |j: int| argument_of(ns[j]).unwrap()));
    }
    Some(out)
}

/// The workflow document a model value holds, as `workflow_of_node` reads
/// the node.
fn workflow_from_value(v: &YamlValue) -> (r: Option<Workflow>)
    ensures
        match r {
            Some(w) => workflow_of_node(yaml_view(*v)) == Some(w@),
            None => workflow_of_node(yaml_view(*v)) is None,
        },
{
    let ghost node = yaml_view(*v);
    let name = match string_field(v, "name") {
        Some(n) => n,
        None => {
            return None;
        },
    };
    let command = match string_field(v, "command") {
        Some(c) => c,
        None => {
            return None;
        },
    };
    let tags = match get_entry(v, "tags") {
        None => Vec::new(),
        Some(t) => match t {
            YamlValue::List(items) => match string_items(items) {
                Some(ts) => ts,
                None => {
                    return None;
                },
            },
            _ => {
                return None;
            },
        },
    };
    proof {
        assert(list_field(node, "tags"@) is Ok);
        assert(texts_of(list_field(node, "tags"@)->Ok_0) is Some);
        assert(texts_of(list_field(node, "tags"@)->Ok_0).unwrap() =~= tags.deep_view());
    }
    let description = match optional_string_field(v, "description") {
        Ok(d) => d,
        Err(()) => {
            return None;
        },
    };
    let arguments = match get_entry(v, "arguments") {
        None => Vec::new(),
        Some(a) => match a {
            YamlValue::List(items) => match argument_items(items) {
                Some(args) => args,
                None => {
                    return None;
                },
            },
            _ => {
                return None;
            },
        },
    };
    proof {
        assert(list_field(node, "arguments"@) is Ok);
        assert(arguments_of(list_field(node, "arguments"@)->Ok_0) is Some);
        assert(arguments_of(list_field(node, "arguments"@)->Ok_0).unwrap() =~= arguments.deep_view());
    }
    let source_url = match optional_string_field(v, "source_url") {
        Ok(d) => d,
        Err(()) => {
            return None;
        },
    };
    let author = match optional_string_field(v, "author") {
        Ok(d) => d,
        Err(()) => {
            return None;
        },
    };
    let author_url = match optional_string_field(v, "author_url") {
        Ok(d) => d,
        Err(()) => {
            return None;
        },
    };
    let shells = match get_entry(v, "shells") {
        None => Vec::new(),
        Some(s) => match s {
            YamlValue::List(items) => match shell_items(items) {
                Some(shs) => shs,
                None => {
                    return None;
                },
            },
            _ => {
                return None;
            },
        },
    };
    proof {
        assert(list_field(node, "shells"@) is Ok);
        assert(shells_of(list_field(node, "shells"@)->Ok_0) is Some);
        assert(shells_of(list_field(node, "shells"@)->Ok_0).unwrap() =~= shells@);
    }
    let w = Workflow {
        name,
        command,
        tags,
        description,
        arguments,
        source_url,
        author,
        author_url,
        shells,
    };
    proof {
        assert(w@ =~= workflow_of_node(node).unwrap());
    }
    Some(w)
}

/// The workflow document that `text` holds, or `None` when the text is not
/// well-formed YAML or does not follow the workflow schema: exactly
/// `parsed_workflow` of the text.
pub fn workflow_from_yaml(text: &str) -> (r: Option<Workflow>)
    ensures
        r matches Some(w) ==> parsed_workflow(text@) == Some(w@),
        r is None ==> parsed_workflow(text@) is None,
{
    match parse_yaml(text) {
        None => None,
        Some(v) => workflow_from_value(&v),
    }
}

} // verus!
