//! YAML values, as the frontmatter of notes holds them.
use vstd::prelude::*;
use vstd::string::*;

verus! {

/// `serde_yaml::Value`.
#[verifier::external_type_specification]
#[verifier::external_body]
pub struct ExYamlValue(serde_yaml::Value);

/// What a YAML value says.
pub enum YamlView {
    Null,
    Bool(bool),
    /// The number as it is written out.
    Number(Seq<char>),
    Text(Seq<char>),
    List(Seq<YamlView>),
    /// The entries whose keys are texts.
    Record(Map<Seq<char>, YamlView>),
    Tagged(Box<YamlView>),
}

impl YamlView {
    /// The value without its tags.
    pub open spec fn untagged(self) -> YamlView
        decreases self,
    {
        match self {
            YamlView::Tagged(inner) => inner.untagged(),
            _ => self,
        }
    }

    /// The entry with that key.
    pub open spec fn entry(self, key: Seq<char>) -> Option<YamlView> {
        match self.untagged() {
            YamlView::Record(entries) => if entries.dom().contains(key) {
                Some(entries[key])
            } else {
                None
            },
            _ => None,
        }
    }
}

/// What an outside YAML value holds.
pub uninterp spec fn yaml_contents(v: serde_yaml::Value) -> YamlView;

/// The value that a YAML text stands for, where it stands for one.
pub uninterp spec fn yaml_parsed(s: Seq<char>) -> Option<YamlView>;

/// Why a YAML text stands for no value.
pub uninterp spec fn yaml_error(s: Seq<char>) -> Seq<char>;

/// `serde_yaml::from_str` into a `Value`.
#[verifier::external_body]
pub(crate) fn yaml_parse(s: &str) -> (r: Result<serde_yaml::Value, String>)
    ensures
        match r {
            Ok(v) => yaml_parsed(s@) == Some(yaml_contents(v)),
            Err(e) => yaml_parsed(s@) is None && e@ == yaml_error(s@),
        },
{
    serde_yaml::from_str::<serde_yaml::Value>(s).map_err(|error| error.to_string())
}

/// `Value::is_null` of serde_yaml, which looks behind tags.
#[verifier::external_body]
pub(crate) fn yaml_is_null(v: &serde_yaml::Value) -> (r: bool)
    ensures
        r == (yaml_contents(*v).untagged() is Null),
{
    v.is_null()
}

/// `Value::is_mapping` of serde_yaml, which looks behind tags.
#[verifier::external_body]
pub(crate) fn yaml_is_mapping(v: &serde_yaml::Value) -> (r: bool)
    ensures
        r == (yaml_contents(*v).untagged() is Record),
{
    v.is_mapping()
}

/// `Value::as_mapping` and `Mapping::get` of serde_yaml: the entry of a
/// mapping, which may stand behind tags.
#[verifier::external_body]
pub(crate) fn yaml_get<'a>(v: &'a serde_yaml::Value, key: &str) -> (r: Option<
    &'a serde_yaml::Value,
>)
    ensures
        match r {
            Some(entry) => yaml_contents(*v).entry(key@) == Some(yaml_contents(*entry)),
            None => yaml_contents(*v).entry(key@) is None,
        },
{
    v.as_mapping()?.get(serde_yaml::Value::String(key.to_owned()))
}

/// The text of a `Value::String` of serde_yaml.
#[verifier::external_body]
pub(crate) fn yaml_text(v: &serde_yaml::Value) -> (r: Option<String>)
    ensures
        match r {
            Some(s) => yaml_contents(*v) == YamlView::Text(s@),
            None => !(yaml_contents(*v) is Text),
        },
{
    match v {
        serde_yaml::Value::String(s) => Some(s.clone()),
        _ => None,
    }
}

/// The number of a `Value::Number` of serde_yaml, as `Display` writes it.
#[verifier::external_body]
pub(crate) fn yaml_number(v: &serde_yaml::Value) -> (r: Option<String>)
    ensures
        match r {
            Some(s) => yaml_contents(*v) == YamlView::Number(s@),
            None => !(yaml_contents(*v) is Number),
        },
{
    match v {
        serde_yaml::Value::Number(n) => Some(n.to_string()),
        _ => None,
    }
}

pub open spec fn yaml_items_view(items: Seq<&serde_yaml::Value>) -> Seq<YamlView> {
    items.map_values(|v: &serde_yaml::Value| yaml_contents(*v))
}

/// The items of a `Value::Sequence` of serde_yaml.
#[verifier::external_body]
pub(crate) fn yaml_items<'a>(v: &'a serde_yaml::Value) -> (r: Option<Vec<&'a serde_yaml::Value>>)
    ensures
        match r {
            Some(items) => yaml_contents(*v) == YamlView::List(yaml_items_view(items@)),
            None => !(yaml_contents(*v) is List),
        },
{
    match v {
        serde_yaml::Value::Sequence(items) => Some(items.iter().collect()),
        _ => None,
    }
}

} // verus!
