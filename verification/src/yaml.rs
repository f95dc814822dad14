//! The top level of a YAML document, as `serde_yaml` reads it untyped.

use vstd::prelude::*;
use crate::verbs::resolve::opt_view;

verus! {

/// What the drift audit reads of a document: why it did not parse, that
/// its root is not a mapping, or the keys of its root mapping in document
/// order (`None` for a key that is not a string).
pub enum YamlTop {
    Unparsable(String),
    NotMapping,
    Mapping(Vec<Option<String>>),
}

/// `YamlTop` over plain character sequences.
pub enum YamlTopView {
    Unparsable(Seq<char>),
    NotMapping,
    Mapping(Seq<Option<Seq<char>>>),
}

pub open spec fn key_views(keys: Seq<Option<String>>) -> Seq<Option<Seq<char>>> {
    keys.map_values(|k: Option<String>| opt_view(k))
}

impl View for YamlTop {
    type V = YamlTopView;

    open spec fn view(&self) -> YamlTopView {
        match self {
            YamlTop::Unparsable(m) => YamlTopView::Unparsable(m@),
            YamlTop::NotMapping => YamlTopView::NotMapping,
            YamlTop::Mapping(keys) => YamlTopView::Mapping(key_views(keys@)),
        }
    }
}

/// What `serde_yaml::from_str::<serde_yaml::Value>` makes of `text`, seen
/// through `YamlTop`: the rendered parse error, a root that is not a
/// mapping, or the root mapping's keys in order (`Value::as_str` of each).
pub uninterp spec fn yaml_top_level(text: Seq<char>) -> YamlTopView;

/// Parses `text` as an untyped YAML value with `serde_yaml::from_str` and
/// reads its top level: the error's `Display` text when it does not parse,
/// `NotMapping` when `Value::as_mapping` gives `None`, else each key of the
/// mapping through `Value::as_str`. The contract names the outcome as a
/// function of the text alone; YAML itself is not restated.
#[verifier::external_body]
pub(crate) fn parse_yaml_top(text: &str) -> (r: YamlTop)
    ensures
        r@ == yaml_top_level(text@),
{
    match serde_yaml::from_str::<serde_yaml::Value>(text) {
        Err(e) => YamlTop::Unparsable(e.to_string()),
        Ok(v) => match v.as_mapping() {
            None => YamlTop::NotMapping,
            Some(m) => YamlTop::Mapping(m.keys().map(|k| k.as_str().map(|s| s.to_string())).collect()),
        },
    }
}

} // verus!
