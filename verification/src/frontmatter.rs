//! YAML frontmatter of a markdown file.

use vstd::prelude::*;
use std::collections::BTreeMap;
use crate::text::{chars_of, is_prefix, is_suffix, slice_vec, starts_with, ends_with, trim, trimmed, string_of};
use crate::paths::chars_eq_str;

verus! {

/// What the linter reads of a frontmatter value: a string, a list (with the
/// string items as `Some`), or anything else.
#[derive(Debug, Clone)]
pub enum FieldValue {
    Text(String),
    List(Vec<Option<String>>),
    Other,
}

/// The model of a `FieldValue`.
pub enum FieldValueView {
    Text(Seq<char>),
    List(Seq<Option<Seq<char>>>),
    Other,
}

/// The models of optional strings.
pub open spec fn opt_strs_view(v: Seq<Option<String>>) -> Seq<Option<Seq<char>>> {
    v.map_values(|o: Option<String>| match o {
        Some(s) => Some(s@),
        None => None,
    })
}

impl View for FieldValue {
    type V = FieldValueView;

    open spec fn view(&self) -> FieldValueView {
        match self {
            FieldValue::Text(s) => FieldValueView::Text(s@),
            FieldValue::List(items) => FieldValueView::List(opt_strs_view(items@)),
            FieldValue::Other => FieldValueView::Other,
        }
    }
}

/// The models of frontmatter fields.
pub open spec fn fields_view(v: Seq<(String, FieldValue)>) -> Seq<(Seq<char>, FieldValueView)> {
    v.map_values(|f: (String, FieldValue)| (f.0@, f.1@))
}

/// Parsed YAML frontmatter: its top-level fields.
#[derive(Debug, Clone)]
pub struct Frontmatter {
    pub fields: Vec<(String, FieldValue)>,
}

/// The top-level fields of a YAML mapping, keys in order, as
/// `serde_yml::from_str` into a `BTreeMap<String, Value>` reads them; none
/// when the text is not such a mapping.
pub uninterp spec fn yaml_fields(text: Seq<char>) -> Option<Seq<(Seq<char>, FieldValueView)>>;

/// Calls `serde_yml::from_str::<BTreeMap<String, serde_yml::Value>>`, and
/// converts each value: `String` to `Text`, `Sequence` to `List` (each item's
/// `as_str`), the rest to `Other`. The result is named `yaml_fields`.
#[verifier::external_body]
fn parse_yaml_fields(text: &str) -> (r: Option<Vec<(String, FieldValue)>>)
    ensures
        match r {
            Some(v) => yaml_fields(text@) == Some(fields_view(v@)),
            None => yaml_fields(text@) is None,
        },
{
    match serde_yml::from_str::<BTreeMap<String, serde_yml::Value>>(text) {
        Ok(map) => Some(map.into_iter().map(|(k, v)| (k, match v {
            serde_yml::Value::String(s) => FieldValue::Text(s),
            serde_yml::Value::Sequence(items) => FieldValue::List(items.iter().map(|i| i.as_str().map(String::from)).collect()),
            _ => FieldValue::Other,
        })).collect()),
        Err(_) => None,
    }
}

/// The value of the first field named `key`.
pub open spec fn lookup_field(fields: Seq<(Seq<char>, FieldValueView)>, key: Seq<char>) -> Option<FieldValueView>
    decreases fields.len(),
{
    if fields.len() == 0 {
        None
    } else if fields[0].0 == key {
        Some(fields[0].1)
    } else {
        lookup_field(fields.drop_first(), key)
    }
}

/// The items that are present, in order.
pub open spec fn present(items: Seq<Option<Seq<char>>>) -> Seq<Seq<char>>
    decreases items.len(),
{
    if items.len() == 0 {
        Seq::empty()
    } else {
        present(items.drop_last()) + match items.last() {
            Some(s) => seq![s],
            None => Seq::empty(),
        }
    }
}

/// The aliases a frontmatter declares: the strings of an `aliases` list, or
/// an `aliases` string alone.
pub open spec fn aliases_of(fields: Seq<(Seq<char>, FieldValueView)>) -> Seq<Seq<char>> {
    match lookup_field(fields, "aliases"@) {
        Some(FieldValueView::List(items)) => present(items),
        Some(FieldValueView::Text(s)) => seq![s],
        _ => Seq::empty(),
    }
}

/// The `title` of a frontmatter, when it is a string.
pub open spec fn title_of(fields: Seq<(Seq<char>, FieldValueView)>) -> Option<Seq<char>> {
    match lookup_field(fields, "title"@) {
        Some(FieldValueView::Text(s)) => Some(s),
        _ => None,
    }
}

impl Frontmatter {
    /// The position of the first field named `key`.
    fn find(&self, key: &str) -> (r: Option<usize>)
        ensures
            match r {
                Some(i) => i < self.fields.len() && lookup_field(fields_view(self.fields@), key@) == Some(
                    self.fields@[i as int].1@,
                ),
                None => lookup_field(fields_view(self.fields@), key@) is None,
            },
    {
        let ghost fv = fields_view(self.fields@);
        let mut i: usize = 0;
        assert(fv.skip(0) =~= fv);
        while i < self.fields.len()
            invariant
                fv == fields_view(self.fields@),
                i <= self.fields.len(),
                lookup_field(fv, key@) == lookup_field(fv.skip(i as int), key@),
            decreases self.fields.len() - i,
        {
            assert(fv.skip(i as int).drop_first() =~= fv.skip(i + 1));
            if chars_eq_str(self.fields[i].0.as_str(), key) {
                return Some(i);
            }
            i += 1;
        }
        None
    }

    /// Whether the frontmatter has a field named `key`.
    pub fn has_field(&self, key: &str) -> (b: bool)
        ensures
            b == lookup_field(fields_view(self.fields@), key@) is Some,
    {
        self.find(key).is_some()
    }

    /// Get string aliases from frontmatter (aliases field).
    pub fn aliases(&self) -> (r: Vec<String>)
        ensures
            r@.map_values(|s: String| s@) == aliases_of(fields_view(self.fields@)),
    {
        let ghost fv = fields_view(self.fields@);
        let found = self.find("aliases");
        match found {
            Some(i) => match &self.fields[i].1 {
                FieldValue::List(items) => {
                    let ghost iv = opt_strs_view(items@);
                    let mut r: Vec<String> = Vec::new();
                    let mut k: usize = 0;
                    while k < items.len()
                        invariant
                            iv == opt_strs_view(items@),
                            k <= items.len(),
                            r@.map_values(|s: String| s@) == present(iv.take(k as int)),
                        decreases items.len() - k,
                    {
                        let ghost before = r@.map_values(|s: String| s@);
                        assert(iv.take(k + 1).drop_last() =~= iv.take(k as int));
                        match &items[k] {
                            Some(s) => {
                                r.push(s.clone());
                                assert(r@.map_values(|s: String| s@) =~= before + seq![s@]);
                            },
                            None => {
                                assert(r@.map_values(|s: String| s@) =~= before + Seq::<Seq<char>>::empty());
                            },
                        }
                        k += 1;
                    }
                    assert(iv.take(items.len() as int) =~= iv);
                    r
                },
                FieldValue::Text(s) => {
                    let mut r: Vec<String> = Vec::new();
                    r.push(s.clone());
                    assert(r@.map_values(|s: String| s@) =~= seq![s@]);
                    r
                },
                FieldValue::Other => {
                    let r: Vec<String> = Vec::new();
                    assert(r@.map_values(|s: String| s@) =~= Seq::<Seq<char>>::empty());
                    r
                },
            },
            None => {
                let r: Vec<String> = Vec::new();
                assert(r@.map_values(|s: String| s@) =~= Seq::<Seq<char>>::empty());
                r
            },
        }
    }

    /// The `title` field, when it is a string.
    pub fn title(&self) -> (r: Option<&str>)
        ensures
            match r {
                Some(s) => title_of(fields_view(self.fields@)) == Some(s@),
                None => title_of(fields_view(self.fields@)) is None,
            },
    {
        match self.find("title") {
            Some(i) => match &self.fields[i].1 {
                FieldValue::Text(s) => Some(s.as_str()),
                _ => None,
            },
            None => None,
        }
    }
}

/// The raw frontmatter with surrounding whitespace and one leading and one
/// trailing `---` removed, then trimmed again.
pub open spec fn strip_delimiters_spec(raw: Seq<char>) -> Seq<char> {
    let s = trimmed(raw);
    let s = if is_prefix("---"@, s) { s.skip(3) } else { s };
    let s = if is_suffix("---"@, s) { s.take(s.len() - 3) } else { s };
    trimmed(s)
}

/// Removes surrounding whitespace and the `---` delimiters.
pub fn strip_delimiters(raw: &str) -> (r: Vec<char>)
    ensures
        r@ == strip_delimiters_spec(raw@),
{
    let cs = chars_of(raw);
    let s = trim(cs.as_slice());
    let dashes = chars_of("---");
    proof {
        reveal_strlit("---");
    }
    let s = if starts_with(s.as_slice(), dashes.as_slice()) {
        slice_vec(s.as_slice(), 3, s.len())
    } else {
        s
    };
    let s = if ends_with(s.as_slice(), dashes.as_slice()) {
        slice_vec(s.as_slice(), 0, s.len() - 3)
    } else {
        s
    };
    trim(s.as_slice())
}

/// The frontmatter a raw string parses to: no fields when blank once the
/// delimiters are stripped, else the YAML mapping's fields, none when it is not one.
pub open spec fn frontmatter_of(raw: Seq<char>) -> Option<Seq<(Seq<char>, FieldValueView)>> {
    let content = strip_delimiters_spec(raw);
    if trimmed(content).len() == 0 {
        Some(Seq::empty())
    } else {
        yaml_fields(trimmed(content))
    }
}

/// Parse YAML frontmatter from the raw frontmatter string extracted by comrak.
/// comrak includes the `---` delimiters in the raw string, so we strip them.
pub fn parse_frontmatter(raw: &str) -> (r: Option<Frontmatter>)
    ensures
        match r {
            Some(fm) => frontmatter_of(raw@) == Some(fields_view(fm.fields@)),
            None => frontmatter_of(raw@) is None,
        },
{
    let content = strip_delimiters(raw);
    let t = trim(content.as_slice());
    if t.len() == 0 {
        let fields: Vec<(String, FieldValue)> = Vec::new();
        assert(fields_view(fields@) =~= Seq::<(Seq<char>, FieldValueView)>::empty());
        return Some(Frontmatter { fields });
    }
    let text = string_of(t.as_slice());
    match parse_yaml_fields(text.as_str()) {
        Some(fields) => Some(Frontmatter { fields }),
        None => None,
    }
}

} // verus!
