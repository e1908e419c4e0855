//! The agent's settings file. The application manages two of its sections; all
//! else in it is the user's and stays as it is.

use serde_yaml::{Mapping, Value};

use vstd::prelude::*;
use vstd::string::*;

use crate::state::{AppConfig, ModelConfig};
use crate::text::opt_text;

verus! {

// ---------------------------------------------------------------------------
// YAML
// ---------------------------------------------------------------------------

/// A YAML value of `serde_yaml`.
#[verifier::external_type_specification]
#[verifier::external_body]
pub struct ExValue(serde_yaml::Value);

/// A YAML mapping of `serde_yaml`.
#[verifier::external_type_specification]
#[verifier::external_body]
pub struct ExMapping(serde_yaml::Mapping);

/// The value that a YAML text holds, if it is one: what `serde_yaml::from_str`
/// gives.
pub uninterp spec fn yaml_parsed(s: Seq<char>) -> Option<Value>;

/// The text of a YAML value, or why it has none: what `serde_yaml::to_string`
/// gives.
pub uninterp spec fn yaml_rendered(v: Value) -> Result<Seq<char>, Seq<char>>;

/// A YAML string: what `Value::from` makes of a text.
pub uninterp spec fn yaml_string(s: Seq<char>) -> Value;

/// The text of a YAML value that is a string: what `Value::as_str` gives.
pub uninterp spec fn value_text(v: Value) -> Option<Seq<char>>;

/// The entries of a YAML mapping, in their order.
pub uninterp spec fn mapping_entries(m: Mapping) -> Seq<(Value, Value)>;

/// A YAML mapping of these entries as a value: what `Value::from` makes of a
/// mapping.
pub uninterp spec fn yaml_of_entries(es: Seq<(Value, Value)>) -> Value;

/// The entries of a YAML value that is a mapping: those of what
/// `Value::as_mapping` gives.
pub uninterp spec fn value_entries(v: Value) -> Option<Seq<(Value, Value)>>;

/// A YAML value that is a mapping, with other entries in place of its own: what
/// it becomes through what `Value::as_mapping_mut` gives.
pub uninterp spec fn yaml_with_entries(v: Value, es: Seq<(Value, Value)>) -> Value;

/// The place of a key among entries; behind the last if it is not there.
pub open spec fn key_index(es: Seq<(Value, Value)>, key: Value) -> int
    decreases es.len(),
{
    if es.len() == 0 || es[0].0 == key {
        0
    } else {
        1 + key_index(es.drop_first(), key)
    }
}

/// The value under a key, if the key is there.
pub open spec fn entry_value(es: Seq<(Value, Value)>, key: Value) -> Option<Value> {
    if key_index(es, key) < es.len() {
        Some(es[key_index(es, key)].1)
    } else {
        None
    }
}

/// Entries with a value under a key: in the place of the key if it is there,
/// behind the last if it is not.
pub open spec fn with_entry(es: Seq<(Value, Value)>, key: Value, v: Value) -> Seq<(Value, Value)> {
    if key_index(es, key) < es.len() {
        es.update(key_index(es, key), (key, v))
    } else {
        es.push((key, v))
    }
}

/// `serde_yaml::from_str`. Claimed is that the outcome depends on the text
/// alone; `None` stands for any error.
#[verifier::external_body]
fn parse_yaml(s: &str) -> (r: Option<Value>)
    ensures
        r == yaml_parsed(s@),
{
    serde_yaml::from_str(s).ok()
}

/// `serde_yaml::to_string`. Claimed is that the text, or the text of the error,
/// depends on the value alone.
#[verifier::external_body]
fn render_yaml(v: &Value) -> (r: Result<String, String>)
    ensures
        match (r, yaml_rendered(*v)) {
            (Ok(t), Ok(u)) => t@ == u,
            (Err(e), Err(f)) => e@ == f,
            _ => false,
        },
{
    serde_yaml::to_string(v).map_err(|e| e.to_string())
}

/// `Value::from` of a text. Claimed is that it gives the string of that text.
#[verifier::external_body]
fn string_value(s: &str) -> (r: Value)
    ensures
        r == yaml_string(s@),
        value_text(r) == Some(s@),
        value_entries(r) is None,
{
    Value::from(s)
}

/// `Mapping::new`. Claimed is that it gives a mapping without entries.
#[verifier::external_body]
fn empty_mapping() -> (r: Mapping)
    ensures
        mapping_entries(r) == Seq::<(Value, Value)>::empty(),
{
    Mapping::new()
}

/// `Mapping::insert` under a key that is a string. Claimed is that the value of
/// a key that is there is replaced in its place, that another key comes behind
/// the last, and that the key under which the value then stands is the string of
/// this text and of no other.
#[verifier::external_body]
fn insert_entry(m: &mut Mapping, key: &str, v: Value)
    ensures
        mapping_entries(*final(m)) == with_entry(
            mapping_entries(*old(m)),
            yaml_string(key@),
            v,
        ),
        value_text(
            mapping_entries(*final(m))[key_index(mapping_entries(*old(m)), yaml_string(key@))].0,
        ) == Some(key@),
        forall|s: Seq<char>|
            mapping_entries(*final(m))[key_index(
                mapping_entries(*old(m)),
                yaml_string(key@),
            )].0 == #[trigger] yaml_string(s) ==> s == key@,
{
    m.insert(Value::from(key), v);
}

/// `Mapping::get` of a key that is a string. Claimed is that it gives the value
/// under that key, if the key is there.
#[verifier::external_body]
fn get_entry<'a>(m: &'a Mapping, key: &str) -> (r: Option<&'a Value>)
    ensures
        match (r, entry_value(mapping_entries(*m), yaml_string(key@))) {
            (Some(v), Some(w)) => *v == w,
            (None, None) => true,
            _ => false,
        },
{
    m.get(Value::from(key))
}

/// `Value::from` of a mapping. Claimed is that it gives a value that is a
/// mapping of these entries.
#[verifier::external_body]
fn mapping_value(m: Mapping) -> (r: Value)
    ensures
        r == yaml_of_entries(mapping_entries(m)),
        value_entries(r) == Some(mapping_entries(m)),
{
    Value::from(m)
}

/// `Value::as_mapping`. Claimed is that it gives the mapping that the value is,
/// if it is one.
#[verifier::external_body]
fn as_mapping(v: &Value) -> (r: Option<&Mapping>)
    ensures
        match (r, value_entries(*v)) {
            (Some(m), Some(es)) => mapping_entries(*m) == es,
            (None, None) => true,
            _ => false,
        },
{
    v.as_mapping()
}

/// `Value::as_mapping_mut`. Claimed is that it gives the mapping that the value
/// is, if it is one, and that the value changes with it.
#[verifier::external_body]
fn as_mapping_mut(v: &mut Value) -> (r: Option<&mut Mapping>)
    ensures
        match (r, value_entries(*old(v))) {
            (Some(m), Some(es)) => mapping_entries(*m) == es && *final(v) == yaml_with_entries(
                *old(v),
                mapping_entries(*final(m)),
            ) && value_entries(*final(v)) == Some(mapping_entries(*final(m))),
            (None, None) => *final(v) == *old(v),
            _ => false,
        },
{
    v.as_mapping_mut()
}

/// `Value::as_str`. Claimed is that it gives the text that the value is, if it
/// is one.
#[verifier::external_body]
fn as_text(v: &Value) -> (r: Option<&str>)
    ensures
        match (r, value_text(*v)) {
            (Some(s), Some(t)) => s@ == t,
            (None, None) => true,
            _ => false,
        },
{
    v.as_str()
}

// ---------------------------------------------------------------------------
// Writing
// ---------------------------------------------------------------------------

/// The entries of the section that gives the agent's own provider another address
/// than its usual one.
pub open spec fn provider_section(base_url: Seq<char>) -> Seq<(Value, Value)> {
    seq![(yaml_string("baseURL"@), yaml_string(base_url))]
}

/// The entries of the section that names the model.
pub open spec fn model_section(provider: Seq<char>, model: Seq<char>) -> Seq<(Value, Value)> {
    seq![
        (yaml_string("provider"@), yaml_string(provider)),
        (yaml_string("model"@), yaml_string(model)),
    ]
}

/// The entries of the settings with the provider's section set, if an address is
/// configured; without one they stay as they are.
pub open spec fn with_provider(es: Seq<(Value, Value)>, base_url: Seq<char>) -> Seq<
    (Value, Value),
> {
    if base_url.len() > 0 {
        with_entry(
            es,
            yaml_string("llm-deepseek"@),
            yaml_of_entries(provider_section(base_url)),
        )
    } else {
        es
    }
}

/// The entries of the settings with the two managed sections set.
pub open spec fn merged_entries(es: Seq<(Value, Value)>, cfg: ModelConfig) -> Seq<
    (Value, Value),
> {
    with_entry(
        with_provider(es, cfg.base_url@),
        yaml_string("agent-default-model"@),
        yaml_of_entries(model_section(cfg.provider@, cfg.model@)),
    )
}

/// The settings to start from: what is there if it is a mapping, else nothing.
pub open spec fn settings_base(v: Value) -> Value {
    if value_entries(v) is Some {
        v
    } else {
        yaml_of_entries(Seq::empty())
    }
}

/// The entries of the settings to start from.
pub open spec fn base_entries(v: Value) -> Seq<(Value, Value)> {
    match value_entries(v) {
        Some(es) => es,
        None => Seq::empty(),
    }
}

/// The settings with the two managed sections set.
pub open spec fn merged(v: Value, cfg: ModelConfig) -> Value {
    yaml_with_entries(settings_base(v), merged_entries(base_entries(v), cfg))
}

/// The settings that a file holds; those of a file that is not there, or that
/// cannot be read as YAML, are empty.
pub open spec fn file_settings(existing: Option<Seq<char>>) -> Value {
    match existing {
        Some(s) => match yaml_parsed(s) {
            Some(v) => v,
            None => yaml_of_entries(Seq::empty()),
        },
        None => yaml_of_entries(Seq::empty()),
    }
}

/// Whether a key is that of a managed section.
pub open spec fn is_managed(key: Value) -> bool {
    value_text(key) == Some("llm-deepseek"@) || value_text(key) == Some("agent-default-model"@)
}

/// Sets the two managed sections in settings: they hold what is configured,
/// whatever they held, but for the provider's, which stays as it is if no address
/// is configured. Under every other key the settings hold what they held.
pub fn merge_settings(root: Value, cfg: &ModelConfig) -> (r: Value)
    ensures
        r == merged(root, *cfg),
        value_entries(r) == Some(merged_entries(base_entries(root), *cfg)),
        member(r, "llm-deepseek"@) == if cfg.base_url@.len() > 0 {
            Some(yaml_of_entries(provider_section(cfg.base_url@)))
        } else {
            member(root, "llm-deepseek"@)
        },
        member(r, "agent-default-model"@) == Some(
            yaml_of_entries(model_section(cfg.provider@, cfg.model@)),
        ),
        text_under(r, "agent-default-model"@, "provider"@) == Some(cfg.provider@),
        text_under(r, "agent-default-model"@, "model"@) == Some(cfg.model@),
        cfg.base_url@.len() > 0 ==> text_under(r, "llm-deepseek"@, "baseURL"@) == Some(
            cfg.base_url@,
        ),
        forall|k: Seq<char>|
            k != "llm-deepseek"@ && k != "agent-default-model"@ ==> #[trigger] member(r, k)
                == member(root, k),
        forall|key: Value|
            !is_managed(key) ==> #[trigger] entry_value(
                merged_entries(base_entries(root), *cfg),
                key,
            ) == entry_value(base_entries(root), key),
        preferred_theme(r) == preferred_theme(root),
{
    let mut default_model = empty_mapping();
    insert_entry(&mut default_model, "provider", string_value(cfg.provider.as_str()));
    assert(mapping_entries(default_model) =~= seq![
        (yaml_string("provider"@), yaml_string(cfg.provider@)),
    ]);
    let ghost first = mapping_entries(default_model);
    proof {
        lemma_key_index(first, yaml_string("model"@));
    }
    insert_entry(&mut default_model, "model", string_value(cfg.model.as_str()));
    proof {
        reveal_strlit("provider");
        reveal_strlit("model");
        assert("provider"@.len() == 8 && "model"@.len() == 5);
        lemma_key_index_is(first, yaml_string("model"@), 1);
        assert(mapping_entries(default_model) =~= model_section(cfg.provider@, cfg.model@));
        let both = mapping_entries(default_model);
        assert(value_text(both[0].1) == Some(cfg.provider@));
        assert(value_text(both[1].1) == Some(cfg.model@));
        lemma_key_index_is(both, yaml_string("provider"@), 0);
        lemma_key_index_is(both, yaml_string("model"@), 1);
    }
    let mut base = if as_mapping(&root).is_some() {
        root
    } else {
        mapping_value(empty_mapping())
    };
    let ghost es = base_entries(root);
    let ghost mid = with_provider(es, cfg.base_url@);
    let ghost k1 = yaml_string("llm-deepseek"@);
    let ghost k2 = yaml_string("agent-default-model"@);
    let ghost k3 = yaml_string("ui-theme"@);
    let ghost v1 = yaml_of_entries(provider_section(cfg.base_url@));
    let ghost v2 = yaml_of_entries(model_section(cfg.provider@, cfg.model@));
    proof {
        reveal_strlit("llm-deepseek");
        reveal_strlit("agent-default-model");
        reveal_strlit("ui-theme");
        assert("llm-deepseek"@.len() == 12 && "agent-default-model"@.len() == 19);
        assert("ui-theme"@.len() == 8);
        lemma_key_index(es, k1);
        lemma_key_index(mid, k2);
    }
    if let Some(m) = as_mapping_mut(&mut base) {
        if !cfg.base_url.as_str().is_empty() {
            let mut own = empty_mapping();
            insert_entry(&mut own, "baseURL", string_value(cfg.base_url.as_str()));
            assert(mapping_entries(own) =~= provider_section(cfg.base_url@));
            proof {
                assert(value_text(mapping_entries(own)[0].1) == Some(cfg.base_url@));
                lemma_key_index_is(mapping_entries(own), yaml_string("baseURL"@), 0);
            }
            insert_entry(m, "llm-deepseek", mapping_value(own));
            assert(value_text(k1) == Some("llm-deepseek"@));
            assert(k1 != k3);
        }
        insert_entry(m, "agent-default-model", mapping_value(default_model));
        proof {
            assert(value_text(k2) == Some("agent-default-model"@));
            assert(k1 != k2 && k3 != k2);
            lemma_with_entry(es, k1, v1, k3);
            lemma_with_entry(mid, k2, v2, k1);
            lemma_with_entry(mid, k2, v2, k3);
            assert forall|key: Value| !is_managed(key) implies #[trigger] entry_value(
                merged_entries(es, *cfg),
                key,
            ) == entry_value(es, key) by {
                lemma_with_entry(es, k1, v1, key);
                lemma_with_entry(mid, k2, v2, key);
            }
            assert forall|k: Seq<char>|
                k != "llm-deepseek"@ && k != "agent-default-model"@ implies #[trigger] entry_value(
                merged_entries(es, *cfg),
                yaml_string(k),
            ) == entry_value(es, yaml_string(k)) by {
                lemma_with_entry(es, k1, v1, yaml_string(k));
                lemma_with_entry(mid, k2, v2, yaml_string(k));
            }
        }
    }
    proof {
        assert forall|k: Seq<char>|
            k != "llm-deepseek"@ && k != "agent-default-model"@ implies #[trigger] member(base, k)
            == member(root, k) by {
            assert(member(base, k) == entry_value(merged_entries(es, *cfg), yaml_string(k)));
        }
    }
    base
}

/// Whether settings hold the provider and the model that are chosen, and otherwise
/// what the file held before, as far as it could be read.
pub open spec fn holds_the_choice(
    existing: Option<Seq<char>>,
    cfg: ModelConfig,
    v: Value,
) -> bool {
    &&& text_under(v, "agent-default-model"@, "provider"@) == Some(cfg.provider@)
    &&& text_under(v, "agent-default-model"@, "model"@) == Some(cfg.model@)
    &&& cfg.base_url@.len() > 0 ==> text_under(v, "llm-deepseek"@, "baseURL"@) == Some(
        cfg.base_url@,
    )
    &&& forall|s: Seq<char>, root: Value, k: Seq<char>|
        existing == Some(s) && #[trigger] yaml_parsed(s) == Some(root) && k != "llm-deepseek"@ && k
            != "agent-default-model"@ ==> member(v, k) == #[trigger] member(root, k)
}

/// The text of the settings file once the two managed sections are set, from the
/// text that it has now if there is one.
pub fn write_settings_yaml(existing: &Option<String>, cfg: &AppConfig) -> (r: Result<
    String,
    String,
>)
    ensures
        match (r, yaml_rendered(merged(file_settings(opt_text(*existing)), cfg.model))) {
            (Ok(t), Ok(u)) => t@ == u,
            (Err(e), Err(f)) => e@ == f,
            _ => false,
        },
        exists|v: Value|
            {
                &&& holds_the_choice(opt_text(*existing), cfg.model, v)
                &&& match (r, #[trigger] yaml_rendered(v)) {
                    (Ok(t), Ok(u)) => t@ == u,
                    (Err(e), Err(f)) => e@ == f,
                    _ => false,
                }
            },
{
    let root = match existing {
        Some(s) => match parse_yaml(s.as_str()) {
            Some(v) => v,
            None => mapping_value(empty_mapping()),
        },
        None => mapping_value(empty_mapping()),
    };
    let out = merge_settings(root, &cfg.model);
    let r = render_yaml(&out);
    assert(holds_the_choice(opt_text(*existing), cfg.model, out));
    r
}

// ---------------------------------------------------------------------------
// Reading
// ---------------------------------------------------------------------------

/// The value under a key of a value that is a mapping.
pub open spec fn member(v: Value, key: Seq<char>) -> Option<Value> {
    match value_entries(v) {
        Some(es) => entry_value(es, yaml_string(key)),
        None => None,
    }
}

/// The text that a value holds in a section, under a key.
pub open spec fn text_under(v: Value, section: Seq<char>, key: Seq<char>) -> Option<Seq<char>> {
    match member(v, section) {
        Some(s) => match member(s, key) {
            Some(t) => value_text(t),
            None => None,
        },
        None => None,
    }
}

/// The theme that settings prefer.
pub open spec fn preferred_theme(v: Value) -> Option<Seq<char>> {
    match member(v, "ui-theme"@) {
        Some(ns) => match member(ns, "preference"@) {
            Some(p) => value_text(p),
            None => None,
        },
        None => None,
    }
}

/// The theme that settings prefer, if they name one.
pub fn theme_of_settings(root: &Value) -> (r: Option<String>)
    ensures
        opt_text(r) == preferred_theme(*root),
        opt_text(r) == text_under(*root, "ui-theme"@, "preference"@),
{
    match as_mapping(root) {
        Some(m) => match get_entry(m, "ui-theme") {
            Some(ns) => match as_mapping(ns) {
                Some(t) => match get_entry(t, "preference") {
                    Some(p) => match as_text(p) {
                        Some(s) => Some(s.to_owned()),
                        None => None,
                    },
                    None => None,
                },
                None => None,
            },
            None => None,
        },
        None => None,
    }
}

/// The theme that a settings file prefers, if it is there and names one.
pub fn read_theme_preference(existing: &Option<String>) -> (r: Option<String>)
    ensures
        opt_text(r) == match opt_text(*existing) {
            Some(s) => match yaml_parsed(s) {
                Some(v) => preferred_theme(v),
                None => None,
            },
            None => None,
        },
{
    match existing {
        Some(s) => match parse_yaml(s.as_str()) {
            Some(v) => theme_of_settings(&v),
            None => None,
        },
        None => None,
    }
}

// ---------------------------------------------------------------------------
// Laws
// ---------------------------------------------------------------------------

/// `key_index` finds the first entry under a key.
proof fn lemma_key_index(es: Seq<(Value, Value)>, key: Value)
    ensures
        0 <= key_index(es, key) <= es.len(),
        key_index(es, key) < es.len() ==> es[key_index(es, key)].0 == key,
        forall|i: int| 0 <= i < key_index(es, key) ==> (#[trigger] es[i]).0 != key,
    decreases es.len(),
{
    if es.len() > 0 && es[0].0 != key {
        let t = es.drop_first();
        lemma_key_index(t, key);
        assert forall|i: int| 0 <= i < key_index(es, key) implies (#[trigger] es[i]).0
            != key by {
            if i > 0 {
                assert(t[i - 1] == es[i]);
            }
        }
    }
}

/// A place that is the first under a key is the key's index.
proof fn lemma_key_index_is(es: Seq<(Value, Value)>, key: Value, n: int)
    requires
        0 <= n <= es.len(),
        n < es.len() ==> es[n].0 == key,
        forall|i: int| 0 <= i < n ==> (#[trigger] es[i]).0 != key,
    ensures
        key_index(es, key) == n,
{
    lemma_key_index(es, key);
    let k = key_index(es, key);
    if k < n {
        assert(es[k].0 != key);
    }
}

/// Setting the value of a key sets it, keeps the values of all other keys, and
/// keeps every entry in its place.
proof fn lemma_with_entry(es: Seq<(Value, Value)>, key: Value, v: Value, other: Value)
    ensures
        entry_value(with_entry(es, key, v), key) == Some(v),
        other != key ==> entry_value(with_entry(es, key, v), other) == entry_value(es, other),
        es.len() <= with_entry(es, key, v).len() <= es.len() + 1,
        forall|i: int|
            0 <= i < es.len() ==> (#[trigger] with_entry(es, key, v)[i]).0 == es[i].0 && (es[i].0
                != key ==> with_entry(es, key, v)[i] == es[i]),
        with_entry(with_entry(es, key, v), key, v) == with_entry(es, key, v),
{
    let out = with_entry(es, key, v);
    let k = key_index(es, key);
    lemma_key_index(es, key);
    lemma_key_index_is(out, key, k);
    assert(with_entry(out, key, v) =~= out);
    if other != key {
        let j = key_index(es, other);
        lemma_key_index(es, other);
        if j < es.len() {
            assert(out[j] == es[j]);
            assert forall|i: int| 0 <= i < j implies (#[trigger] out[i]).0 != other by {
                assert(es[i].0 != other);
            }
            lemma_key_index_is(out, other, j);
        } else {
            assert forall|i: int| 0 <= i < out.len() implies (#[trigger] out[i]).0 != other by {
                if i < es.len() {
                    assert(es[i].0 != other);
                }
            }
            lemma_key_index_is(out, other, out.len() as int);
        }
    }
}

/// The user's settings keep their places: no entry moves or goes, at most the
/// two managed ones are added behind the last, and none but theirs changes.
pub proof fn law_settings_keep_their_places(es: Seq<(Value, Value)>, cfg: ModelConfig, i: int)
    requires
        0 <= i < es.len(),
    ensures
        es.len() <= merged_entries(es, cfg).len() <= es.len() + 2,
        merged_entries(es, cfg)[i].0 == es[i].0,
        es[i].0 != yaml_string("llm-deepseek"@) && es[i].0 != yaml_string(
            "agent-default-model"@,
        ) ==> merged_entries(es, cfg)[i] == es[i],
{
    let k1 = yaml_string("llm-deepseek"@);
    let v1 = yaml_of_entries(provider_section(cfg.base_url@));
    let k2 = yaml_string("agent-default-model"@);
    let v2 = yaml_of_entries(model_section(cfg.provider@, cfg.model@));
    let mid = with_provider(es, cfg.base_url@);
    lemma_with_entry(es, k1, v1, k1);
    lemma_with_entry(mid, k2, v2, k2);
    assert(with_entry(es, k1, v1)[i].0 == es[i].0);
    assert(mid[i].0 == es[i].0);
    assert(with_entry(mid, k2, v2)[i].0 == mid[i].0);
}

/// Setting the managed sections twice is setting them once.
pub proof fn law_merging_twice_is_merging_once(es: Seq<(Value, Value)>, cfg: ModelConfig)
    ensures
        merged_entries(merged_entries(es, cfg), cfg) == merged_entries(es, cfg),
{
    let k1 = yaml_string("llm-deepseek"@);
    let v1 = yaml_of_entries(provider_section(cfg.base_url@));
    let k2 = yaml_string("agent-default-model"@);
    let v2 = yaml_of_entries(model_section(cfg.provider@, cfg.model@));
    let mid = with_provider(es, cfg.base_url@);
    let out = with_entry(mid, k2, v2);
    lemma_with_entry(es, k1, v1, k2);
    lemma_with_entry(mid, k2, v2, k1);
    if cfg.base_url@.len() == 0 {
        assert(with_provider(out, cfg.base_url@) == out);
    } else if k1 != k2 {
        let n = key_index(out, k1);
        lemma_key_index(out, k1);
        assert(entry_value(out, k1) == Some(v1));
        assert(out[n] == (k1, v1));
        assert(with_entry(out, k1, v1) =~= out);
    } else {
        let n = key_index(out, k1);
        lemma_key_index(out, k1);
        let again = with_entry(out, k1, v1);
        lemma_key_index_is(again, k2, n);
        assert(out[n] == (k2, v2));
        assert(with_entry(again, k2, v2) =~= out);
    }
}

/// The settings hold the chosen provider and the chosen model in one section, and
/// the address, where one is chosen, in another; where none is, the provider's own
/// section is not touched.
pub proof fn law_the_choice_is_written(es: Seq<(Value, Value)>, cfg: ModelConfig)
    ensures
        entry_value(merged_entries(es, cfg), yaml_string("agent-default-model"@)) == Some(
            yaml_of_entries(
                seq![
                    (yaml_string("provider"@), yaml_string(cfg.provider@)),
                    (yaml_string("model"@), yaml_string(cfg.model@)),
                ],
            ),
        ),
        yaml_string("llm-deepseek"@) != yaml_string("agent-default-model"@) && cfg.base_url@.len()
            > 0 ==> entry_value(merged_entries(es, cfg), yaml_string("llm-deepseek"@)) == Some(
            yaml_of_entries(seq![(yaml_string("baseURL"@), yaml_string(cfg.base_url@))]),
        ),
        yaml_string("llm-deepseek"@) != yaml_string("agent-default-model"@) && cfg.base_url@.len()
            == 0 ==> entry_value(merged_entries(es, cfg), yaml_string("llm-deepseek"@))
            == entry_value(es, yaml_string("llm-deepseek"@)),
{
    let k1 = yaml_string("llm-deepseek"@);
    let k2 = yaml_string("agent-default-model"@);
    let v1 = yaml_of_entries(provider_section(cfg.base_url@));
    let v2 = yaml_of_entries(model_section(cfg.provider@, cfg.model@));
    let mid = with_provider(es, cfg.base_url@);
    lemma_with_entry(es, k1, v1, k1);
    lemma_with_entry(mid, k2, v2, k1);
}

} // verus!
