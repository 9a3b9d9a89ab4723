//! Redact values inside a JSON document, selected by bare key name or
//! by dotted structural path. The tree walker visits object entries
//! depth-first; arrays contribute no path segments and are never
//! recursed into, except that a key-matched array has each of its
//! elements replaced by the placeholder, preserving its shape.

use vstd::prelude::*;

use crate::data::{RedactError, REDACT_PLACEHOLDER};
use crate::text_ops::eq_str;

verus! {

/// A JSON value at the specification level. Numbers are carried as
/// their token text: redaction never reads or writes a number, it only
/// moves them around or replaces them whole.
pub enum JVal {
    Null,
    Bool(bool),
    Num(Seq<char>),
    Str(Seq<char>),
    Arr(Seq<JVal>),
    Obj(Seq<(Seq<char>, JVal)>),
}

/// A JSON value: the library's own tree. Objects keep their entries as
/// an ordered list of key/value pairs; numbers keep their token text.
#[derive(Debug, PartialEq, Eq)]
pub enum JsonValue {
    Null,
    Bool(bool),
    Number(String),
    String(String),
    Array(Vec<JsonValue>),
    Object(Vec<(String, JsonValue)>),
}

/// The specification-level tree of a `JsonValue`.
pub open spec fn jview(v: JsonValue) -> JVal
    decreases v, 1int, 0int,
{
    match v {
        JsonValue::Null => JVal::Null,
        JsonValue::Bool(b) => JVal::Bool(b),
        JsonValue::Number(s) => JVal::Num(s@),
        JsonValue::String(s) => JVal::Str(s@),
        JsonValue::Array(items) => JVal::Arr(jviews(items@, items@.len() as int)),
        JsonValue::Object(entries) => JVal::Obj(jview_entries(entries@, entries@.len() as int)),
    }
}

/// Views of the first `n` items.
pub open spec fn jviews(items: Seq<JsonValue>, n: int) -> Seq<JVal>
    decreases items, 0int, n,
{
    if n <= 0 || n > items.len() {
        Seq::empty()
    } else {
        jviews(items, n - 1).push(jview(items[n - 1]))
    }
}

/// Views of the first `n` object entries.
pub open spec fn jview_entries(entries: Seq<(String, JsonValue)>, n: int) -> Seq<(Seq<char>, JVal)>
    decreases entries, 0int, n,
{
    if n <= 0 || n > entries.len() {
        Seq::empty()
    } else {
        jview_entries(entries, n - 1).push((entries[n - 1].0@, jview(entries[n - 1].1)))
    }
}

impl View for JsonValue {
    type V = JVal;

    open spec fn view(&self) -> JVal {
        jview(*self)
    }
}

/// `jviews` of a full prefix: one view per item, in order.
pub proof fn lemma_jviews_index(items: Seq<JsonValue>, n: int)
    requires
        0 <= n <= items.len(),
    ensures
        jviews(items, n).len() == n,
        forall|i: int| 0 <= i < n ==> jviews(items, n)[i] == jview(items[i]),
    decreases n,
{
    if n > 0 {
        lemma_jviews_index(items, n - 1);
    }
}

/// `jview_entries` of a full prefix: one entry view per entry, in order.
pub proof fn lemma_jview_entries_index(entries: Seq<(String, JsonValue)>, n: int)
    requires
        0 <= n <= entries.len(),
    ensures
        jview_entries(entries, n).len() == n,
        forall|i: int| 0 <= i < n ==> jview_entries(entries, n)[i] == (
            entries[i].0@,
            jview(entries[i].1),
        ),
    decreases n,
{
    if n > 0 {
        lemma_jview_entries_index(entries, n - 1);
    }
}

/// The JSON redaction configuration, at the specification level.
pub struct JsonCfg {
    /// replacement text
    pub placeholder: Seq<char>,
    /// bare key names whose values are redacted at any depth
    pub keys: Seq<Seq<char>>,
    /// exact dotted paths whose values are redacted
    pub paths: Seq<Seq<char>>,
    /// dotted paths whose whole subtree is redacted
    pub prefixes: Seq<Seq<char>>,
}

/// The dotted path of a child entry: the key itself at the root,
/// otherwise the parent path, a dot, and the key.
pub open spec fn child_path(path: Seq<char>, key: Seq<char>) -> Seq<char> {
    if path.len() == 0 {
        key
    } else {
        path + "."@ + key
    }
}

/// A child path triggers whole-value redaction when it is registered
/// exactly or as a subtree prefix.
pub open spec fn path_hit(cfg: JsonCfg, child: Seq<char>) -> bool {
    cfg.paths.contains(child) || cfg.prefixes.contains(child)
}

/// What a key-matched array becomes: the same shape with every element
/// the placeholder. Any other value is left as it is.
pub open spec fn array_collapse(ph: Seq<char>, v: JVal) -> JVal {
    match v {
        JVal::Arr(items) => JVal::Arr(Seq::new(items.len(), |i: int| JVal::Str(ph))),
        _ => v,
    }
}

/// What a key-matched value becomes: arrays keep their shape with each
/// element replaced; everything else collapses to the placeholder.
pub open spec fn key_collapse(cfg: JsonCfg, v: JVal) -> JVal {
    match v {
        JVal::Arr(items) => array_collapse(cfg.placeholder, v),
        _ => JVal::Str(cfg.placeholder),
    }
}

/// Redact a value reached at `path`: objects are walked entry by entry,
/// anything else is left untouched.
pub open spec fn walk(cfg: JsonCfg, v: JVal, path: Seq<char>) -> JVal
    decreases v, 1int, 0int,
{
    match v {
        JVal::Obj(entries) => JVal::Obj(walk_entries(cfg, entries, path, entries.len() as int)),
        _ => v,
    }
}

/// Redact one object entry's value, reached through key `key` under
/// `path`: a registered path or prefix collapses the whole value, a
/// registered bare key collapses it shape-aware, and any other object
/// is walked recursively under its own path.
pub open spec fn redact_entry(cfg: JsonCfg, key: Seq<char>, value: JVal, path: Seq<char>) -> JVal
    decreases value, 2int, 0int,
{
    let child = child_path(path, key);
    if path_hit(cfg, child) {
        JVal::Str(cfg.placeholder)
    } else if cfg.keys.contains(key) {
        key_collapse(cfg, value)
    } else {
        walk(cfg, value, child)
    }
}

/// The first `n` entries of an object, each redacted under `path`.
pub open spec fn walk_entries(
    cfg: JsonCfg,
    entries: Seq<(Seq<char>, JVal)>,
    path: Seq<char>,
    n: int,
) -> Seq<(Seq<char>, JVal)>
    decreases entries, 0int, n,
{
    if n <= 0 || n > entries.len() {
        Seq::empty()
    } else {
        walk_entries(cfg, entries, path, n - 1).push(
            (entries[n - 1].0, redact_entry(cfg, entries[n - 1].0, entries[n - 1].1, path)),
        )
    }
}

/// `walk_entries` of a full prefix: keys kept, each value redacted.
pub proof fn lemma_walk_entries_index(
    cfg: JsonCfg,
    entries: Seq<(Seq<char>, JVal)>,
    path: Seq<char>,
    n: int,
)
    requires
        0 <= n <= entries.len(),
    ensures
        walk_entries(cfg, entries, path, n).len() == n,
        forall|i: int| 0 <= i < n ==> walk_entries(cfg, entries, path, n)[i] == (
            entries[i].0,
            redact_entry(cfg, entries[i].0, entries[i].1, path),
        ),
    decreases n,
{
    if n > 0 {
        lemma_walk_entries_index(cfg, entries, path, n - 1);
    }
}

/// The outside type `serde_json::Value`, converted to and from the
/// library's own tree at the parse and serialize boundary.
#[verifier::external_type_specification]
#[verifier::external_body]
pub struct ExSerdeValue(serde_json::Value);

/// What parsing a text as a JSON document yields: `None` when the text
/// is not JSON, otherwise the tree, with object entries in the order
/// serde_json's sorted maps iterate and numbers carried as their token
/// text. A function of the text alone.
pub uninterp spec fn json_of(text: Seq<char>) -> Option<JVal>;

/// The text a tree serializes to: serde_json's compact form, with
/// object keys sorted. A function of the tree alone.
pub uninterp spec fn json_text_of(v: JVal) -> Seq<char>;

/// Converts a serde_json tree into the library's tree, one arm per
/// variant, moving fields: numbers keep their token text, objects keep
/// serde_json's (sorted) iteration order.
#[verifier::external_body]
fn from_serde(v: serde_json::Value) -> JsonValue {
    match v {
        serde_json::Value::Null => JsonValue::Null,
        serde_json::Value::Bool(b) => JsonValue::Bool(b),
        serde_json::Value::Number(n) => JsonValue::Number(n.to_string()),
        serde_json::Value::String(s) => JsonValue::String(s),
        serde_json::Value::Array(items) => JsonValue::Array(
            items.into_iter().map(from_serde).collect(),
        ),
        serde_json::Value::Object(m) => JsonValue::Object(
            m.into_iter().map(|(k, val)| (k, from_serde(val))).collect(),
        ),
    }
}

/// Relies on `serde_json::from_str::<serde_json::Value>`: a text either
/// parses to one JSON value or fails, deterministically in the text, so
/// the converted tree is `json_of` the input. The error carries the
/// parse diagnostic.
#[verifier::external_body]
fn parse_json(text: &str) -> (r: Result<JsonValue, String>)
    ensures
        r is Ok <==> json_of(text@) is Some,
        r matches Ok(v) ==> v@ == json_of(text@)->Some_0,
{
    match serde_json::from_str::<serde_json::Value>(text) {
        Ok(v) => Ok(from_serde(v)),
        Err(e) => Err(e.to_string()),
    }
}

/// Converts the library's tree back to a serde_json value, one arm per
/// variant: a number token parses back to the serde_json number it came
/// from; a token that does not parse is carried as a JSON string.
#[verifier::external_body]
fn to_serde(v: &JsonValue) -> serde_json::Value {
    match v {
        JsonValue::Null => serde_json::Value::Null,
        JsonValue::Bool(b) => serde_json::Value::Bool(*b),
        JsonValue::Number(s) => match serde_json::from_str::<serde_json::Number>(s) {
            Ok(n) => serde_json::Value::Number(n),
            Err(_) => serde_json::Value::String(s.clone()),
        },
        JsonValue::String(s) => serde_json::Value::String(s.clone()),
        JsonValue::Array(items) => serde_json::Value::Array(items.iter().map(to_serde).collect()),
        JsonValue::Object(entries) => serde_json::Value::Object(
            entries.iter().map(|(k, val)| (k.clone(), to_serde(val))).collect(),
        ),
    }
}

/// Relies on `serde_json::Value`'s `Display`: compact serialization,
/// deterministic in the value; composed with the deterministic
/// conversion above, the output text is a function of the tree alone.
#[verifier::external_body]
fn json_to_text(v: &JsonValue) -> (r: String)
    ensures
        r@ == json_text_of(v@),
{
    to_serde(v).to_string()
}

/// Define JSON redaction: a placeholder, bare key names, exact dotted
/// paths, and subtree path prefixes.
pub struct Redact {
    /// redact placeholder text
    pub text_placeholder: String,
    /// list of keys to redact wherever they appear
    pub keys: Vec<String>,
    /// list of exact dotted paths to redact
    pub path: Vec<String>,
    /// list of dotted paths whose whole subtree is redacted
    pub path_prefix: Vec<String>,
}

impl Redact {
    /// This configuration, at the specification level.
    pub open spec fn cfg(&self) -> JsonCfg {
        JsonCfg {
            placeholder: self.text_placeholder@,
            keys: self.keys.deep_view(),
            paths: self.path.deep_view(),
            prefixes: self.path_prefix.deep_view(),
        }
    }

    /// Create a `Redact` with a custom placeholder and nothing
    /// registered yet.
    pub fn with_redact_placeholder(text_placeholder: &str) -> (r: Self)
        ensures
            r.cfg().placeholder == text_placeholder@,
            r.cfg().keys =~= Seq::<Seq<char>>::empty(),
            r.cfg().paths =~= Seq::<Seq<char>>::empty(),
            r.cfg().prefixes =~= Seq::<Seq<char>>::empty(),
    {
        Self::new(text_placeholder, Vec::new(), Vec::new(), Vec::new())
    }

    /// Create a `Redact` from all available fields.
    pub fn new(text_placeholder: &str, keys: Vec<String>, path: Vec<String>, path_prefix: Vec<String>) -> (r: Self)
        ensures
            r.cfg().placeholder == text_placeholder@,
            r.cfg().keys == keys.deep_view(),
            r.cfg().paths == path.deep_view(),
            r.cfg().prefixes == path_prefix.deep_view(),
    {
        Self { text_placeholder: String::from_str(text_placeholder), keys, path, path_prefix }
    }

    /// Register one bare key: its value is redacted at any depth.
    pub fn add_key(self, key: &str) -> (r: Self)
        ensures
            r.cfg().placeholder == self.cfg().placeholder,
            r.cfg().keys =~= self.cfg().keys.push(key@),
            r.cfg().paths == self.cfg().paths,
            r.cfg().prefixes == self.cfg().prefixes,
    {
        let mut keys = self.keys;
        keys.push(String::from_str(key));
        Self {
            text_placeholder: self.text_placeholder,
            keys,
            path: self.path,
            path_prefix: self.path_prefix,
        }
    }

    /// Register a list of bare keys, in order.
    pub fn add_keys(self, keys: Vec<&str>) -> (r: Self)
        ensures
            r.cfg().placeholder == self.cfg().placeholder,
            r.cfg().keys =~= self.cfg().keys + keys.deep_view(),
            r.cfg().paths == self.cfg().paths,
            r.cfg().prefixes == self.cfg().prefixes,
    {
        let mut out = self;
        let mut i: usize = 0;
        while i < keys.len()
            invariant
                i <= keys.len(),
                out.cfg().placeholder == self.cfg().placeholder,
                out.cfg().keys =~= self.cfg().keys + keys.deep_view().take(i as int),
                out.cfg().paths == self.cfg().paths,
                out.cfg().prefixes == self.cfg().prefixes,
            decreases keys@.len() - i,
        {
            proof {
                assert(keys.deep_view().take(i + 1) =~= keys.deep_view().take(i as int).push(
                    keys.deep_view()[i as int],
                ));
            }
            out = out.add_key(keys[i]);
            i += 1;
        }
        proof {
            assert(keys.deep_view().take(keys@.len() as int) =~= keys.deep_view());
        }
        out
    }
}

/// A registered path entry ends in a dot and a star: it names a
/// subtree, and is stored with that suffix stripped.
pub open spec fn is_prefix_entry(p: Seq<char>) -> bool {
    p.len() >= 2 && p[p.len() - 1] == '*' && p[p.len() - 2] == '.'
}

/// A subtree entry without its trailing dot-star suffix.
pub open spec fn strip_wild(p: Seq<char>) -> Seq<char> {
    p.take(p.len() - 2)
}

/// The entries of a registered path list that name exact paths.
pub open spec fn exact_entries(ps: Seq<Seq<char>>) -> Seq<Seq<char>>
    decreases ps.len(),
{
    if ps.len() == 0 {
        Seq::empty()
    } else {
        exact_entries(ps.drop_last()) + if is_prefix_entry(ps.last()) {
            Seq::empty()
        } else {
            seq![ps.last()]
        }
    }
}

/// The entries of a registered path list that name subtrees, stripped.
pub open spec fn prefix_entries(ps: Seq<Seq<char>>) -> Seq<Seq<char>>
    decreases ps.len(),
{
    if ps.len() == 0 {
        Seq::empty()
    } else {
        prefix_entries(ps.drop_last()) + if is_prefix_entry(ps.last()) {
            seq![strip_wild(ps.last())]
        } else {
            Seq::empty()
        }
    }
}

/// Splitting one more entry extends exactly one of the two lists.
proof fn lemma_path_entries_step(ps: Seq<Seq<char>>, i: int)
    requires
        0 <= i < ps.len(),
    ensures
        exact_entries(ps.take(i + 1)) == exact_entries(ps.take(i)) + if is_prefix_entry(ps[i]) {
            Seq::<Seq<char>>::empty()
        } else {
            seq![ps[i]]
        },
        prefix_entries(ps.take(i + 1)) == prefix_entries(ps.take(i)) + if is_prefix_entry(ps[i]) {
            seq![strip_wild(ps[i])]
        } else {
            Seq::<Seq<char>>::empty()
        },
{
    assert(ps.take(i + 1).drop_last() =~= ps.take(i));
    assert(ps.take(i + 1).last() == ps[i]);
}

impl Redact {
    /// Register one dotted path: with a trailing `.*` it names a whole
    /// subtree and is stored stripped, otherwise it names one value.
    pub fn add_path(self, key: &str) -> (r: Self)
        ensures
            r.cfg().placeholder == self.cfg().placeholder,
            r.cfg().keys == self.cfg().keys,
            !is_prefix_entry(key@) ==> r.cfg().paths =~= self.cfg().paths.push(key@)
                && r.cfg().prefixes == self.cfg().prefixes,
            is_prefix_entry(key@) ==> r.cfg().prefixes =~= self.cfg().prefixes.push(
                strip_wild(key@),
            ) && r.cfg().paths == self.cfg().paths,
    {
        let len = key.unicode_len();
        if len >= 2 && key.get_char(len - 1) == '*' && key.get_char(len - 2) == '.' {
            let stripped = key.substring_char(0, len - 2);
            let mut path_prefix = self.path_prefix;
            path_prefix.push(String::from_str(stripped));
            Self {
                text_placeholder: self.text_placeholder,
                keys: self.keys,
                path: self.path,
                path_prefix,
            }
        } else {
            let mut path = self.path;
            path.push(String::from_str(key));
            Self {
                text_placeholder: self.text_placeholder,
                keys: self.keys,
                path,
                path_prefix: self.path_prefix,
            }
        }
    }

    /// Register a list of dotted paths, splitting subtree entries from
    /// exact ones.
    pub fn add_paths(self, path: Vec<&str>) -> (r: Self)
        ensures
            r.cfg().placeholder == self.cfg().placeholder,
            r.cfg().keys == self.cfg().keys,
            r.cfg().paths =~= self.cfg().paths + exact_entries(path.deep_view()),
            r.cfg().prefixes =~= self.cfg().prefixes + prefix_entries(path.deep_view()),
    {
        let ghost ps = path.deep_view();
        let mut out = self;
        let mut i: usize = 0;
        while i < path.len()
            invariant
                i <= path.len(),
                ps == path.deep_view(),
                out.cfg().placeholder == self.cfg().placeholder,
                out.cfg().keys == self.cfg().keys,
                out.cfg().paths =~= self.cfg().paths + exact_entries(ps.take(i as int)),
                out.cfg().prefixes =~= self.cfg().prefixes + prefix_entries(ps.take(i as int)),
            decreases path@.len() - i,
        {
            proof {
                lemma_path_entries_step(ps, i as int);
            }
            out = out.add_path(path[i]);
            i += 1;
        }
        proof {
            assert(ps.take(ps.len() as int) =~= ps);
        }
        out
    }

    /// Whether a list holds this exact string.
    fn contains_string(list: &Vec<String>, s: &str) -> (r: bool)
        ensures
            r == list.deep_view().contains(s@),
    {
        let mut i: usize = 0;
        while i < list.len()
            invariant
                i <= list@.len(),
                forall|k: int| 0 <= k < i ==> list.deep_view()[k] != s@,
            decreases list@.len() - i,
        {
            if eq_str(list[i].as_str(), s) {
                assert(list.deep_view()[i as int] == s@);
                return true;
            }
            i += 1;
        }
        false
    }

    /// A vector of `n` placeholder strings.
    fn placeholder_items(&self, n: usize) -> (out: Vec<JsonValue>)
        ensures
            out@.len() == n,
            forall|k: int| 0 <= k < n ==> (#[trigger] out@[k])@ == JVal::Str(
                self.cfg().placeholder,
            ),
    {
        let mut out: Vec<JsonValue> = Vec::new();
        let mut i: usize = 0;
        while i < n
            invariant
                i <= n,
                out@.len() == i,
                forall|k: int| 0 <= k < i ==> (#[trigger] out@[k])@ == JVal::Str(
                    self.cfg().placeholder,
                ),
            decreases n - i,
        {
            out.push(JsonValue::String(self.text_placeholder.clone()));
            i += 1;
        }
        out
    }

    /// An array value with each element replaced by the placeholder;
    /// any other value unchanged.
    fn collapse_array_owned(&self, v: JsonValue) -> (r: JsonValue)
        ensures
            r@ == array_collapse(self.cfg().placeholder, v@),
    {
        match v {
            JsonValue::Array(items) => {
                proof {
                    lemma_jviews_index(items@, items@.len() as int);
                }
                let out = self.placeholder_items(items.len());
                let r = JsonValue::Array(out);
                proof {
                    lemma_jviews_index(out@, out@.len() as int);
                    assert(r@->Arr_0 =~= array_collapse(
                        self.cfg().placeholder,
                        JVal::Arr(jviews(items@, items@.len() as int)),
                    )->Arr_0);
                }
                r
            },
            other => other,
        }
    }

    /// What a key-matched value becomes: shape-preserving for arrays,
    /// the placeholder for everything else.
    fn collapse_value(&self, v: JsonValue) -> (r: JsonValue)
        ensures
            r@ == key_collapse(self.cfg(), v@),
    {
        match v {
            JsonValue::Array(items) => self.collapse_array_owned(JsonValue::Array(items)),
            _ => JsonValue::String(self.text_placeholder.clone()),
        }
    }

    /// Redact all elements of an array value in place; a non-array
    /// value is left unchanged.
    pub fn redact_value_array(&self, array: &mut JsonValue)
        ensures
            final(array)@ == array_collapse(self.cfg().placeholder, old(array)@),
    {
        let mut tmp = JsonValue::Null;
        core::mem::swap(array, &mut tmp);
        let mut collapsed = self.collapse_array_owned(tmp);
        core::mem::swap(array, &mut collapsed);
    }

    /// Redact a value reached at the given accumulated dotted path, in
    /// place: the verified tree walk.
    pub fn redact_value(&self, json: &mut JsonValue, path: String)
        ensures
            final(json)@ == walk(self.cfg(), old(json)@, path@),
    {
        let mut tmp = JsonValue::Null;
        core::mem::swap(json, &mut tmp);
        let mut done = self.walk_exec(tmp, path.as_str());
        core::mem::swap(json, &mut done);
    }

    /// Walk one value: objects entry by entry, everything else untouched.
    #[verifier::loop_isolation(false)]
    fn walk_exec(&self, v: JsonValue, path: &str) -> (r: JsonValue)
        ensures
            r@ == walk(self.cfg(), v@, path@),
        decreases v,
    {
        let ghost gv = v;
        match v {
            JsonValue::Object(entries) => {
                let ghost gentries = entries;
                let ghost all = entries@;
                let ghost av = jview_entries(all, all.len() as int);
                proof {
                    lemma_jview_entries_index(all, all.len() as int);
                }
                let mut rest = entries;
                let mut out: Vec<(String, JsonValue)> = Vec::new();
                while rest.len() > 0
                    invariant
                        rest@.len() <= all.len(),
                        rest@ =~= all.subrange(all.len() - rest@.len(), all.len() as int),
                        out@.len() == all.len() - rest@.len(),
                        forall|i: int| 0 <= i < out@.len() ==> (#[trigger] out@[i]).0@ == av[i].0
                            && out@[i].1@ == redact_entry(self.cfg(), av[i].0, av[i].1, path@),
                    decreases rest@.len(),
                {
                    let ghost done = all.len() - rest@.len();
                    let (key, value) = rest.remove(0);
                    proof {
                        assert(key == gentries@[done].0);
                        assert(value == gentries@[done].1);
                        assert(gentries == gv->Object_0);
                        assert(decreases_to!(gv => gv->Object_0));
                        assert(decreases_to!(gentries => gentries@));
                        assert(decreases_to!(gentries@ => gentries@[done]));
                        assert(decreases_to!(gentries@[done] => gentries@[done].1));
                        assert(decreases_to!(gv => value));
                    }
                    let mut child = String::new();
                    if path.unicode_len() == 0 {
                        child.append(key.as_str());
                    } else {
                        child.append(path);
                        child.append(".");
                        child.append(key.as_str());
                    }
                    proof {
                        assert(child@ =~= child_path(path@, key@));
                    }
                    let hit = Self::contains_string(&self.path, child.as_str())
                        || Self::contains_string(&self.path_prefix, child.as_str());
                    let new_val: JsonValue = if hit {
                        JsonValue::String(self.text_placeholder.clone())
                    } else if Self::contains_string(&self.keys, key.as_str()) {
                        self.collapse_value(value)
                    } else {
                        self.walk_exec(value, child.as_str())
                    };
                    out.push((key, new_val));
                }
                let r = JsonValue::Object(out);
                proof {
                    lemma_walk_entries_index(self.cfg(), av, path@, av.len() as int);
                    lemma_jview_entries_index(out@, out@.len() as int);
                    assert(r@->Obj_0 =~= walk(self.cfg(), gv@, path@)->Obj_0);
                }
                r
            },
            other => other,
        }
    }

    /// Redact a JSON document given as text: parse it, walk the tree
    /// from the root with an empty path, and serialize the result.
    pub fn redact_str(&self, str: &str) -> (r: Result<String, RedactError>)
        ensures
            r is Ok <==> json_of(str@) is Some,
            r matches Ok(out) ==> out@ == json_text_of(
                walk(self.cfg(), json_of(str@)->Some_0, Seq::<char>::empty()),
            ),
            r matches Err(e) ==> e is ParseError,
    {
        match parse_json(str) {
            Ok(v) => {
                let empty = String::new();
                let red = self.walk_exec(v, empty.as_str());
                Ok(json_to_text(&red))
            },
            Err(m) => Err(RedactError::ParseError { message: m }),
        }
    }
}

impl Default for Redact {
    /// A `Redact` with the default placeholder and nothing registered.
    fn default() -> (r: Self)
        ensures
            r.cfg().placeholder == REDACT_PLACEHOLDER@,
            r.cfg().keys =~= Seq::<Seq<char>>::empty(),
            r.cfg().paths =~= Seq::<Seq<char>>::empty(),
            r.cfg().prefixes =~= Seq::<Seq<char>>::empty(),
    {
        Self::new(REDACT_PLACEHOLDER, Vec::new(), Vec::new(), Vec::new())
    }
}

/// A key-matched array entry keeps its shape under the walk: the entry
/// stays under its key, its value stays an array of the same length,
/// and every element is the placeholder.
pub proof fn lemma_array_key_preserves_shape(
    cfg: JsonCfg,
    entries: Seq<(Seq<char>, JVal)>,
    path: Seq<char>,
    i: int,
)
    requires
        0 <= i < entries.len(),
        cfg.keys.contains(entries[i].0),
        !path_hit(cfg, child_path(path, entries[i].0)),
        entries[i].1 is Arr,
    ensures
        ({
            let out = walk(cfg, JVal::Obj(entries), path);
            &&& out matches JVal::Obj(oes)
            &&& oes.len() == entries.len()
            &&& oes[i].0 == entries[i].0
            &&& oes[i].1 matches JVal::Arr(vals) && vals.len() == entries[i].1->Arr_0.len()
                && forall|k: int| 0 <= k < vals.len() ==> vals[k] == JVal::Str(cfg.placeholder)
        }),
{
    lemma_walk_entries_index(cfg, entries, path, entries.len() as int);
}

} // verus!
