//! The redaction facade: one configuration object combining the
//! pattern engine and the JSON redactor. Pattern- and value-based text
//! redaction always runs before structural JSON redaction, so a literal
//! secret embedded anywhere in a document is masked even when the tree
//! walker does not target its key.

use vstd::prelude::*;

use crate::data::{regex_ok, Info, Pattern, RedactError, REDACT_PLACEHOLDER};
use crate::json;
use crate::json::{json_of, json_text_of, walk, JsonCfg};
use crate::pattern;
use crate::pattern::{all_caps, captures_report_ok, texts_of};
use crate::text_ops::apply_captures;

verus! {

/// A regex metacharacter: one of the eighteen characters the regex
/// crate's `escape` puts a backslash before.
pub open spec fn is_meta_char(c: char) -> bool {
    ||| c == '\\'
    ||| c == '.'
    ||| c == '+'
    ||| c == '*'
    ||| c == '?'
    ||| c == '('
    ||| c == ')'
    ||| c == '|'
    ||| c == '['
    ||| c == ']'
    ||| c == '{'
    ||| c == '}'
    ||| c == '^'
    ||| c == '$'
    ||| c == '#'
    ||| c == '&'
    ||| c == '-'
    ||| c == '~'
}

/// A value with every regex metacharacter escaped: each character is
/// copied, with a backslash put before each metacharacter.
pub open spec fn escaped(s: Seq<char>) -> Seq<char>
    decreases s.len(),
{
    if s.len() == 0 {
        Seq::empty()
    } else {
        escaped(s.drop_last()) + if is_meta_char(s.last()) {
            seq!['\\', s.last()]
        } else {
            seq![s.last()]
        }
    }
}

/// Relies on `regex::escape` (regex-syntax's `escape_into`): every
/// character is copied in order, with a backslash put before each of
/// the crate's eighteen metacharacters, exactly as `escaped` states.
#[verifier::external_body]
fn escape_value(s: &str) -> (r: String)
    ensures
        r@ == escaped(s@),
{
    regex::escape(s)
}

/// The single-capture-group expression a literal value turns into: the
/// escaped value wrapped in one capturing group.
pub open spec fn value_pattern(v: Seq<char>) -> Seq<char> {
    seq!['('] + escaped(v) + seq![')']
}

/// The rules contributed by the values whose pattern compiles, in order.
pub open spec fn ok_value_rules(vs: Seq<Seq<char>>) -> Seq<(Seq<char>, int)>
    decreases vs.len(),
{
    if vs.len() == 0 {
        Seq::empty()
    } else {
        ok_value_rules(vs.drop_last()) + if regex_ok(value_pattern(vs.last())) {
            seq![(value_pattern(vs.last()), 1int)]
        } else {
            Seq::empty()
        }
    }
}

/// The values whose pattern does not compile, in order.
pub open spec fn failing_values(vs: Seq<Seq<char>>) -> Seq<Seq<char>>
    decreases vs.len(),
{
    if vs.len() == 0 {
        Seq::empty()
    } else {
        failing_values(vs.drop_last()) + if regex_ok(value_pattern(vs.last())) {
            Seq::<Seq<char>>::empty()
        } else {
            seq![vs.last()]
        }
    }
}

/// Handling one more value extends exactly one of the two lists.
proof fn lemma_values_step(vs: Seq<Seq<char>>, i: int)
    requires
        0 <= i < vs.len(),
    ensures
        ok_value_rules(vs.take(i + 1)) == ok_value_rules(vs.take(i)) + if regex_ok(
            value_pattern(vs[i]),
        ) {
            seq![(value_pattern(vs[i]), 1int)]
        } else {
            Seq::<(Seq<char>, int)>::empty()
        },
        failing_values(vs.take(i + 1)) == failing_values(vs.take(i)) + if regex_ok(
            value_pattern(vs[i]),
        ) {
            Seq::<Seq<char>>::empty()
        } else {
            seq![vs[i]]
        },
{
    assert(vs.take(i + 1).drop_last() =~= vs.take(i));
    assert(vs.take(i + 1).last() == vs[i]);
}

/// Define redact settings: pattern rules for raw text and key/path
/// rules for JSON documents, sharing one placeholder.
pub struct Redaction {
    /// redaction of JSON documents by key and by path
    json: json::Redact,
    /// redaction of raw text by pattern rules
    pattern: pattern::Redact,
}

impl Redaction {
    /// The (expression, group) rules of the pattern engine, in order.
    pub closed spec fn rules(&self) -> Seq<(Seq<char>, int)> {
        self.pattern.rules()
    }

    /// The placeholder substituted for captured text.
    pub closed spec fn placeholder(&self) -> Seq<char> {
        self.pattern.placeholder()
    }

    /// The JSON redaction configuration.
    pub closed spec fn json_cfg(&self) -> JsonCfg {
        self.json.cfg()
    }

    /// Create a `Redaction` with the default placeholder.
    pub fn new() -> (r: Self)
        ensures
            r.placeholder() == REDACT_PLACEHOLDER@,
            r.rules() =~= Seq::<(Seq<char>, int)>::empty(),
            r.json_cfg().placeholder == REDACT_PLACEHOLDER@,
            r.json_cfg().keys =~= Seq::<Seq<char>>::empty(),
            r.json_cfg().paths =~= Seq::<Seq<char>>::empty(),
            r.json_cfg().prefixes =~= Seq::<Seq<char>>::empty(),
    {
        Self::custom(REDACT_PLACEHOLDER)
    }

    /// Create a `Redaction` with a custom placeholder.
    pub fn custom(redact_placeholder: &str) -> (r: Self)
        ensures
            r.placeholder() == redact_placeholder@,
            r.rules() =~= Seq::<(Seq<char>, int)>::empty(),
            r.json_cfg().placeholder == redact_placeholder@,
            r.json_cfg().keys =~= Seq::<Seq<char>>::empty(),
            r.json_cfg().paths =~= Seq::<Seq<char>>::empty(),
            r.json_cfg().prefixes =~= Seq::<Seq<char>>::empty(),
    {
        Self {
            json: json::Redact::with_redact_placeholder(redact_placeholder),
            pattern: pattern::Redact::with_redact_placeholder(redact_placeholder),
        }
    }

    /// Redact one exact literal value: it is escaped, wrapped in one
    /// capturing group, and added as a rule. Fails when the escaped
    /// pattern does not compile, naming the value.
    pub fn add_value(self, value: &str) -> (r: Result<Self, RedactError>)
        ensures
            r is Ok <==> regex_ok(value_pattern(value@)),
            r matches Ok(s) ==> s.rules() =~= self.rules().push((value_pattern(value@), 1int))
                && s.placeholder() == self.placeholder() && s.json_cfg() == self.json_cfg(),
            r matches Err(e) ==> (e matches RedactError::InvalidPattern { values }
                && values.deep_view() =~= seq![value@]),
    {
        let expr = Self::value_pattern_exec(value);
        match Pattern::new(expr.as_str(), 1) {
            Ok(p) => Ok(self.add_pattern(p)),
            Err(_) => {
                let mut values: Vec<String> = Vec::new();
                values.push(String::from_str(value));
                assert(values.deep_view() =~= seq![value@]);
                Err(RedactError::InvalidPattern { values })
            },
        }
    }

    /// The expression a literal value turns into.
    fn value_pattern_exec(value: &str) -> (r: String)
        ensures
            r@ == value_pattern(value@),
    {
        let escaped_value = escape_value(value);
        let mut expr = String::from_str("(");
        expr.append(escaped_value.as_str());
        expr.append(")");
        proof {
            reveal_strlit("(");
            reveal_strlit(")");
            assert(expr@ =~= value_pattern(value@));
        }
        expr
    }

    /// Redact a list of exact literal values. All failing values are
    /// collected before reporting, so one bad value does not hide the
    /// others; on any failure nothing is added.
    pub fn add_values(self, values: Vec<&str>) -> (r: Result<Self, RedactError>)
        ensures
            r is Ok <==> failing_values(values.deep_view()).len() == 0,
            r matches Ok(s) ==> s.rules() =~= self.rules() + ok_value_rules(values.deep_view())
                && s.placeholder() == self.placeholder() && s.json_cfg() == self.json_cfg(),
            r matches Err(e) ==> (e matches RedactError::InvalidPattern { values: errs }
                && errs.deep_view() =~= failing_values(values.deep_view())),
    {
        let ghost vs = values.deep_view();
        let mut patterns: Vec<Pattern> = Vec::new();
        let mut errors: Vec<String> = Vec::new();
        let mut i: usize = 0;
        while i < values.len()
            invariant
                i <= values.len(),
                vs == values.deep_view(),
                vs.len() == values@.len(),
                patterns@.map_values(|p: Pattern| p@) =~= ok_value_rules(vs.take(i as int)),
                errors.deep_view() =~= failing_values(vs.take(i as int)),
            decreases values@.len() - i,
        {
            proof {
                lemma_values_step(vs, i as int);
            }
            let expr = Self::value_pattern_exec(values[i]);
            match Pattern::new(expr.as_str(), 1) {
                Ok(p) => {
                    patterns.push(p);
                },
                Err(_) => {
                    errors.push(String::from_str(values[i]));
                },
            }
            i += 1;
        }
        proof {
            assert(vs.take(vs.len() as int) =~= vs);
        }
        if errors.len() > 0 {
            Err(RedactError::InvalidPattern { values: errors })
        } else {
            Ok(self.add_patterns(patterns))
        }
    }

    /// Add one rule to the redaction list.
    pub fn add_pattern(self, pattern: Pattern) -> (r: Self)
        ensures
            r.rules() =~= self.rules().push(pattern@),
            r.placeholder() == self.placeholder(),
            r.json_cfg() == self.json_cfg(),
    {
        Self { json: self.json, pattern: self.pattern.add_pattern(pattern) }
    }

    /// Add a list of rules to the redaction list, in order.
    pub fn add_patterns(self, patterns: Vec<Pattern>) -> (r: Self)
        ensures
            r.rules() =~= self.rules() + patterns@.map_values(|p: Pattern| p@),
            r.placeholder() == self.placeholder(),
            r.json_cfg() == self.json_cfg(),
    {
        Self { json: self.json, pattern: self.pattern.add_patterns(patterns) }
    }

    /// Redact the JSON value of the given key, at any depth.
    pub fn add_key(self, key: &str) -> (r: Self)
        ensures
            r.rules() == self.rules(),
            r.placeholder() == self.placeholder(),
            r.json_cfg().placeholder == self.json_cfg().placeholder,
            r.json_cfg().keys =~= self.json_cfg().keys.push(key@),
            r.json_cfg().paths == self.json_cfg().paths,
            r.json_cfg().prefixes == self.json_cfg().prefixes,
    {
        Self { json: self.json.add_key(key), pattern: self.pattern }
    }

    /// Redact the JSON value at a dotted path; a trailing `.*` makes it
    /// a whole-subtree entry, stored stripped.
    pub fn add_path(self, key: &str) -> (r: Self)
        ensures
            r.rules() == self.rules(),
            r.placeholder() == self.placeholder(),
            r.json_cfg().placeholder == self.json_cfg().placeholder,
            r.json_cfg().keys == self.json_cfg().keys,
            !json::is_prefix_entry(key@) ==> r.json_cfg().paths =~= self.json_cfg().paths.push(
                key@,
            ) && r.json_cfg().prefixes == self.json_cfg().prefixes,
            json::is_prefix_entry(key@) ==> r.json_cfg().prefixes
                =~= self.json_cfg().prefixes.push(json::strip_wild(key@)) && r.json_cfg().paths
                == self.json_cfg().paths,
    {
        Self { json: self.json.add_path(key), pattern: self.pattern }
    }

    /// Redact from a string: every rule's captures, substituted in order.
    pub fn redact_str(&self, str: &str) -> (r: String)
        ensures
            r@ == apply_captures(
                str@,
                texts_of(all_caps(self.rules(), str@)),
                self.placeholder(),
            ),
    {
        self.pattern.redact_patterns(str, false).string
    }

    /// Redact from a string, with position details for every match.
    pub fn redact_str_with_info(&self, str: &str) -> (r: Info)
        ensures
            captures_report_ok(r.captures@, all_caps(self.rules(), str@), str@, true),
            r.string@ == apply_captures(
                str@,
                texts_of(all_caps(self.rules(), str@)),
                self.placeholder(),
            ),
    {
        self.pattern.redact_patterns(str, true)
    }

    /// Redact text from a reader: the reader is drained fully, decoded
    /// as UTF-8, and redacted as a string.
    pub fn redact_reader<R: std::io::Read>(&self, rdr: R) -> (r: Result<String, RedactError>)
        ensures
            r matches Ok(out) ==> exists|t: Seq<char>|
                out@ == apply_captures(t, texts_of(all_caps(self.rules(), t)), self.placeholder()),
            r matches Err(e) ==> e is IoError || e is EncodingError,
    {
        match read_all(rdr) {
            Ok(s) => {
                let out = self.redact_str(s.as_str());
                proof {
                    let t = s@;
                    assert(out@ == apply_captures(
                        t,
                        texts_of(all_caps(self.rules(), t)),
                        self.placeholder(),
                    ));
                }
                Ok(out)
            },
            Err(e) => Err(e),
        }
    }

    /// Redact text from a reader, with position details for every match.
    pub fn redact_reader_with_info<R: std::io::Read>(&self, rdr: R) -> (r: Result<
        Info,
        RedactError,
    >)
        ensures
            r matches Ok(info) ==> exists|t: Seq<char>|
                captures_report_ok(info.captures@, all_caps(self.rules(), t), t, true)
                    && info.string@ == apply_captures(
                    t,
                    texts_of(all_caps(self.rules(), t)),
                    self.placeholder(),
                ),
            r matches Err(e) ==> e is IoError || e is EncodingError,
    {
        match read_all(rdr) {
            Ok(s) => {
                let info = self.redact_str_with_info(s.as_str());
                proof {
                    let t = s@;
                    assert(captures_report_ok(info.captures@, all_caps(self.rules(), t), t, true));
                }
                Ok(info)
            },
            Err(e) => Err(e),
        }
    }

    /// Redact a JSON document given as text: pattern and value rules
    /// run on the raw text first, then the result is parsed, the tree
    /// walked, and the redacted document serialized.
    pub fn redact_json(&self, str: &str) -> (r: Result<String, RedactError>)
        ensures
            ({
                let mid = apply_captures(
                    str@,
                    texts_of(all_caps(self.rules(), str@)),
                    self.placeholder(),
                );
                &&& (r is Ok <==> json_of(mid) is Some)
                &&& (r matches Ok(out) ==> out@ == json_text_of(
                    walk(self.json_cfg(), json_of(mid)->Some_0, Seq::<char>::empty()),
                ))
                &&& (r matches Err(e) ==> e is ParseError)
            }),
    {
        let mid = self.redact_str(str);
        self.json.redact_str(mid.as_str())
    }
}

impl Default for Redaction {
    /// A `Redaction` with the default placeholder and nothing registered.
    fn default() -> (r: Self)
        ensures
            r.placeholder() == REDACT_PLACEHOLDER@,
            r.rules() =~= Seq::<(Seq<char>, int)>::empty(),
            r.json_cfg().placeholder == REDACT_PLACEHOLDER@,
            r.json_cfg().keys =~= Seq::<Seq<char>>::empty(),
            r.json_cfg().paths =~= Seq::<Seq<char>>::empty(),
            r.json_cfg().prefixes =~= Seq::<Seq<char>>::empty(),
    {
        Self::new()
    }
}

/// Relies on `std::io::Read::read_to_end` and `std::str::from_utf8` at
/// the library's edge: the reader is drained into a buffer and decoded.
/// Nothing can be promised of bytes that arrive from outside; failures
/// are reported as the reader's error or as an encoding error.
#[verifier::external_body]
fn read_all<R: std::io::Read>(rdr: R) -> (r: Result<String, RedactError>)
    ensures
        r matches Err(e) ==> e is IoError || e is EncodingError,
{
    let mut rdr_box = Box::new(rdr);
    let mut buffer = Vec::new();
    if let Err(e) = rdr_box.read_to_end(&mut buffer) {
        return Err(RedactError::IoError { message: e.to_string() });
    }
    match String::from_utf8(buffer) {
        Ok(s) => Ok(s),
        Err(_) => Err(RedactError::EncodingError),
    }
}

} // verus!
