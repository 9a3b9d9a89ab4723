//! Pattern-driven redaction: scan the input with every rule in order,
//! collect the captured substrings, then substitute the placeholder for
//! one first occurrence per capture, in discovery order.

use vstd::prelude::*;

use crate::data::{Captures, Info, Pattern, Position, REDACT_PLACEHOLDER};
use crate::engine::{capture_matches, captures_of, raws_bounded, raws_match};
use crate::text_ops::{apply_captures, lemma_apply_captures_push, line_at, line_of_offset, replace_first_exec};

verus! {

/// A raw capture row is kept when the group participated and bound a
/// non-empty substring; empty captures carry nothing worth redacting.
pub open spec fn kept(o: Option<(Seq<char>, int, int)>) -> bool {
    o matches Some(c) && c.0.len() > 0
}

/// The kept rows of a raw capture sequence, in order.
pub open spec fn filter_kept(s: Seq<Option<(Seq<char>, int, int)>>) -> Seq<(Seq<char>, int, int)>
    decreases s.len(),
{
    if s.len() == 0 {
        Seq::empty()
    } else {
        filter_kept(s.drop_last()) + if kept(s.last()) {
            seq![s.last()->Some_0]
        } else {
            Seq::empty()
        }
    }
}

/// The captures one rule contributes on a text: its raw matches, with
/// non-participating and empty rows dropped.
pub open spec fn rule_caps(expr: Seq<char>, group: int, text: Seq<char>) -> Seq<(Seq<char>, int, int)> {
    filter_kept(captures_of(expr, text, group))
}

/// The captures of all rules on a text, concatenated in rule order.
pub open spec fn all_caps(rules: Seq<(Seq<char>, int)>, text: Seq<char>) -> Seq<(Seq<char>, int, int)>
    decreases rules.len(),
{
    if rules.len() == 0 {
        Seq::empty()
    } else {
        all_caps(rules.drop_last(), text) + rule_caps(rules.last().0, rules.last().1, text)
    }
}

/// The capture texts alone, in order.
pub open spec fn texts_of(cvs: Seq<(Seq<char>, int, int)>) -> Seq<Seq<char>> {
    cvs.map_values(|c: (Seq<char>, int, int)| c.0)
}

/// One reported capture matches one model row: same text, and position
/// data exactly when requested, giving the whole match's byte offsets
/// and the 1-based line of its start.
pub open spec fn capture_entry_ok(c: Captures, cv: (Seq<char>, int, int), text: Seq<char>, with_info: bool) -> bool {
    &&& c.text@ == cv.0
    &&& if with_info {
        &&& c.position matches Some(p)
        &&& p.line as int == line_at(text, cv.1)
        &&& p.start_offset as int == cv.1
        &&& p.end_offset as int == cv.2
    } else {
        c.position is None
    }
}

/// The reported capture list matches the model rows, elementwise.
pub open spec fn captures_report_ok(cs: Seq<Captures>, cvs: Seq<(Seq<char>, int, int)>, text: Seq<char>, with_info: bool) -> bool {
    &&& cs.len() == cvs.len()
    &&& forall|k: int| 0 <= k < cs.len() ==> capture_entry_ok(#[trigger] cs[k], cvs[k], text, with_info)
}

/// Define pattern redaction: an ordered rule list and a placeholder.
pub struct Redact {
    /// redact placeholder text
    pub text_placeholder: String,
    /// ordered list of rules
    patterns: Vec<Pattern>,
}

impl Redact {
    /// The (expression, group) pairs of the rules, in order.
    pub closed spec fn rules(&self) -> Seq<(Seq<char>, int)> {
        self.patterns@.map_values(|p: Pattern| p@)
    }

    /// The placeholder substituted for captured text.
    pub closed spec fn placeholder(&self) -> Seq<char> {
        self.text_placeholder@
    }

    /// Create a `Redact` with a custom placeholder and no rules yet.
    pub fn with_redact_placeholder(text_placeholder: &str) -> (r: Self)
        ensures
            r.placeholder() == text_placeholder@,
            r.rules() =~= Seq::<(Seq<char>, int)>::empty(),
    {
        Self::new(text_placeholder, Vec::new())
    }

    /// Create a `Redact` with a custom placeholder and no rules yet.
    pub fn with_redact_template(redact_placeholder: &str) -> (r: Self)
        ensures
            r.placeholder() == redact_placeholder@,
            r.rules() =~= Seq::<(Seq<char>, int)>::empty(),
    {
        Self::new(redact_placeholder, Vec::new())
    }

    /// Create a `Redact` from all available fields.
    pub fn new(text_placeholder: &str, patterns: Vec<Pattern>) -> (r: Self)
        ensures
            r.placeholder() == text_placeholder@,
            r.rules() == patterns@.map_values(|p: Pattern| p@),
    {
        Self { text_placeholder: String::from_str(text_placeholder), patterns }
    }

    /// Append one rule.
    pub fn add_pattern(self, pattern: Pattern) -> (r: Self)
        ensures
            r.placeholder() == self.placeholder(),
            r.rules() =~= self.rules().push(pattern@),
    {
        let mut patterns = self.patterns;
        patterns.push(pattern);
        Self { text_placeholder: self.text_placeholder, patterns }
    }

    /// Append a list of rules, in order.
    pub fn add_patterns(self, patterns: Vec<Pattern>) -> (r: Self)
        ensures
            r.placeholder() == self.placeholder(),
            r.rules() =~= self.rules() + patterns@.map_values(|p: Pattern| p@),
    {
        let ghost orig_rules = self.rules();
        let ghost orig_ph = self.placeholder();
        let ghost all = patterns@;
        let mut rest = patterns;
        let mut out = self;
        while rest.len() > 0
            invariant
                rest@.len() <= all.len(),
                rest@ =~= all.subrange(all.len() - rest@.len(), all.len() as int),
                out.placeholder() == orig_ph,
                out.rules() =~= orig_rules + all.take(all.len() - rest@.len()).map_values(
                    |p: Pattern| p@,
                ),
            decreases rest@.len(),
        {
            let ghost done = all.len() - rest@.len();
            let p = rest.remove(0);
            proof {
                assert(p == all[done]);
                assert(all.take(done + 1) =~= all.take(done).push(all[done]));
                assert(all.take(done + 1).map_values(|q: Pattern| q@) =~= all.take(done).map_values(
                    |q: Pattern| q@,
                ).push(p@));
            }
            out = out.add_pattern(p);
        }
        out
    }

    /// Loop on the rule list and try to find matches: every rule scans
    /// the original input, in configuration order; the captures are then
    /// substituted sequentially, each replacing one first occurrence of
    /// its text in the working copy. Matching always runs against the
    /// original text, never the partly rewritten copy, so a placeholder
    /// inserted by an earlier capture is not itself re-scanned.
    pub fn redact_patterns(&self, str: &str, with_info: bool) -> (r: Info)
        ensures
            captures_report_ok(r.captures@, all_caps(self.rules(), str@), str@, with_info),
            r.string@ == apply_captures(
                str@,
                texts_of(all_caps(self.rules(), str@)),
                self.placeholder(),
            ),
    {
        let ghost rules = self.rules();
        let mut caps: Vec<Captures> = Vec::new();
        let mut ri: usize = 0;
        while ri < self.patterns.len()
            invariant
                rules == self.rules(),
                self.patterns@.map_values(|p: Pattern| p@) == rules,
                ri <= self.patterns.len(),
                captures_report_ok(caps@, all_caps(rules.take(ri as int), str@), str@, with_info),
            decreases self.patterns@.len() - ri,
        {
            let p = &self.patterns[ri];
            let raws = capture_matches(p, str);
            let ghost rcvs = captures_of(p@.0, str@, p@.1);
            let ghost before = all_caps(rules.take(ri as int), str@);
            let mut j: usize = 0;
            while j < raws.len()
                invariant
                    raws_match(raws@, rcvs),
                    raws_bounded(raws@, str@),
                    j <= raws.len(),
                    captures_report_ok(
                        caps@,
                        before + filter_kept(rcvs.take(j as int)),
                        str@,
                        with_info,
                    ),
                decreases raws@.len() - j,
            {
                proof {
                    lemma_filter_kept_step(rcvs, j as int);
                }
                match &raws[j] {
                    Some(rc) => {
                        if !rc.text.as_str().is_empty() {
                            let position = if with_info {
                                let line = line_of_offset(str, rc.start);
                                Some(
                                    Position {
                                        line,
                                        start_offset: rc.start,
                                        end_offset: rc.end,
                                    },
                                )
                            } else {
                                None
                            };
                            caps.push(Captures { text: rc.text.clone(), position });
                            proof {
                                assert(before + filter_kept(rcvs.take(j + 1)) =~= (before
                                    + filter_kept(rcvs.take(j as int))).push(rcvs[j as int]->Some_0));
                            }
                        } else {
                            proof {
                                assert(before + filter_kept(rcvs.take(j + 1)) =~= before
                                    + filter_kept(rcvs.take(j as int)));
                            }
                        }
                    },
                    None => {
                        proof {
                            assert(before + filter_kept(rcvs.take(j + 1)) =~= before + filter_kept(
                                rcvs.take(j as int),
                            ));
                        }
                    },
                }
                j += 1;
            }
            proof {
                assert(rcvs.take(raws@.len() as int) =~= rcvs);
                lemma_all_caps_step(rules, str@, ri as int);
            }
            ri += 1;
        }
        proof {
            assert(rules.take(rules.len() as int) =~= rules);
        }
        let ghost cvs = all_caps(rules, str@);
        let mut out: String = str.to_owned();
        let mut k: usize = 0;
        while k < caps.len()
            invariant
                rules == self.rules(),
                cvs == all_caps(rules, str@),
                captures_report_ok(caps@, cvs, str@, with_info),
                k <= caps.len(),
                out@ == apply_captures(str@, texts_of(cvs).take(k as int), self.placeholder()),
                self.placeholder() == self.text_placeholder@,
            decreases caps@.len() - k,
        {
            let c = &caps[k];
            proof {
                assert(capture_entry_ok(caps@[k as int], cvs[k as int], str@, with_info));
                assert(texts_of(cvs)[k as int] == cvs[k as int].0);
                assert(texts_of(cvs).take(k + 1) =~= texts_of(cvs).take(k as int).push(
                    cvs[k as int].0,
                ));
                lemma_apply_captures_push(
                    str@,
                    texts_of(cvs).take(k as int),
                    cvs[k as int].0,
                    self.placeholder(),
                );
            }
            out = replace_first_exec(out.as_str(), c.text.as_str(), self.text_placeholder.as_str());
            k += 1;
        }
        proof {
            assert(texts_of(cvs).take(caps@.len() as int) =~= texts_of(cvs));
        }
        Info { string: out, captures: caps }
    }
}

impl Default for Redact {
    /// A `Redact` with the default placeholder and no rules.
    fn default() -> (r: Self)
        ensures
            r.placeholder() == REDACT_PLACEHOLDER@,
            r.rules() =~= Seq::<(Seq<char>, int)>::empty(),
    {
        Self::new(REDACT_PLACEHOLDER, Vec::new())
    }
}

/// Appending one rule appends that rule's captures to the whole list.
proof fn lemma_all_caps_step(rules: Seq<(Seq<char>, int)>, text: Seq<char>, i: int)
    requires
        0 <= i < rules.len(),
    ensures
        all_caps(rules.take(i + 1), text) == all_caps(rules.take(i), text) + rule_caps(
            rules[i].0,
            rules[i].1,
            text,
        ),
{
    assert(rules.take(i + 1).drop_last() =~= rules.take(i));
    assert(rules.take(i + 1).last() == rules[i]);
}

/// Extending the scanned prefix by one row extends the kept rows by
/// that row exactly when it is kept.
proof fn lemma_filter_kept_step(s: Seq<Option<(Seq<char>, int, int)>>, j: int)
    requires
        0 <= j < s.len(),
    ensures
        filter_kept(s.take(j + 1)) == filter_kept(s.take(j)) + if kept(s[j]) {
            seq![s[j]->Some_0]
        } else {
            Seq::<(Seq<char>, int, int)>::empty()
        },
{
    assert(s.take(j + 1).drop_last() =~= s.take(j));
    assert(s.take(j + 1).last() == s[j]);
}

/// A text from which no rule captures anything is left unchanged by
/// redaction, and the capture list is empty. In particular, redacting a
/// redacted output a second time changes nothing when the placeholder
/// matches none of the rules.
pub proof fn lemma_no_captures_no_change(rules: Seq<(Seq<char>, int)>, text: Seq<char>, ph: Seq<char>)
    requires
        forall|i: int| 0 <= i < rules.len() ==> rule_caps(
            (#[trigger] rules[i]).0,
            rules[i].1,
            text,
        ).len() == 0,
    ensures
        all_caps(rules, text).len() == 0,
        apply_captures(text, texts_of(all_caps(rules, text)), ph) == text,
    decreases rules.len(),
{
    if rules.len() == 0 {
    } else {
        assert(rules.drop_last() =~= rules.take(rules.len() - 1));
        assert(forall|i: int| 0 <= i < rules.drop_last().len() ==> rules.drop_last()[i] == rules[i]);
        lemma_no_captures_no_change(rules.drop_last(), text, ph);
        assert(rules.last() == rules[rules.len() - 1]);
        assert(all_caps(rules, text) =~= Seq::<(Seq<char>, int, int)>::empty());
    }
}

} // verus!
