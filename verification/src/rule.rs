//! Rules and rule sets: the built-in default rule table, reading a rule
//! document (an ordered `rules` list plus `patterns` and `colors`
//! placeholder tables), and resolving the placeholders into literal regex
//! fragments and escape sequences.

use vstd::prelude::*;
use crate::textsub::{append_range, pairs_model, subst_all, substitute_all};

verus! {

/// One highlighting rule: a regular-expression pattern of the shape
/// `(head)(target)(tail)` and the escape sequence that colorizes the target.
pub struct Rule {
    pub pattern: Vec<u8>,
    pub color: Vec<u8>,
}

/// An ordered rule set; rules are applied in list order, each one reading
/// the previous rule's output.
pub struct Rules {
    pub rules: Vec<Rule>,
}

/// Why a rule document was rejected.
#[derive(Debug)]
pub enum RuleLoadError {
    /// The text is not a valid TOML document.
    Toml { message: String },
    /// The document has no `rules` array.
    MissingRules,
    /// A rule entry without a string `pattern` or a string `color`;
    /// `index` names the entry.
    BadRuleEntry { index: usize },
    /// The document has no `patterns` table.
    MissingPatterns,
    /// A `patterns` entry whose value is not a string.
    BadPatterns,
    /// The document has no `colors` table.
    MissingColors,
    /// A `colors` entry whose value is not a string.
    BadColors,
}

/// One rule as its model: the pattern bytes and the color bytes.
pub open spec fn rule_model(ru: Rule) -> (Seq<u8>, Seq<u8>) {
    (ru.pattern@, ru.color@)
}

/// A rule list as its model: pattern and color bytes of each rule.
pub open spec fn rules_pairs(rs: Seq<Rule>) -> Seq<(Seq<u8>, Seq<u8>)> {
    Seq::new(rs.len(), |j: int| rule_model(rs[j]))
}

/// Whether `s` is a valid TOML document; a property of the text alone.
pub uninterp spec fn toml_parses(s: Seq<char>) -> bool;

/// The entries of the `rules` array of the TOML document `s`: nothing where
/// `s` is not valid TOML or has no `rules` array; else one element per
/// entry, in document order, holding the entry's string `pattern` and
/// string `color` as bytes, or nothing where the entry lacks either.  A
/// function of the text alone.
pub uninterp spec fn doc_rules_of(s: Seq<char>) -> Option<Seq<Option<(Seq<u8>, Seq<u8>)>>>;

/// The entries of the table under `key` in the TOML document `s`: nothing
/// where `s` is not valid TOML or has no such table; else one element per
/// entry, sorted by key, holding the entry's key as bytes and its string
/// value as bytes, or nothing where the value is no string.  A function of
/// the text and the key alone.
pub uninterp spec fn doc_table_of(s: Seq<char>, key: Seq<char>) -> Option<
    Seq<(Seq<u8>, Option<Seq<u8>>)>,
>;

/// Relies on toml::from_str::<toml::Value>: parsing is a function of the
/// text alone and fails exactly on text that is not valid TOML.
#[verifier::external_body]
fn toml_check(s: &str) -> (r: Result<(), String>)
    ensures
        r is Ok <==> toml_parses(s@),
{
    match toml::from_str::<toml::Value>(s) {
        Ok(_) => Ok(()),
        Err(e) => Err(e.to_string()),
    }
}

/// Exec-level rule entries seen as mathematical values.
pub open spec fn entries_model(v: Seq<Option<(Vec<u8>, Vec<u8>)>>) -> Seq<
    Option<(Seq<u8>, Seq<u8>)>,
> {
    Seq::new(
        v.len(),
        |j: int|
            match v[j] {
                Option::Some(p) => Option::Some((p.0@, p.1@)),
                Option::None => Option::<(Seq<u8>, Seq<u8>)>::None,
            },
    )
}

/// Exec-level table entries seen as mathematical values.
pub open spec fn table_model(v: Seq<(Vec<u8>, Option<Vec<u8>>)>) -> Seq<
    (Seq<u8>, Option<Seq<u8>>),
> {
    Seq::new(
        v.len(),
        |j: int|
            (
                v[j].0@,
                match v[j].1 {
                    Option::Some(b) => Option::Some(b@),
                    Option::None => Option::<Seq<u8>>::None,
                },
            ),
    )
}

/// Relies on toml::from_str::<toml::Value>, Value::get, Value::as_array and
/// Value::as_str: reads the document's `rules` array into plain values, one
/// element per entry, in document order.
#[verifier::external_body]
fn doc_rules(text: &str) -> (r: Option<Vec<Option<(Vec<u8>, Vec<u8>)>>>)
    ensures
        r is Some <==> doc_rules_of(text@) is Some,
        r is Some ==> entries_model(r->0@) == doc_rules_of(text@)->0,
{
    let doc: toml::Value = toml::from_str(text).ok()?;
    let arr = doc.get("rules")?.as_array()?;
    Some(arr.iter().map(|e| {
        let pattern = e.get("pattern").and_then(|p| p.as_str());
        let color = e.get("color").and_then(|c| c.as_str());
        match (pattern, color) {
            (Some(p), Some(c)) => Some((p.as_bytes().to_vec(), c.as_bytes().to_vec())),
            _ => None,
        }
    }).collect())
}

/// Relies on toml::from_str::<toml::Value>, Value::get, Value::as_table and
/// Value::as_str: reads the entries of the table under `key` into plain
/// values, sorted by key (the table is a BTreeMap).
#[verifier::external_body]
fn doc_table(text: &str, key: &str) -> (r: Option<Vec<(Vec<u8>, Option<Vec<u8>>)>>)
    ensures
        r is Some <==> doc_table_of(text@, key@) is Some,
        r is Some ==> table_model(r->0@) == doc_table_of(text@, key@)->0,
{
    let doc: toml::Value = toml::from_str(text).ok()?;
    let t = doc.get(key)?.as_table()?;
    Some(t.iter().map(
        |(k, w)| (k.as_bytes().to_vec(), w.as_str().map(|s| s.as_bytes().to_vec())),
    ).collect())
}

/// Every rule entry of the document carries its two strings.
pub open spec fn all_entries_ok(es: Seq<Option<(Seq<u8>, Seq<u8>)>>) -> bool {
    forall|k: int| 0 <= k < es.len() ==> es[k] is Some
}

/// Every table entry's value is a string.
pub open spec fn all_table_ok(es: Seq<(Seq<u8>, Option<Seq<u8>>)>) -> bool {
    forall|k: int| 0 <= k < es.len() ==> es[k].1 is Some
}

/// The index of the first rule entry, at or after `i`, that lacks a string
/// pattern or color; the length where there is none.
pub open spec fn first_bad_entry(es: Seq<Option<(Seq<u8>, Seq<u8>)>>, i: int) -> int
    decreases es.len() - i,
{
    if i < 0 || i >= es.len() {
        es.len() as int
    } else if es[i] is None {
        i
    } else {
        first_bad_entry(es, i + 1)
    }
}

/// Where the entries before `i` are whole and entry `i` is not, the first
/// bad entry is `i`.
proof fn lemma_first_bad(es: Seq<Option<(Seq<u8>, Seq<u8>)>>, k: int, i: int)
    requires
        0 <= k <= i < es.len(),
        es[i] is None,
        forall|j: int| k <= j < i ==> es[j] is Some,
    ensures
        first_bad_entry(es, k) == i,
    decreases i - k,
{
    if k < i {
        lemma_first_bad(es, k + 1, i);
    }
}

/// One rule entry's pair; meaningful only where it is present.
pub open spec fn entry_pair(o: Option<(Seq<u8>, Seq<u8>)>) -> (Seq<u8>, Seq<u8>) {
    match o {
        Option::Some(p) => p,
        Option::None => (Seq::<u8>::empty(), Seq::<u8>::empty()),
    }
}

/// A table's entries as (needle, replacement) pairs; meaningful where every
/// value is a string.
pub open spec fn table_pairs(es: Seq<(Seq<u8>, Option<Seq<u8>>)>) -> Seq<(Seq<u8>, Seq<u8>)> {
    Seq::new(
        es.len(),
        |j: int|
            (
                es[j].0,
                match es[j].1 {
                    Option::Some(b) => b,
                    Option::None => Seq::<u8>::empty(),
                },
            ),
    )
}

/// The document's rule entries with the placeholders of both tables
/// resolved: each pattern gets every `patterns` pair folded over it in
/// order, each color every `colors` pair.
pub open spec fn resolved_pairs(
    entries: Seq<Option<(Seq<u8>, Seq<u8>)>>,
    ps: Seq<(Seq<u8>, Option<Seq<u8>>)>,
    cs: Seq<(Seq<u8>, Option<Seq<u8>>)>,
) -> Seq<(Seq<u8>, Seq<u8>)> {
    Seq::new(
        entries.len(),
        |k: int|
            (
                subst_all(entry_pair(entries[k]).0, table_pairs(ps)),
                subst_all(entry_pair(entries[k]).1, table_pairs(cs)),
            ),
    )
}

/// What loading a rule document yields, as mathematical values.
pub enum LoadOutcome {
    /// The resolved (pattern, color) pairs, in document order.
    Loaded { rules: Seq<(Seq<u8>, Seq<u8>)> },
    /// The text is not a valid TOML document.
    NotToml,
    /// The document has no `rules` array.
    NoRules,
    /// The rule entry at `index` lacks a string pattern or color.
    BadRule { index: int },
    /// The document has no `patterns` table.
    NoPatterns,
    /// A `patterns` value is not a string.
    BadPattern,
    /// The document has no `colors` table.
    NoColors,
    /// A `colors` value is not a string.
    BadColor,
}

/// What loading the document text yields: the first defect in the order the
/// document is read, or the resolved rules.
pub open spec fn load_model(text: Seq<char>) -> LoadOutcome {
    if !toml_parses(text) {
        LoadOutcome::NotToml
    } else {
        match doc_rules_of(text) {
            Option::None => LoadOutcome::NoRules,
            Option::Some(entries) => {
                if !all_entries_ok(entries) {
                    LoadOutcome::BadRule { index: first_bad_entry(entries, 0) }
                } else {
                    match doc_table_of(text, "patterns"@) {
                        Option::None => LoadOutcome::NoPatterns,
                        Option::Some(ps) => {
                            if !all_table_ok(ps) {
                                LoadOutcome::BadPattern
                            } else {
                                match doc_table_of(text, "colors"@) {
                                    Option::None => LoadOutcome::NoColors,
                                    Option::Some(cs) => {
                                        if !all_table_ok(cs) {
                                            LoadOutcome::BadColor
                                        } else {
                                            LoadOutcome::Loaded {
                                                rules: resolved_pairs(entries, ps, cs),
                                            }
                                        }
                                    },
                                }
                            }
                        },
                    }
                }
            },
        }
    }
}

/// Resolves the placeholders of every raw rule: each rule's pattern gets
/// every `patterns` pair folded over it in order, its color every `colors`
/// pair, each pair replacing the first occurrence of its literal needle.
pub fn resolve_rules(
    raw: &Vec<(Vec<u8>, Vec<u8>)>,
    patterns: &Vec<(Vec<u8>, Vec<u8>)>,
    colors: &Vec<(Vec<u8>, Vec<u8>)>,
) -> (out: Vec<Rule>)
    ensures
        out@.len() == raw@.len(),
        forall|k: int|
            0 <= k < raw@.len() ==> (#[trigger] out@[k].pattern@ == subst_all(
                raw@[k].0@,
                pairs_model(patterns@),
            ) && out@[k].color@ == subst_all(raw@[k].1@, pairs_model(colors@))),
{
    let mut out: Vec<Rule> = Vec::new();
    let mut k: usize = 0;
    while k < raw.len()
        invariant
            k <= raw@.len(),
            out@.len() == k,
            forall|j: int|
                0 <= j < k ==> (#[trigger] out@[j].pattern@ == subst_all(
                    raw@[j].0@,
                    pairs_model(patterns@),
                ) && out@[j].color@ == subst_all(raw@[j].1@, pairs_model(colors@))),
        decreases raw@.len() - k,
    {
        let entry = &raw[k];
        let pattern = substitute_all(&entry.0, patterns);
        let color = substitute_all(&entry.1, colors);
        out.push(Rule { pattern, color });
        k = k + 1;
    }
    out
}

/// Reads a rule document: the ordered `rules` entries, each a string
/// `pattern` and string `color`, and the `patterns` and `colors`
/// placeholder tables, which are folded over every rule.  The outcome is
/// exactly `load_model` of the text: on success one rule per document
/// entry, in order, with the placeholders substituted; otherwise the error
/// that names the document's first defect.
pub fn load_rules_from_string(text: &str) -> (r: Result<Vec<Rule>, RuleLoadError>)
    ensures
        (load_model(text@) matches LoadOutcome::Loaded { rules } ==> (r is Ok && rules_pairs(
            r->Ok_0@,
        ) == rules)),
        r is Ok ==> load_model(text@) is Loaded,
        (load_model(text@) is NotToml <==> (r is Err && r->Err_0 is Toml)),
        (load_model(text@) is NoRules <==> (r is Err && r->Err_0 is MissingRules)),
        (load_model(text@) matches LoadOutcome::BadRule { index } ==> (r is Err && (r->Err_0
            matches RuleLoadError::BadRuleEntry { index: b } && b as int == index))),
        (r is Err && r->Err_0 is BadRuleEntry) ==> load_model(text@) is BadRule,
        (load_model(text@) is NoPatterns <==> (r is Err && r->Err_0 is MissingPatterns)),
        (load_model(text@) is BadPattern <==> (r is Err && r->Err_0 is BadPatterns)),
        (load_model(text@) is NoColors <==> (r is Err && r->Err_0 is MissingColors)),
        (load_model(text@) is BadColor <==> (r is Err && r->Err_0 is BadColors)),
{
    if let Err(message) = toml_check(text) {
        return Err(RuleLoadError::Toml { message });
    }
    let entries = match doc_rules(text) {
        Some(e) => e,
        None => {
            return Err(RuleLoadError::MissingRules);
        },
    };
    let ghost em = doc_rules_of(text@)->0;
    proof {
        assert(em == entries_model(entries@));
    }
    let mut raw: Vec<(Vec<u8>, Vec<u8>)> = Vec::new();
    let mut k: usize = 0;
    while k < entries.len()
        invariant
            k <= entries@.len(),
            toml_parses(text@),
            doc_rules_of(text@) is Some,
            em == doc_rules_of(text@)->0,
            em == entries_model(entries@),
            raw@.len() == k,
            forall|j: int| 0 <= j < k ==> em[j] is Some,
            forall|j: int|
                0 <= j < k ==> ((#[trigger] raw@[j]).0@, raw@[j].1@) == entry_pair(em[j]),
        decreases entries@.len() - k,
    {
        match &entries[k] {
            Some(pair) => {
                let mut pattern: Vec<u8> = Vec::new();
                append_range(&mut pattern, &pair.0, 0, pair.0.len());
                let mut color: Vec<u8> = Vec::new();
                append_range(&mut color, &pair.1, 0, pair.1.len());
                proof {
                    assert(em[k as int] == Option::Some((pair.0@, pair.1@)));
                    assert(pattern@ =~= pair.0@);
                    assert(color@ =~= pair.1@);
                }
                raw.push((pattern, color));
            },
            None => {
                proof {
                    assert(em[k as int] is None);
                    lemma_first_bad(em, 0, k as int);
                    assert(!all_entries_ok(em));
                }
                return Err(RuleLoadError::BadRuleEntry { index: k });
            },
        }
        k = k + 1;
    }
    proof {
        assert(all_entries_ok(em));
    }
    let ptab = match doc_table(text, "patterns") {
        Some(t) => t,
        None => {
            return Err(RuleLoadError::MissingPatterns);
        },
    };
    let ghost pm = doc_table_of(text@, "patterns"@)->0;
    proof {
        assert(pm == table_model(ptab@));
    }
    let mut pattern_pairs: Vec<(Vec<u8>, Vec<u8>)> = Vec::new();
    let mut k: usize = 0;
    while k < ptab.len()
        invariant
            k <= ptab@.len(),
            toml_parses(text@),
            doc_rules_of(text@) is Some,
            em == doc_rules_of(text@)->0,
            all_entries_ok(em),
            doc_table_of(text@, "patterns"@) is Some,
            pm == doc_table_of(text@, "patterns"@)->0,
            pm == table_model(ptab@),
            pattern_pairs@.len() == k,
            forall|j: int| 0 <= j < k ==> pm[j].1 is Some,
            forall|j: int|
                0 <= j < k ==> ((#[trigger] pattern_pairs@[j]).0@, pattern_pairs@[j].1@)
                    == table_pairs(pm)[j],
        decreases ptab@.len() - k,
    {
        let entry = &ptab[k];
        match &entry.1 {
            Some(value) => {
                let mut needle: Vec<u8> = Vec::new();
                append_range(&mut needle, &entry.0, 0, entry.0.len());
                let mut repl: Vec<u8> = Vec::new();
                append_range(&mut repl, value, 0, value.len());
                proof {
                    assert(pm[k as int] == (entry.0@, Option::Some(value@)));
                    assert(needle@ =~= entry.0@);
                    assert(repl@ =~= value@);
                }
                pattern_pairs.push((needle, repl));
            },
            None => {
                proof {
                    assert(pm[k as int].1 is None);
                    assert(!all_table_ok(pm));
                }
                return Err(RuleLoadError::BadPatterns);
            },
        }
        k = k + 1;
    }
    proof {
        assert(all_table_ok(pm));
        assert(pairs_model(pattern_pairs@) =~= table_pairs(pm));
    }
    let ctab = match doc_table(text, "colors") {
        Some(t) => t,
        None => {
            return Err(RuleLoadError::MissingColors);
        },
    };
    let ghost cm = doc_table_of(text@, "colors"@)->0;
    proof {
        assert(cm == table_model(ctab@));
    }
    let mut color_pairs: Vec<(Vec<u8>, Vec<u8>)> = Vec::new();
    let mut k: usize = 0;
    while k < ctab.len()
        invariant
            k <= ctab@.len(),
            toml_parses(text@),
            doc_rules_of(text@) is Some,
            em == doc_rules_of(text@)->0,
            all_entries_ok(em),
            doc_table_of(text@, "patterns"@) is Some,
            all_table_ok(doc_table_of(text@, "patterns"@)->0),
            doc_table_of(text@, "colors"@) is Some,
            cm == doc_table_of(text@, "colors"@)->0,
            cm == table_model(ctab@),
            color_pairs@.len() == k,
            forall|j: int| 0 <= j < k ==> cm[j].1 is Some,
            forall|j: int|
                0 <= j < k ==> ((#[trigger] color_pairs@[j]).0@, color_pairs@[j].1@)
                    == table_pairs(cm)[j],
        decreases ctab@.len() - k,
    {
        let entry = &ctab[k];
        match &entry.1 {
            Some(value) => {
                let mut needle: Vec<u8> = Vec::new();
                append_range(&mut needle, &entry.0, 0, entry.0.len());
                let mut repl: Vec<u8> = Vec::new();
                append_range(&mut repl, value, 0, value.len());
                proof {
                    assert(cm[k as int] == (entry.0@, Option::Some(value@)));
                    assert(needle@ =~= entry.0@);
                    assert(repl@ =~= value@);
                }
                color_pairs.push((needle, repl));
            },
            None => {
                proof {
                    assert(cm[k as int].1 is None);
                    assert(!all_table_ok(cm));
                }
                return Err(RuleLoadError::BadColors);
            },
        }
        k = k + 1;
    }
    proof {
        assert(all_table_ok(cm));
        assert(pairs_model(color_pairs@) =~= table_pairs(cm));
    }
    let out = resolve_rules(&raw, &pattern_pairs, &color_pairs);
    proof {
        assert(load_model(text@) == (LoadOutcome::Loaded { rules: resolved_pairs(em, pm, cm) }));
        assert forall|j: int| 0 <= j < out@.len() implies rules_pairs(out@)[j] == resolved_pairs(
            em,
            pm,
            cm,
        )[j] by {
            assert(out@[j].pattern@ == subst_all(raw@[j].0@, pairs_model(pattern_pairs@)));
            assert((raw@[j].0@, raw@[j].1@) == entry_pair(em[j]));
        }
        assert(rules_pairs(out@) =~= resolved_pairs(em, pm, cm));
    }
    Ok(out)
}

impl Rules {
    /// Builds the rule set from configuration text: the built-in default
    /// table where `conf` is empty, else `conf` itself as a rule document.
    /// On success the set holds exactly the loaded rules of that text; on
    /// failure the error names the text's first defect.
    pub fn new(conf: &str) -> (r: Result<Rules, RuleLoadError>)
        ensures
            ({
                let eff = if conf@.len() == 0 {
                    default_rules_spec()
                } else {
                    conf@
                };
                &&& (load_model(eff) matches LoadOutcome::Loaded { rules } ==> (r is Ok
                    && rules_pairs(r->Ok_0.rules@) == rules))
                &&& (r is Ok ==> load_model(eff) is Loaded)
                &&& (load_model(eff) is NotToml <==> (r is Err && r->Err_0 is Toml))
                &&& (load_model(eff) is NoRules <==> (r is Err && r->Err_0 is MissingRules))
                &&& (load_model(eff) matches LoadOutcome::BadRule { index } ==> (r is Err && (
                r->Err_0 matches RuleLoadError::BadRuleEntry { index: b } && b as int == index)))
                &&& ((r is Err && r->Err_0 is BadRuleEntry) ==> load_model(eff) is BadRule)
                &&& (load_model(eff) is NoPatterns <==> (r is Err && r->Err_0 is MissingPatterns))
                &&& (load_model(eff) is BadPattern <==> (r is Err && r->Err_0 is BadPatterns))
                &&& (load_model(eff) is NoColors <==> (r is Err && r->Err_0 is MissingColors))
                &&& (load_model(eff) is BadColor <==> (r is Err && r->Err_0 is BadColors))
            }),
    {
        let loaded = if conf.is_empty() {
            load_rules_from_string(default_rules_text())
        } else {
            load_rules_from_string(conf)
        };
        match loaded {
            Ok(rules) => Ok(Rules { rules }),
            Err(e) => Err(e),
        }
    }
}

/// The text of the built-in default rule table.
pub open spec fn default_rules_spec() -> Seq<char> {
    DEFAULT_RULES@
}

/// The built-in default rule table, as a rule document.
pub fn default_rules_text() -> (r: &'static str)
    ensures
        r@ == default_rules_spec(),
{
    DEFAULT_RULES
}

pub const DEFAULT_RULES: &'static str = r###"
# pattern format is (HEADER)(TARGET)(TAILER)
# only TARGET will be colorized.
# escape is needed in double-quoted string   -> "tab\\tbefore"
# but not needed in multiline literal string -> '''tab\tbefore'''

# date
[[rules]]
pattern = '''($HEAD)([0-9]{4}-[0-9]{2}-[0-9]{2}|[0-9]{3}/[0-9]{2}/[0-9]{2})($TAIL)'''
color   = "$CADETBLUE"

[[rules]]
pattern = '''($HEAD)([A-Z][a-z][a-z] [ 1-9][0-9])($TAIL)'''
color   = "$CADETBLUE"

# time
[[rules]]
pattern = '''(^|\s)([0-9]{2}:[0-9]{2}:[0-9]{2} \+[0-2][0-9]{3}|[0-9]{2}:[0-9]{2}:[0-9]{2})([^\w:]|\r|$)'''
color   = "$SALMON"

[[rules]]
pattern = '''(^|\s)([0-9]{2}:[0-9]{2}:[0-9]{2}\.[0-9]{0,6} \+[0-2][0-9]{3}|[0-9]{2}:[0-9]{2}:[0-9]{2}\.[0-9]{0,6})([^\w:]|\r|$)'''
color   = "$SALMON"

# mail address
[[rules]]
pattern = '''($HEAD)([\w.-]+@[\w.-]+)($TAIL)'''
color   = "$DARKKHAKI"

# ip address
[[rules]]
pattern = '''()([0-9]{1,3}\.[0-9]{1,3}\.[0-9]{1,3}\.[0-9]{1,3}(\/[0-9]{1,2}|[:.][0-9]{1,5}|))()'''
color   = "$DARKORANGE"

# mac address
[[rules]]
pattern = '''($HEAD)((?i)[0-9a-f]{2}:[0-9a-f]{2}:[0-9a-f]{2}:[0-9a-f]{2}:[0-9a-f]{2}:[0-9a-f]{2})($TAIL)'''
color   = "$MEDIUMPURPLE"

# path
[[rules]]
pattern = '''($HEAD)(/[^/]+/[a-zA-Z0-9./_\-]{4,})($TAIL)'''
color   = "$ROSYBROWN"

# quoted string
[[rules]]
pattern = '''()('[^']+'|"[^"]+")()'''
color   = "$DODGERBLUE"

# result keyword
[[rules]]
pattern = '''($HEAD)((?i)(ok|good))($TAIL)'''
color   = "$STEELBLUE"

[[rules]]
pattern = '''($HEAD)((?i)yes)($TAIL)'''
color   = "$GREENYELLOW"

[[rules]]
pattern = '''($HEAD)((?i)no)($TAIL)'''
color   = "$HOTPINK"

[[rules]]
pattern = '''($HEAD)((?i)(ng|bad|err))($TAIL)'''
color   = "$RED"

[[rules]]
pattern = '''($HEAD)((?i)(failed|failure))($TAIL)'''
color   = "$RED"

[[rules]]
pattern = '''($HEAD)((?i)exception)($TAIL)'''
color   = "$RED"

[[rules]]
pattern = '''($HEAD)((?i)abnormally)($TAIL)'''
color   = "$RED"

[[rules]]
pattern = '''($HEAD)((?i)normally)($TAIL)'''
color   = "$STEELBLUE"

[[rules]]
pattern = '''($HEAD)((?i)normally)($TAIL)'''
color   = "$STEELBLUE"

[[rules]]
pattern = '''()((?i)(succee?ded|succee?d))()'''
color   = "$STEELBLUE"

[[rules]]
pattern = '''()((?i)(successfully|successful|success))()'''
color   = "$STEELBLUE"

# function name
[[rules]]
pattern = '''(critical|fatal|abort|error|warning|warn|info|debug):( [\w]+:)()'''
color   = "$GRAY"

[[rules]]
pattern = '''(\[[0-9]{1,6}:[0-9]{1,6}\]:|\[[0-9]{1,6}\]:)( [\w]+:)()'''
color   = "$GRAY"

[[rules]]
pattern = '''($HEAD)([\w]+\(\))($TAIL)'''
color   = "$GRAY"

# process name
[[rules]]
pattern = '''($HEAD)([\w.-]+)(\[[0-9]{1,6}\]|\[[0-9]{1,6}:[0-9]{1,6}\])'''
color   = "$LIGHTSLATEGREY"

# pid
[[rules]]
pattern = '''($HEAD)((?i)\[[0-9]{1,6}:[0-9]{1,6}\]|\[[0-9]{1,6}\])()'''
color   = "$LIGHTCORAL"

# loglevel
[[rules]]
pattern = '''($HEAD)((?i)(fatal|abort|alert|error))(:)'''
color   = "$RED"

[[rules]]
pattern = '''($HEAD)((?i)warn(ing)?)(:)'''
color   = "$RED"

[[rules]]
pattern = '''($HEAD)((?i)info)(:)'''
color   = "$CYAN"

[[rules]]
pattern = '''($HEAD)((?i)debug)(:)'''
color   = "$DARKSEAGREEN"

# second/minute/hour/day
[[rules]]
pattern = '''($HEAD)([0-9]+)(?i)(seconds?|sec|minutes?|min|hours?|days?)($TAIL)'''
color   = "$YELLOW"

# numeric
[[rules]]
pattern = '''([ :=\(])([0-9]+)([\r \)]|$)'''
color   = "$YELLOW"

# operation keyword
[[rules]]
pattern = '''($HEAD)((?i)started|start|stopped|stop|exited|exit|end|finished|finish|completed|complete)($TAIL)'''
color   = "$LIGHTCYAN"

# networking keyword
[[rules]]
pattern = '''($HEAD)(src|de?st|udp|tcp|from|to|port)($TAIL)'''
color   = "$INDIANRED"

[patterns]
"$HEAD" = '''^|\b|\W'''
"$TAIL" = '''\r|$|\b|\W'''

[colors]
# NOTE: TOML file allows only \uXXXX format.
"$RED"            = "\u001b[1;31m"
"$YELLOW"         = "\u001b[1;33m"
"$CYAN"           = "\u001b[1;36m"
"$CADETBLUE"      = "\u001b[0;38;05;73m"
"$MEDIUMPURPLE"   = "\u001b[0;38;05;104m"
"$LIGHTSLATEGREY" = "\u001b[0;38;05;103m"
"$DARKSEAGREEN"   = "\u001b[0;38;05;108m"
"$INDIANRED"      = "\u001b[0;38;05;167m"
"$GREENYELLOW"    = "\u001b[0;38;05;154m"
"$LIGHTCYAN"      = "\u001b[0;38;05;195m"
"$HOTPINK"        = "\u001b[0;38;05;206m"
"$STEELBLUE"      = "\u001b[0;38;05;75m"
"$ROSYBROWN"      = "\u001b[0;38;05;138m"
"$DARKORANGE"     = "\u001b[0;38;05;208m"
"$DARKKHAKI"      = "\u001b[0;38;05;143m"
"$SALMON"         = "\u001b[0;38;05;209m"
"$DODGERBLUE"     = "\u001b[0;38;05;33m"
"$LIGHTCORAL"     = "\u001b[0;38;05;210m"
"$GRAY"           = "\u001b[0;38;05;245m"
"###;

} // verus!
