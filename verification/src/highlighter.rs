//! The highlighting engine: ordered application of compiled rules to one
//! line of bytes, wrapping each matched target span in a color escape and a
//! reset while copying every other byte through unchanged.

use vstd::prelude::*;
use vstd::utf8::valid_utf8;
use crate::rule::Rule;
use crate::rule::rule_model;
use crate::textsub::append_range;

verus! {

/// Why a run of the engine failed.
#[derive(Debug)]
pub enum HighlightError {
    /// A rule's pattern did not compile; `index` names the offending rule.
    Pattern { index: usize, message: String },
    /// The matcher itself reported a failure while scanning a line.
    MatchFailed { message: String },
    /// A match of a rule had no target group to colorize.
    MissingTarget,
    /// The target spans of one rule were out of order or out of bounds.
    OverlappingTargets,
    /// A matched target span was not valid UTF-8.
    Encoding,
}

/// The ANSI escape sequence `ESC [ 0 m` that returns the terminal to its
/// default attributes; it closes every colorized target span.
pub open spec fn reset_seq() -> Seq<u8> {
    seq![0x1bu8, 0x5bu8, 0x30u8, 0x6du8]
}

/// Builds the reset escape sequence as bytes.
fn reset_bytes() -> (r: Vec<u8>)
    ensures
        r@ == reset_seq(),
{
    let mut v: Vec<u8> = Vec::new();
    v.push(0x1b);
    v.push(0x5b);
    v.push(0x30);
    v.push(0x6d);
    proof {
        assert(v@ =~= reset_seq());
    }
    v
}

/// A list of target spans is well formed from index `i` onward when the
/// chain of spans starting at byte position `pos` is ordered, non
/// overlapping, and stays within a line of length `len`.
pub open spec fn spans_wf_from(spans: Seq<(int, int)>, i: int, pos: int, len: int) -> bool
    decreases spans.len() - i,
{
    if i < 0 || i >= spans.len() {
        pos <= len
    } else {
        &&& pos <= spans[i].0
        &&& spans[i].0 <= spans[i].1
        &&& spans_wf_from(spans, i + 1, spans[i].1, len)
    }
}

/// Exec-level spans (byte offsets into the line) seen as mathematical pairs.
pub open spec fn spans_model(s: Seq<(usize, usize)>) -> Seq<(int, int)> {
    s.map_values(|p: (usize, usize)| (p.0 as int, p.1 as int))
}

/// The colorized form of `line` from byte position `pos` onward, given the
/// target spans from index `i` onward: the bytes before each target are
/// copied verbatim, each target is wrapped in `color` and `reset`, and the
/// bytes after the last target are copied verbatim.
pub open spec fn wrap_from(
    line: Seq<u8>,
    spans: Seq<(int, int)>,
    i: int,
    pos: int,
    color: Seq<u8>,
    reset: Seq<u8>,
) -> Seq<u8>
    decreases spans.len() - i,
{
    if i < 0 || i >= spans.len() {
        line.subrange(pos, line.len() as int)
    } else {
        line.subrange(pos, spans[i].0) + color + line.subrange(spans[i].0, spans[i].1) + reset
            + wrap_from(line, spans, i + 1, spans[i].1, color, reset)
    }
}

/// The whole colorized line: every target span wrapped in `color` and the
/// reset escape, everything else copied through.
pub open spec fn wrap_all(line: Seq<u8>, spans: Seq<(int, int)>, color: Seq<u8>) -> Seq<u8> {
    wrap_from(line, spans, 0, 0, color, reset_seq())
}

/// A well-formed chain that starts at `pos` ends within the line.
proof fn lemma_wf_pos_le_len(spans: Seq<(int, int)>, i: int, pos: int, len: int)
    requires
        spans_wf_from(spans, i, pos, len),
    ensures
        pos <= len,
    decreases spans.len() - i,
{
    if 0 <= i && i < spans.len() {
        lemma_wf_pos_le_len(spans, i + 1, spans[i].1, len);
    }
}

/// Decides whether the spans from index `i` onward form a well ordered,
/// in-bounds chain starting at `pos`.
pub fn check_spans_from(spans: &Vec<(usize, usize)>, i: usize, pos: usize, len: usize) -> (r: bool)
    requires
        i <= spans@.len(),
    ensures
        r == spans_wf_from(spans_model(spans@), i as int, pos as int, len as int),
    decreases spans@.len() - i,
{
    if i == spans.len() {
        pos <= len
    } else {
        let (s, e) = spans[i];
        if pos <= s && s <= e {
            check_spans_from(spans, i + 1, e, len)
        } else {
            false
        }
    }
}

/// Rebuilds one line for one rule: every span of `spans` is wrapped in
/// `color` and the reset escape, all other bytes are copied verbatim.
pub fn wrap_targets(line: &Vec<u8>, spans: &Vec<(usize, usize)>, color: &Vec<u8>) -> (out: Vec<u8>)
    requires
        spans_wf_from(spans_model(spans@), 0, 0, line@.len() as int),
    ensures
        out@ == wrap_all(line@, spans_model(spans@), color@),
{
    let reset = reset_bytes();
    let mut out: Vec<u8> = Vec::new();
    let mut pos: usize = 0;
    let mut i: usize = 0;
    let ghost sm = spans_model(spans@);
    while i < spans.len()
        invariant
            i <= spans@.len(),
            sm == spans_model(spans@),
            reset@ == reset_seq(),
            spans_wf_from(sm, i as int, pos as int, line@.len() as int),
            pos <= line@.len(),
            wrap_all(line@, sm, color@) == out@ + wrap_from(
                line@,
                sm,
                i as int,
                pos as int,
                color@,
                reset_seq(),
            ),
        decreases spans@.len() - i,
    {
        let (s, e) = spans[i];
        proof {
            lemma_wf_pos_le_len(sm, i as int + 1, e as int, line@.len() as int);
        }
        let ghost out0 = out@;
        append_range(&mut out, line, pos, s);
        append_range(&mut out, color, 0, color.len());
        append_range(&mut out, line, s, e);
        append_range(&mut out, &reset, 0, reset.len());
        proof {
            assert(out@ =~= out0 + (line@.subrange(pos as int, s as int) + color@
                + line@.subrange(s as int, e as int) + reset_seq()));
            assert(out0 + wrap_from(line@, sm, i as int, pos as int, color@, reset_seq())
                =~= out@ + wrap_from(line@, sm, i as int + 1, e as int, color@, reset_seq()));
        }
        pos = e;
        i = i + 1;
    }
    append_range(&mut out, line, pos, line.len());
    proof {
        assert(out@ =~= wrap_all(line@, sm, color@));
    }
    out
}

#[verifier::external_type_specification]
#[verifier::external_body]
pub struct ExRegex(pcre2::bytes::Regex);

/// A compiled rule: the pattern's matcher plus the bytes of the pattern it
/// was built from and the color escape to wrap its targets in.
pub struct Replacer {
    regex: pcre2::bytes::Regex,
    pattern: Vec<u8>,
    color: Vec<u8>,
}

/// One compiled rule as its model: the pattern bytes and the color bytes.
pub open spec fn replacer_model(r: Replacer) -> (Seq<u8>, Seq<u8>) {
    (r.pattern_view(), r.color_view())
}

impl Replacer {
    /// The bytes of the pattern this matcher was compiled from.
    pub closed spec fn pattern_view(&self) -> Seq<u8> {
        self.pattern@
    }

    /// The bytes of the color escape this rule wraps its targets in.
    pub closed spec fn color_view(&self) -> Seq<u8> {
        self.color@
    }
}

/// Whether `pattern` is valid UTF-8 and compiles as a regular expression;
/// a property of the pattern bytes alone.
pub uninterp spec fn pcre_compiles(pattern: Seq<u8>) -> bool;

/// The target spans that the pattern's matcher reports on `subject`: for
/// each successive non-overlapping match, the span of capture group 2 (the
/// target), or nothing where that group did not take part in the match.  A
/// function of the pattern and the subject alone.
pub uninterp spec fn target_spans(pattern: Seq<u8>, subject: Seq<u8>) -> Seq<Option<(int, int)>>;

/// Exec-level raw capture spans seen as mathematical pairs.
pub open spec fn raw_model(s: Seq<Option<(usize, usize)>>) -> Seq<Option<(int, int)>> {
    s.map_values(
        |o: Option<(usize, usize)>|
            match o {
                Option::Some(p) => Option::Some((p.0 as int, p.1 as int)),
                Option::None => Option::<(int, int)>::None,
            },
    )
}

/// Every match exposed a target span.
pub open spec fn all_targets_present(raw: Seq<Option<(int, int)>>) -> bool {
    forall|k: int| 0 <= k < raw.len() ==> raw[k] is Some
}

/// The target span of one match; meaningful only where it is present.
pub open spec fn the_span(o: Option<(int, int)>) -> (int, int) {
    match o {
        Option::Some(p) => p,
        Option::None => (0, 0),
    }
}

/// The present target spans, in match order.
pub open spec fn present_spans(raw: Seq<Option<(int, int)>>) -> Seq<(int, int)> {
    raw.map_values(|o: Option<(int, int)>| the_span(o))
}

/// Every target span of `spans` holds valid UTF-8 in `line`.
pub open spec fn targets_utf8(line: Seq<u8>, spans: Seq<(int, int)>) -> bool {
    forall|k: int|
        0 <= k < spans.len() ==> valid_utf8(line.subrange(spans[k].0, spans[k].1))
}

/// One rule's matches on `line` are usable: every match has a target span,
/// the spans form an ordered in-bounds chain, and each target is valid text.
pub open spec fn rule_step_ok(line: Seq<u8>, raw: Seq<Option<(int, int)>>) -> bool {
    &&& all_targets_present(raw)
    &&& spans_wf_from(present_spans(raw), 0, 0, line.len() as int)
    &&& targets_utf8(line, present_spans(raw))
}

/// What one rule turns `line` into: the line with every target span wrapped
/// in the rule's color and the reset escape, or nothing where the rule's
/// matches are unusable.
pub open spec fn apply_rule_model(pattern: Seq<u8>, color: Seq<u8>, line: Seq<u8>) -> Option<
    Seq<u8>,
> {
    if rule_step_ok(line, target_spans(pattern, line)) {
        Option::Some(wrap_all(line, present_spans(target_spans(pattern, line)), color))
    } else {
        Option::<Seq<u8>>::None
    }
}

/// The cascade: the rules from index `i` onward applied in order, each one
/// reading the previous rule's output.
pub open spec fn chain_model(rules: Seq<(Seq<u8>, Seq<u8>)>, i: int, line: Seq<u8>) -> Option<
    Seq<u8>,
>
    decreases rules.len() - i,
{
    if i < 0 || i >= rules.len() {
        Option::Some(line)
    } else {
        match apply_rule_model(rules[i].0, rules[i].1, line) {
            Option::Some(next) => chain_model(rules, i + 1, next),
            Option::None => Option::<Seq<u8>>::None,
        }
    }
}

/// Relies on pcre2::bytes::RegexBuilder::build: it compiles the pattern
/// (JIT where available, which changes speed only) and returns an error
/// exactly on a pattern that is not valid UTF-8 or not valid syntax.
#[verifier::external_body]
fn compile_replacer(pattern: &Vec<u8>, color: &Vec<u8>) -> (r: Result<Replacer, String>)
    ensures
        r is Ok <==> pcre_compiles(pattern@),
        r is Ok ==> r->Ok_0.pattern_view() == pattern@,
        r is Ok ==> r->Ok_0.color_view() == color@,
{
    let p = match std::str::from_utf8(pattern) {
        Ok(p) => p,
        Err(e) => return Err(e.to_string()),
    };
    match pcre2::bytes::RegexBuilder::new().jit_if_available(true).build(p) {
        Ok(regex) => Ok(Replacer { regex, pattern: pattern.clone(), color: color.clone() }),
        Err(e) => Err(e.to_string()),
    }
}

/// Relies on pcre2::bytes::Regex::captures_iter: it reports the successive
/// non-overlapping matches of the compiled pattern on the subject, left to
/// right, a function of pattern and subject alone; group 2 of each match is
/// the target span.  `Replacer` values exist only through
/// `compile_replacer`, so the matcher was compiled from `pattern_view`.
#[verifier::external_body]
fn find_targets(rep: &Replacer, hay: &Vec<u8>) -> (r: Result<Vec<Option<(usize, usize)>>, String>)
    ensures
        r is Ok ==> raw_model(r->Ok_0@) == target_spans(rep.pattern_view(), hay@),
{
    let mut out = Vec::new();
    for caps in rep.regex.captures_iter(hay) {
        match caps {
            Ok(c) => out.push(c.get(2).map(|m| (m.start(), m.end()))),
            Err(e) => return Err(e.to_string()),
        }
    }
    Ok(out)
}

/// Relies on std::str::from_utf8: it accepts exactly the valid UTF-8 byte
/// sequences.
#[verifier::external_body]
fn utf8_ok(bytes: &Vec<u8>) -> (r: bool)
    ensures
        r == valid_utf8(bytes@),
{
    std::str::from_utf8(bytes).is_ok()
}

/// Applies one compiled rule to one line: wraps every usable target span in
/// the rule's color and the reset escape and copies all other bytes through.
pub fn apply_rule(rep: &Replacer, line: &Vec<u8>) -> (r: Result<Vec<u8>, HighlightError>)
    ensures
        r is Ok ==> rule_step_ok(line@, target_spans(rep.pattern_view(), line@)) && Option::Some(
            r->Ok_0@,
        ) == apply_rule_model(rep.pattern_view(), rep.color_view(), line@),
        apply_rule_model(rep.pattern_view(), rep.color_view(), line@) is None ==> r is Err,
        r is Err ==> (r->Err_0 is MatchFailed || apply_rule_model(
            rep.pattern_view(),
            rep.color_view(),
            line@,
        ) is None),
        r is Err && r->Err_0 is MissingTarget ==> !all_targets_present(
            target_spans(rep.pattern_view(), line@),
        ),
        r is Err && r->Err_0 is OverlappingTargets ==> (all_targets_present(
            target_spans(rep.pattern_view(), line@),
        ) && !spans_wf_from(
            present_spans(target_spans(rep.pattern_view(), line@)),
            0,
            0,
            line@.len() as int,
        )),
        r is Err && r->Err_0 is Encoding ==> (all_targets_present(
            target_spans(rep.pattern_view(), line@),
        ) && spans_wf_from(
            present_spans(target_spans(rep.pattern_view(), line@)),
            0,
            0,
            line@.len() as int,
        ) && !targets_utf8(line@, present_spans(target_spans(rep.pattern_view(), line@)))),
{
    let ghost raw = target_spans(rep.pattern_view(), line@);
    let found = match find_targets(rep, line) {
        Ok(f) => f,
        Err(message) => {
            return Err(HighlightError::MatchFailed { message });
        },
    };
    proof {
        assert(raw_model(found@) == raw);
    }
    let mut spans: Vec<(usize, usize)> = Vec::new();
    let mut k: usize = 0;
    while k < found.len()
        invariant
            k <= found@.len(),
            raw == target_spans(rep.pattern_view(), line@),
            raw_model(found@) == raw,
            forall|j: int| 0 <= j < k ==> raw[j] is Some,
            spans@.len() == k,
            forall|j: int| 0 <= j < k ==> (spans@[j].0 as int, spans@[j].1 as int) == the_span(
                raw[j],
            ),
        decreases found@.len() - k,
    {
        match found[k] {
            Some(p) => {
                spans.push(p);
            },
            None => {
                proof {
                    assert(raw[k as int] is None);
                    assert(!all_targets_present(raw));
                    assert(!rule_step_ok(line@, raw));
                }
                return Err(HighlightError::MissingTarget);
            },
        }
        k = k + 1;
    }
    proof {
        assert(all_targets_present(raw));
        assert(spans_model(spans@) =~= present_spans(raw));
    }
    if !check_spans_from(&spans, 0, 0, line.len()) {
        return Err(HighlightError::OverlappingTargets);
    }
    let mut k: usize = 0;
    while k < spans.len()
        invariant
            k <= spans@.len(),
            raw == target_spans(rep.pattern_view(), line@),
            all_targets_present(raw),
            spans_model(spans@) == present_spans(raw),
            spans_wf_from(present_spans(raw), 0, 0, line@.len() as int),
            forall|j: int|
                0 <= j < k ==> valid_utf8(
                    line@.subrange(present_spans(raw)[j].0, present_spans(raw)[j].1),
                ),
        decreases spans@.len() - k,
    {
        let (s, e) = spans[k];
        proof {
            lemma_wf_prefix_bounds(present_spans(raw), k as int, line@.len() as int);
        }
        let mut target: Vec<u8> = Vec::new();
        append_range(&mut target, line, s, e);
        proof {
            assert(target@ =~= line@.subrange(s as int, e as int));
            assert(present_spans(raw)[k as int] == (s as int, e as int));
        }
        if !utf8_ok(&target) {
            proof {
                assert(!valid_utf8(
                    line@.subrange(present_spans(raw)[k as int].0, present_spans(raw)[k as int].1),
                ));
                assert(!targets_utf8(line@, present_spans(raw)));
                assert(!rule_step_ok(line@, raw));
            }
            return Err(HighlightError::Encoding);
        }
        k = k + 1;
    }
    proof {
        assert(targets_utf8(line@, present_spans(raw)));
        assert(rule_step_ok(line@, raw));
    }
    Ok(wrap_targets(line, &spans, &rep.color))
}

/// Inside a well-formed chain, every single span is in bounds.
proof fn lemma_wf_prefix_bounds(spans: Seq<(int, int)>, k: int, len: int)
    requires
        spans_wf_from(spans, 0, 0, len),
        0 <= k < spans.len(),
    ensures
        0 <= spans[k].0 <= spans[k].1 <= len,
{
    lemma_wf_bounds_from(spans, 0, 0, len, k);
}

/// The engine: the compiled rules in application order.
pub struct Highlighter {
    replacers: Vec<Replacer>,
}

impl Highlighter {
    /// The rule set this engine applies: pattern and color bytes of each
    /// compiled rule, in application order.
    pub closed spec fn rules_view(&self) -> Seq<(Seq<u8>, Seq<u8>)> {
        Seq::new(self.replacers@.len(), |j: int| replacer_model(self.replacers@[j]))
    }

    /// The model of a plain rule list: pattern and color bytes of each rule.
    pub open spec fn rules_model(rules: Seq<Rule>) -> Seq<(Seq<u8>, Seq<u8>)> {
        Seq::new(rules.len(), |j: int| rule_model(rules[j]))
    }

    /// Compiles every rule of the set, in order.  Succeeds exactly when
    /// every pattern compiles; fails on the first rule whose pattern does
    /// not, naming it.
    pub fn new(rules: Vec<Rule>) -> (r: Result<Highlighter, HighlightError>)
        ensures
            r is Ok <==> (forall|k: int|
                0 <= k < rules@.len() ==> pcre_compiles(rules@[k].pattern@)),
            r is Ok ==> r->Ok_0.rules_view() == Self::rules_model(rules@),
            r is Err ==> (r->Err_0 matches HighlightError::Pattern { index, .. } && index
                < rules@.len() && !pcre_compiles(rules@[index as int].pattern@) && (forall|j: int|
                0 <= j < index ==> pcre_compiles(rules@[j].pattern@))),
    {
        let mut replacers: Vec<Replacer> = Vec::new();
        let mut k: usize = 0;
        while k < rules.len()
            invariant
                k <= rules@.len(),
                forall|j: int| 0 <= j < k ==> pcre_compiles(rules@[j].pattern@),
                replacers@.len() == k,
                forall|j: int|
                    0 <= j < k ==> #[trigger] replacer_model(replacers@[j]) == rule_model(
                        rules@[j],
                    ),
            decreases rules@.len() - k,
        {
            let rule = &rules[k];
            match compile_replacer(&rule.pattern, &rule.color) {
                Ok(rep) => {
                    replacers.push(rep);
                    proof {
                        assert(replacer_model(replacers@[k as int]) == rule_model(
                            rules@[k as int],
                        ));
                    }
                },
                Err(message) => {
                    return Err(HighlightError::Pattern { index: k, message });
                },
            }
            k = k + 1;
        }
        let h = Highlighter { replacers };
        proof {
            assert(h.rules_view() =~= Self::rules_model(rules@));
        }
        Ok(h)
    }

    /// Transforms one line into its colorized form by applying every rule
    /// in order, each rule reading the previous rule's output.
    pub fn highlight_line(&self, line: &Vec<u8>) -> (r: Result<Vec<u8>, HighlightError>)
        ensures
            r is Ok ==> chain_model(self.rules_view(), 0, line@) == Option::Some(r->Ok_0@),
            chain_model(self.rules_view(), 0, line@) is None ==> r is Err,
            r is Err ==> (r->Err_0 is MatchFailed || chain_model(self.rules_view(), 0, line@)
                is None),
            self.rules_view().len() == 0 ==> r is Ok,
    {
        let mut cur: Vec<u8> = Vec::new();
        append_range(&mut cur, line, 0, line.len());
        proof {
            assert(cur@ =~= line@);
        }
        let mut i: usize = 0;
        while i < self.replacers.len()
            invariant
                i <= self.replacers@.len(),
                chain_model(self.rules_view(), 0, line@) == chain_model(
                    self.rules_view(),
                    i as int,
                    cur@,
                ),
            decreases self.replacers@.len() - i,
        {
            let rep = &self.replacers[i];
            proof {
                assert(self.rules_view()[i as int] == (rep.pattern_view(), rep.color_view()));
            }
            match apply_rule(rep, &cur) {
                Ok(next) => {
                    cur = next;
                },
                Err(e) => {
                    return Err(e);
                },
            }
            i = i + 1;
        }
        Ok(cur)
    }
}

/// What the output sink reported after one line was handed to it.
pub enum SinkEvent {
    /// The line was written.
    Written,
    /// The sink's consumer has gone away (a broken pipe).
    Closed,
    /// Any other write failure.
    Failed,
}

/// What the engine does next after a write.
pub enum SinkDecision {
    /// Keep processing lines and files.
    Proceed,
    /// Stop at once and report the run as a success.
    FinishSuccess,
    /// Stop at once and surface the failure.
    Abort,
}

/// The engine's shutdown rule: a closed sink ends the run early as a normal,
/// successful termination; any other write failure aborts the run; a
/// successful write lets processing proceed.
pub fn sink_step(ev: &SinkEvent) -> (d: SinkDecision)
    ensures
        (ev is Closed <==> d is FinishSuccess),
        (ev is Written <==> d is Proceed),
        (ev is Failed <==> d is Abort),
{
    match ev {
        SinkEvent::Written => SinkDecision::Proceed,
        SinkEvent::Closed => SinkDecision::FinishSuccess,
        SinkEvent::Failed => SinkDecision::Abort,
    }
}

/// No-match passthrough: where none of the rules from index `i` onward has
/// a match on `line`, the cascade leaves the line exactly as it is.
pub proof fn lemma_no_match_passthrough(rules: Seq<(Seq<u8>, Seq<u8>)>, i: int, line: Seq<u8>)
    requires
        0 <= i <= rules.len(),
        forall|k: int| i <= k < rules.len() ==> target_spans(rules[k].0, line).len() == 0,
    ensures
        chain_model(rules, i, line) == Option::Some(line),
    decreases rules.len() - i,
{
    if i < rules.len() {
        let raw = target_spans(rules[i].0, line);
        assert(present_spans(raw).len() == 0);
        assert(rule_step_ok(line, raw));
        assert(wrap_all(line, present_spans(raw), rules[i].1) =~= line);
        lemma_no_match_passthrough(rules, i + 1, line);
    }
}

/// Context is untouched: one rule's output is the input with only the color
/// and reset escape bytes inserted around each target span; wrapping with
/// both escapes empty gives back exactly the bytes of the line, so stripping
/// every inserted wrapper recovers the original line.
pub proof fn lemma_wrap_strip(line: Seq<u8>, spans: Seq<(int, int)>, i: int, pos: int)
    requires
        0 <= i <= spans.len(),
        0 <= pos,
        spans_wf_from(spans, i, pos, line.len() as int),
    ensures
        wrap_from(line, spans, i, pos, Seq::<u8>::empty(), Seq::<u8>::empty()) == line.subrange(
            pos,
            line.len() as int,
        ),
    decreases spans.len() - i,
{
    if i < spans.len() {
        lemma_wrap_strip(line, spans, i + 1, spans[i].1);
        lemma_wf_pos_le_len(spans, i + 1, spans[i].1, line.len() as int);
        assert(wrap_from(line, spans, i, pos, Seq::<u8>::empty(), Seq::<u8>::empty())
            =~= line.subrange(pos, line.len() as int));
    }
}

/// Where the `k`-th wrapped target stands in the output `w` of `wrap_from`:
/// its color escape begins at `d`, which is the target's own position
/// shifted by one color and one reset for every earlier wrapped target;
/// the target's bytes follow the color escape verbatim, the reset escape
/// follows them, and the bytes between the previous wrapped target (or the
/// start) and this one are exactly the line's own bytes.
pub open spec fn layout_at(
    line: Seq<u8>,
    spans: Seq<(int, int)>,
    i: int,
    pos: int,
    color: Seq<u8>,
    reset: Seq<u8>,
    k: int,
) -> bool {
    let w = wrap_from(line, spans, i, pos, color, reset);
    let u = color.len() + reset.len();
    let d = spans[k].0 - pos + (k - i) * u;
    let tlen = spans[k].1 - spans[k].0;
    let gap = if k == i {
        pos
    } else {
        spans[k - 1].1
    };
    let g = gap - pos + (k - i) * u;
    &&& 0 <= g <= d
    &&& d + u + tlen <= w.len()
    &&& w.subrange(d, d + color.len()) == color
    &&& w.subrange(d + color.len(), d + color.len() + tlen) == line.subrange(
        spans[k].0,
        spans[k].1,
    )
    &&& w.subrange(d + color.len() + tlen, d + tlen + u) == reset
    &&& w.subrange(g, d) == line.subrange(gap, spans[k].0)
}

/// A subrange taken entirely inside the right part of a concatenation.
proof fn lemma_concat_subrange_right(a: Seq<u8>, b: Seq<u8>, x: int, y: int)
    requires
        0 <= x <= y <= b.len(),
    ensures
        (a + b).subrange(a.len() + x, a.len() + y) == b.subrange(x, y),
{
    assert((a + b).subrange(a.len() + x, a.len() + y) =~= b.subrange(x, y));
}

/// Round trip of structure: the output of one rule holds, for each of the
/// rule's N target spans, exactly one color escape, the target's own bytes,
/// and one reset escape, at computed positions and in match order, and the
/// bytes between them are the line's own bytes, so stripping every wrapper
/// yields the original line.
pub proof fn lemma_wrap_layout(
    line: Seq<u8>,
    spans: Seq<(int, int)>,
    i: int,
    pos: int,
    color: Seq<u8>,
    reset: Seq<u8>,
)
    requires
        0 <= i <= spans.len(),
        0 <= pos,
        spans_wf_from(spans, i, pos, line.len() as int),
    ensures
        forall|k: int| i <= k < spans.len() ==> layout_at(line, spans, i, pos, color, reset, k),
    decreases spans.len() - i,
{
    if i < spans.len() {
        let s = spans[i].0;
        let e = spans[i].1;
        let u = (color.len() + reset.len()) as int;
        lemma_wf_pos_le_len(spans, i + 1, e, line.len() as int);
        lemma_wrap_layout(line, spans, i + 1, e, color, reset);
        let w = wrap_from(line, spans, i, pos, color, reset);
        let head = line.subrange(pos, s) + color + line.subrange(s, e) + reset;
        let tail = wrap_from(line, spans, i + 1, e, color, reset);
        assert(w == head + tail);
        assert forall|k: int| i <= k < spans.len() implies layout_at(
            line,
            spans,
            i,
            pos,
            color,
            reset,
            k,
        ) by {
            if k == i {
                assert((k - i) * u == 0) by (nonlinear_arith)
                    requires
                        k == i,
                ;
                assert(w.subrange(s - pos, s - pos + color.len()) =~= color);
                assert(w.subrange(s - pos + color.len(), s - pos + color.len() + (e - s))
                    =~= line.subrange(s, e));
                assert(w.subrange(s - pos + color.len() + (e - s), s - pos + (e - s) + u)
                    =~= reset);
                assert(w.subrange(0, s - pos) =~= line.subrange(pos, s));
            } else {
                assert(layout_at(line, spans, i + 1, e, color, reset, k));
                lemma_wf_bounds_from(spans, i, pos, line.len() as int, k);
                assert((k - i) * u == u + (k - (i + 1)) * u) by (nonlinear_arith);
                let dd = spans[k].0 - e + (k - (i + 1)) * u;
                let tlen = spans[k].1 - spans[k].0;
                let gap = if k == i + 1 {
                    e
                } else {
                    spans[k - 1].1
                };
                let gg = gap - e + (k - (i + 1)) * u;
                assert(head.len() == (s - pos) + color.len() + (e - s) + reset.len());
                lemma_concat_subrange_right(head, tail, dd, dd + color.len() as int);
                lemma_concat_subrange_right(
                    head,
                    tail,
                    dd + color.len() as int,
                    dd + color.len() + tlen,
                );
                lemma_concat_subrange_right(head, tail, dd + color.len() + tlen, dd + tlen + u);
                lemma_concat_subrange_right(head, tail, gg, dd);
            }
        }
    }
}

/// Order sensitivity: cascading is not commutative.  Wrapping a one-byte
/// line's target span with one color and then wrapping the result's first
/// byte with another gives a different output in the two orders — already
/// in the first byte, which carries whichever color was applied last.
/// Which spans a rule's pattern reports is the matcher's result, so order
/// sensitivity over whole rules is witnessed by the tests; here it is
/// proved at the wrapping step the cascade is built from.
pub proof fn lemma_wrap_order_sensitive()
    ensures
        ({
            let line = seq![97u8];
            let sp = seq![(0int, 1int)];
            let c1 = seq![1u8];
            let c2 = seq![2u8];
            wrap_all(wrap_all(line, sp, c1), sp, c2) != wrap_all(wrap_all(line, sp, c2), sp, c1)
        }),
{
    let line = seq![97u8];
    let sp = seq![(0int, 1int)];
    let c1 = seq![1u8];
    let c2 = seq![2u8];
    let a1 = wrap_all(line, sp, c1);
    let a2 = wrap_all(line, sp, c2);
    assert(a1[0] == 1u8);
    assert(a2[0] == 2u8);
    assert(wrap_all(a1, sp, c2)[0] == 2u8);
    assert(wrap_all(a2, sp, c1)[0] == 1u8);
}

/// The shape of one rule's output, where the rule applies: the output is
/// the line with each of its N target spans wrapped; it is exactly N color
/// escapes and N reset escapes longer than the line; every wrapped target
/// and every gap between them stands at its computed position with the
/// line's own bytes; and wrapping with empty escapes gives back the line
/// itself, so text outside the target spans is byte-identical before and
/// after the rule.
pub proof fn lemma_rule_output_structure(pattern: Seq<u8>, color: Seq<u8>, line: Seq<u8>)
    requires
        apply_rule_model(pattern, color, line) is Some,
    ensures
        ({
            let spans = present_spans(target_spans(pattern, line));
            let out = apply_rule_model(pattern, color, line)->0;
            &&& out == wrap_all(line, spans, color)
            &&& spans_wf_from(spans, 0, 0, line.len() as int)
            &&& out.len() == line.len() + spans.len() * (color.len() + reset_seq().len())
            &&& wrap_from(line, spans, 0, 0, Seq::<u8>::empty(), Seq::<u8>::empty()) == line
            &&& forall|k: int|
                0 <= k < spans.len() ==> layout_at(line, spans, 0, 0, color, reset_seq(), k)
        }),
{
    let spans = present_spans(target_spans(pattern, line));
    lemma_wrap_len(line, spans, 0, 0, color, reset_seq());
    lemma_wrap_strip(line, spans, 0, 0);
    assert(line.subrange(0, line.len() as int) =~= line);
    lemma_wrap_layout(line, spans, 0, 0, color, reset_seq());
}

/// Structure of the output: a line with its matched target spans wrapped is
/// exactly as long as the line plus one color escape and one reset escape
/// for each match, so each of the escapes is inserted exactly once per
/// match and nothing else is added or removed.
pub proof fn lemma_wrap_len(
    line: Seq<u8>,
    spans: Seq<(int, int)>,
    i: int,
    pos: int,
    color: Seq<u8>,
    reset: Seq<u8>,
)
    requires
        0 <= i <= spans.len(),
        0 <= pos,
        spans_wf_from(spans, i, pos, line.len() as int),
    ensures
        wrap_from(line, spans, i, pos, color, reset).len() == line.len() - pos + (spans.len() - i)
            * (color.len() + reset.len()),
    decreases spans.len() - i,
{
    if i < spans.len() {
        lemma_wrap_len(line, spans, i + 1, spans[i].1, color, reset);
        lemma_wf_pos_le_len(spans, i + 1, spans[i].1, line.len() as int);
        let s = spans[i].0;
        let e = spans[i].1;
        let u = (color.len() + reset.len()) as int;
        assert(line.subrange(pos, s).len() == s - pos);
        assert(line.subrange(s, e).len() == e - s);
        assert(wrap_from(line, spans, i, pos, color, reset).len() == (s - pos) + color.len() + (e
            - s) + reset.len() + wrap_from(line, spans, i + 1, e, color, reset).len());
        assert((spans.len() - i) * u == u + (spans.len() - (i + 1)) * u) by (nonlinear_arith);
    } else {
        assert((spans.len() - i) * ((color.len() + reset.len()) as int) == 0) by (nonlinear_arith)
            requires
                i == spans.len(),
        ;
    }
}

/// Helper induction for `lemma_wf_prefix_bounds`.
proof fn lemma_wf_bounds_from(spans: Seq<(int, int)>, i: int, pos: int, len: int, k: int)
    requires
        spans_wf_from(spans, i, pos, len),
        0 <= pos,
        i <= k < spans.len(),
        0 <= i,
    ensures
        0 <= spans[k].0 <= spans[k].1 <= len,
    decreases k - i,
{
    if i == k {
        lemma_wf_pos_le_len(spans, i + 1, spans[i].1, len);
    } else {
        lemma_wf_bounds_from(spans, i + 1, spans[i].1, len, k);
    }
}

} // verus!

