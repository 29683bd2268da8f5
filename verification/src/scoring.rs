//! The rules of the scoring kernel: which rule asks what of a profile
//! and a job, and which factors a score is multiplied by. The factors
//! themselves are fractions, and the arithmetic on them is done where
//! the score is computed.

use crate::config::{MatchMode, MetaDataMatch};
use crate::json::{Json, JsonValue};
use crate::seqs::{first_index, lemma_first_index_is};
use crate::sweep::doc_view;
use crate::text::same_text;
use vstd::prelude::*;

verus! {

/// What a rule needs to know beyond the two documents.
pub enum Need {
    /// Nothing.
    Nothing,
    /// Whether the two texts are similar: a string similarity of at least
    /// eight tenths.
    Similarity { profile_text: String, job_text: String },
    /// Whether the value lies within the bounds, the bounds included.
    Range { value: Json, min: Json, max: Json },
}

/// What a rule needs to know, as a mathematical value.
pub enum NeedView {
    Nothing,
    Similarity { profile_text: Seq<char>, job_text: Seq<char> },
    Range { value: JsonValue, min: JsonValue, max: JsonValue },
}

impl View for Need {
    type V = NeedView;

    open spec fn view(&self) -> NeedView {
        match self {
            Need::Nothing => NeedView::Nothing,
            Need::Similarity { profile_text, job_text } => NeedView::Similarity {
                profile_text: profile_text@,
                job_text: job_text@,
            },
            Need::Range { value, min, max } => NeedView::Range {
                value: value@,
                min: min@,
                max: max@,
            },
        }
    }
}

/// What a rule finds in a profile and a job.
pub struct RuleFacts {
    /// The job has the field and the profile has not.
    pub missing_in_profile: bool,
    pub need: Need,
}

/// What a rule finds, as a mathematical value.
pub struct RuleFactsView {
    pub missing_in_profile: bool,
    pub need: NeedView,
}

impl View for RuleFacts {
    type V = RuleFactsView;

    open spec fn view(&self) -> RuleFactsView {
        RuleFactsView { missing_in_profile: self.missing_in_profile, need: self.need@ }
    }
}

/// Whether a field holds a proper noun, so that it is compared by string
/// similarity: the role and the industry are such fields.
pub open spec fn is_proper_noun(name: Seq<char>) -> bool {
    name == "role"@ || name == "industry"@
}

/// Whether a value is a number.
pub open spec fn is_number(value: JsonValue) -> bool {
    value is Int || value is Real
}

/// The value at an optional path.
pub open spec fn at_optional(doc: JsonValue, path: Option<String>) -> Option<JsonValue> {
    match path {
        Some(p) => doc.pointer(p@),
        None => None,
    }
}

/// What the rule `rule` needs to know of a profile value and a job: for
/// a rule that compares by meaning on a proper noun, the similarity of
/// the two texts where both are there and not empty; for a rule that
/// compares by number, whether the value lies within the job's bounds
/// where value and bounds are numbers.
pub open spec fn need_of(rule: MetaDataMatch, profile_value: Option<JsonValue>, job: JsonValue) -> NeedView {
    match rule.match_mode {
        MatchMode::Embed => match (profile_value, job.pointer(rule.job_path@)) {
            (Some(JsonValue::Str(p)), Some(JsonValue::Str(j))) => if is_proper_noun(rule.name@)
                && p.len() > 0 && j.len() > 0 {
                NeedView::Similarity { profile_text: p, job_text: j }
            } else {
                NeedView::Nothing
            },
            _ => NeedView::Nothing,
        },
        MatchMode::Manual => match (
            profile_value,
            at_optional(job, rule.job_path_min),
            at_optional(job, rule.job_path_max),
        ) {
            (Some(v), Some(lo), Some(hi)) => if is_number(v) && is_number(lo) && is_number(hi) {
                NeedView::Range { value: v, min: lo, max: hi }
            } else {
                NeedView::Nothing
            },
            _ => NeedView::Nothing,
        },
    }
}

/// What the rule `rule` finds in a profile and a job. The profile lacks
/// the field where the job has a value at the rule's path and the
/// profile has none, or `null`.
pub open spec fn facts_of(rule: MetaDataMatch, profile: JsonValue, job: JsonValue) -> RuleFactsView {
    let profile_value = profile.pointer(rule.profile_path@);
    RuleFactsView {
        missing_in_profile: job.pointer(rule.job_path@) is Some && (profile_value is None
            || profile_value == Some(JsonValue::Null)),
        need: need_of(rule, profile_value, job),
    }
}

/// Whether `value` is a number.
fn number_in(value: &Json) -> (out: bool)
    ensures
        out == is_number(value@),
{
    match value {
        Json::Int(_) => true,
        Json::UInt(_) => true,
        Json::Real(_) => true,
        _ => false,
    }
}

/// The value at the optional path `path` of `doc`.
fn pointer_optional<'a>(doc: &'a Json, path: &Option<String>) -> (out: Option<&'a Json>)
    ensures
        doc_view(out) == at_optional(doc@, *path),
{
    match path {
        Some(p) => doc.pointer(p.as_str()),
        None => None,
    }
}

/// What the rule `rule` finds in the profile `profile` and the job `job`.
pub fn examine_rule(rule: &MetaDataMatch, profile: &Json, job: &Json) -> (out: RuleFacts)
    ensures
        out@ == facts_of(*rule, profile@, job@),
{
    let profile_value = profile.pointer(rule.profile_path.as_str());
    let job_value = job.pointer(rule.job_path.as_str());
    let missing = job_value.is_some() && match profile_value {
        Some(v) => v.is_null(),
        None => true,
    };
    let need = match rule.match_mode {
        MatchMode::Embed => {
            let p = match profile_value {
                Some(v) => v.as_str(),
                None => None,
            };
            let j = match job_value {
                Some(v) => v.as_str(),
                None => None,
            };
            match (p, j) {
                (Some(p), Some(j)) => {
                    let proper = same_text(rule.name.as_str(), "role") || same_text(
                        rule.name.as_str(),
                        "industry",
                    );
                    if proper && p.unicode_len() > 0 && j.unicode_len() > 0 {
                        Need::Similarity { profile_text: p.to_owned(), job_text: j.to_owned() }
                    } else {
                        Need::Nothing
                    }
                },
                _ => Need::Nothing,
            }
        },
        MatchMode::Manual => {
            let lo = pointer_optional(job, &rule.job_path_min);
            let hi = pointer_optional(job, &rule.job_path_max);
            match (profile_value, lo, hi) {
                (Some(v), Some(lo), Some(hi)) => if number_in(v) && number_in(lo) && number_in(hi) {
                    Need::Range { value: v.duplicate(), min: lo.duplicate(), max: hi.duplicate() }
                } else {
                    Need::Nothing
                },
                _ => Need::Nothing,
            }
        },
    };
    RuleFacts { missing_in_profile: missing, need }
}

/// Whether a whole number lies within whole bounds; nothing where one of
/// the three is not a whole number, so that the comparison is one of
/// fractions.
pub open spec fn whole_range(value: JsonValue, min: JsonValue, max: JsonValue) -> Option<bool> {
    match (value, min, max) {
        (JsonValue::Int(v), JsonValue::Int(lo), JsonValue::Int(hi)) => Some(lo <= v <= hi),
        _ => None,
    }
}

/// The whole number of a document, widened.
fn wide(value: &Json) -> (out: Option<i128>)
    ensures
        match out {
            Some(n) => value@ == JsonValue::Int(n as int),
            None => !(value@ is Int),
        },
{
    match value {
        Json::Int(n) => Some(*n as i128),
        Json::UInt(n) => Some(*n as i128),
        _ => None,
    }
}

/// Whether `value` lies within `min` and `max`, where all three are
/// whole numbers.
pub fn range_verdict(value: &Json, min: &Json, max: &Json) -> (out: Option<bool>)
    ensures
        out == whole_range(value@, min@, max@),
{
    match (wide(value), wide(min), wide(max)) {
        (Some(v), Some(lo), Some(hi)) => Some(lo <= v && v <= hi),
        _ => None,
    }
}

/// What a rule does to a score.
#[derive(Debug, Clone, Copy, PartialEq, Eq, Structural)]
pub enum RuleEffect {
    /// Nothing.
    Nothing,
    /// The score is multiplied by the rule's penalty, and the rule counts
    /// as a mismatch.
    Penalty,
    /// The score is multiplied by the rule's bonus.
    Bonus,
}

/// The effect of a rule, given what it found and the answer to what it
/// needed to know:
/// - a field that the profile lacks is penalised;
/// - texts that are not similar are penalised;
/// - a value outside its bounds is penalised, and one within them earns
///   the bonus where the rule has one.
pub open spec fn effect_of(has_bonus: bool, facts: RuleFactsView, answer: Option<bool>) -> RuleEffect {
    if facts.missing_in_profile {
        RuleEffect::Penalty
    } else {
        match (facts.need, answer) {
            (NeedView::Similarity { .. }, Some(false)) => RuleEffect::Penalty,
            (NeedView::Range { .. }, Some(false)) => RuleEffect::Penalty,
            (NeedView::Range { .. }, Some(true)) => if has_bonus {
                RuleEffect::Bonus
            } else {
                RuleEffect::Nothing
            },
            _ => RuleEffect::Nothing,
        }
    }
}

/// The effect of the rule `rule`, given what it found and the answer to
/// what it needed to know.
pub fn rule_effect(rule: &MetaDataMatch, facts: &RuleFacts, answer: Option<bool>) -> (out:
    RuleEffect)
    ensures
        out == effect_of(rule.bonus is Some, facts@, answer),
{
    if facts.missing_in_profile {
        return RuleEffect::Penalty;
    }
    match (&facts.need, answer) {
        (Need::Similarity { .. }, Some(false)) => RuleEffect::Penalty,
        (Need::Range { .. }, Some(false)) => RuleEffect::Penalty,
        (Need::Range { .. }, Some(true)) => if rule.bonus.is_some() {
            RuleEffect::Bonus
        } else {
            RuleEffect::Nothing
        },
        _ => RuleEffect::Nothing,
    }
}

/// A factor that a score is multiplied by.
#[derive(Debug, Clone, Copy, PartialEq, Eq, Structural)]
pub enum Factor {
    /// The penalty of the rule at this place.
    Penalty(usize),
    /// The bonus of the rule at this place.
    Bonus(usize),
    /// 0.85, for two mismatches.
    TwoMismatches,
    /// 0.7, for three mismatches or more.
    ManyMismatches,
}

/// The factors of the rules among the first `n` effects, in order.
pub open spec fn rule_factors(effects: Seq<RuleEffect>, n: int) -> Seq<Factor>
    decreases n,
{
    if n <= 0 || n > effects.len() {
        Seq::empty()
    } else {
        let before = rule_factors(effects, n - 1);
        match effects[n - 1] {
            RuleEffect::Nothing => before,
            RuleEffect::Penalty => before.push(Factor::Penalty((n - 1) as usize)),
            RuleEffect::Bonus => before.push(Factor::Bonus((n - 1) as usize)),
        }
    }
}

/// The number of mismatches among the first `n` effects.
pub open spec fn mismatches(effects: Seq<RuleEffect>, n: int) -> int
    decreases n,
{
    if n <= 0 || n > effects.len() {
        0
    } else {
        mismatches(effects, n - 1) + if effects[n - 1] == RuleEffect::Penalty {
            1int
        } else {
            0int
        }
    }
}

/// The factor for the number of mismatches: none below two.
pub open spec fn aggregate_factor(count: int) -> Seq<Factor> {
    if count == 2 {
        seq![Factor::TwoMismatches]
    } else if count >= 3 {
        seq![Factor::ManyMismatches]
    } else {
        Seq::empty()
    }
}

/// The factors that a score is multiplied by: those of the rules, in
/// their order, and then the one for the number of mismatches.
pub open spec fn factors_of(effects: Seq<RuleEffect>) -> Seq<Factor> {
    rule_factors(effects, effects.len() as int) + aggregate_factor(
        mismatches(effects, effects.len() as int),
    )
}

/// The factors that a score with the rule effects `effects` is
/// multiplied by.
pub fn score_factors(effects: &Vec<RuleEffect>) -> (out: Vec<Factor>)
    ensures
        out@ == factors_of(effects@),
{
    let mut out: Vec<Factor> = Vec::new();
    let mut count: usize = 0;
    let mut i: usize = 0;
    while i < effects.len()
        invariant
            i <= effects.len(),
            out@ == rule_factors(effects@, i as int),
            count == mismatches(effects@, i as int),
            count <= i,
        decreases effects.len() - i,
    {
        match effects[i] {
            RuleEffect::Nothing => {},
            RuleEffect::Penalty => {
                out.push(Factor::Penalty(i));
                count += 1;
            },
            RuleEffect::Bonus => {
                out.push(Factor::Bonus(i));
            },
        }
        i += 1;
    }
    let ghost rules = out@;
    if count == 2 {
        out.push(Factor::TwoMismatches);
    } else if count >= 3 {
        out.push(Factor::ManyMismatches);
    }
    assert(out@ =~= rules + aggregate_factor(count as int));
    out
}

/// The score as it is stored: a percentage, cut to the range from 0 to
/// 100.
pub open spec fn stored_percent(percent: i64) -> i16 {
    if percent < 0 {
        0
    } else if percent > 100 {
        100
    } else {
        percent as i16
    }
}

/// The score as it is stored, for the rounded percentage `percent`.
pub fn stored_score(percent: i64) -> (out: i16)
    ensures
        out == stored_percent(percent),
        0 <= out <= 100,
{
    if percent < 0 {
        0
    } else if percent > 100 {
        100
    } else {
        percent as i16
    }
}

/// Whether two embeddings can be compared: they have the same number of
/// values, and at least one.
pub fn embeddings_comparable(len_a: usize, len_b: usize) -> (out: bool)
    ensures
        out == (len_a == len_b && len_a > 0),
{
    len_a == len_b && len_a > 0
}

/// A remembered answer to whether two texts are similar.
pub struct Remembered {
    pub profile_text: String,
    pub job_text: String,
    pub similar: bool,
}

/// A remembered answer, as a mathematical value.
pub struct RememberedView {
    pub profile_text: Seq<char>,
    pub job_text: Seq<char>,
    pub similar: bool,
}

impl View for Remembered {
    type V = RememberedView;

    open spec fn view(&self) -> RememberedView {
        RememberedView {
            profile_text: self.profile_text@,
            job_text: self.job_text@,
            similar: self.similar,
        }
    }
}

/// The test that an answer is about the two texts.
pub open spec fn is_about(profile_text: Seq<char>, job_text: Seq<char>) -> spec_fn(
    RememberedView,
) -> bool {
    |r: RememberedView| r.profile_text == profile_text && r.job_text == job_text
}

/// The answers remembered during a scoring batch, so that no pair of
/// texts is compared twice.
pub struct SimilarityMemo {
    pub entries: Vec<Remembered>,
}

impl View for SimilarityMemo {
    type V = Seq<RememberedView>;

    open spec fn view(&self) -> Seq<RememberedView> {
        Seq::new(self.entries@.len(), |i: int| self.entries@[i]@)
    }
}

/// The answer that is remembered for the two texts, if one is.
pub open spec fn remembered(
    entries: Seq<RememberedView>,
    profile_text: Seq<char>,
    job_text: Seq<char>,
) -> Option<bool> {
    let i = first_index(entries, is_about(profile_text, job_text));
    if 0 <= i < entries.len() {
        Some(entries[i].similar)
    } else {
        None
    }
}

impl SimilarityMemo {
    /// A memo without answers.
    pub fn new() -> (out: SimilarityMemo)
        ensures
            out@ == Seq::<RememberedView>::empty(),
    {
        let out = SimilarityMemo { entries: Vec::new() };
        assert(out@ =~= Seq::<RememberedView>::empty());
        out
    }

    /// The answer that is remembered for the two texts.
    pub fn recall(&self, profile_text: &str, job_text: &str) -> (out: Option<bool>)
        ensures
            out == remembered(self@, profile_text@, job_text@),
    {
        let mut i: usize = 0;
        while i < self.entries.len()
            invariant
                i <= self.entries.len(),
                forall|k: int|
                    0 <= k < i ==> !is_about(profile_text@, job_text@)(#[trigger] self@[k]),
            decreases self.entries.len() - i,
        {
            if same_text(self.entries[i].profile_text.as_str(), profile_text) && same_text(
                self.entries[i].job_text.as_str(),
                job_text,
            ) {
                proof {
                    lemma_first_index_is(self@, is_about(profile_text@, job_text@), i as int);
                }
                return Some(self.entries[i].similar);
            }
            i += 1;
        }
        proof {
            lemma_first_index_is(self@, is_about(profile_text@, job_text@), i as int);
        }
        None
    }

    /// Remembers the answer for the two texts, unless one is remembered
    /// already.
    pub fn remember(&mut self, profile_text: &str, job_text: &str, similar: bool)
        ensures
            remembered(old(self)@, profile_text@, job_text@) is Some ==> final(self)@ == old(
                self,
            )@,
            remembered(old(self)@, profile_text@, job_text@) is None ==> final(self)@ == old(
                self,
            )@.push(
                RememberedView { profile_text: profile_text@, job_text: job_text@, similar },
            ),
    {
        let ghost before = self@;
        if self.recall(profile_text, job_text).is_none() {
            self.entries.push(
                Remembered {
                    profile_text: profile_text.to_owned(),
                    job_text: job_text.to_owned(),
                    similar,
                },
            );
            assert(self@ =~= before.push(
                RememberedView { profile_text: profile_text@, job_text: job_text@, similar },
            ));
        }
    }
}

/// What was remembered stays remembered: after an answer is remembered,
/// the answer for its texts is there, and every answer that was there
/// before is as it was.
pub proof fn lemma_memo_is_stable(
    entries: Seq<RememberedView>,
    added: RememberedView,
    profile_text: Seq<char>,
    job_text: Seq<char>,
)
    requires
        remembered(entries, added.profile_text, added.job_text) is None,
    ensures
        remembered(entries.push(added), added.profile_text, added.job_text) == Some(
            added.similar,
        ),
        remembered(entries, profile_text, job_text) is Some ==> remembered(
            entries.push(added),
            profile_text,
            job_text,
        ) == remembered(entries, profile_text, job_text),
{
    let after = entries.push(added);
    let about_added = is_about(added.profile_text, added.job_text);
    crate::seqs::lemma_first_index(entries, about_added);
    assert forall|k: int| 0 <= k < entries.len() implies !about_added(#[trigger] after[k]) by {
        assert(after[k] == entries[k]);
    }
    assert(about_added(after[entries.len() as int]));
    lemma_first_index_is(after, about_added, entries.len() as int);
    let wanted = is_about(profile_text, job_text);
    if remembered(entries, profile_text, job_text) is Some {
        let i = first_index(entries, wanted);
        crate::seqs::lemma_first_index(entries, wanted);
        assert forall|k: int| 0 <= k < i implies !wanted(#[trigger] after[k]) by {
            assert(after[k] == entries[k]);
        }
        assert(after[i] == entries[i]);
        lemma_first_index_is(after, wanted, i);
    }
}

/// What the scoring of a pair starts from: the two documents that the
/// rules read, and the two texts that are embedded.
pub struct ScoringInputs {
    pub profile_doc: Json,
    pub job_doc: Json,
    pub profile_text: String,
    pub job_text: String,
}

/// The document of a profile that the rules read: `{metadata: ..}`.
pub open spec fn profile_document(metadata: JsonValue) -> JsonValue {
    crate::models::object1("metadata"@, metadata)
}

/// What the scoring of a job and a profile starts from. Where the
/// profile has no metadata or the job has no item blob, there is nothing
/// to start from, and the score is zero without a breakdown.
pub fn compute_match_score(
    job: &crate::matches::JobRow,
    profile: &crate::matches::ProfileRow,
    config: &crate::config::AppConfig,
) -> (out: Option<ScoringInputs>)
    ensures
        out is Some <==> profile.metadata is Some && job.beckn_structure is Some,
        out matches Some(inputs) ==> {
            &&& inputs.profile_doc@ == profile_document(profile.metadata->0@)
            &&& inputs.job_doc@ == job.beckn_structure->0@
            &&& inputs.profile_text@ == crate::embedding::embedding_text(
                profile_document(profile.metadata->0@),
                config.metadata_match@,
                false,
            )
            &&& inputs.job_text@ == crate::embedding::embedding_text(
                job.beckn_structure->0@,
                config.metadata_match@,
                true,
            )
        },
{
    match (&profile.metadata, &job.beckn_structure) {
        (Some(metadata), Some(blob)) => {
            let profile_doc = Json::empty_object().with_field("metadata", metadata.duplicate());
            let profile_text = crate::embedding::profile_text_for_embedding(&profile_doc, config);
            let job_text = crate::embedding::job_text_for_embedding(blob, config);
            Some(ScoringInputs { profile_doc, job_doc: blob.duplicate(), profile_text, job_text })
        },
        _ => None,
    }
}

/// The breakdown that is stored with a score: `{cosine_score: ..}`.
pub fn score_breakdown(score: crate::json::Decimal) -> (out: Json)
    ensures
        out@ == crate::models::object1("cosine_score"@, JsonValue::Real(score.number())),
{
    Json::empty_object().with_field("cosine_score", Json::Real(score))
}

/// The effects of the rules on the score of a profile and a job, given
/// the answers to what the rules needed to know, one for each rule.
pub open spec fn effects_among(
    rules: Seq<MetaDataMatch>,
    profile: JsonValue,
    job: JsonValue,
    answers: Seq<Option<bool>>,
    n: int,
) -> Seq<RuleEffect>
    decreases n,
{
    if n <= 0 || n > rules.len() {
        Seq::empty()
    } else {
        effects_among(rules, profile, job, answers, n - 1).push(
            effect_of(
                rules[n - 1].bonus is Some,
                facts_of(rules[n - 1], profile, job),
                if n - 1 < answers.len() {
                    answers[n - 1]
                } else {
                    None
                },
            ),
        )
    }
}

/// What the rules need to know of a profile and a job, one for each
/// rule, in the order of the rules.
pub fn examine_rules(rules: &Vec<MetaDataMatch>, profile: &Json, job: &Json) -> (out: Vec<RuleFacts>)
    ensures
        out.len() == rules.len(),
        forall|i: int| 0 <= i < out.len() ==> (#[trigger] out@[i])@ == facts_of(rules@[i], profile@, job@),
{
    let mut out: Vec<RuleFacts> = Vec::new();
    let mut i: usize = 0;
    while i < rules.len()
        invariant
            i <= rules.len(),
            out.len() == i,
            forall|k: int| 0 <= k < i ==> (#[trigger] out@[k])@ == facts_of(rules@[k], profile@, job@),
        decreases rules.len() - i,
    {
        out.push(examine_rule(&rules[i], profile, job));
        i += 1;
    }
    out
}

/// The factors that the score of a profile and a job is multiplied by,
/// given the answers to what the rules needed to know, one for each
/// rule; a rule without an answer counts as unanswered.
pub fn compute_factors(
    rules: &Vec<MetaDataMatch>,
    profile: &Json,
    job: &Json,
    answers: &Vec<Option<bool>>,
) -> (out: Vec<Factor>)
    ensures
        out@ == factors_of(effects_among(rules@, profile@, job@, answers@, rules@.len() as int)),
{
    let mut effects: Vec<RuleEffect> = Vec::new();
    let mut i: usize = 0;
    assert(effects@ =~= effects_among(rules@, profile@, job@, answers@, 0));
    while i < rules.len()
        invariant
            i <= rules.len(),
            effects@ == effects_among(rules@, profile@, job@, answers@, i as int),
        decreases rules.len() - i,
    {
        let facts = examine_rule(&rules[i], profile, job);
        let answer = if i < answers.len() {
            answers[i]
        } else {
            None
        };
        effects.push(rule_effect(&rules[i], &facts, answer));
        i += 1;
    }
    score_factors(&effects)
}

} // verus!
