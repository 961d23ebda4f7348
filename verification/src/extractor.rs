//! Extractors: named regex captures written into a rule's extracted
//! variables.

use vstd::prelude::*;
use crate::accessor::{Accessor, AccessorBuilder, PartModel, eval_parts, spec_parse_template};
use crate::error::MatcherError;
use crate::model::{Event, EventModel, ExtractedVars};
use crate::regex_support::{CompiledRegex, regex_valid, regex_first_capture, regex_all_captures};
use crate::value::{Model, Value, model_seq, lemma_model_seq_len, lemma_model_seq_index};

verus! {

/// The regex part of a configured extractor.
#[derive(Debug, PartialEq)]
pub struct ExtractorRegex {
    /// The regular expression to run.
    pub regex: String,
    /// Which capture group to keep.
    pub group_match_idx: usize,
    /// Whether to keep the group of every match rather than of the
    /// first.
    pub all_matches: bool,
}

/// A configured extractor: an accessor template and a regex over its
/// text.
#[derive(Debug, PartialEq)]
pub struct Extractor {
    pub from: String,
    pub regex: ExtractorRegex,
}

/// The mirror of an [`Extractor`].
pub struct ExtractorModel {
    pub from: Seq<char>,
    pub pattern: Seq<char>,
    pub group: int,
    pub all_matches: bool,
}

impl Extractor {
    /// The mirror of this extractor.
    pub open spec fn model(self) -> ExtractorModel {
        ExtractorModel {
            from: self.from@,
            pattern: self.regex.regex@,
            group: self.regex.group_match_idx as int,
            all_matches: self.regex.all_matches,
        }
    }
}

/// An extractor compiled for evaluation.
#[derive(Debug)]
pub struct CompiledExtractor {
    pub from: Accessor,
    pub regex: CompiledRegex,
    pub group: usize,
    pub all_matches: bool,
}

/// The mirror of a [`CompiledExtractor`].
pub struct CompiledExtractorModel {
    pub from: Seq<PartModel>,
    pub pattern: Seq<char>,
    pub group: int,
    pub all_matches: bool,
}

impl CompiledExtractor {
    /// The mirror of this compiled extractor.
    pub open spec fn model(self) -> CompiledExtractorModel {
        CompiledExtractorModel {
            from: self.from.model(),
            pattern: self.regex.pattern_view(),
            group: self.group as int,
            all_matches: self.all_matches,
        }
    }
}

/// Compiles an extractor: the template is parsed and the regular
/// expression compiled; any failure spoils the compilation.
pub open spec fn compile_extractor(e: ExtractorModel) -> Option<CompiledExtractorModel> {
    if regex_valid(e.pattern) {
        match spec_parse_template(e.from) {
            Some(parts) => Some(
                CompiledExtractorModel {
                    from: parts,
                    pattern: e.pattern,
                    group: e.group,
                    all_matches: e.all_matches,
                },
            ),
            None => None,
        }
    } else {
        None
    }
}

/// The value an extractor yields: the kept capture of the first match,
/// or the array of kept captures of all matches. `None` — the source is
/// not a string, there is no match, or a kept group did not participate
/// — aborts the enclosing rule.
pub open spec fn extract_value(
    c: CompiledExtractorModel,
    ev: EventModel,
    vars: Seq<(Seq<char>, Seq<char>, Model)>,
) -> Option<Model> {
    match eval_parts(c.from, ev, vars) {
        Some(Model::Str(text)) => {
            if c.all_matches {
                let caps = regex_all_captures(c.pattern, c.group, text);
                if caps.len() == 0 || (exists|i: int| 0 <= i < caps.len() && caps[i] is None) {
                    None
                } else {
                    Some(Model::Arr(Seq::new(caps.len(), |i: int| Model::Str(caps[i]->0))))
                }
            } else {
                match regex_first_capture(c.pattern, c.group, text) {
                    Some(s) => Some(Model::Str(s)),
                    None => None,
                }
            }
        },
        _ => None,
    }
}

impl Extractor {
    /// Compiles this extractor.
    pub fn build(&self) -> (r: Result<CompiledExtractor, MatcherError>)
        ensures
            match r {
                Ok(c) => compile_extractor(self.model()) == Some(c.model()),
                Err(_) => compile_extractor(self.model()) is None,
            },
    {
        match CompiledRegex::compile(self.regex.regex.as_str()) {
            None => Err(MatcherError::RegexBuildError { pattern: self.regex.regex.clone() }),
            Some(re) => match AccessorBuilder::new().build("", self.from.as_str()) {
                Ok(acc) => Ok(
                    CompiledExtractor {
                        from: acc,
                        regex: re,
                        group: self.regex.group_match_idx,
                        all_matches: self.regex.all_matches,
                    },
                ),
                Err(e) => Err(e),
            },
        }
    }
}

impl CompiledExtractor {
    /// Runs this extractor against an event and its variables.
    pub fn extract(&self, event: &Event, vars: &ExtractedVars) -> (r: Option<Value>)
        ensures
            match r {
                Some(v) => extract_value(self.model(), event.model(), vars.model()) == Some(
                    v.model(),
                ),
                None => extract_value(self.model(), event.model(), vars.model()) is None,
            },
    {
        let source = match self.from.get(event, vars) {
            Some(v) => v,
            None => {
                return None;
            },
        };
        let text = match &source {
            Value::Str(s) => s,
            _ => {
                return None;
            },
        };
        if self.all_matches {
            let caps = self.regex.all_captures(self.group, text.as_str());
            let ghost spec_caps = regex_all_captures(
                self.model().pattern,
                self.model().group,
                text@,
            );
            proof {
                assert(caps.deep_view() == spec_caps);
                assert(caps.deep_view().len() == caps@.len());
            }
            if caps.len() == 0 {
                return None;
            }
            let mut out: Vec<Value> = Vec::new();
            let n = caps.len();
            let mut i: usize = 0;
            while i < n
                invariant
                    i <= n,
                    n == caps@.len(),
                    caps.deep_view() == spec_caps,
                    spec_caps.len() == n,
                    self.all_matches,
                    source.model() == Model::Str(text@),
                    eval_parts(self.model().from, event.model(), vars.model()) == Some(
                        Model::Str(text@),
                    ),
                    spec_caps == regex_all_captures(self.model().pattern, self.model().group, text@),
                    out@.len() == i,
                    forall|j: int| 0 <= j < i ==> spec_caps[j] is Some,
                    forall|j: int|
                        0 <= j < i ==> (#[trigger] out@[j]).model() == Model::Str(spec_caps[j]->0),
                decreases n - i,
            {
                match &caps[i] {
                    Some(s) => {
                        out.push(Value::Str(s.clone()));
                        proof {
                            assert(caps.deep_view()[i as int] == caps@[i as int].deep_view());
                        }
                    },
                    None => {
                        proof {
                            assert(caps.deep_view()[i as int] == caps@[i as int].deep_view());
                            assert(spec_caps[i as int] is None);
                            assert(exists|k: int|
                                0 <= k < regex_all_captures(
                                    self.model().pattern,
                                    self.model().group,
                                    text@,
                                ).len() && regex_all_captures(
                                    self.model().pattern,
                                    self.model().group,
                                    text@,
                                )[k] is None) by {
                                assert(regex_all_captures(
                                    self.model().pattern,
                                    self.model().group,
                                    text@,
                                )[i as int] is None);
                            }
                        }
                        return None;
                    },
                }
                i = i + 1;
            }
            proof {
                assert(!(exists|k: int| 0 <= k < spec_caps.len() && spec_caps[k] is None));
                lemma_model_seq_len(out@);
                assert forall|j: int| 0 <= j < n implies #[trigger] model_seq(out@)[j]
                    == Model::Str(spec_caps[j]->0) by {
                    lemma_model_seq_index(out@, j);
                }
                assert(model_seq(out@) =~= Seq::new(
                    spec_caps.len(),
                    |i: int| Model::Str(spec_caps[i]->0),
                ));
            }
            Some(Value::Arr(out))
        } else {
            match self.regex.first_capture(self.group, text.as_str()) {
                Some(s) => Some(Value::Str(s)),
                None => None,
            }
        }
    }
}

} // verus!
