//! The archive executor's path logic: per-type path templates whose
//! `${key}` parameters are filled from the action payload, with every
//! substituted component checked so the write stays under the base
//! path.

use vstd::prelude::*;
use crate::accessor::{ident_end, lit_end, find_char, ident_end_exec, lit_end_exec,
    find_char_exec};
use crate::error::ExecutorError;
use crate::model::Action;
use crate::render::{json_of, value_to_json};
use crate::text::{from_chars_range, to_chars};
use crate::value::{Model, Payload, Value, obj_get};

verus! {

/// One piece of a path template: literal text or a `${key}` parameter.
#[derive(Debug, PartialEq)]
pub enum PathPart {
    Lit(String),
    Param(String),
}

/// The mirror of a [`PathPart`].
pub enum PathPartModel {
    Lit(Seq<char>),
    Param(Seq<char>),
}

impl PathPart {
    /// The mirror of this part.
    pub open spec fn model(self) -> PathPartModel {
        match self {
            PathPart::Lit(s) => PathPartModel::Lit(s@),
            PathPart::Param(s) => PathPartModel::Param(s@),
        }
    }
}

/// The mirror of a sequence of path parts.
pub open spec fn path_part_models(parts: Seq<PathPart>) -> Seq<PathPartModel>
    decreases parts,
{
    if parts.len() == 0 {
        Seq::empty()
    } else {
        seq![parts[0].model()] + path_part_models(parts.subrange(1, parts.len() as int))
    }
}

pub broadcast proof fn lemma_path_part_models_len(parts: Seq<PathPart>)
    ensures
        #[trigger] path_part_models(parts).len() == parts.len(),
    decreases parts,
{
    if parts.len() > 0 {
        lemma_path_part_models_len(parts.subrange(1, parts.len() as int));
    }
}

pub broadcast proof fn lemma_path_part_models_index(parts: Seq<PathPart>, i: int)
    requires
        0 <= i < parts.len(),
    ensures
        #[trigger] path_part_models(parts)[i] == parts[i].model(),
    decreases parts,
{
    lemma_path_part_models_len(parts);
    if i > 0 {
        lemma_path_part_models_index(parts.subrange(1, parts.len() as int), i - 1);
    }
}

/// Parses a path template from position `i` on: literal runs
/// alternating with `${key}` parameters, whose keys are bare
/// identifiers. Parsing is total: an opening `${` that is not
/// followed by a bare identifier and a closing brace is literal text.
pub open spec fn parse_path_from(s: Seq<char>, i: int) -> Seq<PathPartModel>
    decreases s.len() - i,
{
    if i < 0 || i >= s.len() {
        Seq::empty()
    } else {
        let le = lit_end(s, i);
        if le > i {
            if le <= s.len() {
                seq![PathPartModel::Lit(s.subrange(i, le))] + parse_path_from(s, le)
            } else {
                Seq::empty()
            }
        } else {
            let ce = find_char(s, i + 2, s.len() as int, '}');
            if i + 2 <= ce && ce < s.len() && ident_end(s, i + 2, ce) == ce && ce > i + 2 {
                seq![PathPartModel::Param(s.subrange(i + 2, ce))] + parse_path_from(s, ce + 1)
            } else {
                if i + 2 <= s.len() {
                    seq![PathPartModel::Lit(s.subrange(i, i + 2))] + parse_path_from(s, i + 2)
                } else {
                    seq![PathPartModel::Lit(s.subrange(i, s.len() as int))]
                }
            }
        }
    }
}

/// Parses a whole path template.
pub open spec fn spec_parse_path(s: Seq<char>) -> Seq<PathPartModel> {
    parse_path_from(s, 0)
}

/// Whether a substituted component may enter a path: it must be
/// non-empty, hold no path separator, and not be a dot or dot-dot
/// component, so the final path cannot climb out of the base
/// directory.
pub open spec fn safe_component(s: Seq<char>) -> bool {
    s.len() > 0 && (forall|i: int| 0 <= i < s.len() ==> (#[trigger] s[i]) != '/' && s[i] != '\\')
        && s != seq!['.'] && s != seq!['.', '.']
}

/// The path the first `i` parts write: literal text as given,
/// parameters replaced by the safe string the payload holds for them;
/// nothing when a parameter is missing, not a string, or unsafe.
pub open spec fn path_text(
    parts: Seq<PathPartModel>,
    payload: Seq<(Seq<char>, Model)>,
    i: int,
) -> Option<Seq<char>>
    decreases i,
{
    if i <= 0 {
        Some(Seq::empty())
    } else {
        match path_text(parts, payload, i - 1) {
            None => None,
            Some(acc) => match parts[i - 1] {
                PathPartModel::Lit(s) => Some(acc + s),
                PathPartModel::Param(k) => match obj_get(payload, k) {
                    Some(Model::Str(v)) => if safe_component(v) {
                        Some(acc + v)
                    } else {
                        None
                    },
                    _ => None,
                },
            },
        }
    }
}

/// A compiled path template.
#[derive(Debug, PartialEq)]
pub struct PathMatcher {
    pub parts: Vec<PathPart>,
}

impl PathMatcher {
    /// The mirror of this template.
    pub open spec fn model(self) -> Seq<PathPartModel> {
        path_part_models(self.parts@)
    }

    /// Parses a path template; parsing never fails.
    pub fn build(template: &str) -> (r: PathMatcher)
        ensures
            r.model() == spec_parse_path(template@),
    {
        let chars = to_chars(template);
        let parts = parse_path_exec(&chars, 0);
        PathMatcher { parts }
    }

    /// Fills this template from the action payload. Every substituted
    /// component must be a safe string, so the caller may join the
    /// result under its base path.
    pub fn build_path(&self, payload: &Payload) -> (r: Result<String, ExecutorError>)
        ensures
            match r {
                Ok(p) => path_text(self.model(), payload.model(), self.model().len() as int)
                    == Some(p@),
                Err(_) => path_text(self.model(), payload.model(), self.model().len() as int)
                    is None,
            },
    {
        proof {
            lemma_path_part_models_len(self.parts@);
        }
        let n = self.parts.len();
        let mut out = String::new();
        let mut i: usize = 0;
        while i < n
            invariant
                i <= n,
                n == self.parts@.len(),
                self.model().len() == n,
                path_text(self.model(), payload.model(), i as int) == Some(out@),
            decreases n - i,
        {
            proof {
                lemma_path_part_models_index(self.parts@, i as int);
            }
            match &self.parts[i] {
                PathPart::Lit(s) => {
                    out.append(s.as_str());
                },
                PathPart::Param(k) => {
                    match payload.get(k.as_str()) {
                        Some(Value::Str(v)) => {
                            if is_safe_component(v.as_str()) {
                                out.append(v.as_str());
                            } else {
                                proof {
                                    lemma_path_text_none(
                                        self.model(),
                                        payload.model(),
                                        i + 1,
                                        n as int,
                                    );
                                }
                                return Err(
                                    ExecutorError::ActionExecutionError {
                                        message: "unsafe path component".to_owned(),
                                        can_retry: false,
                                        code: None,
                                        data: Payload::new(),
                                    },
                                );
                            }
                        },
                        _ => {
                            proof {
                                lemma_path_text_none(
                                    self.model(),
                                    payload.model(),
                                    i + 1,
                                    n as int,
                                );
                            }
                            return Err(
                                ExecutorError::ActionExecutionError {
                                    message: "missing path parameter".to_owned(),
                                    can_retry: false,
                                    code: None,
                                    data: Payload::new(),
                                },
                            );
                        },
                    }
                },
            }
            i = i + 1;
        }
        Ok(out)
    }
}

proof fn lemma_path_text_none(
    parts: Seq<PathPartModel>,
    payload: Seq<(Seq<char>, Model)>,
    i: int,
    j: int,
)
    requires
        0 <= i <= j,
        path_text(parts, payload, i) is None,
    ensures
        path_text(parts, payload, j) is None,
    decreases j - i,
{
    if j > i {
        lemma_path_text_none(parts, payload, i, j - 1);
    }
}

/// Checks one substituted component.
pub fn is_safe_component(s: &str) -> (r: bool)
    ensures
        r == safe_component(s@),
{
    let len = s.unicode_len();
    if len == 0 {
        return false;
    }
    let mut i: usize = 0;
    while i < len
        invariant
            i <= len,
            len == s@.len(),
            forall|j: int| 0 <= j < i ==> (#[trigger] s@[j]) != '/' && s@[j] != '\\',
        decreases len - i,
    {
        let c = s.get_char(i);
        if c == '/' || c == '\\' {
            return false;
        }
        i = i + 1;
    }
    if len == 1 && s.get_char(0) == '.' {
        proof {
            assert(s@ =~= seq!['.']);
        }
        return false;
    }
    if len == 2 && s.get_char(0) == '.' && s.get_char(1) == '.' {
        proof {
            assert(s@ =~= seq!['.', '.']);
        }
        return false;
    }
    proof {
        if s@ == seq!['.'] {
            assert(s@.len() == 1 && s@[0] == '.');
        }
        if s@ == seq!['.', '.'] {
            assert(s@.len() == 2 && s@[0] == '.' && s@[1] == '.');
        }
    }
    true
}

fn parse_path_exec(s: &Vec<char>, i: usize) -> (r: Vec<PathPart>)
    requires
        i <= s@.len(),
    ensures
        path_part_models(r@) == parse_path_from(s@, i as int),
    decreases s@.len() - i,
{
    let n = s.len();
    if i == n {
        let v: Vec<PathPart> = Vec::new();
        proof {
            assert(path_part_models(v@) =~= Seq::<PathPartModel>::empty());
        }
        return v;
    }
    let le = lit_end_exec(s, i);
    if le > i {
        let mut rest = parse_path_exec(s, le);
        let ghost prev = rest@;
        let lit = from_chars_range(s, i, le);
        rest.insert(0, PathPart::Lit(lit));
        proof {
            assert(rest@.subrange(1, rest@.len() as int) =~= prev);
        }
        rest
    } else {
        proof {
            if !(s@[i as int] == '$' && i + 1 < s@.len() && s@[i + 1] == '{') {
                crate::accessor::lemma_lit_end_bounds(s@, i + 1);
                assert(lit_end(s@, i as int) == lit_end(s@, i + 1));
                assert(false);
            }
        }
        let ce = find_char_exec(s, i + 2, n, '}');
        if ce < n && ce > i + 2 {
            let ie = ident_end_exec(s, i + 2, ce);
            if ie == ce {
                let mut rest = parse_path_exec(s, ce + 1);
                let ghost prev = rest@;
                let key = from_chars_range(s, i + 2, ce);
                rest.insert(0, PathPart::Param(key));
                proof {
                    assert(rest@.subrange(1, rest@.len() as int) =~= prev);
                }
                return rest;
            }
        }
        // not a parameter: the opening characters stay literal text
        let mut rest = parse_path_exec(s, i + 2);
        let ghost prev = rest@;
        let lit = from_chars_range(s, i, i + 2);
        rest.insert(0, PathPart::Lit(lit));
        proof {
            assert(rest@.subrange(1, rest@.len() as int) =~= prev);
        }
        rest
    }
}

/// The archive executor's configuration: a base directory, a fallback
/// file, and one path template per archive type.
#[derive(Debug, PartialEq)]
pub struct ArchiveConfig {
    pub base_path: String,
    pub default_path: String,
    pub paths: Vec<(String, String)>,
}

/// The archive executor: computes, for each action, the file the event
/// should be appended to and the text to write. The file write itself
/// is the caller's.
#[derive(Debug)]
pub struct ArchiveExecutor {
    pub base_path: String,
    pub default_path: String,
    pub paths: Vec<(String, PathMatcher)>,
}

/// The compiled path table of a configuration: one parsed template
/// per configured entry, in order.
pub open spec fn compile_paths(paths: Seq<(String, String)>, i: int) -> Seq<
    (Seq<char>, Seq<PathPartModel>),
>
    decreases paths.len() - i,
{
    if i < 0 || i >= paths.len() {
        Seq::empty()
    } else {
        seq![(paths[i].0@, spec_parse_path(paths[i].1@))] + compile_paths(paths, i + 1)
    }
}

/// The mirror of a compiled path table.
pub open spec fn path_table_models(paths: Seq<(String, PathMatcher)>) -> Seq<
    (Seq<char>, Seq<PathPartModel>),
>
    decreases paths,
{
    if paths.len() == 0 {
        Seq::empty()
    } else {
        seq![(paths[0].0@, paths[0].1.model())] + path_table_models(
            paths.subrange(1, paths.len() as int),
        )
    }
}

impl ArchiveExecutor {
    /// The mirror of this executor's path table.
    pub open spec fn model(self) -> Seq<(Seq<char>, Seq<PathPartModel>)> {
        path_table_models(self.paths@)
    }

    /// Compiles every configured path template, keeping order: one
    /// matcher per entry; construction never fails.
    pub fn new(config: &ArchiveConfig) -> (r: ArchiveExecutor)
        ensures
            r.base_path@ == config.base_path@,
            r.default_path@ == config.default_path@,
            r.model() == compile_paths(config.paths@, 0),
    {
        let n = config.paths.len();
        let mut paths: Vec<(String, PathMatcher)> = Vec::new();
        let mut i: usize = n;
        while i > 0
            invariant
                i <= n,
                n == config.paths@.len(),
                path_table_models(paths@) == compile_paths(config.paths@, i as int),
            decreases i,
        {
            i = i - 1;
            let m = PathMatcher::build(config.paths[i].1.as_str());
            let ghost prev = paths@;
            let key = config.paths[i].0.clone();
            paths.insert(0, (key, m));
            proof {
                assert(paths@.subrange(1, paths@.len() as int) =~= prev);
                assert(path_table_models(paths@) =~= seq![
                    (config.paths@[i as int].0@, paths@[0].1.model()),
                ] + path_table_models(prev));
            }
        }
        ArchiveExecutor {
            base_path: config.base_path.clone(),
            default_path: config.default_path.clone(),
            paths,
        }
    }
}


pub open spec fn str_archive_type() -> Seq<char> {
    seq!['a', 'r', 'c', 'h', 'i', 'v', 'e', '_', 't', 'y', 'p', 'e']
}

pub open spec fn str_event_key() -> Seq<char> {
    seq!['e', 'v', 'e', 'n', 't']
}

/// The first template stored under `key`, scanning from position `i`.
pub open spec fn table_get(
    table: Seq<(Seq<char>, Seq<PathPartModel>)>,
    key: Seq<char>,
    i: int,
) -> Option<Seq<PathPartModel>>
    decreases table.len() - i,
{
    if i < 0 || i >= table.len() {
        None
    } else if table[i].0 == key {
        Some(table[i].1)
    } else {
        table_get(table, key, i + 1)
    }
}

/// The file an action is archived to: the filled template of its
/// archive type, or the default path when the type has no template or
/// the template cannot be filled safely.
pub open spec fn chosen_path(
    table: Seq<(Seq<char>, Seq<PathPartModel>)>,
    key: Seq<char>,
    payload: Seq<(Seq<char>, Model)>,
    default: Seq<char>,
) -> Seq<char> {
    match table_get(table, key, 0) {
        Some(parts) => match path_text(parts, payload, parts.len() as int) {
            Some(p) => p,
            None => default,
        },
        None => default,
    }
}

/// What one archive action asks to be written: the relative path and
/// the event value, or nothing when the payload names no string
/// archive type or carries no event.
pub open spec fn spec_plan(
    table: Seq<(Seq<char>, Seq<PathPartModel>)>,
    default: Seq<char>,
    payload: Seq<(Seq<char>, Model)>,
) -> Option<(Seq<char>, Model)> {
    match obj_get(payload, str_archive_type()) {
        Some(Model::Str(t)) => match obj_get(payload, str_event_key()) {
            Some(ev) => Some((chosen_path(table, t, payload, default), ev)),
            None => None,
        },
        _ => None,
    }
}

impl ArchiveExecutor {
    /// The relative path and the event an archive action asks to have
    /// written. Fails, with an action-execution error, exactly when
    /// the payload has no string archive type or no event.
    pub fn plan_write(&self, payload: &Payload) -> (r: Result<(String, Value), ExecutorError>)
        ensures
            match r {
                Ok(p) => spec_plan(self.model(), self.default_path@, payload.model()) == Some(
                    (p.0@, p.1.model()),
                ),
                Err(e) => spec_plan(self.model(), self.default_path@, payload.model()) is None
                    && e is ActionExecutionError,
            },
    {
        proof {
            reveal_strlit("archive_type");
            reveal_strlit("event");
            assert("archive_type"@ =~= str_archive_type());
            assert("event"@ =~= str_event_key());
        }
        let archive_type = match payload.get("archive_type") {
            Some(Value::Str(t)) => t.clone(),
            _ => {
                return Err(
                    ExecutorError::ActionExecutionError {
                        message: "the archive type is missing or not a string".to_owned(),
                        can_retry: false,
                        code: None,
                        data: Payload::new(),
                    },
                );
            },
        };
        let event = match payload.get("event") {
            Some(v) => v.deep_clone(),
            None => {
                return Err(
                    ExecutorError::ActionExecutionError {
                        message: "the event to archive is missing".to_owned(),
                        can_retry: false,
                        code: None,
                        data: Payload::new(),
                    },
                );
            },
        };
        let n = self.paths.len();
        proof {
            lemma_path_table_len(self.paths@);
        }
        let mut i: usize = 0;
        while i < n
            invariant
                i <= n,
                n == self.paths@.len(),
                self.model().len() == n,
                obj_get(payload.model(), str_archive_type()) == Some(
                    Model::Str(archive_type@),
                ),
                obj_get(payload.model(), str_event_key()) == Some(event.model()),
                table_get(self.model(), archive_type@, 0) == table_get(
                    self.model(),
                    archive_type@,
                    i as int,
                ),
            decreases n - i,
        {
            proof {
                lemma_path_table_index(self.paths@, i as int);
            }
            if crate::value::str_eq(self.paths[i].0.as_str(), archive_type.as_str()) {
                let path = match self.paths[i].1.build_path(payload) {
                    Ok(p) => p,
                    Err(_) => self.default_path.clone(),
                };
                return Ok((path, event));
            }
            i = i + 1;
        }
        Ok((self.default_path.clone(), event))
    }
}

pub broadcast proof fn lemma_path_table_len(paths: Seq<(String, PathMatcher)>)
    ensures
        #[trigger] path_table_models(paths).len() == paths.len(),
    decreases paths,
{
    if paths.len() > 0 {
        lemma_path_table_len(paths.subrange(1, paths.len() as int));
    }
}

pub broadcast proof fn lemma_path_table_index(paths: Seq<(String, PathMatcher)>, i: int)
    requires
        0 <= i < paths.len(),
    ensures
        #[trigger] path_table_models(paths)[i] == (paths[i].0@, paths[i].1.model()),
    decreases paths,
{
    lemma_path_table_len(paths);
    if i > 0 {
        lemma_path_table_index(paths.subrange(1, paths.len() as int), i - 1);
    }
}

} // verus!
