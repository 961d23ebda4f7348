//! Accessors: `${...}` template expressions evaluated against an event
//! and its extracted variables.
//!
//! A template is literal text with embedded expressions. When the whole
//! template is one expression, evaluation returns the raw value;
//! otherwise every expression is stringified and concatenated with the
//! literal parts. Expressions address the event type, creation instant,
//! payload, metadata, the whole event, or an extracted variable, and may
//! walk into nested values through key and index segments.

use vstd::prelude::*;
use crate::error::MatcherError;
use crate::model::{Event, EventModel, ExtractedVars, event_as_model, vars_get};
use crate::render::render_of;
use crate::text::{from_chars_range, to_chars};
use crate::value::{Model, Value, obj_get, model_seq, lemma_model_seq_len, lemma_model_seq_index};

verus! {

/// One step into a nested value: an object key or an array index.
#[derive(Debug, PartialEq)]
pub enum Seg {
    Key(String),
    Idx(u64),
}

/// The mirror of a [`Seg`].
pub enum SegModel {
    Key(Seq<char>),
    Idx(int),
}

impl Seg {
    /// The mirror of this segment.
    pub open spec fn model(self) -> SegModel {
        match self {
            Seg::Key(k) => SegModel::Key(k@),
            Seg::Idx(n) => SegModel::Idx(n as int),
        }
    }
}

/// The mirror of a sequence of segments.
pub open spec fn seg_models(segs: Seq<Seg>) -> Seq<SegModel>
    decreases segs,
{
    if segs.len() == 0 {
        Seq::empty()
    } else {
        seq![segs[0].model()] + seg_models(segs.subrange(1, segs.len() as int))
    }
}

pub broadcast proof fn lemma_seg_models_len(segs: Seq<Seg>)
    ensures
        #[trigger] seg_models(segs).len() == segs.len(),
    decreases segs,
{
    if segs.len() > 0 {
        lemma_seg_models_len(segs.subrange(1, segs.len() as int));
    }
}

pub broadcast proof fn lemma_seg_models_index(segs: Seq<Seg>, i: int)
    requires
        0 <= i < segs.len(),
    ensures
        #[trigger] seg_models(segs)[i] == segs[i].model(),
    decreases segs,
{
    lemma_seg_models_len(segs);
    if i > 0 {
        lemma_seg_models_index(segs.subrange(1, segs.len() as int), i - 1);
    }
}

/// The root of an expression: what the first path step addresses.
#[derive(Debug, PartialEq)]
pub enum Root {
    /// The whole event, as an object.
    WholeEvent,
    /// The event type string.
    EventType,
    /// The creation instant.
    CreatedMs,
    /// The event payload object.
    PayloadRoot,
    /// The event metadata object.
    MetadataRoot,
    /// An extracted variable, addressed by rule and variable name.
    Var { rule: String, var: String },
    /// The current item, in per-item resolution contexts.
    Item,
}

/// The mirror of a [`Root`].
pub enum RootModel {
    WholeEvent,
    EventType,
    CreatedMs,
    PayloadRoot,
    MetadataRoot,
    Var { rule: Seq<char>, var: Seq<char> },
    Item,
}

impl Root {
    /// The mirror of this root.
    pub open spec fn model(self) -> RootModel {
        match self {
            Root::WholeEvent => RootModel::WholeEvent,
            Root::EventType => RootModel::EventType,
            Root::CreatedMs => RootModel::CreatedMs,
            Root::PayloadRoot => RootModel::PayloadRoot,
            Root::MetadataRoot => RootModel::MetadataRoot,
            Root::Var { rule, var } => RootModel::Var { rule: rule@, var: var@ },
            Root::Item => RootModel::Item,
        }
    }
}

/// One `${...}` expression: a root followed by segments.
#[derive(Debug, PartialEq)]
pub struct Expr {
    pub root: Root,
    pub segs: Vec<Seg>,
}

/// The mirror of an [`Expr`].
pub struct ExprModel {
    pub root: RootModel,
    pub segs: Seq<SegModel>,
}

impl Expr {
    /// The mirror of this expression.
    pub open spec fn model(self) -> ExprModel {
        ExprModel { root: self.root.model(), segs: seg_models(self.segs@) }
    }
}

/// One piece of a template: literal text or an expression.
#[derive(Debug, PartialEq)]
pub enum Part {
    Lit(String),
    Expr(Expr),
}

/// The mirror of a [`Part`].
pub enum PartModel {
    Lit(Seq<char>),
    Expr(ExprModel),
}

impl Part {
    /// The mirror of this part.
    pub open spec fn model(self) -> PartModel {
        match self {
            Part::Lit(s) => PartModel::Lit(s@),
            Part::Expr(e) => PartModel::Expr(e.model()),
        }
    }
}

/// The mirror of a sequence of parts.
pub open spec fn part_models(parts: Seq<Part>) -> Seq<PartModel>
    decreases parts,
{
    if parts.len() == 0 {
        Seq::empty()
    } else {
        seq![parts[0].model()] + part_models(parts.subrange(1, parts.len() as int))
    }
}

pub broadcast proof fn lemma_part_models_len(parts: Seq<Part>)
    ensures
        #[trigger] part_models(parts).len() == parts.len(),
    decreases parts,
{
    if parts.len() > 0 {
        lemma_part_models_len(parts.subrange(1, parts.len() as int));
    }
}

pub broadcast proof fn lemma_part_models_index(parts: Seq<Part>, i: int)
    requires
        0 <= i < parts.len(),
    ensures
        #[trigger] part_models(parts)[i] == parts[i].model(),
    decreases parts,
{
    lemma_part_models_len(parts);
    if i > 0 {
        lemma_part_models_index(parts.subrange(1, parts.len() as int), i - 1);
    }
}

/// A compiled template: the parsed sequence of parts.
#[derive(Debug, PartialEq)]
pub struct Accessor {
    pub parts: Vec<Part>,
}

impl Accessor {
    /// The mirror of this accessor.
    pub open spec fn model(self) -> Seq<PartModel> {
        part_models(self.parts@)
    }
}

// ---------------------------------------------------------------------
// Template grammar
// ---------------------------------------------------------------------

/// Whether `c` may appear in a bare identifier: a letter, a digit or an
/// underscore.
pub open spec fn is_ident_char(c: char) -> bool {
    (48 <= c as u32 && c as u32 <= 57) || (65 <= c as u32 && c as u32 <= 90) || (97 <= c as u32
        && c as u32 <= 122) || c as u32 == 95
}

/// Whether `c` is a decimal digit.
pub open spec fn is_digit_char(c: char) -> bool {
    48 <= c as u32 && c as u32 <= 57
}

/// The numeric value of a digit character.
pub open spec fn digit_val(c: char) -> int {
    c as u32 - 48
}

/// The first position in `[i, hi)` that does not hold an identifier
/// character, or `hi` if all do.
pub open spec fn ident_end(s: Seq<char>, i: int, hi: int) -> int
    decreases hi - i,
{
    if 0 <= i < hi && i < s.len() && is_ident_char(s[i]) {
        ident_end(s, i + 1, hi)
    } else {
        i
    }
}

/// The first position in `[i, hi)` that does not hold a digit, or `hi`
/// if all do.
pub open spec fn digits_end(s: Seq<char>, i: int, hi: int) -> int
    decreases hi - i,
{
    if 0 <= i < hi && i < s.len() && is_digit_char(s[i]) {
        digits_end(s, i + 1, hi)
    } else {
        i
    }
}

/// The first position in `[i, hi)` holding `c`, or `hi` if there is
/// none.
pub open spec fn find_char(s: Seq<char>, i: int, hi: int, c: char) -> int
    decreases hi - i,
{
    if 0 <= i < hi && i < s.len() {
        if s[i] == c {
            i
        } else {
            find_char(s, i + 1, hi, c)
        }
    } else {
        hi
    }
}

/// The first position at or after `i` where a `${` expression starts, or
/// the length of `s` if there is none: the literal run ends there.
pub open spec fn lit_end(s: Seq<char>, i: int) -> int
    decreases s.len() - i,
{
    if 0 <= i < s.len() {
        if s[i] == '$' && i + 1 < s.len() && s[i + 1] == '{' {
            i
        } else {
            lit_end(s, i + 1)
        }
    } else {
        i
    }
}

/// The value of the digit run `s[lo..hi]`.
pub open spec fn digits_val(s: Seq<char>, lo: int, hi: int) -> int
    decreases hi - lo,
{
    if hi <= lo {
        0
    } else {
        digits_val(s, lo, hi - 1) * 10 + digit_val(s[hi - 1])
    }
}

pub open spec fn str_event() -> Seq<char> {
    seq!['e', 'v', 'e', 'n', 't']
}

pub open spec fn str_type() -> Seq<char> {
    seq!['t', 'y', 'p', 'e']
}

pub open spec fn str_created_ms() -> Seq<char> {
    seq!['c', 'r', 'e', 'a', 't', 'e', 'd', '_', 'm', 's']
}

pub open spec fn str_payload() -> Seq<char> {
    seq!['p', 'a', 'y', 'l', 'o', 'a', 'd']
}

pub open spec fn str_metadata() -> Seq<char> {
    seq!['m', 'e', 't', 'a', 'd', 'a', 't', 'a']
}

pub open spec fn str_variables() -> Seq<char> {
    seq!['_', 'v', 'a', 'r', 'i', 'a', 'b', 'l', 'e', 's']
}

pub open spec fn str_item() -> Seq<char> {
    seq!['i', 't', 'e', 'm']
}

/// Parses the segments `s[i..hi]`: a sequence of `.key`, `[index]` and
/// `["key"]` steps.
pub open spec fn parse_segs(s: Seq<char>, i: int, hi: int) -> Option<Seq<SegModel>>
    decreases hi - i,
{
    if i < 0 || hi > s.len() {
        None
    } else if i >= hi {
        Some(Seq::empty())
    } else if s[i] == '.' {
        let e = ident_end(s, i + 1, hi);
        if e <= i + 1 || e > hi {
            None
        } else {
            match parse_segs(s, e, hi) {
                Some(rest) => Some(seq![SegModel::Key(s.subrange(i + 1, e))] + rest),
                None => None,
            }
        }
    } else if s[i] == '[' {
        if i + 1 < hi && s[i + 1] == '"' {
            let q = find_char(s, i + 2, hi, '"');
            if i + 2 <= q && q + 1 < hi && s[q] == '"' && s[q + 1] == ']' {
                match parse_segs(s, q + 2, hi) {
                    Some(rest) => Some(seq![SegModel::Key(s.subrange(i + 2, q))] + rest),
                    None => None,
                }
            } else {
                None
            }
        } else {
            let e = digits_end(s, i + 1, hi);
            if e <= i + 1 || e >= hi || s[e] != ']' {
                None
            } else if digits_val(s, i + 1, e) > u64::MAX as int {
                None
            } else {
                match parse_segs(s, e + 1, hi) {
                    Some(rest) => Some(seq![SegModel::Idx(digits_val(s, i + 1, e))] + rest),
                    None => None,
                }
            }
        }
    } else {
        None
    }
}

/// Parses the expression `s[lo..hi]`: a root followed by segments.
pub open spec fn parse_expr(s: Seq<char>, lo: int, hi: int) -> Option<ExprModel> {
    if lo < 0 || hi > s.len() {
        None
    } else {
        let e1 = ident_end(s, lo, hi);
        if e1 <= lo {
            None
        } else {
            let head = s.subrange(lo, e1);
            if head == str_event() {
                if e1 >= hi {
                    Some(ExprModel { root: RootModel::WholeEvent, segs: Seq::empty() })
                } else if s[e1] == '.' {
                    let e2 = ident_end(s, e1 + 1, hi);
                    if e2 <= e1 + 1 {
                        None
                    } else {
                        let field = s.subrange(e1 + 1, e2);
                        let segs = parse_segs(s, e2, hi);
                        if field == str_type() {
                            match segs {
                                Some(gs) => Some(ExprModel { root: RootModel::EventType, segs: gs }),
                                None => None,
                            }
                        } else if field == str_created_ms() {
                            match segs {
                                Some(gs) => Some(ExprModel { root: RootModel::CreatedMs, segs: gs }),
                                None => None,
                            }
                        } else if field == str_payload() {
                            match segs {
                                Some(gs) => Some(
                                    ExprModel { root: RootModel::PayloadRoot, segs: gs },
                                ),
                                None => None,
                            }
                        } else if field == str_metadata() {
                            match segs {
                                Some(gs) => Some(
                                    ExprModel { root: RootModel::MetadataRoot, segs: gs },
                                ),
                                None => None,
                            }
                        } else {
                            None
                        }
                    }
                } else {
                    None
                }
            } else if head == str_variables() {
                if e1 < hi && s[e1] == '.' {
                    let e2 = ident_end(s, e1 + 1, hi);
                    if e2 <= e1 + 1 || e2 >= hi || s[e2] != '.' {
                        None
                    } else {
                        let e3 = ident_end(s, e2 + 1, hi);
                        if e3 <= e2 + 1 {
                            None
                        } else {
                            match parse_segs(s, e3, hi) {
                                Some(gs) => Some(
                                    ExprModel {
                                        root: RootModel::Var {
                                            rule: s.subrange(e1 + 1, e2),
                                            var: s.subrange(e2 + 1, e3),
                                        },
                                        segs: gs,
                                    },
                                ),
                                None => None,
                            }
                        }
                    }
                } else {
                    None
                }
            } else if head == str_item() {
                match parse_segs(s, e1, hi) {
                    Some(gs) => Some(ExprModel { root: RootModel::Item, segs: gs }),
                    None => None,
                }
            } else {
                None
            }
        }
    }
}

/// Parses the template from position `i` on: literal runs alternating
/// with `${...}` expressions. An unbalanced `${` yields `None`.
pub open spec fn parse_template_from(s: Seq<char>, i: int) -> Option<Seq<PartModel>>
    decreases s.len() - i,
{
    if i < 0 || i > s.len() {
        None
    } else if i == s.len() {
        Some(Seq::empty())
    } else {
        let le = lit_end(s, i);
        if le > i {
            if le <= s.len() {
                match parse_template_from(s, le) {
                    Some(rest) => Some(seq![PartModel::Lit(s.subrange(i, le))] + rest),
                    None => None,
                }
            } else {
                None
            }
        } else {
            let ce = find_char(s, i + 2, s.len() as int, '}');
            if i + 2 <= ce && ce < s.len() {
                match parse_expr(s, i + 2, ce) {
                    Some(e) => match parse_template_from(s, ce + 1) {
                        Some(rest) => Some(seq![PartModel::Expr(e)] + rest),
                        None => None,
                    },
                    None => None,
                }
            } else {
                None
            }
        }
    }
}

/// Parses a whole template.
pub open spec fn spec_parse_template(s: Seq<char>) -> Option<Seq<PartModel>> {
    parse_template_from(s, 0)
}

// ---------------------------------------------------------------------
// The parser
// ---------------------------------------------------------------------

fn is_ident_char_exec(c: char) -> (r: bool)
    ensures
        r == is_ident_char(c),
{
    let u = c as u32;
    (48 <= u && u <= 57) || (65 <= u && u <= 90) || (97 <= u && u <= 122) || u == 95
}

fn is_digit_char_exec(c: char) -> (r: bool)
    ensures
        r == is_digit_char(c),
{
    let u = c as u32;
    48 <= u && u <= 57
}

pub(crate) fn ident_end_exec(s: &Vec<char>, i: usize, hi: usize) -> (r: usize)
    requires
        i <= hi,
        hi <= s@.len(),
    ensures
        r == ident_end(s@, i as int, hi as int),
        i <= r <= hi,
    decreases hi - i,
{
    if i < hi && is_ident_char_exec(s[i]) {
        ident_end_exec(s, i + 1, hi)
    } else {
        i
    }
}

pub(crate) fn digits_end_exec(s: &Vec<char>, i: usize, hi: usize) -> (r: usize)
    requires
        i <= hi,
        hi <= s@.len(),
    ensures
        r == digits_end(s@, i as int, hi as int),
        i <= r <= hi,
    decreases hi - i,
{
    if i < hi && is_digit_char_exec(s[i]) {
        digits_end_exec(s, i + 1, hi)
    } else {
        i
    }
}

pub(crate) fn find_char_exec(s: &Vec<char>, i: usize, hi: usize, c: char) -> (r: usize)
    requires
        i <= hi,
        hi <= s@.len(),
    ensures
        r == find_char(s@, i as int, hi as int, c),
        i <= r <= hi,
    decreases hi - i,
{
    if i < hi {
        if s[i] == c {
            i
        } else {
            find_char_exec(s, i + 1, hi, c)
        }
    } else {
        hi
    }
}

pub(crate) fn lit_end_exec(s: &Vec<char>, i: usize) -> (r: usize)
    requires
        i <= s@.len(),
    ensures
        r == lit_end(s@, i as int),
        i <= r <= s@.len(),
    decreases s@.len() - i,
{
    let n = s.len();
    if i < n {
        if s[i] == '$' && i + 1 < n && s[i + 1] == '{' {
            i
        } else {
            lit_end_exec(s, i + 1)
        }
    } else {
        i
    }
}

/// Digit runs denote nonnegative values.
proof fn lemma_digits_val_nonneg(s: Seq<char>, lo: int, hi: int)
    requires
        forall|j: int| lo <= j < hi ==> is_digit_char(#[trigger] s[j]),
        hi <= s.len(),
    ensures
        digits_val(s, lo, hi) >= 0,
    decreases hi - lo,
{
    if hi > lo {
        lemma_digits_val_nonneg(s, lo, hi - 1);
    }
}

fn digits_value_exec(s: &Vec<char>, lo: usize, hi: usize) -> (r: Option<u64>)
    requires
        lo <= hi,
        hi <= s@.len(),
        forall|j: int| lo <= j < hi ==> is_digit_char(#[trigger] s@[j]),
    ensures
        match r {
            Some(v) => v as int == digits_val(s@, lo as int, hi as int),
            None => digits_val(s@, lo as int, hi as int) > u64::MAX as int,
        },
    decreases hi - lo,
{
    if hi <= lo {
        Some(0)
    } else {
        match digits_value_exec(s, lo, hi - 1) {
            None => {
                proof {
                    lemma_digits_val_nonneg(s@, lo as int, hi - 1);
                    assert(digits_val(s@, lo as int, hi as int) > u64::MAX as int) by (
                    nonlinear_arith)
                        requires
                            digits_val(s@, lo as int, hi as int) == digits_val(
                                s@,
                                lo as int,
                                hi - 1,
                            ) * 10 + digit_val(s@[hi - 1]),
                            digits_val(s@, lo as int, hi - 1) > u64::MAX as int,
                            digit_val(s@[hi - 1]) >= 0,
                    ;
                }
                None
            },
            Some(acc) => {
                let c = s[hi - 1];
                let d: u64 = (c as u32 as u64) - 48;
                if acc > (u64::MAX - d) / 10 {
                    proof {
                        assert(digits_val(s@, lo as int, hi as int) > u64::MAX as int) by (
                        nonlinear_arith)
                            requires
                                digits_val(s@, lo as int, hi as int) == (acc as int) * 10 + (
                                d as int),
                                acc as int > ((u64::MAX - d) as int) / 10,
                                d as int <= 9,
                                d as int >= 0,
                        ;
                    }
                    None
                } else {
                    proof {
                        assert((acc as int) * 10 + (d as int) <= u64::MAX as int) by (
                        nonlinear_arith)
                            requires
                                acc as int <= ((u64::MAX - d) as int) / 10,
                                0 <= d as int <= 9,
                                acc as int >= 0,
                        ;
                    }
                    Some(acc * 10 + d)
                }
            },
        }
    }
}

fn parse_segs_exec(s: &Vec<char>, i: usize, hi: usize) -> (r: Option<Vec<Seg>>)
    requires
        hi <= s@.len(),
    ensures
        match r {
            Some(v) => parse_segs(s@, i as int, hi as int) == Some(seg_models(v@)),
            None => parse_segs(s@, i as int, hi as int) is None,
        },
    decreases hi - i,
{
    if i >= hi {
        let v: Vec<Seg> = Vec::new();
        proof {
            assert(seg_models(v@) =~= Seq::<SegModel>::empty());
        }
        Some(v)
    } else if s[i] == '.' {
        let e = ident_end_exec(s, i + 1, hi);
        if e <= i + 1 {
            None
        } else {
            match parse_segs_exec(s, e, hi) {
                Some(mut rest) => {
                    let ghost prev = rest@;
                    let key = from_chars_range(s, i + 1, e);
                    rest.insert(0, Seg::Key(key));
                    proof {
                        assert(rest@.subrange(1, rest@.len() as int) =~= prev);
                        lemma_cons_seg(rest@);
                    }
                    Some(rest)
                },
                None => None,
            }
        }
    } else if s[i] == '[' {
        if i + 1 < hi && s[i + 1] == '"' {
            let q = find_char_exec(s, i + 2, hi, '"');
            if hi - q >= 2 && s[q] == '"' && s[q + 1] == ']' {
                match parse_segs_exec(s, q + 2, hi) {
                    Some(mut rest) => {
                        let ghost prev = rest@;
                        let key = from_chars_range(s, i + 2, q);
                        rest.insert(0, Seg::Key(key));
                        proof {
                            assert(rest@.subrange(1, rest@.len() as int) =~= prev);
                            lemma_cons_seg(rest@);
                        }
                        Some(rest)
                    },
                    None => None,
                }
            } else {
                None
            }
        } else {
            let e = digits_end_exec(s, i + 1, hi);
            if e <= i + 1 {
                None
            } else if e >= hi || s[e] != ']' {
                None
            } else {
                proof {
                    lemma_digits_end_digits(s@, i + 1, hi as int);
                }
                match digits_value_exec(s, i + 1, e) {
                    None => None,
                    Some(n) => {
                        match parse_segs_exec(s, e + 1, hi) {
                            Some(mut rest) => {
                                let ghost prev = rest@;
                                rest.insert(0, Seg::Idx(n));
                                proof {
                                    assert(rest@.subrange(1, rest@.len() as int) =~= prev);
                                    lemma_cons_seg(rest@);
                                }
                                Some(rest)
                            },
                            None => None,
                        }
                    },
                }
            }
        }
    } else {
        None
    }
}

/// All characters of a digit run are digits.
proof fn lemma_digits_end_digits(s: Seq<char>, i: int, hi: int)
    requires
        0 <= i,
        hi <= s.len(),
    ensures
        forall|j: int| i <= j < digits_end(s, i, hi) ==> is_digit_char(#[trigger] s[j]),
    decreases hi - i,
{
    if 0 <= i < hi && i < s.len() && is_digit_char(s[i]) {
        lemma_digits_end_digits(s, i + 1, hi);
    }
}

/// A sequence's mirror starts with the mirror of its head.
proof fn lemma_cons_seg(v: Seq<Seg>)
    requires
        v.len() > 0,
    ensures
        seg_models(v) == seq![v[0].model()] + seg_models(v.subrange(1, v.len() as int)),
{
}

/// A part sequence's mirror starts with the mirror of its head.
proof fn lemma_cons_part(v: Seq<Part>)
    requires
        v.len() > 0,
    ensures
        part_models(v) == seq![v[0].model()] + part_models(v.subrange(1, v.len() as int)),
{
}

fn parse_expr_exec(s: &Vec<char>, lo: usize, hi: usize) -> (r: Option<Expr>)
    requires
        hi <= s@.len(),
    ensures
        match r {
            Some(e) => parse_expr(s@, lo as int, hi as int) == Some(e.model()),
            None => parse_expr(s@, lo as int, hi as int) is None,
        },
{
    if lo > hi {
        proof {
            lemma_ident_end_oob(s@, lo as int, hi as int);
        }
        return None;
    }
    let e1 = ident_end_exec(s, lo, hi);
    if e1 <= lo {
        return None;
    }
    let head = from_chars_range(s, lo, e1);
    proof {
        reveal_strlit("event");
        reveal_strlit("_variables");
        reveal_strlit("item");
        reveal_strlit("type");
        reveal_strlit("created_ms");
        reveal_strlit("payload");
        reveal_strlit("metadata");
        assert("event"@ =~= str_event());
        assert("_variables"@ =~= str_variables());
        assert("item"@ =~= str_item());
        assert("type"@ =~= str_type());
        assert("created_ms"@ =~= str_created_ms());
        assert("payload"@ =~= str_payload());
        assert("metadata"@ =~= str_metadata());
    }
    if crate::value::str_eq(head.as_str(), "event") {
        if e1 >= hi {
            let e = Expr { root: Root::WholeEvent, segs: Vec::new() };
            proof {
                assert(seg_models(e.segs@) =~= Seq::<SegModel>::empty());
            }
            return Some(e);
        }
        if s[e1] != '.' {
            return None;
        }
        let e2 = ident_end_exec(s, e1 + 1, hi);
        if e2 <= e1 + 1 {
            return None;
        }
        let field = from_chars_range(s, e1 + 1, e2);
        let root: Root = if crate::value::str_eq(field.as_str(), "type") {
            Root::EventType
        } else if crate::value::str_eq(field.as_str(), "created_ms") {
            Root::CreatedMs
        } else if crate::value::str_eq(field.as_str(), "payload") {
            Root::PayloadRoot
        } else if crate::value::str_eq(field.as_str(), "metadata") {
            Root::MetadataRoot
        } else {
            return None;
        };
        match parse_segs_exec(s, e2, hi) {
            Some(segs) => Some(Expr { root, segs }),
            None => None,
        }
    } else if crate::value::str_eq(head.as_str(), "_variables") {
        if e1 >= hi || s[e1] != '.' {
            return None;
        }
        let e2 = ident_end_exec(s, e1 + 1, hi);
        if e2 <= e1 + 1 || e2 >= hi {
            return None;
        }
        if s[e2] != '.' {
            return None;
        }
        let e3 = ident_end_exec(s, e2 + 1, hi);
        if e3 <= e2 + 1 {
            return None;
        }
        let rule = from_chars_range(s, e1 + 1, e2);
        let var = from_chars_range(s, e2 + 1, e3);
        match parse_segs_exec(s, e3, hi) {
            Some(segs) => Some(Expr { root: Root::Var { rule, var }, segs }),
            None => None,
        }
    } else if crate::value::str_eq(head.as_str(), "item") {
        match parse_segs_exec(s, e1, hi) {
            Some(segs) => Some(Expr { root: Root::Item, segs }),
            None => None,
        }
    } else {
        None
    }
}

/// An identifier scan outside bounds stays put.
proof fn lemma_ident_end_oob(s: Seq<char>, i: int, hi: int)
    requires
        i > hi,
    ensures
        ident_end(s, i, hi) == i,
{
}

/// The end of a literal run lies between its start and the end of the
/// template.
pub(crate) proof fn lemma_lit_end_bounds(s: Seq<char>, i: int)
    requires
        0 <= i <= s.len(),
    ensures
        i <= lit_end(s, i) <= s.len(),
    decreases s.len() - i,
{
    if 0 <= i < s.len() && !(s[i] == '$' && i + 1 < s.len() && s[i + 1] == '{') {
        lemma_lit_end_bounds(s, i + 1);
    }
}

fn parse_template_exec(s: &Vec<char>, i: usize) -> (r: Option<Vec<Part>>)
    requires
        i <= s@.len(),
    ensures
        match r {
            Some(v) => parse_template_from(s@, i as int) == Some(part_models(v@)),
            None => parse_template_from(s@, i as int) is None,
        },
    decreases s@.len() - i,
{
    let n = s.len();
    if i == n {
        let v: Vec<Part> = Vec::new();
        proof {
            assert(part_models(v@) =~= Seq::<PartModel>::empty());
        }
        return Some(v);
    }
    let le = lit_end_exec(s, i);
    if le > i {
        match parse_template_exec(s, le) {
            Some(mut rest) => {
                let ghost prev = rest@;
                let lit = from_chars_range(s, i, le);
                rest.insert(0, Part::Lit(lit));
                proof {
                    assert(rest@.subrange(1, rest@.len() as int) =~= prev);
                    lemma_cons_part(rest@);
                }
                Some(rest)
            },
            None => None,
        }
    } else {
        proof {
            if !(s@[i as int] == '$' && i + 1 < s@.len() && s@[i + 1] == '{') {
                lemma_lit_end_bounds(s@, i + 1);
                assert(lit_end(s@, i as int) == lit_end(s@, i + 1));
                assert(false);
            }
        }
        let ce = find_char_exec(s, i + 2, n, '}');
        if ce >= n {
            return None;
        }
        match parse_expr_exec(s, i + 2, ce) {
            Some(e) => {
                match parse_template_exec(s, ce + 1) {
                    Some(mut rest) => {
                        let ghost prev = rest@;
                        rest.insert(0, Part::Expr(e));
                        proof {
                            assert(rest@.subrange(1, rest@.len() as int) =~= prev);
                            lemma_cons_part(rest@);
                        }
                        Some(rest)
                    },
                    None => None,
                }
            },
            None => None,
        }
    }
}

// ---------------------------------------------------------------------
// Evaluation
// ---------------------------------------------------------------------

/// Walks `m` along `segs[i..]`: keys address objects, indices address
/// arrays; any mismatch or miss yields `None`.
pub open spec fn walk(m: Model, segs: Seq<SegModel>, i: int) -> Option<Model>
    decreases segs.len() - i,
{
    if i < 0 {
        None
    } else if i >= segs.len() {
        Some(m)
    } else {
        match segs[i] {
            SegModel::Key(k) => match m {
                Model::Obj(entries) => match obj_get(entries, k) {
                    Some(v) => walk(v, segs, i + 1),
                    None => None,
                },
                _ => None,
            },
            SegModel::Idx(n) => match m {
                Model::Arr(items) => if 0 <= n < items.len() {
                    walk(items[n], segs, i + 1)
                } else {
                    None
                },
                _ => None,
            },
        }
    }
}

/// The value a root addresses: the event field, the whole event, or an
/// extracted variable.
pub open spec fn root_model(
    root: RootModel,
    ev: EventModel,
    vars: Seq<(Seq<char>, Seq<char>, Model)>,
) -> Option<Model> {
    match root {
        RootModel::WholeEvent => Some(event_as_model(ev)),
        RootModel::EventType => Some(Model::Str(ev.event_type)),
        RootModel::CreatedMs => Some(Model::Int(ev.created_ms)),
        RootModel::PayloadRoot => Some(Model::Obj(ev.payload)),
        RootModel::MetadataRoot => Some(Model::Obj(ev.metadata)),
        RootModel::Var { rule, var } => vars_get(vars, rule, var),
        RootModel::Item => None,
    }
}

/// The value of one expression: the root value walked along the
/// segments.
pub open spec fn eval_expr_model(
    e: ExprModel,
    ev: EventModel,
    vars: Seq<(Seq<char>, Seq<char>, Model)>,
) -> Option<Model> {
    match root_model(e.root, ev, vars) {
        Some(m) => walk(m, e.segs, 0),
        None => None,
    }
}

/// The interpolation text of the first `i` parts: literal parts keep
/// their characters, expressions contribute their rendered value; an
/// expression yielding nothing spoils the whole text.
pub open spec fn interp_prefix(
    parts: Seq<PartModel>,
    ev: EventModel,
    vars: Seq<(Seq<char>, Seq<char>, Model)>,
    i: int,
) -> Option<Seq<char>>
    decreases i,
{
    if i <= 0 {
        Some(Seq::empty())
    } else {
        match interp_prefix(parts, ev, vars, i - 1) {
            None => None,
            Some(acc) => match parts[i - 1] {
                PartModel::Lit(s) => Some(acc + s),
                PartModel::Expr(e) => match eval_expr_model(e, ev, vars) {
                    Some(m) => Some(acc + render_of(m)),
                    None => None,
                },
            },
        }
    }
}

/// The value of a whole template: the raw expression value when the
/// template is exactly one expression, otherwise the interpolation text
/// as a string.
pub open spec fn eval_parts(
    parts: Seq<PartModel>,
    ev: EventModel,
    vars: Seq<(Seq<char>, Seq<char>, Model)>,
) -> Option<Model> {
    if parts.len() == 1 && parts[0] is Expr {
        eval_expr_model(parts[0]->Expr_0, ev, vars)
    } else {
        match interp_prefix(parts, ev, vars, parts.len() as int) {
            Some(text) => Some(Model::Str(text)),
            None => None,
        }
    }
}

/// A spoiled interpolation stays spoiled as more parts are added.
proof fn lemma_interp_none(
    parts: Seq<PartModel>,
    ev: EventModel,
    vars: Seq<(Seq<char>, Seq<char>, Model)>,
    i: int,
    j: int,
)
    requires
        0 <= i <= j,
        interp_prefix(parts, ev, vars, i) is None,
    ensures
        interp_prefix(parts, ev, vars, j) is None,
    decreases j - i,
{
    if j > i {
        lemma_interp_none(parts, ev, vars, i, j - 1);
    }
}

fn walk_ref<'a>(v: &'a Value, segs: &Vec<Seg>, i: usize) -> (r: Option<&'a Value>)
    requires
        i <= segs@.len(),
    ensures
        match r {
            Some(out) => walk(v.model(), seg_models(segs@), i as int) == Some(out.model()),
            None => walk(v.model(), seg_models(segs@), i as int) is None,
        },
    decreases segs@.len() - i,
{
    proof {
        lemma_seg_models_len(segs@);
    }
    if i == segs.len() {
        return Some(v);
    }
    proof {
        lemma_seg_models_index(segs@, i as int);
    }
    match &segs[i] {
        Seg::Key(k) => match v {
            Value::Obj(p) => match p.get(k.as_str()) {
                Some(next) => walk_ref(next, segs, i + 1),
                None => None,
            },
            _ => None,
        },
        Seg::Idx(n) => match v {
            Value::Arr(items) => {
                proof {
                    lemma_model_seq_len(items@);
                }
                if *n < items.len() as u64 {
                    proof {
                        lemma_model_seq_index(items@, *n as int);
                    }
                    walk_ref(&items[*n as usize], segs, i + 1)
                } else {
                    None
                }
            },
            _ => None,
        },
    }
}

fn root_value(root: &Root, event: &Event, vars: &ExtractedVars) -> (r: Option<Value>)
    ensures
        match r {
            Some(v) => root_model(root.model(), event.model(), vars.model()) == Some(v.model()),
            None => root_model(root.model(), event.model(), vars.model()) is None,
        },
{
    match root {
        Root::WholeEvent => Some(event.as_value()),
        Root::EventType => Some(Value::Str(event.event_type.clone())),
        Root::CreatedMs => Some(Value::Int(event.created_ms)),
        Root::PayloadRoot => Some(Value::Obj(event.payload.deep_clone())),
        Root::MetadataRoot => Some(Value::Obj(event.metadata.deep_clone())),
        Root::Var { rule, var } => match vars.get(rule.as_str(), var.as_str()) {
            Some(v) => Some(v.deep_clone()),
            None => None,
        },
        Root::Item => None,
    }
}

/// The value of one expression against an event and its extracted
/// variables.
pub fn eval_expr_value(e: &Expr, event: &Event, vars: &ExtractedVars) -> (r: Option<Value>)
    ensures
        match r {
            Some(v) => eval_expr_model(e.model(), event.model(), vars.model()) == Some(v.model()),
            None => eval_expr_model(e.model(), event.model(), vars.model()) is None,
        },
{
    match root_value(&e.root, event, vars) {
        None => None,
        Some(base) => match walk_ref(&base, &e.segs, 0) {
            Some(out) => Some(out.deep_clone()),
            None => None,
        },
    }
}

impl Accessor {
    /// Evaluates this template against an event and its extracted
    /// variables: the raw value for a single-expression template, the
    /// interpolated string otherwise, and `None` when any expression
    /// yields nothing.
    pub fn get(&self, event: &Event, vars: &ExtractedVars) -> (r: Option<Value>)
        ensures
            match r {
                Some(v) => eval_parts(self.model(), event.model(), vars.model()) == Some(
                    v.model(),
                ),
                None => eval_parts(self.model(), event.model(), vars.model()) is None,
            },
    {
        proof {
            lemma_part_models_len(self.parts@);
        }
        let n = self.parts.len();
        if n == 1 {
            proof {
                lemma_part_models_index(self.parts@, 0);
            }
            let first = &self.parts[0];
            if let Part::Expr(e) = first {
                return eval_expr_value(e, event, vars);
            }
        }
        let mut out = String::new();
        let mut i: usize = 0;
        while i < n
            invariant
                i <= n,
                n == self.parts@.len(),
                self.model().len() == n,
                interp_prefix(self.model(), event.model(), vars.model(), i as int) == Some(out@),
            decreases n - i,
        {
            proof {
                lemma_part_models_index(self.parts@, i as int);
            }
            match &self.parts[i] {
                Part::Lit(s) => {
                    out.append(s.as_str());
                },
                Part::Expr(e) => {
                    match eval_expr_value(e, event, vars) {
                        Some(v) => {
                            let t = crate::render::value_to_text(&v);
                            out.append(t.as_str());
                        },
                        None => {
                            proof {
                                lemma_interp_none(
                                    self.model(),
                                    event.model(),
                                    vars.model(),
                                    i + 1,
                                    n as int,
                                );
                            }
                            return None;
                        },
                    }
                },
            }
            i = i + 1;
        }
        Some(Value::Str(out))
    }
}


// ---------------------------------------------------------------------
// Evaluation against a single item
// ---------------------------------------------------------------------

/// The value of one expression in a per-item context: only the `item`
/// root addresses anything there.
pub open spec fn eval_item_expr(e: ExprModel, item: Model) -> Option<Model> {
    match e.root {
        RootModel::Item => walk(item, e.segs, 0),
        _ => None,
    }
}

/// The interpolation text of the first `i` parts in a per-item
/// context.
pub open spec fn interp_item_prefix(parts: Seq<PartModel>, item: Model, i: int) -> Option<
    Seq<char>,
>
    decreases i,
{
    if i <= 0 {
        Some(Seq::empty())
    } else {
        match interp_item_prefix(parts, item, i - 1) {
            None => None,
            Some(acc) => match parts[i - 1] {
                PartModel::Lit(s) => Some(acc + s),
                PartModel::Expr(e) => match eval_item_expr(e, item) {
                    Some(m) => Some(acc + render_of(m)),
                    None => None,
                },
            },
        }
    }
}

/// The value of a whole template in a per-item context.
pub open spec fn eval_parts_item(parts: Seq<PartModel>, item: Model) -> Option<Model> {
    if parts.len() == 1 && parts[0] is Expr {
        eval_item_expr(parts[0]->Expr_0, item)
    } else {
        match interp_item_prefix(parts, item, parts.len() as int) {
            Some(text) => Some(Model::Str(text)),
            None => None,
        }
    }
}

proof fn lemma_interp_item_none(parts: Seq<PartModel>, item: Model, i: int, j: int)
    requires
        0 <= i <= j,
        interp_item_prefix(parts, item, i) is None,
    ensures
        interp_item_prefix(parts, item, j) is None,
    decreases j - i,
{
    if j > i {
        lemma_interp_item_none(parts, item, i, j - 1);
    }
}

impl Accessor {
    /// Evaluates this template against a single item: only `item`
    /// expressions address anything.
    pub fn get_with_item(&self, item: &Value) -> (r: Option<Value>)
        ensures
            match r {
                Some(v) => eval_parts_item(self.model(), item.model()) == Some(v.model()),
                None => eval_parts_item(self.model(), item.model()) is None,
            },
    {
        proof {
            lemma_part_models_len(self.parts@);
        }
        let n = self.parts.len();
        if n == 1 {
            proof {
                lemma_part_models_index(self.parts@, 0);
            }
            let first = &self.parts[0];
            if let Part::Expr(e) = first {
                match &e.root {
                    Root::Item => {
                        return match walk_ref(item, &e.segs, 0) {
                            Some(out) => Some(out.deep_clone()),
                            None => None,
                        };
                    },
                    _ => {
                        return None;
                    },
                }
            }
        }
        let mut out = String::new();
        let mut i: usize = 0;
        while i < n
            invariant
                i <= n,
                n == self.parts@.len(),
                self.model().len() == n,
                interp_item_prefix(self.model(), item.model(), i as int) == Some(out@),
            decreases n - i,
        {
            proof {
                lemma_part_models_index(self.parts@, i as int);
            }
            match &self.parts[i] {
                Part::Lit(s) => {
                    out.append(s.as_str());
                },
                Part::Expr(e) => {
                    let resolved: Option<Value> = match &e.root {
                        Root::Item => match walk_ref(item, &e.segs, 0) {
                            Some(v) => Some(v.deep_clone()),
                            None => None,
                        },
                        _ => None,
                    };
                    match resolved {
                        Some(v) => {
                            let t = crate::render::value_to_text(&v);
                            out.append(t.as_str());
                        },
                        None => {
                            proof {
                                lemma_interp_item_none(
                                    self.model(),
                                    item.model(),
                                    i + 1,
                                    n as int,
                                );
                            }
                            return None;
                        },
                    }
                },
            }
            i = i + 1;
        }
        Some(Value::Str(out))
    }
}

/// Builds accessors from template strings.
#[derive(Debug)]
pub struct AccessorBuilder {}

impl AccessorBuilder {
    /// A fresh builder.
    pub fn new() -> (r: AccessorBuilder) {
        AccessorBuilder {}
    }

    /// Parses `template` into an accessor.
    pub fn build(&self, _rule_name: &str, template: &str) -> (r: Result<Accessor, MatcherError>)
        ensures
            match r {
                Ok(acc) => spec_parse_template(template@) == Some(acc.model()),
                Err(_) => spec_parse_template(template@) is None,
            },
    {
        let chars = to_chars(template);
        match parse_template_exec(&chars, 0) {
            Some(parts) => Ok(Accessor { parts }),
            None => Err(MatcherError::AccessorBuildError { template: template.to_owned() }),
        }
    }
}

} // verus!
