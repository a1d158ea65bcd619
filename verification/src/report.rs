//! Validation findings: errors and warnings with their code, line, position,
//! field name and message.
use vstd::prelude::*;
use vstd::string::*;
use crate::text::push_char;
use crate::text::push_chars;

verus! {

#[derive(Debug, Clone, Copy, PartialEq, Eq, Structural)]
pub enum Severity {
    Fatal,
    Error,
    Warning,
}

#[derive(Debug, Clone)]
pub struct ValidationError {
    pub code: String,
    pub line: usize,
    pub position: Option<(usize, usize)>,
    pub field: String,
    pub message: String,
    pub severity: Severity,
}

/// What a `ValidationError` says, as plain values.
pub struct ErrorSpec {
    pub code: Seq<char>,
    pub line: int,
    pub position: Option<(int, int)>,
    pub field: Seq<char>,
    pub message: Seq<char>,
    pub severity: Severity,
}

impl View for ValidationError {
    type V = ErrorSpec;

    open spec fn view(&self) -> ErrorSpec {
        ErrorSpec {
            code: self.code@,
            line: self.line as int,
            position: match self.position {
                Some(p) => Some((p.0 as int, p.1 as int)),
                None => None,
            },
            field: self.field@,
            message: self.message@,
            severity: self.severity,
        }
    }
}

/// The findings of a list, as plain values.
pub open spec fn views(v: Seq<ValidationError>) -> Seq<ErrorSpec> {
    v.map_values(|e: ValidationError| e@)
}

/// `e` when `cond` holds, nothing otherwise.
pub open spec fn emit_if(cond: bool, e: ErrorSpec) -> Seq<ErrorSpec> {
    if cond {
        seq![e]
    } else {
        Seq::empty()
    }
}

/// Some finding of `s` carries the code `code`.
pub open spec fn has_code(s: Seq<ErrorSpec>, code: Seq<char>) -> bool {
    exists|i: int| 0 <= i < s.len() && #[trigger] s[i].code == code
}

/// A code occurs in two lists put together when it occurs in either.
pub proof fn lemma_has_code_add(a: Seq<ErrorSpec>, b: Seq<ErrorSpec>, code: Seq<char>)
    ensures
        has_code(a + b, code) == (has_code(a, code) || has_code(b, code)),
{
    let s = a + b;
    if has_code(s, code) {
        let i = choose|i: int| 0 <= i < s.len() && #[trigger] s[i].code == code;
        if i < a.len() {
            assert(a[i].code == code);
        } else {
            assert(b[i - a.len()].code == code);
        }
    }
    if has_code(a, code) {
        let i = choose|i: int| 0 <= i < a.len() && #[trigger] a[i].code == code;
        assert(s[i].code == code);
    }
    if has_code(b, code) {
        let i = choose|i: int| 0 <= i < b.len() && #[trigger] b[i].code == code;
        assert(s[i + a.len()].code == code);
    }
}

/// A finding emitted under a condition carries its code exactly when the
/// condition holds.
pub proof fn lemma_has_code_emit(cond: bool, e: ErrorSpec, code: Seq<char>)
    ensures
        has_code(emit_if(cond, e), code) == (cond && e.code == code),
{
    if cond && e.code == code {
        assert(emit_if(cond, e)[0].code == code);
    }
}

/// A list none of whose findings carries `code` has no such finding.
pub proof fn lemma_has_code_none(s: Seq<ErrorSpec>, code: Seq<char>)
    requires
        forall|i: int| 0 <= i < s.len() ==> (#[trigger] s[i]).code != code,
    ensures
        !has_code(s, code),
{
}

pub open spec fn fatal_spec(code: Seq<char>, line: int, field: Seq<char>, message: Seq<char>) -> ErrorSpec {
    ErrorSpec { code, line, position: None, field, message, severity: Severity::Fatal }
}

pub open spec fn error_spec(
    code: Seq<char>,
    line: int,
    pos: (int, int),
    field: Seq<char>,
    message: Seq<char>,
) -> ErrorSpec {
    ErrorSpec { code, line, position: Some(pos), field, message, severity: Severity::Error }
}

pub open spec fn warning_spec(code: Seq<char>, line: int, field: Seq<char>, message: Seq<char>) -> ErrorSpec {
    ErrorSpec { code, line, position: None, field, message, severity: Severity::Warning }
}

impl ValidationError {
    pub(crate) fn fatal(code: &str, line: usize, field: &str, message: &str) -> (r: Self)
        ensures
            r@ == fatal_spec(code@, line as int, field@, message@),
    {
        Self {
            code: code.to_owned(),
            line,
            position: None,
            field: field.to_owned(),
            message: message.to_owned(),
            severity: Severity::Fatal,
        }
    }

    pub(crate) fn error_pos(
        code: &str,
        line: usize,
        pos: (usize, usize),
        field: &str,
        message: &str,
    ) -> (r: Self)
        ensures
            r@ == error_spec(code@, line as int, (pos.0 as int, pos.1 as int), field@, message@),
    {
        Self {
            code: code.to_owned(),
            line,
            position: Some(pos),
            field: field.to_owned(),
            message: message.to_owned(),
            severity: Severity::Error,
        }
    }

    pub(crate) fn warning(code: &str, line: usize, field: &str, message: &str) -> (r: Self)
        ensures
            r@ == warning_spec(code@, line as int, field@, message@),
    {
        Self {
            code: code.to_owned(),
            line,
            position: None,
            field: field.to_owned(),
            message: message.to_owned(),
            severity: Severity::Warning,
        }
    }
}

/// Appends `e` to `list` when `cond` holds.
pub fn push_when(list: &mut Vec<ValidationError>, cond: bool, e: ValidationError)
    ensures
        views(final(list)@) == views(old(list)@) + emit_if(cond, e@),
{
    let ghost before = list@;
    if cond {
        list.push(e);
        assert(views(list@) =~= views(before) + emit_if(cond, e@));
    } else {
        assert(views(list@) =~= views(before) + emit_if(cond, e@));
    }
}

/// Appends `e` to `list`.
pub fn push_finding(list: &mut Vec<ValidationError>, e: ValidationError)
    ensures
        views(final(list)@) == views(old(list)@).push(e@),
{
    let ghost before = list@;
    list.push(e);
    assert(views(list@) =~= views(before).push(e@));
}

/// `a`, then the character `c`, then `b`.
pub fn msg_char(a: &str, c: char, b: &str) -> (m: String)
    ensures
        m@ == a@ + seq![c] + b@,
{
    let mut m = String::from_str(a);
    push_char(&mut m, c);
    m.append(b);
    m
}

/// `a`, then the characters `v`, then `b`.
pub fn msg_chars(a: &str, v: &[char], b: &str) -> (m: String)
    ensures
        m@ == a@ + v@ + b@,
{
    let mut m = String::from_str(a);
    push_chars(&mut m, v);
    m.append(b);
    m
}

/// `a`, `c1`, `b`, `c2`, `c` one after the other.
pub fn msg_char2(a: &str, c1: char, b: &str, c2: char, c: &str) -> (m: String)
    ensures
        m@ == a@ + seq![c1] + b@ + seq![c2] + c@,
{
    let mut m = String::from_str(a);
    push_char(&mut m, c1);
    m.append(b);
    push_char(&mut m, c2);
    m.append(c);
    m
}

/// `a`, `v`, `b`, `w`, `c` one after the other.
pub fn msg_chars2(a: &str, v: &[char], b: &str, w: &[char], c: &str) -> (m: String)
    ensures
        m@ == a@ + v@ + b@ + w@ + c@,
{
    let mut m = String::from_str(a);
    push_chars(&mut m, v);
    m.append(b);
    push_chars(&mut m, w);
    m.append(c);
    m
}

} // verus!
