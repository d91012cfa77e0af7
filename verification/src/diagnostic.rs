//! Diagnostics: messages with a place and a severity, collected in a
//! store that counts errors and decides when compilation halts.
use crate::registry::{copy_opt, opt_view};
use crate::text::strs;
use std::collections::VecDeque;
use vstd::prelude::*;
use vstd::string::*;

verus! {

/// Where in a source text a diagnostic points: a range of positions.
#[derive(Clone, Copy, Debug, PartialEq, Eq, Structural)]
pub struct Span {
    pub start: usize,
    pub end: usize,
}

impl Default for Span {
    fn default() -> (r: Self)
        ensures
            r.start == 0 && r.end == 0,
    {
        Span { start: 0, end: 0 }
    }
}

/// How serious a diagnostic is.
#[derive(Clone, Copy, Debug, PartialEq, Eq, Structural)]
pub enum Severity {
    Info,
    Warning,
    Error,
    Hint,
}

impl Default for Severity {
    fn default() -> (r: Self)
        ensures
            r == Severity::Info,
    {
        Severity::Info
    }
}

/// The name of a severity.
pub open spec fn severity_name(s: Severity) -> Seq<char> {
    match s {
        Severity::Info => "Info"@,
        Severity::Warning => "Warning"@,
        Severity::Error => "Error"@,
        Severity::Hint => "Hint"@,
    }
}

impl Severity {
    pub fn name(&self) -> (r: &'static str)
        ensures
            r@ == severity_name(*self),
    {
        match self {
            Severity::Info => "Info",
            Severity::Warning => "Warning",
            Severity::Error => "Error",
            Severity::Hint => "Hint",
        }
    }
}

/// A message about a place in the source.
pub struct Diagnostic {
    pub message: String,
    pub code: Option<String>,
    pub span: Span,
    pub severity: Severity,
    pub notes: Vec<String>,
    pub suggestions: Vec<String>,
}

/// A copy of a list of strings.
fn copy_strings(v: &Vec<String>) -> (r: Vec<String>)
    ensures
        strs(r@) == strs(v@),
{
    let mut out: Vec<String> = Vec::new();
    let n = v.len();
    let mut i: usize = 0;
    while i < n
        invariant
            n == v@.len(),
            i <= n,
            strs(out@) == strs(v@).subrange(0, i as int),
        decreases n - i,
    {
        let ghost before = out@;
        out.push(v[i].clone());
        proof {
            assert(strs(out@) =~= strs(before).push(v@[i as int]@));
            assert(strs(v@).subrange(0, i + 1) =~= strs(v@).subrange(0, i as int).push(
                v@[i as int]@,
            ));
        }
        i = i + 1;
    }
    proof {
        assert(strs(v@).subrange(0, n as int) =~= strs(v@));
    }
    out
}

impl Diagnostic {
    /// Whether two diagnostics hold the same values.
    pub open spec fn same_as(&self, o: Diagnostic) -> bool {
        &&& self.message@ == o.message@
        &&& opt_view(self.code) == opt_view(o.code)
        &&& self.span == o.span
        &&& self.severity == o.severity
        &&& strs(self.notes@) == strs(o.notes@)
        &&& strs(self.suggestions@) == strs(o.suggestions@)
    }

    /// A diagnostic with no code, notes or suggestions.
    pub open spec fn is_plain(&self, message: Seq<char>, span: Span, severity: Severity) -> bool {
        &&& self.message@ == message
        &&& self.code is None
        &&& self.span == span
        &&& self.severity == severity
        &&& self.notes@.len() == 0
        &&& self.suggestions@.len() == 0
    }

    pub fn new(message: &str, span: Span, severity: Severity) -> (r: Self)
        ensures
            r.is_plain(message@, span, severity),
    {
        Diagnostic {
            message: String::from_str(message),
            code: None,
            span,
            severity,
            notes: Vec::new(),
            suggestions: Vec::new(),
        }
    }

    pub fn error(message: &str, span: Span) -> (r: Self)
        ensures
            r.is_plain(message@, span, Severity::Error),
    {
        Self::new(message, span, Severity::Error)
    }

    pub fn warning(message: &str, span: Span) -> (r: Self)
        ensures
            r.is_plain(message@, span, Severity::Warning),
    {
        Self::new(message, span, Severity::Warning)
    }

    /// The diagnostic with `note` added after its notes.
    pub fn with_note(self, note: &str) -> (r: Self)
        ensures
            strs(r.notes@) == strs(self.notes@).push(note@),
            r.message == self.message && r.code == self.code && r.span == self.span
                && r.severity == self.severity && r.suggestions == self.suggestions,
    {
        let mut d = self;
        let ghost before = d.notes@;
        d.notes.push(String::from_str(note));
        proof {
            assert(strs(d.notes@) =~= strs(before).push(note@));
        }
        d
    }

    /// The diagnostic with `suggestion` added after its suggestions.
    pub fn with_suggestion(self, suggestion: &str) -> (r: Self)
        ensures
            strs(r.suggestions@) == strs(self.suggestions@).push(suggestion@),
            r.message == self.message && r.code == self.code && r.span == self.span
                && r.severity == self.severity && r.notes == self.notes,
    {
        let mut d = self;
        let ghost before = d.suggestions@;
        d.suggestions.push(String::from_str(suggestion));
        proof {
            assert(strs(d.suggestions@) =~= strs(before).push(suggestion@));
        }
        d
    }

    /// The diagnostic with its code set to `code`.
    pub fn with_code(self, code: &str) -> (r: Self)
        ensures
            opt_view(r.code) == Some(code@),
            r.message == self.message && r.span == self.span && r.severity == self.severity
                && r.notes == self.notes && r.suggestions == self.suggestions,
    {
        let mut d = self;
        d.code = Some(String::from_str(code));
        d
    }

    /// A field-by-field copy.
    pub fn duplicate(&self) -> (r: Self)
        ensures
            r.same_as(*self),
    {
        Diagnostic {
            message: self.message.clone(),
            code: copy_opt(&self.code),
            span: self.span,
            severity: self.severity,
            notes: copy_strings(&self.notes),
            suggestions: copy_strings(&self.suggestions),
        }
    }
}

/// The diagnostics of a compilation, in the order they came, and how many
/// of them are errors.
pub struct DiagnosticStore {
    pub halt_on_error: bool,
    pub error_count: usize,
    pub diagnostics: VecDeque<Diagnostic>,
}

/// What a failed stage of compilation reports.
pub enum CompileError {
    Frontend(String),
    Middle(String),
    Stage { stage: String, source: DiagnosticError },
}

/// The diagnostics that made a stage fail.
pub struct DiagnosticError(pub DiagnosticStore);

/// How many of `d` are errors.
pub open spec fn errors_in(d: Seq<Diagnostic>) -> nat
    decreases d.len(),
{
    if d.len() == 0 {
        0
    } else {
        errors_in(d.drop_last()) + if d.last().severity == Severity::Error {
            1nat
        } else {
            0nat
        }
    }
}

/// A list holds errors exactly when one of its diagnostics is an error.
pub proof fn lemma_errors_in(d: Seq<Diagnostic>)
    ensures
        errors_in(d) > 0 <==> exists|i: int| 0 <= i < d.len() && (#[trigger] d[i]).severity == Severity::Error,
    decreases d.len(),
{
    if d.len() > 0 {
        lemma_errors_in(d.drop_last());
        if errors_in(d.drop_last()) > 0 {
            let i = choose|i: int| 0 <= i < d.drop_last().len() && (#[trigger] d.drop_last()[i]).severity == Severity::Error;
            assert(d[i] == d.drop_last()[i]);
        }
        if exists|i: int| 0 <= i < d.len() && (#[trigger] d[i]).severity == Severity::Error {
            let i = choose|i: int| 0 <= i < d.len() && (#[trigger] d[i]).severity == Severity::Error;
            if i < d.len() - 1 {
                assert(d.drop_last()[i] == d[i]);
            }
        }
    }
}

/// The line that flushing prints for a diagnostic.
pub open spec fn flush_line(d: Diagnostic) -> Seq<char> {
    "["@ + severity_name(d.severity) + "] "@ + d.message@
}

impl DiagnosticStore {
    /// Whether two stores hold the same values.
    pub open spec fn same_as(&self, o: DiagnosticStore) -> bool {
        &&& self.halt_on_error == o.halt_on_error
        &&& self.error_count == o.error_count
        &&& self.diagnostics@.len() == o.diagnostics@.len()
        &&& forall|i: int|
            0 <= i < self.diagnostics@.len() ==> (#[trigger] self.diagnostics@[i]).same_as(
                o.diagnostics@[i],
            )
    }

    pub fn new(halt_on_error: bool) -> (r: Self)
        ensures
            r.halt_on_error == halt_on_error,
            r.error_count == 0,
            r.diagnostics@.len() == 0,
            r.error_count == errors_in(r.diagnostics@),
    {
        DiagnosticStore { halt_on_error, error_count: 0, diagnostics: VecDeque::new() }
    }

    /// A field-by-field copy.
    pub fn duplicate(&self) -> (r: Self)
        ensures
            r.same_as(*self),
    {
        let mut out: VecDeque<Diagnostic> = VecDeque::new();
        let n = self.diagnostics.len();
        let mut i: usize = 0;
        while i < n
            invariant
                n == self.diagnostics@.len(),
                i <= n,
                out@.len() == i,
                forall|k: int| 0 <= k < i ==> (#[trigger] out@[k]).same_as(self.diagnostics@[k]),
            decreases n - i,
        {
            out.push_back(self.diagnostics[i].duplicate());
            i = i + 1;
        }
        DiagnosticStore {
            halt_on_error: self.halt_on_error,
            error_count: self.error_count,
            diagnostics: out,
        }
    }

    /// The error that reports this store's diagnostics as the failure of
    /// `stage`.
    pub fn to_compile_error(&self, stage: &str) -> (r: CompileError)
        ensures
            r matches CompileError::Stage { stage: s, source } && s@ == stage@
                && source.0.same_as(*self),
    {
        CompileError::Stage { stage: String::from_str(stage), source: DiagnosticError(self.duplicate()) }
    }

    /// Records `diag`, counting it when it is an error; tells whether
    /// compilation should halt: it halts on errors and there are some.
    pub fn emit(&mut self, diag: Diagnostic) -> (r: bool)
        requires
            diag.severity == Severity::Error ==> old(self).error_count < usize::MAX,
        ensures
            final(self).diagnostics@ == old(self).diagnostics@.push(diag),
            final(self).error_count == old(self).error_count + if diag.severity
                == Severity::Error {
                1int
            } else {
                0int
            },
            final(self).halt_on_error == old(self).halt_on_error,
            r == (final(self).halt_on_error && final(self).error_count > 0),
            old(self).error_count == errors_in(old(self).diagnostics@) ==> final(self).error_count
                == errors_in(final(self).diagnostics@),
    {
        proof {
            assert(old(self).diagnostics@.push(diag).drop_last() =~= old(self).diagnostics@);
        }
        if diag.severity == Severity::Error {
            self.error_count = self.error_count + 1;
        }
        self.diagnostics.push_back(diag);
        self.halt_on_error && self.has_errors()
    }

    /// Fails with this store's diagnostics as the failure of the
    /// `frontend` stage when there are errors.
    pub fn check_halt(&self) -> (r: Result<(), CompileError>)
        ensures
            self.error_count > 0 ==> (r matches Err(CompileError::Stage { stage: s, source })
                && s@ == "frontend"@ && source.0.same_as(*self)),
            self.error_count == 0 ==> r is Ok,
    {
        if self.has_errors() {
            return Err(self.to_compile_error("frontend"));
        }
        Ok(())
    }

    pub fn has_errors(&self) -> (r: bool)
        ensures
            r == (self.error_count > 0),
            self.error_count == errors_in(self.diagnostics@) ==> (r <==> exists|i: int|
                0 <= i < self.diagnostics@.len() && (#[trigger] self.diagnostics@[i]).severity
                    == Severity::Error),
    {
        proof {
            lemma_errors_in(self.diagnostics@);
        }
        self.error_count > 0
    }

    pub fn is_empty(&self) -> (r: bool)
        ensures
            r == (self.error_count == 0),
    {
        self.error_count == 0
    }

    /// Forgets every diagnostic.
    pub fn clear(&mut self)
        ensures
            final(self).diagnostics@.len() == 0,
            final(self).error_count == 0,
            final(self).halt_on_error == old(self).halt_on_error,
            final(self).error_count == errors_in(final(self).diagnostics@),
    {
        self.diagnostics.clear();
        self.error_count = 0;
    }

    /// The lines that flushing prints, one per diagnostic, in order.
    pub fn flush_lines(&self) -> (r: Vec<String>)
        ensures
            r@.len() == self.diagnostics@.len(),
            forall|i: int|
                0 <= i < r@.len() ==> (#[trigger] r@[i])@ == flush_line(self.diagnostics@[i]),
    {
        let mut out: Vec<String> = Vec::new();
        let n = self.diagnostics.len();
        let mut i: usize = 0;
        while i < n
            invariant
                n == self.diagnostics@.len(),
                i <= n,
                out@.len() == i,
                forall|k: int| 0 <= k < i ==> (#[trigger] out@[k])@ == flush_line(self.diagnostics@[k]),
            decreases n - i,
        {
            let d = &self.diagnostics[i];
            let mut line = String::from_str("[");
            line.append(d.severity.name());
            line.append("] ");
            line.append(d.message.as_str());
            out.push(line);
            i = i + 1;
        }
        out
    }
}

/// A logger that prints each message after `[LOG] `.
pub struct Logger;

/// The line a logger prints for `msg`.
pub open spec fn log_line(msg: Seq<char>) -> Seq<char> {
    "[LOG] "@ + msg
}

impl Logger {
    pub fn test() -> (r: Self) {
        Logger
    }

    /// The line that logging `msg` prints.
    pub fn line(&self, msg: &str) -> (r: String)
        ensures
            r@ == log_line(msg@),
    {
        let mut s = String::from_str("[LOG] ");
        s.append(msg);
        s
    }
}

/// Records the course of a compilation.
pub struct TraceSystem;

impl TraceSystem {
    pub fn new() -> (r: Self) {
        TraceSystem
    }
}

/// Measures the stages of a compilation.
pub struct Profiler;

impl Profiler {
    pub fn new() -> (r: Self) {
        Profiler
    }
}

/// Looks into the state of a compilation.
pub struct Inspector;

/// Carries compiler events to listeners.
pub struct CompilerEventBus;

} // verus!
