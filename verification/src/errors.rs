//! Error taxonomy and validation diagnostics.

use vstd::prelude::*;

verus! {

/// The failure modes of the registry operations.
#[derive(Debug)]
pub enum SoukError {
    /// A plugin or name could not be resolved.
    PluginNotFound(String),
    /// A skill could not be resolved inside a plugin.
    SkillNotFound { plugin: String, skill: String },
    /// No registry manifest was found walking up from a directory.
    MarketplaceNotFound(String),
    /// A registry already exists where one would be created.
    MarketplaceAlreadyExists(String),
    /// A name conflict under the abort policy.
    PluginAlreadyExists(String),
    /// Validation reported this many errors.
    ValidationFailed(usize),
    /// A post-mutation validation failure triggered a guard restore.
    AtomicRollback(String),
    /// No API key for any text-review provider.
    NoApiKey,
    /// A text-review provider call failed.
    LlmApiError(String),
    /// A filesystem-level failure.
    Io(String),
    /// A document failed to parse as JSON.
    Json(String),
    /// A version string failed to parse as a semantic version.
    Semver(String),
    /// Anything else, with a message.
    Other(String),
}

/// Severity of a validation diagnostic.
#[derive(Clone, Copy, PartialEq, Eq, Structural, Debug)]
pub enum Severity {
    Error,
    Warning,
}

/// A single validation finding.
#[derive(Clone, Debug)]
pub struct ValidationDiagnostic {
    pub severity: Severity,
    pub message: String,
    pub path: Option<String>,
    pub field: Option<String>,
}

/// The mathematical value of a diagnostic.
pub struct DiagView {
    pub severity: Severity,
    pub message: Seq<char>,
    pub path: Option<Seq<char>>,
    pub field: Option<Seq<char>>,
}

impl View for ValidationDiagnostic {
    type V = DiagView;

    open spec fn view(&self) -> DiagView {
        DiagView {
            severity: self.severity,
            message: self.message@,
            path: match self.path {
                Some(p) => Some(p@),
                None => None,
            },
            field: match self.field {
                Some(f) => Some(f@),
                None => None,
            },
        }
    }
}

/// An error diagnostic with the given message and nothing else.
pub open spec fn error_diag(message: Seq<char>) -> DiagView {
    DiagView { severity: Severity::Error, message, path: None, field: None }
}

pub open spec fn warning_diag(message: Seq<char>) -> DiagView {
    DiagView { severity: Severity::Warning, message, path: None, field: None }
}

impl ValidationDiagnostic {
    pub fn error(message: &str) -> (r: Self)
        ensures
            r@ == error_diag(message@),
    {
        ValidationDiagnostic {
            severity: Severity::Error,
            message: message.to_owned(),
            path: None,
            field: None,
        }
    }

    pub fn warning(message: &str) -> (r: Self)
        ensures
            r@ == warning_diag(message@),
    {
        ValidationDiagnostic {
            severity: Severity::Warning,
            message: message.to_owned(),
            path: None,
            field: None,
        }
    }

    pub fn with_path(self, path: &str) -> (r: Self)
        ensures
            r@ == (DiagView { path: Some(path@), ..self@ }),
    {
        ValidationDiagnostic { path: Some(path.to_owned()), ..self }
    }

    pub fn with_field(self, field: &str) -> (r: Self)
        ensures
            r@ == (DiagView { field: Some(field@), ..self@ }),
    {
        ValidationDiagnostic { field: Some(field.to_owned()), ..self }
    }

    pub fn is_error(&self) -> (r: bool)
        ensures
            r == (self@.severity == Severity::Error),
    {
        match self.severity {
            Severity::Error => true,
            Severity::Warning => false,
        }
    }
}

/// The number of error-severity diagnostics in `s`.
pub open spec fn count_errors(s: Seq<DiagView>) -> nat
    decreases s.len(),
{
    if s.len() == 0 {
        0
    } else {
        count_errors(s.drop_last()) + if s.last().severity == Severity::Error {
            1nat
        } else {
            0nat
        }
    }
}

/// The number of warning-severity diagnostics in `s`.
pub open spec fn count_warnings(s: Seq<DiagView>) -> nat
    decreases s.len(),
{
    if s.len() == 0 {
        0
    } else {
        count_warnings(s.drop_last()) + if s.last().severity == Severity::Warning {
            1nat
        } else {
            0nat
        }
    }
}

/// Whether `s` holds at least one error-severity diagnostic.
pub open spec fn some_error(s: Seq<DiagView>) -> bool {
    exists|i: int| 0 <= i < s.len() && s[i].severity == Severity::Error
}

pub proof fn lemma_count_errors_iff_some(s: Seq<DiagView>)
    ensures
        (count_errors(s) > 0) == some_error(s),
    decreases s.len(),
{
    if s.len() > 0 {
        lemma_count_errors_iff_some(s.drop_last());
        if s.last().severity == Severity::Error {
            assert(s[s.len() - 1].severity == Severity::Error);
        } else if some_error(s.drop_last()) {
            let i = choose|i: int|
                0 <= i < s.drop_last().len() && s.drop_last()[i].severity == Severity::Error;
            assert(s[i].severity == Severity::Error);
        } else if some_error(s) {
            let i = choose|i: int| 0 <= i < s.len() && s[i].severity == Severity::Error;
            assert(s.drop_last()[i].severity == Severity::Error);
        }
    }
}

/// Pushing a diagnostic adds an error exactly when it is one.
pub proof fn lemma_some_error_push(s: Seq<DiagView>, d: DiagView)
    ensures
        some_error(s.push(d)) == (some_error(s) || d.severity == Severity::Error),
{
    if some_error(s) {
        let i = choose|i: int| 0 <= i < s.len() && s[i].severity == Severity::Error;
        assert(s.push(d)[i].severity == Severity::Error);
    }
    if d.severity == Severity::Error {
        assert(s.push(d)[s.len() as int].severity == Severity::Error);
    }
    if some_error(s.push(d)) {
        let i = choose|i: int| 0 <= i < s.push(d).len() && s.push(d)[i].severity == Severity::Error;
        if i < s.len() {
            assert(s[i].severity == Severity::Error);
        }
    }
}

/// A concatenation holds an error exactly when one of its parts does.
pub proof fn lemma_some_error_concat(a: Seq<DiagView>, b: Seq<DiagView>)
    ensures
        some_error(a + b) == (some_error(a) || some_error(b)),
{
    if some_error(a) {
        let i = choose|i: int| 0 <= i < a.len() && a[i].severity == Severity::Error;
        assert((a + b)[i].severity == Severity::Error);
    }
    if some_error(b) {
        let i = choose|i: int| 0 <= i < b.len() && b[i].severity == Severity::Error;
        assert((a + b)[a.len() + i].severity == Severity::Error);
    }
    if some_error(a + b) {
        let i = choose|i: int| 0 <= i < (a + b).len() && (a + b)[i].severity == Severity::Error;
        if i < a.len() {
            assert(a[i].severity == Severity::Error);
        } else {
            assert(b[i - a.len()].severity == Severity::Error);
        }
    }
}

pub proof fn lemma_counts_concat(a: Seq<DiagView>, b: Seq<DiagView>)
    ensures
        count_errors(a + b) == count_errors(a) + count_errors(b),
        count_warnings(a + b) == count_warnings(a) + count_warnings(b),
    decreases b.len(),
{
    if b.len() == 0 {
        assert(a + b =~= a);
    } else {
        assert((a + b).drop_last() =~= a + b.drop_last());
        lemma_counts_concat(a, b.drop_last());
    }
}

/// The result of validating a plugin or a registry: an ordered list of
/// diagnostics. It is failing exactly when it holds an error-severity entry;
/// warnings never block a mutation.
#[derive(Debug)]
pub struct ValidationResult {
    pub diagnostics: Vec<ValidationDiagnostic>,
}

impl View for ValidationResult {
    type V = Seq<DiagView>;

    open spec fn view(&self) -> Seq<DiagView> {
        Seq::new(self.diagnostics@.len(), |i: int| self.diagnostics@[i]@)
    }
}

impl ValidationResult {
    pub fn new() -> (r: Self)
        ensures
            r@ =~= Seq::<DiagView>::empty(),
    {
        ValidationResult { diagnostics: Vec::new() }
    }

    pub fn push(&mut self, diagnostic: ValidationDiagnostic)
        ensures
            final(self)@ =~= old(self)@.push(diagnostic@),
    {
        self.diagnostics.push(diagnostic);
    }

    pub fn has_errors(&self) -> (r: bool)
        ensures
            r == some_error(self@),
    {
        let n = self.diagnostics.len();
        let mut i: usize = 0;
        while i < n
            invariant
                n == self.diagnostics@.len(),
                i <= n,
                forall|j: int| 0 <= j < i ==> self@[j].severity != Severity::Error,
            decreases n - i,
        {
            if self.diagnostics[i].is_error() {
                assert(self@[i as int].severity == Severity::Error);
                return true;
            }
            i += 1;
        }
        false
    }

    pub fn error_count(&self) -> (r: usize)
        ensures
            r == count_errors(self@),
    {
        let n = self.diagnostics.len();
        let mut i: usize = 0;
        let mut count: usize = 0;
        while i < n
            invariant
                n == self.diagnostics@.len(),
                i <= n,
                count == count_errors(self@.subrange(0, i as int)),
                count <= i,
            decreases n - i,
        {
            proof {
                assert(self@.subrange(0, i as int + 1).drop_last() =~= self@.subrange(
                    0,
                    i as int,
                ));
            }
            if self.diagnostics[i].is_error() {
                count += 1;
            }
            i += 1;
        }
        proof {
            assert(self@.subrange(0, n as int) =~= self@);
        }
        count
    }

    pub fn warning_count(&self) -> (r: usize)
        ensures
            r == count_warnings(self@),
    {
        let n = self.diagnostics.len();
        let mut i: usize = 0;
        let mut count: usize = 0;
        while i < n
            invariant
                n == self.diagnostics@.len(),
                i <= n,
                count == count_warnings(self@.subrange(0, i as int)),
                count <= i,
            decreases n - i,
        {
            proof {
                assert(self@.subrange(0, i as int + 1).drop_last() =~= self@.subrange(
                    0,
                    i as int,
                ));
            }
            let e = match self.diagnostics[i].severity {
                Severity::Warning => true,
                Severity::Error => false,
            };
            if e {
                count += 1;
            }
            i += 1;
        }
        proof {
            assert(self@.subrange(0, n as int) =~= self@);
        }
        count
    }

    /// Appends all of `other`'s diagnostics, in order, after this result's.
    pub fn merge(&mut self, other: ValidationResult)
        ensures
            final(self)@ =~= old(self)@ + other@,
    {
        let mut rest = other;
        while rest.diagnostics.len() > 0
            invariant
                self@ + rest@ =~= old(self)@ + other@,
            decreases rest.diagnostics@.len(),
        {
            let d = rest.diagnostics.remove(0);
            self.diagnostics.push(d);
            proof {
                assert(self@ + rest@ =~= old(self)@ + other@);
            }
        }
        proof {
            assert(self@ =~= self@ + rest@);
        }
    }
}

} // verus!
