//! The diagnostic log: an append-only, ordered list of structured compiler
//! messages. Diagnostics record suspicious-but-legal constructs; they never
//! stop compilation.

use vstd::prelude::*;
use vstd::string::StrSliceExecFns;
use vstd::string::StringExecFns;

use crate::syntax::Range;

verus! {

/// Severity code reserved for the warning about redefining a variable
/// through the `as` construct.
pub const REDEFINED_VARIABLE_SEVERITY: u16 = 441;

/// One structured compiler message, immutable once constructed.
pub struct Diagnostic {
    pub severity: u16,
    pub file: String,
    pub message: String,
    pub range: Range,
    pub position: usize,
}

/// Mathematical image of a `Diagnostic`.
#[verifier::ext_equal]
pub struct DiagnosticV {
    pub severity: u16,
    pub file: Seq<char>,
    pub message: Seq<char>,
    pub range: Range,
    pub position: nat,
}

impl View for Diagnostic {
    type V = DiagnosticV;

    open spec fn view(&self) -> DiagnosticV {
        DiagnosticV {
            severity: self.severity,
            file: self.file@,
            message: self.message@,
            range: self.range,
            position: self.position as nat,
        }
    }
}

/// View of a diagnostic log.
pub open spec fn logs_view(s: Seq<Diagnostic>) -> Seq<DiagnosticV> {
    s.map_values(|d: Diagnostic| d@)
}

/// The text of the warning emitted when `name` is redefined through `as`
/// inside its own sub-pattern.
pub open spec fn rebind_warning_text(name: Seq<char>) -> Seq<char> {
    "Warning: it is usually incorrect to redefine a variable "@ + name + " using as"@
}

/// The whole warning diagnostic for redefining `name` at the construct
/// spanning `range` in `file`.
pub open spec fn rebind_warning_v(name: Seq<char>, file: Seq<char>, range: Range) -> DiagnosticV {
    DiagnosticV {
        severity: REDEFINED_VARIABLE_SEVERITY,
        file: file,
        message: rebind_warning_text(name),
        range: range,
        position: range.start as nat,
    }
}

/// Builds the rebinding warning for `name`, positioned at the start of the
/// offending construct's span.
pub fn rebind_warning(name: &str, file: &str, range: Range) -> (d: Diagnostic)
    ensures
        d@ == rebind_warning_v(name@, file@, range),
{
    let mut message = String::new();
    message.append("Warning: it is usually incorrect to redefine a variable ");
    message.append(name);
    message.append(" using as");
    proof {
        assert(message@ =~= rebind_warning_text(name@));
    }
    Diagnostic {
        severity: REDEFINED_VARIABLE_SEVERITY,
        file: file.to_owned(),
        message: message,
        range: range,
        position: range.start,
    }
}

} // verus!
