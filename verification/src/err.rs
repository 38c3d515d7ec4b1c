//! The three error layers: value-conversion errors, scan errors, compile
//! errors and runtime errors. Each carries its diagnostic text as bytes and
//! can render itself; the host maps runtime/compile errors to exit codes
//! through the code carried by `VmError` (65 for scan/compile, 70 for
//! runtime).

use vstd::prelude::*;
use vstd::string::StringSliceAdditionalSpecFns;
use crate::text::{extend_bytes, extend_str, dec_u64};
use crate::text::spec_dec_nat;

verus! {

/// Failure to read a value as a particular kind (number or boolean).
#[derive(Debug)]
pub struct TryFromValueError {
    pub expected: Vec<u8>,
    pub got: Vec<u8>,
}

/// The text of a `TryFromValueError`.
pub open spec fn spec_try_from_message(expected: Seq<u8>, got: Seq<u8>) -> Seq<u8> {
    "Expected ".spec_bytes() + expected + ", found ".spec_bytes() + got
}

impl TryFromValueError {
    /// Builds the error, already wrapped in `Err` as every caller wants it.
    pub fn new<T>(expected: &str, got: &str) -> (r: Result<T, TryFromValueError>)
        ensures
            r matches Err(e) && e.expected@ == expected.spec_bytes() && e.got@
                == got.spec_bytes(),
    {
        let mut ex: Vec<u8> = Vec::new();
        extend_str(&mut ex, expected);
        let mut go: Vec<u8> = Vec::new();
        extend_str(&mut go, got);
        Err(TryFromValueError { expected: ex, got: go })
    }

    /// Renders the diagnostic text.
    pub fn message(&self) -> (r: Vec<u8>)
        ensures
            r@ == spec_try_from_message(self.expected@, self.got@),
    {
        let mut out: Vec<u8> = Vec::new();
        extend_str(&mut out, "Expected ");
        extend_bytes(&mut out, self.expected.as_slice());
        extend_str(&mut out, ", found ");
        extend_bytes(&mut out, self.got.as_slice());
        out
    }
}

/// An error met while producing tokens: unterminated string or character
/// literal, or an unexpected character. Carries the line it was met on.
#[derive(Debug)]
pub struct ScannerError {
    pub message: Vec<u8>,
    pub line: usize,
}

impl ScannerError {
    /// Builds the error, already wrapped in `Err` as every caller wants it.
    pub fn new<T>(message: Vec<u8>, line: usize) -> (r: Result<T, ScannerError>)
        ensures
            r matches Err(e) && e.message@ == message@ && e.line == line,
    {
        Err(ScannerError { message, line })
    }
}

/// An error recorded while compiling: the diagnostic text, the source line
/// it is anchored at, and whether it wraps a scan error (a scan error aborts
/// the whole compile; a parse error lets compilation resynchronize and
/// continue).
#[derive(Debug)]
pub struct CompilerError {
    message: Vec<u8>,
    line: usize,
    scan: bool,
}

/// The rendered form of a compile error: `[line N] Error <text>`.
pub open spec fn spec_compiler_error_render(message: Seq<u8>, line: nat) -> Seq<u8> {
    "[line ".spec_bytes() + spec_dec_nat(line) + "] Error ".spec_bytes() + message
}

impl CompilerError {
    /// Builds a parse-side compile error.
    pub fn new(message: Vec<u8>, line: usize) -> (r: Self)
        ensures
            r.spec_message() == message@ && r.spec_line() == line && !r.spec_is_scan(),
    {
        CompilerError { message, line, scan: false }
    }

    /// Re-anchors the error at another line.
    pub fn set_line(&mut self, line: usize)
        ensures
            final(self).spec_line() == line,
            final(self).spec_message() == old(self).spec_message(),
            final(self).spec_is_scan() == old(self).spec_is_scan(),
    {
        self.line = line;
    }

    /// Wraps a scan error: its text behind a bare context marker, anchored at
    /// the line the scanner reported.
    pub fn from_scan(e: ScannerError) -> (r: Self)
        ensures
            r.spec_message() == ":".spec_bytes() + e.message@,
            r.spec_line() == e.line,
            r.spec_is_scan(),
    {
        let mut out: Vec<u8> = Vec::new();
        extend_str(&mut out, ":");
        extend_bytes(&mut out, e.message.as_slice());
        CompilerError { message: out, line: e.line, scan: true }
    }

    /// The diagnostic text.
    pub fn message(&self) -> (r: &Vec<u8>)
        ensures
            r@ == self.spec_message(),
    {
        &self.message
    }

    /// The source line the error is anchored at.
    pub fn line(&self) -> (r: usize)
        ensures
            r == self.spec_line(),
    {
        self.line
    }

    /// Whether this wraps a scan error.
    pub fn is_scan(&self) -> (r: bool)
        ensures
            r == self.spec_is_scan(),
    {
        self.scan
    }

    /// Spec-level projection of the diagnostic text.
    pub closed spec fn spec_message(&self) -> Seq<u8> {
        self.message@
    }

    /// Spec-level projection of the line.
    pub closed spec fn spec_line(&self) -> nat {
        self.line as nat
    }

    /// Spec-level projection of the scan flag.
    pub closed spec fn spec_is_scan(&self) -> bool {
        self.scan
    }

    /// Renders the diagnostic line `[line N] Error <text>`.
    pub fn render(&self) -> (r: Vec<u8>)
        ensures
            r@ == spec_compiler_error_render(self.spec_message(), self.spec_line()),
    {
        let mut out: Vec<u8> = Vec::new();
        extend_str(&mut out, "[line ");
        let digits = dec_u64(self.line as u64);
        extend_bytes(&mut out, digits.as_slice());
        extend_str(&mut out, "] Error ");
        extend_bytes(&mut out, self.message.as_slice());
        out
    }
}

/// The rendered forms of a list of compile errors, joined by newlines: what
/// a failed interpretation reports.
pub open spec fn spec_join_error_renders(errs: Seq<CompilerError>) -> Seq<u8>
    decreases errs.len(),
{
    if errs.len() == 0 {
        Seq::empty()
    } else if errs.len() == 1 {
        spec_compiler_error_render(errs[0].spec_message(), errs[0].spec_line())
    } else {
        spec_join_error_renders(errs.drop_last()) + "\n".spec_bytes()
            + spec_compiler_error_render(errs.last().spec_message(), errs.last().spec_line())
    }
}

/// A top-level interpretation error: diagnostic text plus the exit code the
/// host should use (65 for scan/compile errors, 70 for runtime errors).
pub struct VmError {
    pub message: Vec<u8>,
    pub code: i32,
}

impl VmError {
    /// Builds a runtime error (code 70), already wrapped in `Err`.
    pub fn new<T>(message: Vec<u8>) -> (r: Result<T, VmError>)
        ensures
            r matches Err(e) && e.message@ == message@ && e.code == 70,
    {
        Err(VmError { message, code: 70 })
    }

    /// Wraps a value-conversion failure as a runtime error.
    pub fn from_try(e: TryFromValueError) -> (r: Self)
        ensures
            r.message@ == spec_try_from_message(e.expected@, e.got@),
            r.code == 70,
    {
        VmError { message: e.message(), code: 70 }
    }
}

} // verus!
