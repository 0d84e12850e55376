use vstd::prelude::*;
use crate::token::{Token, TokenType};
use crate::machine::decimal;
use crate::interpreter::decimal_string;

verus! {

/// The phase of the interpreter that rejected a program.
#[derive(Debug, Clone, Copy, PartialEq, Eq, Structural)]
pub enum Error {
    Scanner,
    Parser,
    Runtime,
}

impl Error {
    /// The process exit status for this error: 65 for a program that does not
    /// scan or parse, 70 for one that fails while running.
    pub open spec fn spec_exit_code(self) -> i32 {
        match self {
            Error::Scanner | Error::Parser => 65,
            Error::Runtime => 70,
        }
    }

    pub fn exit_code(self) -> (code: i32)
        ensures
            code == self.spec_exit_code(),
    {
        match self {
            Error::Scanner | Error::Parser => 65,
            Error::Runtime => 70,
        }
    }
}

/// The part of the interpreter that reports a diagnostic; it is printed
/// before the word "Error".
#[derive(Debug, Clone, Copy, PartialEq, Eq, Structural)]
pub enum Phase {
    Scanner,
    Syntax,
    Runtime,
}

/// Where on its line a diagnostic points.
pub enum Location {
    /// Only the line is given.
    Line,
    /// At the end of the input.
    AtEnd,
    /// At the token with this text.
    AtLexeme(String),
}

pub enum LocationModel {
    Line,
    AtEnd,
    AtLexeme(Seq<char>),
}

impl View for Location {
    type V = LocationModel;

    open spec fn view(&self) -> LocationModel {
        match self {
            Location::Line => LocationModel::Line,
            Location::AtEnd => LocationModel::AtEnd,
            Location::AtLexeme(s) => LocationModel::AtLexeme(s@),
        }
    }
}

/// A message for the user: `[line N] <phase> Error<location>: <message>`.
pub struct Diagnostic {
    pub line: usize,
    pub phase: Phase,
    pub location: Location,
    pub message: String,
}

pub struct DiagnosticModel {
    pub line: nat,
    pub phase: Phase,
    pub location: LocationModel,
    pub message: Seq<char>,
}

impl View for Diagnostic {
    type V = DiagnosticModel;

    open spec fn view(&self) -> DiagnosticModel {
        DiagnosticModel {
            line: self.line as nat,
            phase: self.phase,
            location: self.location@,
            message: self.message@,
        }
    }
}

/// The views of a list of diagnostics.
pub open spec fn diagnostics_view(ds: Seq<Diagnostic>) -> Seq<DiagnosticModel> {
    ds.map_values(|d: Diagnostic| d@)
}

/// A diagnostic that names only a line.
pub fn error(line: usize, phase: Phase, message: &str) -> (d: Diagnostic)
    ensures
        d@ == (DiagnosticModel {
            line: line as nat,
            phase,
            location: LocationModel::Line,
            message: message@,
        }),
{
    Diagnostic { line, phase, location: Location::Line, message: String::from_str(message) }
}

/// A diagnostic that points at a token: at the end of the input for the end
/// marker, else at the token's text.
pub fn error_at_token(token: &Token, phase: Phase, message: &str) -> (d: Diagnostic)
    ensures
        d@ == (DiagnosticModel {
            line: token.line as nat,
            phase,
            location: if token.token_type == TokenType::EOF {
                LocationModel::AtEnd
            } else {
                LocationModel::AtLexeme(token@.text())
            },
            message: message@,
        }),
{
    let location = if token.token_type == TokenType::EOF {
        Location::AtEnd
    } else {
        Location::AtLexeme(String::from_str(token.lexeme()))
    };
    Diagnostic { line: token.line, phase, location, message: String::from_str(message) }
}

pub open spec fn phase_text(p: Phase) -> Seq<char> {
    match p {
        Phase::Scanner => "Scanner"@,
        Phase::Syntax => "Syntax"@,
        Phase::Runtime => "Runtime"@,
    }
}

pub open spec fn location_text(l: LocationModel) -> Seq<char> {
    match l {
        LocationModel::Line => ""@,
        LocationModel::AtEnd => " at end"@,
        LocationModel::AtLexeme(s) => " at '"@ + s + "'"@,
    }
}

/// The printed form of a diagnostic, as `[line 3] Syntax Error at ';': Expected expression.`.
pub open spec fn spec_render(d: DiagnosticModel) -> Seq<char> {
    "[line "@ + decimal(d.line) + "] "@ + phase_text(d.phase) + " Error"@ + location_text(d.location) + ": "@
        + d.message
}

impl Diagnostic {
    /// The line that reports this diagnostic.
    pub fn render(&self) -> (s: String)
        ensures
            s@ == spec_render(self@),
    {
        let phase = match self.phase {
            Phase::Scanner => "Scanner",
            Phase::Syntax => "Syntax",
            Phase::Runtime => "Runtime",
        };
        let s = String::from_str("[line ");
        let s = s.concat(decimal_string(self.line).as_str());
        let s = s.concat("] ");
        let s = s.concat(phase);
        let s = s.concat(" Error");
        let s = match &self.location {
            Location::Line => s,
            Location::AtEnd => s.concat(" at end"),
            Location::AtLexeme(lexeme) => s.concat(" at '").concat(lexeme.as_str()).concat("'"),
        };
        proof {
            reveal_strlit("");
            assert(s@ =~= "[line "@ + decimal(self.line as nat) + "] "@ + phase_text(self.phase) + " Error"@
                + location_text(self.location@));
        }
        let s = s.concat(": ");
        s.concat(self.message.as_str())
    }
}

} // verus!
