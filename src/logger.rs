use vstd::prelude::*;

verus! {

/// What went wrong in the source text.
#[derive(Clone, Copy, Debug, PartialEq, Eq, Structural)]
pub enum ErrorKind {
    /// A character that begins no token; it is skipped.
    UnexpectedCharacter(char),
    /// A character literal with more than one character; only the first is kept.
    CharacterOverflow,
    /// A character literal with no character; no token is made.
    EmptyCharacter,
}

impl ErrorKind {
    /// A short heading for the error.
    pub fn title(&self) -> (r: &'static str)
        ensures
            r@ == match self {
                ErrorKind::UnexpectedCharacter(_) => "Unexpected character"@,
                ErrorKind::CharacterOverflow => "Character overflow"@,
                ErrorKind::EmptyCharacter => "Empty character"@,
            },
    {
        match self {
            ErrorKind::UnexpectedCharacter(_) => "Unexpected character",
            ErrorKind::CharacterOverflow => "Character overflow",
            ErrorKind::EmptyCharacter => "Empty character",
        }
    }
}

/// One reported error: its kind, the zero-based offset of the character at
/// fault and the one-based line it stands on.
#[derive(Clone, Copy, Debug, PartialEq, Eq, Structural)]
pub struct Diagnostic {
    pub kind: ErrorKind,
    pub offset: usize,
    pub line: usize,
}

/// Collects the errors of a scan. `errored` turns true with the first report
/// and stays true.
#[derive(Clone, Debug)]
pub struct Logger {
    pub errored: bool,
    pub reports: Vec<Diagnostic>,
}

impl Logger {
    pub fn new() -> (r: Self)
        ensures
            !r.errored,
            r.reports@.len() == 0,
    {
        Logger { errored: false, reports: Vec::new() }
    }

    /// Records an error and raises the flag.
    pub fn report_error(&mut self, kind: ErrorKind, pos: usize, line: usize)
        ensures
            final(self).errored,
            final(self).reports@ == old(self).reports@.push(Diagnostic { kind, offset: pos, line }),
    {
        self.reports.push(Diagnostic { kind, offset: pos, line });
        self.errored = true;
    }
}

} // verus!
