//! The committed program input: the text and language variant that the
//! next execution will read. It is replaced only by an explicit commit
//! action, never by passive edits, and each commit is an atomic single-step
//! replacement of the whole record.

use vstd::prelude::*;
use vstd::string::StringExecFns;

verus! {

/// One of the two interpreter dialects a program can be committed under.
#[derive(Clone, Copy, PartialEq, Eq, Structural)]
pub enum LanguageVariant {
    /// The deployment's first dialect.
    Primary,
    /// The deployment's second dialect, the default one.
    Alternate,
}

impl LanguageVariant {
    /// The name under which this variant is persisted.
    pub open spec fn name_spec(self) -> Seq<char> {
        match self {
            LanguageVariant::Primary => "primary"@,
            LanguageVariant::Alternate => "alternate"@,
        }
    }

    /// The name under which this variant is persisted.
    pub fn name(&self) -> (s: String)
        ensures
            s@ == self.name_spec(),
    {
        match self {
            LanguageVariant::Primary => String::from_str("primary"),
            LanguageVariant::Alternate => String::from_str("alternate"),
        }
    }
}

/// The language-specific default program text, used before any commit and
/// whenever persisted state is missing or unreadable.
pub open spec fn default_text(v: LanguageVariant) -> Seq<char> {
    match v {
        LanguageVariant::Primary => "\"Hello, World!\""@,
        LanguageVariant::Alternate => "\"Habari, Dunia!\""@,
    }
}

/// The committed `{ text, language }` snapshot: the source of truth for the
/// next execution, mutated only by an explicit commit.
pub struct ProgramInput {
    /// The committed program text.
    pub text: String,
    /// The committed language variant.
    pub language: LanguageVariant,
}

impl ProgramInput {
    /// The language-specific default input for one deployment variant.
    pub fn default_for(v: LanguageVariant) -> (r: ProgramInput)
        ensures
            r.text@ == default_text(v),
            r.language == v,
    {
        match v {
            LanguageVariant::Primary => ProgramInput {
                text: String::from_str("\"Hello, World!\""),
                language: LanguageVariant::Primary,
            },
            LanguageVariant::Alternate => ProgramInput {
                text: String::from_str("\"Habari, Dunia!\""),
                language: LanguageVariant::Alternate,
            },
        }
    }

    /// Commits new program text, keeping the committed language.
    pub fn set_text(self, text: String) -> (r: ProgramInput)
        ensures
            r.text@ == text@,
            r.language == self.language,
    {
        ProgramInput { text, language: self.language }
    }

    /// Commits a new language variant, keeping the committed text.
    pub fn set_language(self, language: LanguageVariant) -> (r: ProgramInput)
        ensures
            r.text@ == self.text@,
            r.language == language,
    {
        ProgramInput { text: self.text, language }
    }
}

impl Default for ProgramInput {
    /// The default committed input of this deployment: the alternate
    /// dialect's sample program.
    fn default() -> (r: ProgramInput)
        ensures
            r.text@ == default_text(LanguageVariant::Alternate),
            r.language == LanguageVariant::Alternate,
    {
        ProgramInput::default_for(LanguageVariant::Alternate)
    }
}

} // verus!
