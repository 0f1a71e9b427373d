//! Parse errors and structured warnings.

use crate::number;
use crate::number::decimal_string;
use crate::text;
use crate::text::debug_text;
use vstd::prelude::*;

verus! {

/// A hard error that prevents a unit file from being loaded.
#[derive(Debug)]
#[allow(inconsistent_fields)]
pub enum ParseError {
    /// The file could not be read.
    Io {
        /// The path that failed to read.
        path: String,
        /// The underlying I/O error, in words.
        message: String,
    },
    /// The unit name cannot be parsed (bad suffix, empty stem, illegal char).
    InvalidUnitName {
        /// The offending name.
        name: String,
        /// Why it is invalid.
        reason: &'static str,
    },
    /// A directive value failed to parse.
    BadDirective {
        /// File this came from.
        path: String,
        /// Line number.
        line: u32,
        /// Section name (e.g. "Service").
        section: String,
        /// Directive key.
        key: String,
        /// Raw value.
        value: String,
        /// Human-readable reason.
        reason: String,
    },
    /// Syntactic error in the INI structure (unterminated section, etc).
    Syntax {
        /// File.
        path: String,
        /// Line.
        line: u32,
        /// Message.
        message: String,
    },
    /// A required directive was missing.
    Missing {
        /// File.
        path: String,
        /// Section.
        section: &'static str,
        /// Key.
        key: &'static str,
        /// Unit kind name, e.g. "service".
        kind: &'static str,
    },
}

/// A [`ParseError`] by its characters.
pub enum ParseErrorView {
    Io { path: Seq<char>, message: Seq<char> },
    InvalidUnitName { name: Seq<char>, reason: Seq<char> },
    BadDirective {
        path: Seq<char>,
        line: u32,
        section: Seq<char>,
        key: Seq<char>,
        value: Seq<char>,
        reason: Seq<char>,
    },
    Syntax { path: Seq<char>, line: u32, message: Seq<char> },
    Missing { path: Seq<char>, section: Seq<char>, key: Seq<char>, kind: Seq<char> },
}

impl View for ParseError {
    type V = ParseErrorView;

    open spec fn view(&self) -> ParseErrorView {
        match *self {
            ParseError::Io { path, message } => ParseErrorView::Io {
                path: path@,
                message: message@,
            },
            ParseError::InvalidUnitName { name, reason } => ParseErrorView::InvalidUnitName {
                name: name@,
                reason: reason@,
            },
            ParseError::BadDirective { path, line, section, key, value, reason } =>
            ParseErrorView::BadDirective {
                path: path@,
                line,
                section: section@,
                key: key@,
                value: value@,
                reason: reason@,
            },
            ParseError::Syntax { path, line, message } => ParseErrorView::Syntax {
                path: path@,
                line,
                message: message@,
            },
            ParseError::Missing { path, section, key, kind } => ParseErrorView::Missing {
                path: path@,
                section: section@,
                key: key@,
                kind: kind@,
            },
        }
    }
}

/// A parse error in words.
pub open spec fn error_text(e: ParseErrorView) -> Seq<char> {
    match e {
        ParseErrorView::Io { path, message } => "cannot read "@ + path + ": "@ + message,
        ParseErrorView::InvalidUnitName { name, reason } => "invalid unit name "@
            + text::debug_form(name) + ": "@ + reason,
        ParseErrorView::BadDirective { path, line, section, key, value, reason } => path + ":"@
            + number::decimal(line as nat) + ": "@ + section + ": "@ + key + "="@
            + text::debug_form(value) + ": "@ + reason,
        ParseErrorView::Syntax { path, line, message } => path + ":"@ + number::decimal(line as nat)
            + ": "@ + message,
        ParseErrorView::Missing { path, section, key, kind } => path + ": ["@ + section + "] "@
            + key + " is required for "@ + kind + " units"@,
    }
}

impl ParseError {
    /// The error in words.
    pub fn message(&self) -> (r: String)
        ensures
            r@ == error_text(self@),
    {
        match self {
            ParseError::Io { path, message } => {
                let mut m = "cannot read ".to_owned();
                m.append(path.as_str());
                m.append(": ");
                m.append(message.as_str());
                m
            },
            ParseError::InvalidUnitName { name, reason } => {
                let mut m = "invalid unit name ".to_owned();
                m.append(debug_text(name.as_str()).as_str());
                m.append(": ");
                m.append(reason);
                m
            },
            ParseError::BadDirective { path, line, section, key, value, reason } => {
                let mut m = path.clone();
                m.append(":");
                m.append(decimal_string(*line as u64).as_str());
                m.append(": ");
                m.append(section.as_str());
                m.append(": ");
                m.append(key.as_str());
                m.append("=");
                m.append(debug_text(value.as_str()).as_str());
                m.append(": ");
                m.append(reason.as_str());
                m
            },
            ParseError::Syntax { path, line, message } => {
                let mut m = path.clone();
                m.append(":");
                m.append(decimal_string(*line as u64).as_str());
                m.append(": ");
                m.append(message.as_str());
                m
            },
            ParseError::Missing { path, section, key, kind } => {
                let mut m = path.clone();
                m.append(": [");
                m.append(section);
                m.append("] ");
                m.append(key);
                m.append(" is required for ");
                m.append(kind);
                m.append(" units");
                m
            },
        }
    }
}

/// A non-fatal warning emitted during parsing.
///
/// Examples: a Linux-kernel-only directive (`PrivateNetwork=`), an unknown
/// directive name, a deprecated form. The unit still loads.
#[derive(Debug, Clone, PartialEq, Eq)]
pub struct ParseWarning {
    /// File this came from, or `None` if parsed from a string.
    pub path: Option<String>,
    /// Line number, 1-indexed.
    pub line: u32,
    /// Category for filtering / metrics.
    pub kind: WarningKind,
    /// Human-readable message.
    pub message: String,
}

/// Categorisation for parse warnings.
#[derive(Debug, Clone, Copy, PartialEq, Eq, Structural)]
pub enum WarningKind {
    /// Directive is parsed but ignored — Linux-kernel-only feature.
    LinuxOnly,
    /// Directive is unknown to SystemL.
    Unknown,
    /// Directive is deprecated.
    Deprecated,
    /// Value parsed but is malformed in a recoverable way (e.g. extra tokens
    /// after a duration).
    Recoverable,
}

/// A [`ParseWarning`] by its characters.
pub struct ParseWarningView {
    pub path: Option<Seq<char>>,
    pub line: u32,
    pub kind: WarningKind,
    pub message: Seq<char>,
}

impl View for ParseWarning {
    type V = ParseWarningView;

    open spec fn view(&self) -> ParseWarningView {
        ParseWarningView {
            path: text::opt_text(self.path),
            line: self.line,
            kind: self.kind,
            message: self.message@,
        }
    }
}

/// The warning for a Linux-only directive.
pub open spec fn linux_only_warning(
    path: Option<Seq<char>>,
    line: u32,
    section: Seq<char>,
    key: Seq<char>,
) -> ParseWarningView {
    ParseWarningView {
        path,
        line,
        kind: WarningKind::LinuxOnly,
        message: "["@ + section + "] "@ + key
            + "= is a Linux-kernel-only directive; parsed but not enforced on macOS"@,
    }
}

/// The warning for an unknown directive.
pub open spec fn unknown_warning(
    path: Option<Seq<char>>,
    line: u32,
    section: Seq<char>,
    key: Seq<char>,
) -> ParseWarningView {
    ParseWarningView {
        path,
        line,
        kind: WarningKind::Unknown,
        message: "["@ + section + "] unknown directive "@ + key + "="@,
    }
}

impl ParseWarning {
    /// Construct a Linux-only warning.
    pub fn linux_only(path: Option<String>, line: u32, section: &str, key: &str) -> (r: Self)
        ensures
            r@ == linux_only_warning(text::opt_text(path), line, section@, key@),
    {
        let mut message = "[".to_owned();
        message.append(section);
        message.append("] ");
        message.append(key);
        message.append("= is a Linux-kernel-only directive; parsed but not enforced on macOS");
        ParseWarning { path, line, kind: WarningKind::LinuxOnly, message }
    }

    /// Construct an unknown-directive warning.
    pub fn unknown(path: Option<String>, line: u32, section: &str, key: &str) -> (r: Self)
        ensures
            r@ == unknown_warning(text::opt_text(path), line, section@, key@),
    {
        let mut message = "[".to_owned();
        message.append(section);
        message.append("] unknown directive ");
        message.append(key);
        message.append("=");
        ParseWarning { path, line, kind: WarningKind::Unknown, message }
    }
}

} // verus!
